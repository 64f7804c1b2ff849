//! What holds of patching an installation, whatever state it is in.

use vstd::prelude::*;
use hlbc::types::Reg;
use crate::apply::{apply_plan, unknown, ApplyPlan, ApplyingView};
use crate::grants::{in_order, of_kind, GrantKind, GrantView};
use crate::laws::law_patches;
use crate::module::ModuleView;
use crate::patch_laws::law_all_grants_are_in_the_code;
use crate::resources::{configs, grants_of};
use crate::sites::Method;
use crate::status::StateView;

verus! {

/// The programs in the two files of an installation: `hlboot.dat`, and the copy of it, if there is
/// one. A file may hold no program.
pub struct Installation {
    pub live: Option<ModuleView>,
    pub backup: Option<Option<ModuleView>>,
}

/// Where the tool finds its files.
pub struct Directories {
    pub unlock_dir: Seq<char>,
    pub flag: Seq<char>,
    pub pending_dir: Seq<char>,
}

/// The state of what a file holds.
pub open spec fn state_of(program: Option<ModuleView>) -> Option<StateView> {
    match program {
        Some(code) => Some(code.state()),
        None => None,
    }
}

impl Installation {
    /// What is to be done with the installation.
    pub open spec fn plan(self) -> ApplyPlan {
        apply_plan(state_of(self.live), self.backup is Some)
    }

    /// The copy once it has been made, where one is to be made.
    pub open spec fn kept(self) -> Option<Option<ModuleView>> {
        if self.plan().write_backup {
            Some(self.live)
        } else {
            self.backup
        }
    }

    /// The program that is to be patched, if there is one.
    pub open spec fn source(self) -> Option<ModuleView> {
        if self.plan().refuse {
            None
        } else if self.plan().patch_live {
            self.live
        } else {
            self.kept()->0
        }
    }

    /// The installation after the tool has been run on it, and whether all patches succeeded.
    /// `args` is the empty list of arguments of a call that one of them adds.
    pub open spec fn applied(self, dirs: Directories, args: Vec<Reg>) -> (Installation, bool) {
        match self.source() {
            None => (Installation { live: self.live, backup: self.kept() }, false),
            Some(code) => match code.patch_all(
                dirs.unlock_dir,
                dirs.flag,
                dirs.pending_dir,
                args,
            ) {
                (_, Err(_)) => (Installation { live: self.live, backup: self.kept() }, false),
                (after, Ok(())) => (
                    Installation { live: Some(after), backup: self.kept() },
                    true,
                ),
            },
        }
    }

    /// The installation after the tool has been run on it several times.
    pub open spec fn applied_often(self, runs: Seq<(Directories, Vec<Reg>)>) -> Installation
        decreases runs.len(),
    {
        if runs.len() == 0 {
            self
        } else {
            let (dirs, args) = runs.last();
            self.applied_often(runs.drop_last()).applied(dirs, args).0
        }
    }

    /// The installation after the copy has been put back in the place of `hlboot.dat`, where there
    /// is a copy.
    pub open spec fn restored(self) -> Installation {
        match self.backup {
            Some(program) => Installation { live: program, backup: self.backup },
            None => self,
        }
    }

    /// The programs of the installation are in order.
    pub open spec fn valid(self) -> bool {
        &&& self.live matches Some(code) ==> code.valid()
        &&& self.backup matches Some(Some(code)) ==> code.valid()
    }
}

/// A program of a release that the patches were not made for is left alone where there is a copy:
/// nothing is kept, and nothing is installed, whatever is in the copy.
pub proof fn law_unknown_release_is_refused(
    disk: Installation,
    dirs: Directories,
    args: Vec<Reg>,
)
    requires
        state_of(disk.live) matches Some(state) && unknown(state),
        disk.backup is Some,
    ensures
        disk.applied(dirs, args) == (disk, false),
        ({
            let first = ApplyingView::first(disk.live, disk.backup is Some);
            &&& first == ApplyingView::Refused(state_of(disk.live)->0)
            &&& first.kept() == first
            &&& forall|copy: ModuleView| #[trigger] first.copy_read(copy) == first
            &&& first.installed() == first
        }),
{
}

/// Where there is no copy, a program of such a release is kept, and the patches refuse it.
pub proof fn law_unknown_release_is_kept(disk: Installation, dirs: Directories, args: Vec<Reg>)
    requires
        state_of(disk.live) matches Some(state) && unknown(state),
        disk.backup is None,
        disk.valid(),
    ensures
        disk.applied(dirs, args) == (
            Installation { live: disk.live, backup: Some(disk.live) },
            false,
        ),
{
    law_patches(disk.live->0, dirs.unlock_dir, dirs.flag, dirs.pending_dir, args);
}

/// What becomes of the copy, whether the tool succeeds or fails: where there is none, or where the
/// program is as the game came with it, the program is kept; otherwise the copy stays as it is.
pub proof fn law_copy_after_a_run(disk: Installation, dirs: Directories, args: Vec<Reg>)
    ensures
        disk.applied(dirs, args).0.backup == if disk.backup is None || state_of(disk.live) == Some(
            StateView::Vanilla,
        ) {
            Some(disk.live)
        } else {
            disk.backup
        },
{
}

/// The program that is patched is always the one in the copy, once the copy has been made.
pub proof fn law_copy_is_what_was_patched(disk: Installation)
    requires
        !disk.plan().refuse,
    ensures
        disk.kept() == Some(disk.source()),
{
}

/// Step by step, the tool does what is to be done with the installation: it writes the copy first,
/// where one is to be made, and the program that it then patches is the right one.
pub proof fn law_steps_follow_the_plan(disk: Installation)
    requires
        !disk.plan().refuse,
    ensures
        ({
            let first = ApplyingView::first(disk.live, disk.backup is Some);
            let then = first.kept();
            &&& first is Keep <==> disk.plan().write_backup
            &&& disk.plan().patch_live ==> then == ApplyingView::PatchMap(disk.source()->0)
            &&& !disk.plan().patch_live ==> then is ReadCopy
            &&& disk.kept() matches Some(Some(code)) ==> then.copy_read(code)
                == ApplyingView::PatchMap(disk.source()->0)
        }),
{
}

/// Patching the map, and then adding the grants, is what all patches do.
pub proof fn law_steps_make_all_patches(code: ModuleView, dirs: Directories, args: Vec<Reg>)
    ensures
        code.patch_all(dirs.unlock_dir, dirs.flag, dirs.pending_dir, args) == match code.patch_map(
            dirs.unlock_dir,
            dirs.flag,
            args,
        ) {
            (m, Err(failure)) => (m, Err(failure)),
            (m, Ok(())) => m.patch_grants(grants_of(configs(), dirs.pending_dir)),
        },
{
    reveal(ModuleView::patch_all);
}

/// Running the tool again changes nothing: where it has succeeded, a second run succeeds too, and
/// leaves both files as they are.
pub proof fn law_applying_twice_is_applying_once(
    disk: Installation,
    dirs: Directories,
    args: Vec<Reg>,
)
    requires
        disk.valid(),
        disk.applied(dirs, args).1,
    ensures
        disk.applied(dirs, args).0.applied(dirs, args) == (disk.applied(dirs, args).0, true),
{
    let code = disk.source()->0;
    law_patches(code, dirs.unlock_dir, dirs.flag, dirs.pending_dir, args);
    let (after, _) = disk.applied(dirs, args);
    assert(after.live->0.state() == StateView::Patched);
    assert(!after.plan().write_backup && !after.plan().patch_live);
    assert(after.kept() == disk.kept());
    assert(after.source() == disk.source());
}

/// Where the tool succeeds, `hlboot.dat` is patched, and the copy is the game's own program, from
/// which the game's own `hlboot.dat` can be restored.
pub proof fn law_own_program_can_be_restored(
    disk: Installation,
    dirs: Directories,
    args: Vec<Reg>,
)
    requires
        disk.valid(),
        disk.applied(dirs, args).1,
    ensures
        ({
            let (after, _) = disk.applied(dirs, args);
            &&& state_of(after.live) == Some(StateView::Patched)
            &&& state_of(after.backup->0) == Some(StateView::Vanilla)
        }),
{
    let code = disk.source()->0;
    law_patches(code, dirs.unlock_dir, dirs.flag, dirs.pending_dir, args);
}

/// What the tool leaves, however often it is run on the game's own program: the copy is that
/// program, and `hlboot.dat` holds it or a patched one.
proof fn lemma_applied_often(disk: Installation, runs: Seq<(Directories, Vec<Reg>)>)
    requires
        disk.live matches Some(code) && code.valid(),
        state_of(disk.live) == Some(StateView::Vanilla),
        runs.len() > 0,
    ensures
        ({
            let after = disk.applied_often(runs);
            &&& after.backup == Some(disk.live)
            &&& after.live == disk.live || state_of(after.live) == Some(StateView::Patched)
        }),
    decreases runs.len(),
{
    let (dirs, args) = runs.last();
    let before = disk.applied_often(runs.drop_last());
    if runs.len() > 1 {
        lemma_applied_often(disk, runs.drop_last());
    }
    law_patches(disk.live->0, dirs.unlock_dir, dirs.flag, dirs.pending_dir, args);
    assert(before.source() == disk.live);
    assert(before.kept() == Some(disk.live));
}

/// Restoring undoes the tool, however often it was run, and whether or not it succeeded: the game's
/// own program is back in `hlboot.dat`, even if there was an older copy at first.
pub proof fn law_restoring_undoes_any_number_of_runs(
    disk: Installation,
    runs: Seq<(Directories, Vec<Reg>)>,
)
    requires
        disk.live matches Some(code) && code.valid(),
        state_of(disk.live) == Some(StateView::Vanilla),
        runs.len() > 0,
    ensures
        disk.applied_often(runs).backup == Some(disk.live),
        disk.applied_often(runs).restored().live == disk.live,
{
    lemma_applied_often(disk, runs);
}

/// Where the tool fails, `hlboot.dat` stays as it is.
pub proof fn law_failure_leaves_the_game_alone(
    disk: Installation,
    dirs: Directories,
    args: Vec<Reg>,
)
    requires
        !disk.applied(dirs, args).1,
    ensures
        disk.applied(dirs, args).0.live == disk.live,
{
}

/// A copy that is there is only ever replaced by a program as the game came with it.
pub proof fn law_copy_is_replaced_by_the_games_own_program_only(
    disk: Installation,
    dirs: Directories,
    args: Vec<Reg>,
)
    requires
        disk.backup is Some,
        disk.applied(dirs, args).0.backup != disk.backup,
    ensures
        disk.applied(dirs, args).0.backup == Some(disk.live),
        state_of(disk.live) == Some(StateView::Vanilla),
{
}

/// After a new release of the game, the tool patches the program of that release, and keeps it,
/// even if there is a copy of an older one.
pub proof fn law_new_release_is_patched(disk: Installation, dirs: Directories, args: Vec<Reg>)
    requires
        state_of(disk.live) == Some(StateView::Vanilla),
    ensures
        disk.source() == disk.live,
        disk.applied(dirs, args).0.backup == Some(disk.live),
{
}

/// An older copy makes no difference to the game's own program: the outcome and both files are the
/// same with any copy, and with none.
pub proof fn law_older_copy_makes_no_difference(
    disk: Installation,
    other: Installation,
    dirs: Directories,
    args: Vec<Reg>,
)
    requires
        state_of(disk.live) == Some(StateView::Vanilla),
        other.live == disk.live,
    ensures
        disk.applied(dirs, args) == other.applied(dirs, args),
{
}

/// Where the map has been patched, the code of the map looks for its markers in the directory that was
/// made for them, and for the file of the non-linear mode where that file is said to be: the two paths
/// come behind the texts that the program had.
pub proof fn law_map_goes_by_its_directory(
    code: ModuleView,
    unlock_dir: Seq<char>,
    flag: Seq<char>,
    args: Vec<Reg>,
)
    requires
        ApplyingView::PatchMap(code).mapped(unlock_dir, flag, args) is Ok,
    ensures
        ApplyingView::PatchMap(code).mapped(unlock_dir, flag, args) matches Ok(
            ApplyingView::AddGrants(after),
        ) && after.strings == code.strings.push(unlock_dir + "\\"@).push(flag),
{
    reveal(ModuleView::patch_map);
    let gate = code.method(Method::GetBattleState)->Ok_0;
    let (m1, unlocked) = code.patch_gate(gate, unlock_dir + "\\"@, flag);
    let m2 = m1.patch_refresh(gate).0;
    let m3 = m2.patch_reveal(gate, unlocked->Ok_0).0;
    let m4 = m3.patch_path().0;
    assert(m1.strings == code.strings.push(unlock_dir + "\\"@).push(flag));
    assert(m2.strings == m1.strings);
    assert(m3.strings == m2.strings);
    assert(m4.strings == m3.strings);
}

/// Where the grants have been added, their code looks for the marker of every grant in the directory
/// that was made for them: the paths of the markers are among the texts of the program.
pub proof fn law_grants_go_by_their_directory(code: ModuleView, pending_dir: Seq<char>, k: int)
    requires
        ApplyingView::AddGrants(code).granted(pending_dir) matches Some(patched) && patched.1 is Ok,
        0 <= k < grants_of(configs(), pending_dir).len(),
    ensures
        ({
            let after = (ApplyingView::AddGrants(code).granted(pending_dir)->0).0;
            let grant = grants_of(configs(), pending_dir)[k];
            &&& after.strings.contains(grant.marker_path)
            &&& pending_dir.is_prefix_of(grant.marker_path)
            &&& forall|j: int|
                0 <= j < grant.resource_ids.len() ==> after.strings.contains(
                    #[trigger] grant.resource_ids[j],
                )
        }),
{
    let grants = grants_of(configs(), pending_dir);
    let grant = grants[k];
    let all = in_order(grants);
    let site = code.grant_site()->Ok_0;
    let before = code.add_sentinels(of_kind(grants, GrantKind::Useful), site.bool_ty).0;
    law_all_grants_are_in_the_code(grants);
    lemma_kept_in_order(grants, k);
    let i = choose|i: int| 0 <= i < all.len() && all[i] == grant;
    lemma_texts_of_grant(before, all, i);
    assert(pending_dir.is_prefix_of(grant.marker_path)) by {
        assert(grant.marker_path.take(pending_dir.len() as int) =~= pending_dir);
    }
}

/// A grant is among those that are in order.
proof fn lemma_kept_in_order(grants: Seq<GrantView>, k: int)
    requires
        0 <= k < grants.len(),
    ensures
        exists|i: int| 0 <= i < in_order(grants).len() && in_order(grants)[i] == grants[k],
{
    broadcast use vstd::seq_lib::group_to_multiset_ensures;

    law_all_grants_are_in_the_code(grants);
    let all = in_order(grants);
    assert(grants.contains(grants[k]));
    assert(grants.to_multiset().count(grants[k]) > 0);
    assert(all.to_multiset().count(grants[k]) > 0);
    assert(all.contains(grants[k]));
}

/// The texts of a grant are among those of the program.
proof fn lemma_texts_of_grant(before: ModuleView, grants: Seq<GrantView>, i: int)
    requires
        0 <= i < grants.len(),
    ensures
        before.with_grants(grants).strings.contains(grants[i].marker_path),
        forall|j: int|
            0 <= j < grants[i].resource_ids.len() ==> before.with_grants(grants).strings.contains(
                #[trigger] grants[i].resource_ids[j],
            ),
    decreases grants.len(),
{
    let fewer = grants.drop_last();
    let so_far = before.with_grants(fewer);
    let all = before.with_grants(grants).strings;
    let grant = grants[i];
    if i < fewer.len() {
        lemma_texts_of_grant(before, fewer, i);
        assert(fewer[i] == grant);
        assert forall|text: Seq<char>| so_far.strings.contains(text) implies #[trigger] all.contains(
            text,
        ) by {
            let n = choose|n: int| 0 <= n < so_far.strings.len() && so_far.strings[n] == text;
            assert(all[n] == text);
        }
        assert(all.contains(grant.marker_path));
        assert forall|j: int| 0 <= j < grant.resource_ids.len() implies all.contains(
            #[trigger] grant.resource_ids[j],
        ) by {
            assert(so_far.strings.contains(fewer[i].resource_ids[j]));
        }
    } else {
        let n = so_far.strings.len() as int;
        assert(all[n] == grant.marker_path);
        assert forall|j: int| 0 <= j < grant.resource_ids.len() implies all.contains(
            #[trigger] grant.resource_ids[j],
        ) by {
            assert(all[n + 1 + j] == grant.resource_ids[j]);
        }
    }
}

} // verus!
