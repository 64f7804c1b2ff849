//! Patching a whole program, and what to patch.

use vstd::prelude::*;
use hlbc::types::Reg;
use crate::fixes::{
    patch_animate_last_path_invokes_callback_when_skipped, patch_path_dedup_by_column,
    patch_reveal_uses_real_state,
};
use crate::gate::patch_get_battle_state;
use crate::grants::patch_player_update_grants_resources;
use crate::image::{fits_format, is_writable, store, stored_as, writable, ImageError};
use crate::module::{Module, ModuleView};
use crate::refresh::patch_map_auto_refresh;
use crate::resources::{configs, grants_of, resource_configs, resource_grants};
use crate::sites::{method_findex, outcome, Failure, Method, PatchError};
use crate::status::{classify_battle_state, PatchState, StateView};
use crate::text::joined;

verus! {

/// The directory of the markers that unlock nodes, below that of the configuration.
pub const UNLOCK_SUBDIR: &'static str = "unlocked";

/// The file that turns on the non-linear mode, below the directory of the configuration.
pub const NON_LINEAR_FLAG_NAME: &'static str = "non_linear_mode.flag";

/// The directory of the markers of grants, below that of the configuration.
pub const PENDING_RESOURCES_SUBDIR: &'static str = "pending_resources";

impl ModuleView {
    /// The program after the patches that concern the map. `args` is the empty list of arguments
    /// of the call that one of them adds.
    #[verifier::opaque]
    pub open spec fn patch_map(self, unlock_dir: Seq<char>, flag: Seq<char>, args: Vec<Reg>) -> (
        ModuleView,
        Result<(), Failure>,
    ) {
        match self.method(Method::GetBattleState) {
            Err(e) => (self, Err(e)),
            Ok(gate) => match self.patch_gate(gate, unlock_dir + "\\"@, flag) {
                (m1, Err(e)) => (m1, Err(e)),
                (m1, Ok(unlocked)) => match m1.patch_refresh(gate) {
                    (m2, Err(e)) => (m2, Err(e)),
                    (m2, Ok(())) => match m2.patch_reveal(gate, unlocked) {
                        (m3, Err(e)) => (m3, Err(e)),
                        (m3, Ok(())) => match m3.patch_path() {
                            (m4, Err(e)) => (m4, Err(e)),
                            (m4, Ok(())) => m4.patch_callback(args),
                        },
                    },
                },
            },
        }
    }

    /// The program after all patches.
    #[verifier::opaque]
    pub open spec fn patch_all(
        self,
        unlock_dir: Seq<char>,
        flag: Seq<char>,
        pending_dir: Seq<char>,
        args: Vec<Reg>,
    ) -> (ModuleView, Result<(), Failure>) {
        match self.patch_map(unlock_dir, flag, args) {
            (m, Err(e)) => (m, Err(e)),
            (m, Ok(())) => m.patch_grants(grants_of(configs(), pending_dir)),
        }
    }
}

/// Applies the patches that concern the map, but for the last one.
fn patch_map_but_callback(code: &mut Module, unlock_dir: &str, non_linear_flag_path: &str) -> (
    patched: Result<(), PatchError>)
    ensures
        forall|args: Vec<Reg>| #[trigger]
            old(code)@.patch_map(unlock_dir@, non_linear_flag_path@, args) == match patched {
                Ok(()) => final(code)@.patch_callback(args),
                Err(error) => (final(code)@, Err::<(), Failure>(error@)),
            },
{
    proof {
        reveal(ModuleView::patch_map);
    }
    let gate = match method_findex(code, Method::GetBattleState) {
        Ok(findex) => findex,
        Err(error) => {
            return Err(error);
        },
    };
    let prefix = joined(unlock_dir, "\\");
    let unlocked = match patch_get_battle_state(
        code,
        gate,
        prefix.as_str(),
        non_linear_flag_path,
    ) {
        Ok(global) => global,
        Err(error) => {
            return Err(error);
        },
    };
    if let Err(error) = patch_map_auto_refresh(code, gate) {
        return Err(error);
    }
    if let Err(error) = patch_reveal_uses_real_state(code, gate, unlocked) {
        return Err(error);
    }
    patch_path_dedup_by_column(code)
}

/// Applies the patches that concern the map.
fn patch_map(code: &mut Module, unlock_dir: &str, non_linear_flag_path: &str) -> (patched: Result<
    (),
    PatchError,
>)
    ensures
        exists|args: Vec<Reg>| #[trigger]
            args@.len() == 0 && (final(code)@, outcome(patched)) == old(code)@.patch_map(
                unlock_dir@,
                non_linear_flag_path@,
                args,
            ),
{
    let no_args: Vec<Reg> = Vec::new();
    let ghost before = code@;
    if let Err(error) = patch_map_but_callback(code, unlock_dir, non_linear_flag_path) {
        assert(no_args@.len() == 0 && (code@, Err::<(), Failure>(error@)) == before.patch_map(
            unlock_dir@,
            non_linear_flag_path@,
            no_args,
        ));
        return Err(error);
    }
    let ghost m4 = code@;
    let patched = patch_animate_last_path_invokes_callback_when_skipped(code);
    proof {
        let args = choose|args: Vec<Reg>| #[trigger]
            args@.len() == 0 && (code@, outcome(patched)) == m4.patch_callback(args);
        assert(args@.len() == 0 && (code@, outcome(patched)) == before.patch_map(
            unlock_dir@,
            non_linear_flag_path@,
            args,
        ));
    }
    patched
}

/// Applies all patches to a program as the game came with it.
///
/// The markers that unlock nodes are in the directory `unlock_dir`, those of grants in
/// `pending_dir`; `non_linear_flag_path` is the file of the non-linear mode. Nothing of the
/// program may be used after an error.
pub fn patch_program(
    code: &mut Module,
    unlock_dir: &str,
    non_linear_flag_path: &str,
    pending_dir: &str,
) -> (patched: Result<(), PatchError>)
    ensures
        exists|args: Vec<Reg>| #[trigger]
            args@.len() == 0 && (final(code)@, outcome(patched)) == old(code)@.patch_all(
                unlock_dir@,
                non_linear_flag_path@,
                pending_dir@,
                args,
            ),
{
    proof {
        reveal(ModuleView::patch_all);
    }
    let ghost m0 = code@;
    let mapped = patch_map(code, unlock_dir, non_linear_flag_path);
    let ghost m1 = code@;
    let ghost args = choose|args: Vec<Reg>| #[trigger]
        args@.len() == 0 && (m1, outcome(mapped)) == m0.patch_map(
            unlock_dir@,
            non_linear_flag_path@,
            args,
        );
    if let Err(error) = mapped {
        assert(args@.len() == 0 && (code@, Err::<(), Failure>(error@)) == m0.patch_all(
            unlock_dir@,
            non_linear_flag_path@,
            pending_dir@,
            args,
        ));
        return Err(error);
    }
    let grants = resource_grants(&resource_configs(), pending_dir);
    let patched = patch_player_update_grants_resources(code, &grants);
    assert(args@.len() == 0 && (code@, outcome(patched)) == m0.patch_all(
        unlock_dir@,
        non_linear_flag_path@,
        pending_dir@,
        args,
    ));
    patched
}

/// Why the bytes of a patched program could not be made.
#[derive(Debug)]
pub enum ApplyError {
    /// The program could not be patched. It is here as far as it was, to be looked at.
    Patch(PatchError, Module),
    /// The patched program is not one that can be written, as [`writable`] says.
    Unwritable,
    /// The patched program could not be written.
    Write(ImageError),
}

/// Whether a result is one that writing a patched program may have.
pub open spec fn written_as(patched: ModuleView, image: Result<Vec<u8>, ApplyError>) -> bool {
    if !writable(patched) {
        image matches Err(ApplyError::Unwritable)
    } else {
        match image {
            Ok(bytes) => stored_as(patched, bytes@),
            Err(error) => error is Write && !fits_format(patched),
        }
    }
}

/// Whether a result is one that patching and writing a program may have, where the patches came
/// out like this.
pub open spec fn image_of(
    patched: (ModuleView, Result<(), Failure>),
    image: Result<Vec<u8>, ApplyError>,
) -> bool {
    match patched {
        (after, Err(failure)) => image matches Err(ApplyError::Patch(error, code)) && error@
            == failure && code@ == after,
        (after, Ok(())) => written_as(after, image),
    }
}

/// Writes a program as the bytes of `hlboot.dat`, where its patches succeeded.
fn write_patched(code: Module, patched: Result<(), PatchError>) -> (image: Result<
    Vec<u8>,
    ApplyError,
>)
    ensures
        image_of((code@, outcome(patched)), image),
{
    if let Err(error) = patched {
        return Err(ApplyError::Patch(error, code));
    }
    if !is_writable(&code) {
        return Err(ApplyError::Unwritable);
    }
    match store(code) {
        Ok(bytes) => Ok(bytes),
        Err(error) => Err(ApplyError::Write(error)),
    }
}

/// What to do with an installation that is to be patched.
#[derive(Clone, Copy, Debug, PartialEq, Eq, Structural)]
pub struct ApplyPlan {
    /// Do nothing: the program is one that the patches were not made for, and the copy is not of it.
    pub refuse: bool,
    /// Keep a copy of the present `hlboot.dat`, in place of an older one.
    pub write_backup: bool,
    /// Patch the program in `hlboot.dat`; otherwise that in the copy.
    pub patch_live: bool,
}

/// A program in this state is neither the game's own, as the patches know it, nor a patched one.
pub open spec fn unknown(state: StateView) -> bool {
    state is Missing || state is Unfamiliar
}

/// What to do with an installation. `live` is the state of the program in `hlboot.dat`, if it
/// can be read.
pub open spec fn apply_plan(live: Option<StateView>, backup_exists: bool) -> ApplyPlan {
    let refuse = backup_exists && (live matches Some(state) && unknown(state));
    let vanilla = live == Some(StateView::Vanilla);
    ApplyPlan {
        refuse,
        write_backup: !refuse && (!backup_exists || vanilla),
        patch_live: vanilla,
    }
}

/// The state of a program that could be read.
pub open spec fn state_view(state: Option<PatchState>) -> Option<StateView> {
    match state {
        Some(known) => Some(known@),
        None => None,
    }
}

/// Decides what to do with an installation that is to be patched. `live` is the state of the program
/// in `hlboot.dat`, if it can be read.
///
/// A program as the game came with it is the one to patch, and to keep, even if an older copy is
/// there: it comes from a newer release. A program that was patched before, or that cannot be read,
/// is made anew from the copy, which is kept as it is. Any other program comes from a release that
/// the patches were not made for. Where there is a copy, nothing is done: the copy is that of
/// another release, and would take the place of the program. Where there is none, the program is
/// kept like any other, and it is left to the patches to find what does not fit them.
pub fn plan_apply(live: &Option<PatchState>, backup_exists: bool) -> (plan: ApplyPlan)
    ensures
        plan == apply_plan(state_view(*live), backup_exists),
{
    match live {
        Some(PatchState::Vanilla) => ApplyPlan {
            refuse: false,
            write_backup: true,
            patch_live: true,
        },
        Some(PatchState::Patched) | None => ApplyPlan {
            refuse: false,
            write_backup: !backup_exists,
            patch_live: false,
        },
        Some(PatchState::Missing(_)) | Some(PatchState::Unfamiliar(_)) => ApplyPlan {
            refuse: backup_exists,
            write_backup: !backup_exists,
            patch_live: false,
        },
    }
}

/// What comes next in patching an installation.
#[derive(Debug)]
pub enum Applying {
    /// Do nothing: the program in `hlboot.dat` is one that the patches were not made for, and the
    /// copy is not of it.
    Refused(PatchState),
    /// Write the bytes that were read from `hlboot.dat` to the copy. Where they hold the program to
    /// patch, it is here.
    Keep(Option<Module>),
    /// Read the program in the copy.
    ReadCopy,
    /// Make the directory of the markers that unlock nodes; then the map of this program is patched.
    PatchMap(Module),
    /// Make the directory of the markers of grants; then the grants are added to this program.
    AddGrants(Module),
    /// Write these bytes to `hlboot.dat`.
    Install(Vec<u8>),
    /// The installation is patched.
    Done,
}

/// What an [`Applying`] says.
#[verifier::ext_equal]
pub enum ApplyingView {
    Refused(StateView),
    Keep(Option<ModuleView>),
    ReadCopy,
    PatchMap(ModuleView),
    AddGrants(ModuleView),
    Install(Seq<u8>),
    Done,
}

/// The contents of an optional program.
pub open spec fn program_view(code: Option<Module>) -> Option<ModuleView> {
    match code {
        Some(m) => Some(m@),
        None => None,
    }
}

impl View for Applying {
    type V = ApplyingView;

    open spec fn view(&self) -> ApplyingView {
        match *self {
            Applying::Refused(state) => ApplyingView::Refused(state@),
            Applying::Keep(code) => ApplyingView::Keep(program_view(code)),
            Applying::ReadCopy => ApplyingView::ReadCopy,
            Applying::PatchMap(code) => ApplyingView::PatchMap(code@),
            Applying::AddGrants(code) => ApplyingView::AddGrants(code@),
            Applying::Install(bytes) => ApplyingView::Install(bytes@),
            Applying::Done => ApplyingView::Done,
        }
    }
}

impl ApplyingView {
    /// What comes after the copy has been seen to: the program to patch is `source`, or else the
    /// one in the copy.
    pub open spec fn from_source(source: Option<ModuleView>) -> ApplyingView {
        match source {
            Some(code) => ApplyingView::PatchMap(code),
            None => ApplyingView::ReadCopy,
        }
    }

    /// What comes first. `live` is the program in `hlboot.dat`, if it can be read.
    pub open spec fn first(live: Option<ModuleView>, backup_exists: bool) -> ApplyingView {
        let state = match live {
            Some(code) => Some(code.state()),
            None => None,
        };
        let plan = apply_plan(state, backup_exists);
        let source = if plan.patch_live {
            live
        } else {
            None
        };
        if plan.refuse {
            ApplyingView::Refused(state->0)
        } else if plan.write_backup {
            ApplyingView::Keep(source)
        } else {
            ApplyingView::from_source(source)
        }
    }

    /// What comes after the copy has been written.
    pub open spec fn kept(self) -> ApplyingView {
        match self {
            ApplyingView::Keep(source) => ApplyingView::from_source(source),
            other => other,
        }
    }

    /// What comes after the program in the copy has been read.
    pub open spec fn copy_read(self, code: ModuleView) -> ApplyingView {
        match self {
            ApplyingView::ReadCopy => ApplyingView::PatchMap(code),
            other => other,
        }
    }

    /// What comes after the directory of the markers that unlock nodes has been made, or what the
    /// patches of the map found wrong and how far they had come. `args` is the empty list of arguments
    /// of a call that one of them adds.
    pub open spec fn mapped(self, unlock_dir: Seq<char>, flag: Seq<char>, args: Vec<Reg>) -> Result<
        ApplyingView,
        (Failure, ModuleView),
    > {
        match self {
            ApplyingView::PatchMap(code) => match code.patch_map(unlock_dir, flag, args) {
                (after, Err(failure)) => Err((failure, after)),
                (after, Ok(())) => Ok(ApplyingView::AddGrants(after)),
            },
            other => Ok(other),
        }
    }

    /// The program with the grants, and what the patch for them found, after the directory of their
    /// markers has been made.
    pub open spec fn granted(self, pending_dir: Seq<char>) -> Option<
        (ModuleView, Result<(), Failure>),
    > {
        match self {
            ApplyingView::AddGrants(code) => Some(
                code.patch_grants(grants_of(configs(), pending_dir)),
            ),
            _ => None,
        }
    }

    /// What comes after `hlboot.dat` has been written.
    pub open spec fn installed(self) -> ApplyingView {
        match self {
            ApplyingView::Install(_) => ApplyingView::Done,
            other => other,
        }
    }
}

/// What comes after the copy has been seen to.
fn go_on_from(source: Option<Module>) -> (next: Applying)
    ensures
        next@ == ApplyingView::from_source(program_view(source)),
{
    match source {
        Some(code) => Applying::PatchMap(code),
        None => Applying::ReadCopy,
    }
}

/// Begins to patch an installation. `live` is the program in `hlboot.dat`, if it can be read: what
/// is decided here, and what is kept and patched later, all comes from the same bytes.
pub fn begin_apply(live: Option<Module>, backup_exists: bool) -> (first: Applying)
    ensures
        first@ == ApplyingView::first(program_view(live), backup_exists),
{
    let state = match &live {
        Some(code) => Some(classify_battle_state(code)),
        None => None,
    };
    let plan = plan_apply(&state, backup_exists);
    if plan.refuse {
        if let Some(state) = state {
            return Applying::Refused(state);
        }
    }
    let source = if plan.patch_live {
        live
    } else {
        None
    };
    if plan.write_backup {
        Applying::Keep(source)
    } else {
        go_on_from(source)
    }
}

impl Applying {
    /// Goes on after the copy has been written.
    pub fn on_kept(self) -> (next: Applying)
        ensures
            next@ == self@.kept(),
    {
        match self {
            Applying::Keep(source) => go_on_from(source),
            other => other,
        }
    }

    /// Goes on after the program in the copy has been read.
    pub fn on_copy_read(self, code: Module) -> (next: Applying)
        ensures
            next@ == self@.copy_read(code@),
    {
        match self {
            Applying::ReadCopy => Applying::PatchMap(code),
            other => other,
        }
    }

    /// Goes on after the directory of the markers that unlock nodes has been made: patches the map.
    /// `non_linear_flag_path` is the file of the non-linear mode.
    pub fn on_unlock_dir(self, unlock_dir: &str, non_linear_flag_path: &str) -> (next: Result<
        Applying,
        ApplyError,
    >)
        ensures
            match self@ {
                ApplyingView::PatchMap(code) => exists|args: Vec<Reg>| #[trigger]
                    args@.len() == 0 && match code.patch_map(
                        unlock_dir@,
                        non_linear_flag_path@,
                        args,
                    ) {
                        (after, Err(failure)) => next matches Err(ApplyError::Patch(error, found))
                            && error@ == failure && found@ == after,
                        (after, Ok(())) => next matches Ok(now) && now@ == ApplyingView::AddGrants(
                            after,
                        ),
                    },
                other => next matches Ok(now) && now@ == other,
            },
            exists|args: Vec<Reg>| #[trigger]
                args@.len() == 0 && match self@.mapped(unlock_dir@, non_linear_flag_path@, args) {
                    Err((failure, after)) => next matches Err(ApplyError::Patch(error, found))
                        && error@ == failure && found@ == after,
                    Ok(step) => next matches Ok(now) && now@ == step,
                },
    {
        match self {
            Applying::PatchMap(code) => {
                let mut code = code;
                match patch_map(&mut code, unlock_dir, non_linear_flag_path) {
                    Err(error) => Err(ApplyError::Patch(error, code)),
                    Ok(()) => Ok(Applying::AddGrants(code)),
                }
            },
            other => {
                let no_args: Vec<Reg> = Vec::new();
                assert(no_args@.len() == 0);
                Ok(other)
            },
        }
    }

    /// Goes on after the directory of the markers of grants has been made: adds the grants, and
    /// writes the program as bytes.
    pub fn on_pending_dir(self, pending_dir: &str) -> (next: Result<Applying, ApplyError>)
        ensures
            match self@ {
                ApplyingView::AddGrants(code) => {
                    let patched = code.patch_grants(grants_of(configs(), pending_dir@));
                    match next {
                        Ok(now) => now matches Applying::Install(bytes) && image_of(
                            patched,
                            Ok(bytes),
                        ),
                        Err(error) => image_of(patched, Err(error)),
                    }
                },
                other => next matches Ok(now) && now@ == other,
            },
            match self@.granted(pending_dir@) {
                Some(patched) => match next {
                    Ok(now) => now matches Applying::Install(bytes) && image_of(patched, Ok(bytes)),
                    Err(error) => image_of(patched, Err(error)),
                },
                None => next matches Ok(now) && now@ == self@,
            },
    {
        match self {
            Applying::AddGrants(code) => {
                let mut code = code;
                let grants = resource_grants(&resource_configs(), pending_dir);
                let patched = patch_player_update_grants_resources(&mut code, &grants);
                match write_patched(code, patched) {
                    Ok(bytes) => Ok(Applying::Install(bytes)),
                    Err(error) => Err(error),
                }
            },
            other => Ok(other),
        }
    }

    /// Goes on after `hlboot.dat` has been written.
    pub fn on_installed(self) -> (next: Applying)
        ensures
            next@ == self@.installed(),
    {
        match self {
            Applying::Install(_) => Applying::Done,
            other => other,
        }
    }
}

} // verus!
