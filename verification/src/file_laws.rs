//! What holds of the files of an installation: of their bytes, and not only of the programs in
//! them.

use vstd::prelude::*;
use hlbc::types::{RefField, Reg};
use crate::apply::{apply_plan, ApplyPlan};
use crate::apply_laws::{state_of, Directories};
use crate::image::{
    fits_format, loaded_as, readable, reads_as, stored_as, writable, writes_as,
};
use crate::links::sound;
use crate::module::ModuleView;
use crate::reread::{bound_once, bound_singly, class_of, grown_type, texts_have_room};
use crate::status::{status_view, StateView, Status};
use crate::survival::{
    lasting, law_patched_program_survives, law_written_patch_is_read_as_patched,
};

verus! {

/// The two files of an installation: `hlboot.dat`, and the copy of it, if there is one.
pub struct Files {
    pub live: Seq<u8>,
    pub backup: Option<Seq<u8>>,
}

/// A run of the tool in which the system let every file be read and written.
pub struct Run {
    pub dirs: Directories,
    /// The empty list of arguments of a call that one of the patches adds.
    pub args: Vec<Reg>,
    /// What `hlboot.dat` was read as.
    pub live: Option<ModuleView>,
    /// What the copy was read as, where it was read.
    pub copy: Option<ModuleView>,
    /// Whether `hlboot.dat` was replaced.
    pub ok: bool,
}

/// The bytes may be read as this: as a program, or as none.
pub open spec fn found(image: Seq<u8>, program: Option<ModuleView>) -> bool {
    match program {
        Some(code) => sound(image) && loaded_as(image, code),
        None => !(sound(image) && readable(image)),
    }
}

impl Run {
    /// What the patches make of a program.
    pub open spec fn patched(self, code: ModuleView) -> (ModuleView, bool) {
        let (after, patched) = code.patch_all(
            self.dirs.unlock_dir,
            self.dirs.flag,
            self.dirs.pending_dir,
            self.args,
        );
        (after, patched is Ok)
    }
}

impl Files {
    /// What the run does with the files.
    pub open spec fn plan(self, run: Run) -> ApplyPlan {
        apply_plan(state_of(run.live), self.backup is Some)
    }

    /// The copy once it has been made, where one is to be made.
    pub open spec fn kept(self, run: Run) -> Option<Seq<u8>> {
        if self.plan(run).write_backup {
            Some(self.live)
        } else {
            self.backup
        }
    }

    /// The bytes of the program that is to be patched.
    pub open spec fn source_bytes(self, run: Run) -> Seq<u8> {
        if self.plan(run).patch_live {
            self.live
        } else {
            self.kept(run)->0
        }
    }

    /// The program that is to be patched, if there is one.
    pub open spec fn source(self, run: Run) -> Option<ModuleView> {
        if self.plan(run).refuse {
            None
        } else if self.plan(run).patch_live {
            run.live
        } else {
            run.copy
        }
    }

    /// The files are `after` once the run is over.
    pub open spec fn ran(self, run: Run, after: Files) -> bool {
        &&& run.args@.len() == 0
        &&& found(self.live, run.live)
        &&& !self.plan(run).refuse ==> found(self.source_bytes(run), self.source(run))
        &&& after.backup == self.kept(run)
        &&& match self.source(run) {
            None => !run.ok && after.live == self.live,
            Some(code) => {
                let (patched, fine) = run.patched(code);
                &&& run.ok == (fine && writable(patched) && fits_format(patched))
                &&& run.ok ==> stored_as(patched, after.live)
                &&& !run.ok ==> after.live == self.live
            },
        }
    }

    /// What the run installed lasts.
    pub open spec fn lasts(self, run: Run) -> bool {
        run.ok ==> lasting(self.source(run)->0) && texts_have_room(
            run.patched(self.source(run)->0).0,
        )
    }

    /// The files after the copy has been put back in the place of `hlboot.dat`, where there is a
    /// copy.
    pub open spec fn restored(self) -> Files {
        match self.backup {
            Some(image) => Files { live: image, backup: self.backup },
            None => self,
        }
    }
}

/// After the tool has succeeded, `hlboot.dat` is reported as patched, whatever is in the copy.
pub proof fn law_patched_game_is_reported_as_patched(
    files: Files,
    run: Run,
    after: Files,
    program: Option<ModuleView>,
)
    requires
        files.ran(run, after),
        files.lasts(run),
        run.ok,
        found(after.live, program),
    ensures
        state_of(program) == Some(StateView::Patched),
        status_view(true, state_of(program)) == Status::Patched,
{
    let code = files.source(run)->0;
    law_written_patch_is_read_as_patched(
        files.source_bytes(run),
        code,
        run.dirs.unlock_dir,
        run.dirs.flag,
        run.dirs.pending_dir,
        run.args,
        after.live,
    );
}

/// Running the tool again is safe: once it has succeeded, another run leaves the copy as it is, and
/// makes `hlboot.dat` anew from that copy, if it changes it at all.
pub proof fn law_another_run_goes_by_the_copy(
    files: Files,
    run: Run,
    after: Files,
    again: Run,
    later: Files,
)
    requires
        files.ran(run, after),
        files.lasts(run),
        run.ok,
        after.ran(again, later),
    ensures
        later.backup == after.backup,
        after.backup == Some(files.source_bytes(run)),
        after.source_bytes(again) == files.source_bytes(run),
        !again.ok ==> later.live == after.live,
        again.ok ==> found(files.source_bytes(run), again.copy) && stored_as(
            again.patched(again.copy->0).0,
            later.live,
        ),
{
    law_patched_game_is_reported_as_patched(files, run, after, again.live);
}

/// Running the tool again changes nothing that matters: another run with the same directories succeeds
/// too, leaves the copy as it is, and installs the same program. Where no class has two bindings,
/// both files stay as they are, byte for byte.
pub proof fn law_another_run_succeeds(
    files: Files,
    run: Run,
    after: Files,
    again: Run,
    later: Files,
)
    requires
        files.ran(run, after),
        files.lasts(run),
        run.ok,
        after.ran(again, later),
        again.dirs == run.dirs,
        again.args == run.args,
    ensures
        again.ok,
        later.backup == after.backup,
        ({
            let patched = run.patched(files.source(run)->0).0;
            stored_as(patched, after.live) && stored_as(patched, later.live)
        }),
        bound_singly(files.source(run)->0) ==> later == after,
{
    let code = files.source(run)->0;
    let bytes = files.source_bytes(run);
    law_another_run_goes_by_the_copy(files, run, after, again, later);
    law_patched_game_is_reported_as_patched(files, run, after, again.live);
    assert(reads_as(bytes, code));
    assert(found(bytes, again.copy));
    assert(again.copy == Some(code));
    let patched = run.patched(code).0;
    if bound_singly(code) {
        lemma_bound_singly(files, run, after);
        assert(writes_as(patched, later.live));
    }
}

/// Patching leaves the bindings of a class as they are.
proof fn lemma_bound_singly(files: Files, run: Run, after: Files)
    requires
        files.ran(run, after),
        files.lasts(run),
        run.ok,
        bound_singly(files.source(run)->0),
    ensures
        bound_singly(run.patched(files.source(run)->0).0),
{
    let code = files.source(run)->0;
    let patched = run.patched(code).0;
    law_patched_program_survives(
        files.source_bytes(run),
        code,
        run.dirs.unlock_dir,
        run.dirs.flag,
        run.dirs.pending_dir,
        run.args,
    );
    assert forall|i: int| 0 <= i < patched.types.len() implies (class_of(
        #[trigger] patched.types[i],
    ) matches Some(class) ==> forall|x: RefField, y: RefField| #[trigger]
        class.bindings.dom().contains(x) && #[trigger] class.bindings.dom().contains(y) ==> x
        == y) by {
        assert(grown_type(code, i, patched.types[i]));
        assert(class_of(code.types[i]) is Some ==> class_of(code.types[i])->0.bindings
            == class_of(patched.types[i])->0.bindings);
    }
}

/// An older copy makes no difference to the game's own program, where its reading does not depend on
/// the order of bindings: with any two copies, or none, the outcome, the copy, and the program that
/// is installed are the same. Where no class has two bindings, so are the files, byte for byte.
pub proof fn law_older_copy_makes_no_difference_to_the_files(
    files: Files,
    run: Run,
    after: Files,
    other: Files,
    other_run: Run,
    other_after: Files,
)
    requires
        files.ran(run, after),
        other.ran(other_run, other_after),
        other.live == files.live,
        other_run.dirs == run.dirs,
        other_run.args == run.args,
        state_of(run.live) == Some(StateView::Vanilla),
        bound_once(run.live->0),
    ensures
        other_run.ok == run.ok,
        other_after.backup == after.backup,
        after.backup == Some(files.live),
        run.ok ==> {
            let patched = run.patched(run.live->0).0;
            stored_as(patched, after.live) && stored_as(patched, other_after.live)
        },
        !run.ok ==> after.live == files.live && other_after.live == files.live,
        run.ok && files.lasts(run) && bound_singly(run.live->0) ==> other_after == after,
{
    let code = run.live->0;
    assert(reads_as(files.live, code));
    assert(found(files.live, other_run.live));
    assert(other_run.live == run.live);
    if run.ok && files.lasts(run) && bound_singly(code) {
        lemma_bound_singly(files, run, after);
        assert(writes_as(run.patched(code).0, other_after.live));
    }
}

/// What becomes of the copy, whether the tool succeeds or fails: where there is none, or where
/// `hlboot.dat` holds the game's own program, it is a copy of that file; otherwise it stays as it is.
pub proof fn law_copy_after_a_run_of_the_tool(files: Files, run: Run, after: Files)
    requires
        files.ran(run, after),
    ensures
        after.backup == if files.backup is None || state_of(run.live) == Some(StateView::Vanilla) {
            Some(files.live)
        } else {
            files.backup
        },
{
}

/// Restoring undoes a run on the game's own program, byte for byte, whatever came of the run.
pub proof fn law_restoring_undoes_a_run(files: Files, run: Run, after: Files)
    requires
        files.ran(run, after),
        state_of(run.live) == Some(StateView::Vanilla),
    ensures
        after.backup == Some(files.live),
        after.restored().live == files.live,
{
}

/// A run of the tool, and the files after it.
pub struct Step {
    pub run: Run,
    pub after: Files,
}

/// The files before the `i`-th of several runs.
pub open spec fn files_before(start: Files, steps: Seq<Step>, i: int) -> Files {
    if i <= 0 {
        start
    } else {
        steps[i - 1].after
    }
}

/// The runs follow each other, and what any but the last of them installs lasts.
pub open spec fn follow(start: Files, steps: Seq<Step>) -> bool {
    forall|i: int|
        0 <= i < steps.len() ==> {
            let before = files_before(start, steps, i);
            &&& before.ran((#[trigger] steps[i]).run, steps[i].after)
            &&& i < steps.len() - 1 ==> before.lasts(steps[i].run)
        }
}

/// However the bytes are read, they hold a patched program.
pub open spec fn surely_patched(image: Seq<u8>) -> bool {
    forall|program: Option<ModuleView>| #[trigger]
        found(image, program) ==> state_of(program) == Some(StateView::Patched)
}

/// What any number of runs leaves of the game's own file: the copy is that file, and `hlboot.dat`
/// is that file or, before the last run, a patched one.
proof fn lemma_own_file_is_kept(start: Files, steps: Seq<Step>, n: int)
    requires
        follow(start, steps),
        0 < n <= steps.len(),
        state_of(steps[0].run.live) == Some(StateView::Vanilla),
    ensures
        ({
            let after = files_before(start, steps, n);
            &&& after.backup == Some(start.live)
            &&& n < steps.len() ==> after.live == start.live || surely_patched(after.live)
        }),
    decreases n,
{
    let before = files_before(start, steps, n - 1);
    let run = steps[n - 1].run;
    let after = steps[n - 1].after;
    assert(before.ran(run, after));
    if n > 1 {
        lemma_own_file_is_kept(start, steps, n - 1);
        if before.live != start.live {
            assert(found(before.live, run.live));
        }
    }
    if run.ok && n < steps.len() {
        assert(before.lasts(run));
        assert forall|program: Option<ModuleView>| #[trigger] found(
            after.live,
            program,
        ) implies state_of(program) == Some(StateView::Patched) by {
            law_patched_game_is_reported_as_patched(before, run, after, program);
        }
    }
}

/// Restoring undoes any number of runs, byte for byte: where `hlboot.dat` held the game's own program
/// at first, it is the same file again, even if there was an older copy.
pub proof fn law_restoring_gives_back_the_games_own_file(start: Files, steps: Seq<Step>)
    requires
        follow(start, steps),
        steps.len() > 0,
        state_of(steps[0].run.live) == Some(StateView::Vanilla),
    ensures
        steps.last().after.backup == Some(start.live),
        steps.last().after.restored().live == start.live,
{
    lemma_own_file_is_kept(start, steps, steps.len() as int);
}

} // verus!
