//! Whether a program has been patched.

use vstd::prelude::*;
use crate::lookup::{find_function, find_method_findex, lemma_first_where, LookupError};
use crate::module::{FunctionView, Module, ModuleView};
use crate::sites::Method;

verus! {

/// Whether the check for markers is in a program.
///
/// The question is put to the program itself, not to a comparison with an older copy of it: a new
/// release of the game differs from the copy too, and would pass for patched.
#[derive(Debug)]
pub enum PatchState {
    /// The game's own code.
    Vanilla,
    /// The check is there.
    Patched,
    /// `Conquest.getBattleState` cannot be found by name.
    Missing(LookupError),
    /// `Conquest.getBattleState` has a number of instructions that is neither the game's own nor
    /// that of the patch: this.
    Unfamiliar(usize),
}

/// What a [`PatchState`] says.
#[verifier::ext_equal]
pub enum StateView {
    Vanilla,
    Patched,
    /// Not exactly one function is the method: these are.
    Missing(Seq<usize>),
    Unfamiliar(nat),
}

impl View for PatchState {
    type V = StateView;

    open spec fn view(&self) -> StateView {
        match *self {
            PatchState::Vanilla => StateView::Vanilla,
            PatchState::Patched => StateView::Patched,
            PatchState::Missing(LookupError::NotFound) => StateView::Missing(Seq::empty()),
            PatchState::Missing(LookupError::Ambiguous(many)) => StateView::Missing(many@),
            PatchState::Unfamiliar(ops) => StateView::Unfamiliar(ops as nat),
        }
    }
}

/// The number of instructions of the game's own `Conquest.getBattleState`.
pub const VANILLA_OPS: usize = 14;

/// The number of instructions of `Conquest.getBattleState` with the check in it.
pub const PATCHED_OPS: usize = 31;

impl ModuleView {
    /// Whether the check for markers is in the program.
    pub open spec fn state(self) -> StateView {
        let found = self.methods(Method::GetBattleState.class(), Method::GetBattleState.name());
        if found.len() != 1 {
            StateView::Missing(found)
        } else {
            let ops = self.functions[self.function_index(found[0])->0].ops.len();
            if ops == VANILLA_OPS {
                StateView::Vanilla
            } else if ops == PATCHED_OPS {
                StateView::Patched
            } else {
                StateView::Unfamiliar(ops)
            }
        }
    }
}

/// The number of a method is the number of a function: the `k`-th number found by name belongs to
/// the method itself, at the position returned.
pub proof fn lemma_method_exists(
    code: ModuleView,
    class: Seq<char>,
    method: Seq<char>,
    k: int,
) -> (at: int)
    requires
        0 <= k < code.methods(class, method).len(),
    ensures
        0 <= at < code.functions.len(),
        code.is_method(code.functions[at], class, method),
        code.functions[at].findex.0 == code.methods(class, method)[k],
        code.function_index(code.methods(class, method)[k]) is Some,
{
    let p = |f: FunctionView| code.is_method(f, class, method);
    let kept = code.functions.filter(p);
    code.functions.lemma_filter_pred(p, k);
    assert(kept.contains(kept[k]));
    code.functions.lemma_filter_contains_rev(p, kept[k]);
    let at = choose|at: int| 0 <= at < code.functions.len() && code.functions[at] == kept[k];
    let findex = code.methods(class, method)[k];
    let q = |f: FunctionView| f.findex.0 == findex;
    lemma_first_where(code.functions, q);
    assert(q(code.functions[at]));
    at
}

/// Tells whether the check for markers is in a program.
pub fn classify_battle_state(code: &Module) -> (state: PatchState)
    ensures
        state@ == code@.state(),
{
    let method = Method::GetBattleState;
    let findex = match find_method_findex(code, method.class_name(), method.method_name()) {
        Ok(findex) => findex,
        Err(error) => {
            proof {
                if error is NotFound {
                    assert(code@.methods(method.class(), method.name()) =~= Seq::empty());
                }
            }
            return PatchState::Missing(error);
        },
    };
    proof {
        lemma_method_exists(code@, method.class(), method.name(), 0);
    }
    match find_function(code, findex) {
        Some(at) => {
            let ops = code.functions[at].ops.len();
            if ops == VANILLA_OPS {
                PatchState::Vanilla
            } else if ops == PATCHED_OPS {
                PatchState::Patched
            } else {
                PatchState::Unfamiliar(ops)
            }
        },
        None => PatchState::Missing(LookupError::NotFound),
    }
}

/// What the tool has to say of an installation.
#[derive(Clone, Copy, Debug, PartialEq, Eq, Structural)]
pub enum Status {
    /// There is no `hlboot.dat`.
    NoFile,
    /// `hlboot.dat` is not a program.
    Unreadable,
    /// The program is the game's own.
    NotPatched,
    /// The program is patched.
    Patched,
    /// The program is neither.
    Unknown,
}

/// What an installation is found to be. `program` is the state of the program in `hlboot.dat`,
/// if there is such a file and it can be read.
pub open spec fn status_view(file_exists: bool, program: Option<StateView>) -> Status {
    if !file_exists {
        Status::NoFile
    } else {
        match program {
            None => Status::Unreadable,
            Some(StateView::Vanilla) => Status::NotPatched,
            Some(StateView::Patched) => Status::Patched,
            Some(_) => Status::Unknown,
        }
    }
}

/// Tells what an installation is.
pub fn status_of(file_exists: bool, program: &Option<PatchState>) -> (status: Status)
    ensures
        status == status_view(
            file_exists,
            match *program {
                Some(state) => Some(state@),
                None => None,
            },
        ),
{
    if !file_exists {
        return Status::NoFile;
    }
    match program {
        None => Status::Unreadable,
        Some(PatchState::Vanilla) => Status::NotPatched,
        Some(PatchState::Patched) => Status::Patched,
        Some(PatchState::Missing(_)) => Status::Unknown,
        Some(PatchState::Unfamiliar(_)) => Status::Unknown,
    }
}

/// The exit code for a status.
pub open spec fn exit_code_of(status: Status) -> int {
    match status {
        Status::Patched => 0,
        Status::NotPatched => 1,
        Status::NoFile | Status::Unreadable | Status::Unknown => 2,
    }
}

/// The exit code of the status command, which other programs go by: 0 for a patched program, 1
/// for one that has to be patched, 2 where neither can be said.
pub fn exit_code(status: Status) -> (code: i32)
    ensures
        code == match status {
            Status::Patched => 0i32,
            Status::NotPatched => 1,
            Status::NoFile | Status::Unreadable | Status::Unknown => 2,
        },
        code == exit_code_of(status),
{
    match status {
        Status::Patched => 0,
        Status::NotPatched => 1,
        Status::NoFile | Status::Unreadable | Status::Unknown => 2,
    }
}

} // verus!
