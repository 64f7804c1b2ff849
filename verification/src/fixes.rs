//! Corrections to the game's own code, which was written for a map where only one node of each
//! row can be won.

use vstd::prelude::*;
use hlbc::opcodes::Opcode;
use hlbc::types::{RefFun, Reg};
use crate::module::{function_view, FunctionView, Module, ModuleView};
use crate::sites::{function_at, method_findex, outcome, Failure, Method, PatchError};

verus! {

/// The instruction of `ConquestMapContent.animateNewBattlePlots` that takes a node of the next
/// column for unlocked.
pub const REVEAL_OP: usize = 46;

/// The instruction of `Conquest.onBattleCompleted` that leaves a won battle out of the save when
/// the same row of the map has been won before.
pub const SKIP_PATH_PUSH_OP: usize = 55;

/// The instruction of `ConquestMapContent.animateLastPath` that leaves without calling back when
/// no node has been clicked.
pub const NULL_JUMP_OP: usize = 1;

impl ModuleView {
    /// The position of a method of the game among the functions.
    pub open spec fn method_at(self, method: Method) -> Result<int, Failure> {
        match self.method(method) {
            Err(e) => Err(e),
            Ok(findex) => self.function(findex, method),
        }
    }

    /// The program with the instruction `at` of its `i`-th function replaced.
    pub open spec fn with_op(self, i: int, at: int, op: Opcode) -> ModuleView {
        let f = self.functions[i];
        self.with_function(i, FunctionView { ops: f.ops.update(at, op), ..f })
    }

    /// The program after the patch of `ConquestMapContent.animateNewBattlePlots`. `gate` is the
    /// number of `Conquest.getBattleState`, `unlocked` that of the global for an unlocked node.
    pub open spec fn patch_reveal(self, gate: usize, unlocked: usize) -> (
        ModuleView,
        Result<(), Failure>,
    ) {
        match self.method_at(Method::AnimateNewBattlePlots) {
            Err(e) => (self, Err(e)),
            Ok(i) => if self.functions[i].ops.len() <= REVEAL_OP {
                (self, Err(Failure::Short(Method::AnimateNewBattlePlots, REVEAL_OP as int)))
            } else {
                match self.functions[i].ops[REVEAL_OP as int] {
                    Opcode::GetGlobal { dst, global } if global.0 == unlocked => (
                        self.with_op(
                            i,
                            REVEAL_OP as int,
                            Opcode::Call2 { dst, fun: RefFun(gate), arg0: Reg(6), arg1: Reg(4) },
                        ),
                        Ok(()),
                    ),
                    _ => (
                        self,
                        Err(Failure::Op(Method::AnimateNewBattlePlots, REVEAL_OP as int)),
                    ),
                }
            },
        }
    }

    /// The program after the patch of `Conquest.onBattleCompleted`.
    pub open spec fn patch_path(self) -> (ModuleView, Result<(), Failure>) {
        match self.method_at(Method::OnBattleCompleted) {
            Err(e) => (self, Err(e)),
            Ok(i) => if self.functions[i].ops.len() <= SKIP_PATH_PUSH_OP {
                (self, Err(Failure::Short(Method::OnBattleCompleted, SKIP_PATH_PUSH_OP as int)))
            } else {
                match self.functions[i].ops[SKIP_PATH_PUSH_OP as int] {
                    Opcode::JTrue { offset: 7, .. } => (
                        self.with_op(i, SKIP_PATH_PUSH_OP as int, Opcode::JAlways { offset: 0 }),
                        Ok(()),
                    ),
                    _ => (
                        self,
                        Err(Failure::Op(Method::OnBattleCompleted, SKIP_PATH_PUSH_OP as int)),
                    ),
                }
            },
        }
    }

    /// The program after the patch of `ConquestMapContent.animateLastPath`. `args` is the empty
    /// list of arguments of the call that is added.
    pub open spec fn patch_callback(self, args: Vec<Reg>) -> (ModuleView, Result<(), Failure>) {
        match self.method_at(Method::AnimateLastPath) {
            Err(e) => (self, Err(e)),
            Ok(i) => {
                let f = self.functions[i];
                if f.ops.len() != 19 {
                    (
                        self,
                        Err(Failure::Shape(Method::AnimateLastPath, f.ops.len(), f.regs.len())),
                    )
                } else {
                    match f.ops[NULL_JUMP_OP as int] {
                        Opcode::JNull { reg, offset: 16 } => (
                            self.with_function(i, calling_back(f, reg, args)),
                            Ok(()),
                        ),
                        _ => (self, Err(Failure::Op(Method::AnimateLastPath, NULL_JUMP_OP as int))),
                    }
                }
            },
        }
    }
}

/// The source position of the last instruction, or zero.
pub open spec fn last_source(lines: Seq<(usize, usize)>) -> (usize, usize) {
    if lines.len() > 0 {
        lines.last()
    } else {
        (0, 0)
    }
}

/// `ConquestMapContent.animateLastPath` calling back in every case: the jump for a register
/// `reg` that is null now goes to a call of the callback, register 1, at the very end.
pub open spec fn calling_back(f: FunctionView, reg: Reg, args: Vec<Reg>) -> FunctionView {
    FunctionView {
        ops: f.ops.update(NULL_JUMP_OP as int, Opcode::JNull { reg, offset: 17 }).push(
            Opcode::CallClosure { dst: Reg(2), fun: Reg(1), args },
        ).push(Opcode::Ret { ret: Reg(2) }),
        debug_info: match f.debug_info {
            Some(lines) => Some(lines.push(last_source(lines)).push(last_source(lines))),
            None => None,
        },
        assigns: Some(Seq::empty()),
        ..f
    }
}

/// Makes the reveal of the next column show the true state of each node.
///
/// `animateNewBattlePlots` takes every node of the column for unlocked. At that place register 6
/// holds the conquest and register 4 the identifier of the node, so a call of
/// `Conquest.getBattleState` fits in.
pub fn patch_reveal_uses_real_state(
    code: &mut Module,
    gate_findex: usize,
    unlocked_global: usize,
) -> (patched: Result<(), PatchError>)
    ensures
        (final(code)@, outcome(patched)) == old(code)@.patch_reveal(gate_findex, unlocked_global),
{
    let findex = match method_findex(code, Method::AnimateNewBattlePlots) {
        Ok(findex) => findex,
        Err(error) => return Err(error),
    };
    let at = match function_at(code, findex, Method::AnimateNewBattlePlots) {
        Ok(i) => i,
        Err(error) => return Err(error),
    };
    let ghost before = code@;
    let f = &mut code.functions[at];
    if f.ops.len() <= REVEAL_OP {
        return Err(PatchError::Short(Method::AnimateNewBattlePlots, REVEAL_OP));
    }
    let dst = match &f.ops[REVEAL_OP] {
        Opcode::GetGlobal { dst, global } => {
            if global.0 != unlocked_global {
                return Err(PatchError::Op(Method::AnimateNewBattlePlots, REVEAL_OP));
            }
            *dst
        },
        _ => return Err(PatchError::Op(Method::AnimateNewBattlePlots, REVEAL_OP)),
    };
    f.ops[REVEAL_OP] = Opcode::Call2 {
        dst,
        fun: RefFun(gate_findex),
        arg0: Reg(6),
        arg1: Reg(4),
    };
    assert(code@.functions =~= before.patch_reveal(gate_findex, unlocked_global).0.functions);
    Ok(())
}

/// Makes every won battle enter the save.
///
/// `onBattleCompleted` leaves a battle out when another node of its row is in the save already.
/// The jump that does so becomes one that never skips anything.
pub fn patch_path_dedup_by_column(code: &mut Module) -> (patched: Result<(), PatchError>)
    ensures
        (final(code)@, outcome(patched)) == old(code)@.patch_path(),
{
    let findex = match method_findex(code, Method::OnBattleCompleted) {
        Ok(findex) => findex,
        Err(error) => return Err(error),
    };
    let at = match function_at(code, findex, Method::OnBattleCompleted) {
        Ok(i) => i,
        Err(error) => return Err(error),
    };
    let ghost before = code@;
    let f = &mut code.functions[at];
    if f.ops.len() <= SKIP_PATH_PUSH_OP {
        return Err(PatchError::Short(Method::OnBattleCompleted, SKIP_PATH_PUSH_OP));
    }
    match &f.ops[SKIP_PATH_PUSH_OP] {
        Opcode::JTrue { offset, .. } => {
            if *offset != 7 {
                return Err(PatchError::Op(Method::OnBattleCompleted, SKIP_PATH_PUSH_OP));
            }
        },
        _ => return Err(PatchError::Op(Method::OnBattleCompleted, SKIP_PATH_PUSH_OP)),
    }
    f.ops[SKIP_PATH_PUSH_OP] = Opcode::JAlways { offset: 0 };
    assert(code@.functions =~= before.patch_path().0.functions);
    Ok(())
}

/// Finds where `animateLastPath` returns without calling back: the position of the function, and
/// the register that it tests.
fn find_skipped_callback(code: &Module) -> (found: Result<(usize, Reg), PatchError>)
    ensures
        match found {
            Ok((at, reg)) => at < code.functions@.len() && code.functions@[at as int].ops@.len()
                == 19 && forall|args: Vec<Reg>| #[trigger]
                code@.patch_callback(args) == (
                    code@.with_function(
                        at as int,
                        calling_back(code@.functions[at as int], reg, args),
                    ),
                    Ok::<(), Failure>(()),
                ),
            Err(error) => forall|args: Vec<Reg>| #[trigger]
                code@.patch_callback(args) == (code@, Err::<(), Failure>(error@)),
        },
{
    let method = Method::AnimateLastPath;
    let findex = match method_findex(code, method) {
        Ok(findex) => findex,
        Err(error) => {
            return Err(error);
        },
    };
    let at = match function_at(code, findex, method) {
        Ok(i) => i,
        Err(error) => {
            return Err(error);
        },
    };
    let f = &code.functions[at];
    if f.ops.len() != 19 {
        return Err(PatchError::Shape(method, f.ops.len(), f.regs.len()));
    }
    match &f.ops[NULL_JUMP_OP] {
        Opcode::JNull { reg, offset } => if *offset != 16 {
            Err(PatchError::Op(method, NULL_JUMP_OP))
        } else {
            Ok((at, *reg))
        },
        _ => Err(PatchError::Op(method, NULL_JUMP_OP)),
    }
}

/// Makes `animateLastPath` call back even when it has nothing to draw.
///
/// The callback unlocks the map. Where no node has been clicked yet, the function returned
/// without calling it, and the map stayed locked for good.
pub fn patch_animate_last_path_invokes_callback_when_skipped(code: &mut Module) -> (patched: Result<
    (),
    PatchError,
>)
    ensures
        exists|args: Vec<Reg>| #[trigger]
            args@.len() == 0 && (final(code)@, outcome(patched)) == old(code)@.patch_callback(args),
{
    let args: Vec<Reg> = Vec::new();
    let ghost before = code@;
    let (at, reg) = match find_skipped_callback(code) {
        Ok(found) => found,
        Err(error) => {
            assert(args@.len() == 0 && (code@, Err::<(), Failure>(error@)) == before.patch_callback(
                args,
            ));
            return Err(error);
        },
    };
    let f = &mut code.functions[at];
    let ghost orig = function_view(*f);
    let ghost no_args = args;
    f.ops[NULL_JUMP_OP] = Opcode::JNull { reg, offset: 17 };
    f.ops.push(Opcode::CallClosure { dst: Reg(2), fun: Reg(1), args });
    f.ops.push(Opcode::Ret { ret: Reg(2) });
    if let Some(lines) = &mut f.debug_info {
        let last = if lines.len() > 0 {
            lines[lines.len() - 1]
        } else {
            (0, 0)
        };
        lines.push(last);
        lines.push(last);
    }
    f.assigns = Some(Vec::new());
    proof {
        let new = calling_back(orig, reg, no_args);
        assert(function_view(*f) =~= new);
        assert(before.with_function(at as int, new).functions =~= code@.functions);
        assert(no_args@.len() == 0 && (code@, Ok::<(), Failure>(())) == before.patch_callback(
            no_args,
        ));
    }
    Ok(())
}

} // verus!
