//! What becomes of a function with new code before it.

use vstd::prelude::*;
use hlbc::opcodes::Opcode;
use hlbc::types::RefType;
use crate::machine::{execute, run, step, Game, Machine, State};
use crate::module::{FunctionView, ModuleView};
use crate::prepend::prepended;

verus! {

/// The instruction uses no register but the first `n`.
pub open spec fn uses_first(op: Opcode, n: u32) -> bool {
    match op {
        Opcode::Label => true,
        Opcode::Mov { dst, src } => dst.0 < n && src.0 < n,
        Opcode::SafeCast { dst, src } => dst.0 < n && src.0 < n,
        Opcode::UnsafeCast { dst, src } => dst.0 < n && src.0 < n,
        Opcode::Null { dst } => dst.0 < n,
        Opcode::Bool { dst, .. } => dst.0 < n,
        Opcode::Int { dst, .. } => dst.0 < n,
        Opcode::Float { dst, .. } => dst.0 < n,
        Opcode::String { dst, .. } => dst.0 < n,
        Opcode::New { dst } => dst.0 < n,
        Opcode::GetGlobal { dst, .. } => dst.0 < n,
        Opcode::GetThis { dst, .. } => 0 < n && dst.0 < n,
        Opcode::Field { dst, obj, .. } => dst.0 < n && obj.0 < n,
        Opcode::SetField { obj, src, .. } => obj.0 < n && src.0 < n,
        Opcode::GetArray { dst, array, index } => dst.0 < n && array.0 < n && index.0 < n,
        Opcode::Incr { dst } => dst.0 < n,
        Opcode::NullCheck { reg } => reg.0 < n,
        Opcode::JAlways { .. } => true,
        Opcode::JTrue { cond, .. } => cond.0 < n,
        Opcode::JFalse { cond, .. } => cond.0 < n,
        Opcode::JNull { reg, .. } => reg.0 < n,
        Opcode::JNotNull { reg, .. } => reg.0 < n,
        Opcode::JSGte { a, b, .. } => a.0 < n && b.0 < n,
        Opcode::JULt { a, b, .. } => a.0 < n && b.0 < n,
        Opcode::Call0 { dst, .. } => dst.0 < n,
        Opcode::Call1 { dst, arg0, .. } => dst.0 < n && arg0.0 < n,
        Opcode::Call2 { dst, arg0, arg1, .. } => dst.0 < n && arg0.0 < n && arg1.0 < n,
        Opcode::Call3 { dst, arg0, arg1, arg2, .. } => dst.0 < n && arg0.0 < n && arg1.0 < n
            && arg2.0 < n,
        Opcode::Call4 { dst, arg0, arg1, arg2, arg3, .. } => dst.0 < n && arg0.0 < n && arg1.0 < n
            && arg2.0 < n && arg3.0 < n,
        Opcode::CallN { dst, args, .. } => dst.0 < n && forall|i: int|
            0 <= i < args@.len() ==> (#[trigger] args@[i]).0 < n,
        Opcode::CallClosure { dst, fun, args } => dst.0 < n && fun.0 < n && forall|i: int|
            0 <= i < args@.len() ==> (#[trigger] args@[i]).0 < n,
        Opcode::Ret { ret } => ret.0 < n,
        _ => true,
    }
}

/// The machine `b` is where `a` is, but `shift` instructions on, and agrees with it on the first
/// `n` registers.
pub open spec fn mirrors(a: Machine, b: Machine, shift: int, n: u32) -> bool {
    match (a, b) {
        (Machine::Running(s), Machine::Running(t)) => {
            &&& t.pc == s.pc + shift
            &&& t.past == s.past
            &&& forall|r: u32| r < n ==> #[trigger] t.regs[r] == s.regs[r]
        },
        (_, _) => a == b,
    }
}

/// An instruction does the same in both machines.
proof fn lemma_same_effect(
    code: ModuleView,
    game: Game,
    s: State,
    t: State,
    op: Opcode,
    shift: int,
    n: u32,
)
    requires
        uses_first(op, n),
        mirrors(Machine::Running(s), Machine::Running(t), shift, n),
    ensures
        mirrors(execute(code, game, s, op), execute(code, game, t, op), shift, n),
{
    match op {
        Opcode::CallN { args, .. } => {
            assert(Seq::new(args@.len(), |i: int| s.reg(args@[i])) =~= Seq::new(
                args@.len(),
                |i: int| t.reg(args@[i]),
            ));
        },
        Opcode::CallClosure { dst, fun, args } => {
            assert(Seq::new(args@.len(), |i: int| s.reg(args@[i])) =~= Seq::new(
                args@.len(),
                |i: int| t.reg(args@[i]),
            ));
        },
        _ => {},
    }
}

/// A machine that has stopped goes nowhere.
proof fn lemma_stopped(code: ModuleView, ops: Seq<Opcode>, game: Game, k: nat)
    ensures
        run(code, ops, game, Machine::Stopped, k) is Stopped,
    decreases k,
{
    if k > 0 {
        lemma_stopped(code, ops, game, (k - 1) as nat);
    }
}

/// Code that is put before a function does not change what the function itself does: from the
/// place behind the new code on, it runs as it ran from its start, whatever is in the registers
/// that were added.
pub proof fn law_own_code_runs_as_before(
    code: ModuleView,
    f: FunctionView,
    regs: Seq<RefType>,
    new: Seq<Opcode>,
    game: Game,
    a: Machine,
    b: Machine,
    n: u32,
    k: nat,
)
    requires
        forall|i: int| 0 <= i < f.ops.len() ==> uses_first(#[trigger] f.ops[i], n),
        mirrors(a, b, new.len() as int, n),
        !(run(code, f.ops, game, a, k) is Stopped),
    ensures
        mirrors(
            run(code, f.ops, game, a, k),
            run(code, prepended(f, regs, new).ops, game, b, k),
            new.len() as int,
            n,
        ),
    decreases k,
{
    if k > 0 {
        let a1 = step(code, f.ops, game, a);
        let b1 = step(code, prepended(f, regs, new).ops, game, b);
        if a1 is Stopped {
            lemma_stopped(code, f.ops, game, (k - 1) as nat);
        }
        if let Machine::Running(s) = a {
            let t = b->Running_0;
            assert(prepended(f, regs, new).ops[t.pc] == f.ops[s.pc]);
            lemma_same_effect(code, game, s, t, f.ops[s.pc], new.len() as int, n);
        }
        law_own_code_runs_as_before(code, f, regs, new, game, a1, b1, n, (k - 1) as nat);
    }
}

} // verus!
