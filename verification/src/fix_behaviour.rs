//! What the corrections to the game's own code do when it runs.

use vstd::prelude::*;
use hlbc::opcodes::Opcode;
use hlbc::types::{RefFun, Reg};
use crate::fixes::{calling_back, NULL_JUMP_OP, REVEAL_OP, SKIP_PATH_PUSH_OP};
use crate::machine::{
    leads, lemma_leads_here, lemma_leads_step, step, Event, Game, Machine, State, Value,
};
use crate::module::{FunctionView, ModuleView};

verus! {

/// `animateLastPath` calls back when it has nothing to draw: where no node has been clicked, it
/// calls its callback, without arguments, and returns.
pub proof fn law_callback_is_called(
    code: ModuleView,
    f: FunctionView,
    reg: Reg,
    args: Vec<Reg>,
    game: Game,
    s: State,
)
    requires
        f.ops.len() == 19,
        args@.len() == 0,
        s.pc == NULL_JUMP_OP,
        s.reg(reg) is Null,
    ensures
        ({
            let past = s.past.push(Event::Invoke(s.reg(Reg(1)), Seq::empty()));
            leads(
                code,
                calling_back(f, reg, args).ops,
                game,
                Machine::Running(s),
                Machine::Returned((game.result)(past), past),
            )
        }),
{
    let ops = calling_back(f, reg, args).ops;
    let past = s.past.push(Event::Invoke(s.reg(Reg(1)), Seq::empty()));
    let m0 = Machine::Running(s);
    let m1 = step(code, ops, game, m0);
    let m2 = step(code, ops, game, m1);
    let m3 = step(code, ops, game, m2);
    assert(m1 is Running && m1->Running_0.pc == 19);
    let s1 = m1->Running_0;
    assert(Seq::new(args@.len(), |i: int| s1.reg(args@[i])) =~= Seq::<Value>::empty());
    assert(m2 is Running && m2->Running_0.pc == 20 && m2->Running_0.past == past);
    assert(m3 == Machine::Returned((game.result)(past), past));
    lemma_leads_here(code, ops, game, m3);
    lemma_leads_step(code, ops, game, m2, m3);
    lemma_leads_step(code, ops, game, m1, m3);
    lemma_leads_step(code, ops, game, m0, m3);
}

/// `animateLastPath` does what it did before where a node has been clicked: every step is the
/// same.
pub proof fn law_path_is_drawn_as_before(
    code: ModuleView,
    f: FunctionView,
    reg: Reg,
    args: Vec<Reg>,
    game: Game,
    s: State,
)
    requires
        f.ops.len() == 19,
        f.ops[NULL_JUMP_OP as int] == (Opcode::JNull { reg, offset: 16 }),
        0 <= s.pc < 19,
        s.pc == NULL_JUMP_OP ==> !(s.reg(reg) is Null),
    ensures
        step(code, calling_back(f, reg, args).ops, game, Machine::Running(s)) == step(
            code,
            f.ops,
            game,
            Machine::Running(s),
        ),
{
}

/// `onBattleCompleted` never leaves a won battle out of the save: where it did so when the row of
/// the battle had been won before, it goes on to the next instruction, and changes nothing.
/// Everywhere else every step is the same.
pub proof fn law_won_battle_is_recorded(
    code: ModuleView,
    f: FunctionView,
    game: Game,
    s: State,
)
    requires
        f.ops.len() > SKIP_PATH_PUSH_OP,
        0 <= s.pc < f.ops.len(),
    ensures
        ({
            let ops = f.ops.update(SKIP_PATH_PUSH_OP as int, Opcode::JAlways { offset: 0 });
            step(code, ops, game, Machine::Running(s)) == if s.pc == SKIP_PATH_PUSH_OP {
                s.next()
            } else {
                step(code, f.ops, game, Machine::Running(s))
            }
        }),
{
}

/// The reveal of the next column shows the true state of each node: where a node was taken for
/// unlocked, `Conquest.getBattleState` (number `gate`) is asked, with the conquest in register 6
/// and the identifier of the node in register 4, and its answer goes where the constant went.
/// Everywhere else every step is the same.
pub proof fn law_reveal_asks_for_the_state(
    code: ModuleView,
    f: FunctionView,
    dst: Reg,
    gate: usize,
    game: Game,
    s: State,
)
    requires
        f.ops.len() > REVEAL_OP,
        0 <= s.pc < f.ops.len(),
    ensures
        ({
            let ops = f.ops.update(
                REVEAL_OP as int,
                Opcode::Call2 { dst, fun: RefFun(gate), arg0: Reg(6), arg1: Reg(4) },
            );
            step(code, ops, game, Machine::Running(s)) == if s.pc == REVEAL_OP {
                s.call(game, dst, Event::Call(gate, seq![s.reg(Reg(6)), s.reg(Reg(4))]))
            } else {
                step(code, f.ops, game, Machine::Running(s))
            }
        }),
{
}

} // verus!
