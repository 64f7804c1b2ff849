//! What the instructions do.
//!
//! A machine for the instructions that the patches write, and for those around them. It follows
//! what `hlbc` says of each opcode. What the rest of the game does is open: a [`Game`] answers
//! every call, and says what is in the fields of its own objects, from all that has happened so
//! far. A law that holds of every game holds whatever the game's own functions do.

use vstd::prelude::*;
use hlbc::opcodes::Opcode;
use hlbc::types::Reg;
use crate::module::{Float, ModuleView};

verus! {

/// A value in a register.
pub enum Value {
    Null,
    Bool(bool),
    Int(i32),
    /// A raw pointer to characters.
    Text(Seq<char>),
    /// A constant of the float pool.
    Number(Float),
    /// An object that the function itself made, with the fields it has set.
    Made(Map<usize, Value>),
    /// Anything that the game made.
    Given(int),
}

/// Something that a function did outside its own registers.
pub enum Event {
    /// It called the function of this number.
    Call(usize, Seq<Value>),
    /// It called this closure.
    Invoke(Value, Seq<Value>),
    /// It set this field of this object.
    Store(Value, usize, Value),
}

/// What is around a function. Every answer may depend on all that has happened so far.
pub struct Game {
    /// What the call that happened last returned.
    pub result: spec_fn(Seq<Event>) -> Value,
    /// What is in a field of an object of the game.
    pub field: spec_fn(Seq<Event>, Value, usize) -> Value,
    /// What is in an element of an array.
    pub element: spec_fn(Seq<Event>, Value, i32) -> Value,
    /// What is in a global.
    pub global: spec_fn(Seq<Event>, usize) -> Value,
}

/// A function that is running: the position of its next instruction, its registers, and all that
/// has happened so far.
pub struct State {
    pub pc: int,
    pub regs: Map<u32, Value>,
    pub past: Seq<Event>,
}

/// A function that is running or has ended.
pub enum Machine {
    Running(State),
    /// It returned a value, after all this had happened.
    Returned(Value, Seq<Event>),
    /// It threw an exception, or came to an instruction that this machine does not know.
    Stopped,
}

impl State {
    /// The value of a register.
    pub open spec fn reg(self, reg: Reg) -> Value {
        self.regs[reg.0]
    }

    /// On to the next instruction, with a register set.
    pub open spec fn set(self, dst: Reg, value: Value) -> Machine {
        Machine::Running(
            State { pc: self.pc + 1, regs: self.regs.insert(dst.0, value), past: self.past },
        )
    }

    /// On to the next instruction.
    pub open spec fn next(self) -> Machine {
        Machine::Running(State { pc: self.pc + 1, ..self })
    }

    /// On to the next instruction, or from there by `offset` if `taken`.
    pub open spec fn jump(self, taken: bool, offset: i32) -> Machine {
        Machine::Running(
            State {
                pc: if taken {
                    self.pc + 1 + offset
                } else {
                    self.pc + 1
                },
                ..self
            },
        )
    }

    /// On to the next instruction after a call, with its result in a register.
    pub open spec fn call(self, game: Game, dst: Reg, event: Event) -> Machine {
        let past = self.past.push(event);
        Machine::Running(
            State {
                pc: self.pc + 1,
                regs: self.regs.insert(dst.0, (game.result)(past)),
                past,
            },
        )
    }

    /// What is in a field.
    pub open spec fn get_field(self, game: Game, obj: Value, field: usize) -> Option<Value> {
        match obj {
            Value::Null => None,
            Value::Made(fields) => Some(fields[field]),
            _ => Some((game.field)(self.past, obj, field)),
        }
    }

    /// On to the next instruction, with a field in a register.
    pub open spec fn load(self, game: Game, dst: Reg, obj: Value, field: usize) -> Machine {
        match self.get_field(game, obj, field) {
            Some(value) => self.set(dst, value),
            None => Machine::Stopped,
        }
    }

    /// On to the next instruction, after a field has been set. An object that the function made
    /// is in one register only until it is handed on.
    pub open spec fn store(self, obj: Reg, field: usize, value: Value) -> Machine {
        match self.reg(obj) {
            Value::Null => Machine::Stopped,
            Value::Made(fields) => self.set(obj, Value::Made(fields.insert(field, value))),
            given => Machine::Running(
                State {
                    pc: self.pc + 1,
                    regs: self.regs,
                    past: self.past.push(Event::Store(given, field, value)),
                },
            ),
        }
    }

    /// On to the next instruction, or from there by `offset` if the two integers compare so.
    pub open spec fn compare(
        self,
        a: Reg,
        b: Reg,
        holds: spec_fn(i32, i32) -> bool,
        offset: i32,
    ) -> Machine {
        match (self.reg(a), self.reg(b)) {
            (Value::Int(x), Value::Int(y)) => self.jump(holds(x, y), offset),
            (_, _) => Machine::Stopped,
        }
    }
}

/// Less, of two integers without sign.
pub open spec fn unsigned_less(x: i32, y: i32) -> bool {
    if x >= 0 && y >= 0 {
        x < y
    } else if x < 0 && y < 0 {
        x < y
    } else {
        x >= 0
    }
}

/// What the instruction `op` of the program `code` does.
pub open spec fn execute(code: ModuleView, game: Game, s: State, op: Opcode) -> Machine {
    match op {
        Opcode::Label => s.next(),
        Opcode::Mov { dst, src } => s.set(dst, s.reg(src)),
        Opcode::SafeCast { dst, src } => s.set(dst, s.reg(src)),
        Opcode::UnsafeCast { dst, src } => s.set(dst, s.reg(src)),
        Opcode::Null { dst } => s.set(dst, Value::Null),
        Opcode::Bool { dst, value } => s.set(dst, Value::Bool(value.0)),
        Opcode::Int { dst, ptr } => s.set(dst, Value::Int(code.ints[ptr.0 as int])),
        Opcode::Float { dst, ptr } => s.set(dst, Value::Number(code.floats[ptr.0 as int])),
        Opcode::String { dst, ptr } => s.set(dst, Value::Text(code.strings[ptr.0 as int])),
        Opcode::New { dst } => s.set(dst, Value::Made(Map::empty())),
        Opcode::GetGlobal { dst, global } => s.set(dst, (game.global)(s.past, global.0)),
        Opcode::GetThis { dst, field } => s.load(game, dst, s.reg(Reg(0)), field.0),
        Opcode::Field { dst, obj, field } => s.load(game, dst, s.reg(obj), field.0),
        Opcode::SetField { obj, field, src } => s.store(obj, field.0, s.reg(src)),
        Opcode::GetArray { dst, array, index } => match s.reg(index) {
            Value::Int(i) => s.set(dst, (game.element)(s.past, s.reg(array), i)),
            _ => Machine::Stopped,
        },
        Opcode::Incr { dst } => match s.reg(dst) {
            Value::Int(i) => s.set(dst, Value::Int(i.wrapping_add(1))),
            _ => Machine::Stopped,
        },
        Opcode::NullCheck { reg } => if s.reg(reg) is Null {
            Machine::Stopped
        } else {
            s.next()
        },
        Opcode::JAlways { offset } => s.jump(true, offset),
        Opcode::JTrue { cond, offset } => s.jump(s.reg(cond) == Value::Bool(true), offset),
        Opcode::JFalse { cond, offset } => s.jump(s.reg(cond) != Value::Bool(true), offset),
        Opcode::JNull { reg, offset } => s.jump(s.reg(reg) is Null, offset),
        Opcode::JNotNull { reg, offset } => s.jump(!(s.reg(reg) is Null), offset),
        Opcode::JSGte { a, b, offset } => s.compare(a, b, |x: i32, y: i32| x >= y, offset),
        Opcode::JULt { a, b, offset } => s.compare(
            a,
            b,
            |x: i32, y: i32| unsigned_less(x, y),
            offset,
        ),
        Opcode::Call0 { dst, fun } => s.call(game, dst, Event::Call(fun.0, seq![])),
        Opcode::Call1 { dst, fun, arg0 } => s.call(
            game,
            dst,
            Event::Call(fun.0, seq![s.reg(arg0)]),
        ),
        Opcode::Call2 { dst, fun, arg0, arg1 } => s.call(
            game,
            dst,
            Event::Call(fun.0, seq![s.reg(arg0), s.reg(arg1)]),
        ),
        Opcode::Call3 { dst, fun, arg0, arg1, arg2 } => s.call(
            game,
            dst,
            Event::Call(fun.0, seq![s.reg(arg0), s.reg(arg1), s.reg(arg2)]),
        ),
        Opcode::Call4 { dst, fun, arg0, arg1, arg2, arg3 } => s.call(
            game,
            dst,
            Event::Call(fun.0, seq![s.reg(arg0), s.reg(arg1), s.reg(arg2), s.reg(arg3)]),
        ),
        Opcode::CallN { dst, fun, args } => s.call(
            game,
            dst,
            Event::Call(fun.0, Seq::new(args@.len(), |i: int| s.reg(args@[i]))),
        ),
        Opcode::CallClosure { dst, fun, args } => s.call(
            game,
            dst,
            Event::Invoke(s.reg(fun), Seq::new(args@.len(), |i: int| s.reg(args@[i]))),
        ),
        Opcode::Ret { ret } => Machine::Returned(s.reg(ret), s.past),
        _ => Machine::Stopped,
    }
}

/// One step of the code `ops` of the program `code`.
pub open spec fn step(code: ModuleView, ops: Seq<Opcode>, game: Game, m: Machine) -> Machine {
    match m {
        Machine::Running(s) => if 0 <= s.pc < ops.len() {
            execute(code, game, s, ops[s.pc])
        } else {
            Machine::Stopped
        },
        _ => m,
    }
}

/// `n` steps.
pub open spec fn run(code: ModuleView, ops: Seq<Opcode>, game: Game, m: Machine, n: nat) -> Machine
    decreases n,
{
    if n == 0 {
        m
    } else {
        run(code, ops, game, step(code, ops, game, m), (n - 1) as nat)
    }
}

/// Some number of steps leads from `a` to `b`.
pub open spec fn leads(
    code: ModuleView,
    ops: Seq<Opcode>,
    game: Game,
    a: Machine,
    b: Machine,
) -> bool {
    exists|n: nat| #[trigger] run(code, ops, game, a, n) == b
}

/// Steps after steps.
pub proof fn lemma_run_add(
    code: ModuleView,
    ops: Seq<Opcode>,
    game: Game,
    m: Machine,
    n: nat,
    k: nat,
)
    ensures
        run(code, ops, game, m, n + k) == run(code, ops, game, run(code, ops, game, m, n), k),
    decreases n,
{
    if n > 0 {
        lemma_run_add(code, ops, game, step(code, ops, game, m), (n - 1) as nat, k);
    }
}

/// What leads to what leads on.
pub proof fn lemma_leads_trans(
    code: ModuleView,
    ops: Seq<Opcode>,
    game: Game,
    a: Machine,
    b: Machine,
    c: Machine,
)
    requires
        leads(code, ops, game, a, b),
        leads(code, ops, game, b, c),
    ensures
        leads(code, ops, game, a, c),
{
    let n = choose|n: nat| #[trigger] run(code, ops, game, a, n) == b;
    let k = choose|k: nat| #[trigger] run(code, ops, game, b, k) == c;
    lemma_run_add(code, ops, game, a, n, k);
}

/// One step leads on.
pub proof fn lemma_leads_step(
    code: ModuleView,
    ops: Seq<Opcode>,
    game: Game,
    a: Machine,
    b: Machine,
)
    requires
        leads(code, ops, game, step(code, ops, game, a), b),
    ensures
        leads(code, ops, game, a, b),
{
    let c = step(code, ops, game, a);
    let k = choose|k: nat| #[trigger] run(code, ops, game, c, k) == b;
    assert(run(code, ops, game, a, k + 1) == b);
}

/// Where a function is, it is.
pub proof fn lemma_leads_here(code: ModuleView, ops: Seq<Opcode>, game: Game, a: Machine)
    ensures
        leads(code, ops, game, a, a),
{
    assert(run(code, ops, game, a, 0) == a);
}

} // verus!
