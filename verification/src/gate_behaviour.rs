//! What the check that locks the nodes of the map does when it runs.

use vstd::prelude::*;
use hlbc::opcodes::Opcode;
use hlbc::types::{RefField, RefFun, RefGlobal, RefInt, RefString, Reg};
use crate::gate::{byte_len, gate_ops, gated, GateCalls, GateTexts, StringShape};
use crate::machine::{
    leads, lemma_leads_here, lemma_leads_step, lemma_leads_trans, step, Event, Game, Machine, State,
    Value,
};
use crate::module::{FunctionView, ModuleView};

verus! {

/// A string object for a text.
pub open spec fn string_value(shape: StringShape, text: Seq<char>) -> Value {
    Value::Made(
        Map::empty().insert(shape.bytes.0, Value::Text(text)).insert(
            shape.length.0,
            Value::Int(byte_len(text)),
        ),
    )
}

/// All that has happened after the game has been asked for the native path of `name`.
pub open spec fn path_asked(get_path: usize, past: Seq<Event>, name: Value) -> Seq<Event> {
    past.push(Event::Call(get_path, seq![name]))
}

/// All that has happened after the game has been asked whether the file `name` exists.
pub open spec fn file_asked(
    game: Game,
    get_path: usize,
    exists: usize,
    past: Seq<Event>,
    name: Value,
) -> Seq<Event> {
    let asked = path_asked(get_path, past, name);
    asked.push(Event::Call(exists, seq![(game.result)(asked)]))
}

/// Whether the file `name` exists, as the game answers.
pub open spec fn file_exists(
    game: Game,
    get_path: usize,
    exists: usize,
    past: Seq<Event>,
    name: Value,
) -> bool {
    (game.result)(file_asked(game, get_path, exists, past, name)) == Value::Bool(true)
}

/// The instructions `part` are those of `ops` from `at` on.
pub open spec fn holds_at(ops: Seq<Opcode>, at: int, part: Seq<Opcode>) -> bool {
    &&& 0 <= at
    &&& at + part.len() <= ops.len()
    &&& forall|i: int| 0 <= i < part.len() ==> ops[at + i] == #[trigger] part[i]
}

/// The instructions that make a string object.
pub open spec fn string_ops(
    shape: StringShape,
    text_at: usize,
    len_at: usize,
    bytes: Reg,
    len: Reg,
    obj: Reg,
) -> Seq<Opcode> {
    seq![
        Opcode::String { dst: bytes, ptr: RefString(text_at) },
        Opcode::Int { dst: len, ptr: RefInt(len_at) },
        Opcode::New { dst: obj },
        Opcode::SetField { obj, field: shape.bytes, src: bytes },
        Opcode::SetField { obj, field: shape.length, src: len },
    ]
}

/// The two states agree on all registers but some.
pub open spec fn same_but(a: State, b: State, some: Set<u32>) -> bool {
    forall|r: u32| !some.contains(r) ==> #[trigger] b.regs[r] == a.regs[r]
}

/// The instructions that make a string object make it.
pub proof fn lemma_string_made(
    code: ModuleView,
    ops: Seq<Opcode>,
    game: Game,
    s: State,
    shape: StringShape,
    text_at: usize,
    len_at: usize,
    text: Seq<char>,
    bytes: Reg,
    len: Reg,
    obj: Reg,
) -> (t: State)
    requires
        holds_at(ops, s.pc, string_ops(shape, text_at, len_at, bytes, len, obj)),
        code.strings[text_at as int] == text,
        code.ints[len_at as int] == byte_len(text),
        bytes.0 != len.0,
        bytes.0 != obj.0,
        len.0 != obj.0,
    ensures
        leads(code, ops, game, Machine::Running(s), Machine::Running(t)),
        t.pc == s.pc + 5,
        t.past == s.past,
        t.reg(obj) == string_value(shape, text),
        same_but(s, t, set![bytes.0, len.0, obj.0]),
{
    let part = string_ops(shape, text_at, len_at, bytes, len, obj);
    assert(part[0] == ops[s.pc + 0]);
    assert(part[1] == ops[s.pc + 1]);
    assert(part[2] == ops[s.pc + 2]);
    assert(part[3] == ops[s.pc + 3]);
    assert(part[4] == ops[s.pc + 4]);
    let m0 = Machine::Running(s);
    let m1 = step(code, ops, game, m0);
    let m2 = step(code, ops, game, m1);
    let m3 = step(code, ops, game, m2);
    let m4 = step(code, ops, game, m3);
    let m5 = step(code, ops, game, m4);
    assert(m1 is Running && m1->Running_0.pc == s.pc + 1);
    assert(m2 is Running && m2->Running_0.pc == s.pc + 2);
    assert(m3 is Running && m3->Running_0.pc == s.pc + 3);
    assert(m4 is Running && m4->Running_0.pc == s.pc + 4);
    assert(m5 is Running && m5->Running_0.pc == s.pc + 5);
    let t = m5->Running_0;
    lemma_leads_here(code, ops, game, m5);
    lemma_leads_step(code, ops, game, m4, m5);
    lemma_leads_step(code, ops, game, m3, m5);
    lemma_leads_step(code, ops, game, m2, m5);
    lemma_leads_step(code, ops, game, m1, m5);
    lemma_leads_step(code, ops, game, m0, m5);
    t
}

/// The instructions that ask whether a file exists, whose name is in the register `obj`.
pub open spec fn ask_ops(get_path: usize, exists: usize, obj: Reg, path: Reg, answer: Reg) -> Seq<
    Opcode,
> {
    seq![
        Opcode::Call1 { dst: path, fun: RefFun(get_path), arg0: obj },
        Opcode::Call1 { dst: answer, fun: RefFun(exists), arg0: path },
    ]
}

/// The instructions that ask whether a file exists do so.
pub proof fn lemma_file_asked(
    code: ModuleView,
    ops: Seq<Opcode>,
    game: Game,
    s: State,
    get_path: usize,
    exists: usize,
    obj: Reg,
    path: Reg,
    answer: Reg,
) -> (t: State)
    requires
        holds_at(ops, s.pc, ask_ops(get_path, exists, obj, path, answer)),
        path.0 != answer.0,
    ensures
        leads(code, ops, game, Machine::Running(s), Machine::Running(t)),
        t.pc == s.pc + 2,
        t.past == file_asked(game, get_path, exists, s.past, s.reg(obj)),
        t.reg(answer) == (game.result)(t.past),
        t.reg(path) == (game.result)(path_asked(get_path, s.past, s.reg(obj))),
        same_but(s, t, set![path.0, answer.0]),
{
    let part = ask_ops(get_path, exists, obj, path, answer);
    assert(part[0] == ops[s.pc + 0]);
    assert(part[1] == ops[s.pc + 1]);
    let m0 = Machine::Running(s);
    let m1 = step(code, ops, game, m0);
    let m2 = step(code, ops, game, m1);
    assert(m1 is Running && m1->Running_0.pc == s.pc + 1);
    assert(m2 is Running && m2->Running_0.pc == s.pc + 2);
    lemma_leads_here(code, ops, game, m2);
    lemma_leads_step(code, ops, game, m1, m2);
    lemma_leads_step(code, ops, game, m0, m2);
    m2->Running_0
}

/// What the check is about, besides the game.
pub struct Gate {
    pub shape: StringShape,
    pub calls: GateCalls,
    pub texts: GateTexts,
    /// The prefix of the marker paths.
    pub prefix: Seq<char>,
    /// The path of the file of the non-linear mode.
    pub flag: Seq<char>,
}

impl Gate {
    /// The texts of the check are where it looks for them.
    pub open spec fn in_pools(self, code: ModuleView) -> bool {
        &&& code.strings[self.texts.prefix as int] == self.prefix
        &&& code.strings[self.texts.flag as int] == self.flag
        &&& code.ints[self.texts.prefix_len as int] == byte_len(self.prefix)
        &&& code.ints[self.texts.flag_len as int] == byte_len(self.flag)
    }

    /// The instructions of the check.
    pub open spec fn ops(self) -> Seq<Opcode> {
        gate_ops(self.shape, self.calls, self.texts)
    }

    /// All that has happened after the game has been asked for the file of the non-linear mode.
    pub open spec fn flag_asked(self, game: Game, past: Seq<Event>) -> Seq<Event> {
        file_asked(
            game,
            self.calls.get_path,
            self.calls.exists,
            past,
            string_value(self.shape, self.flag),
        )
    }

    /// Whether the file of the non-linear mode exists.
    pub open spec fn flag_exists(self, game: Game, past: Seq<Event>) -> bool {
        file_exists(
            game,
            self.calls.get_path,
            self.calls.exists,
            past,
            string_value(self.shape, self.flag),
        )
    }

    /// All that has happened after the game has put the identifier of the node behind the prefix.
    pub open spec fn named(self, past: Seq<Event>, id: Value) -> Seq<Event> {
        past.push(Event::Call(self.calls.add, seq![string_value(self.shape, self.prefix), id]))
    }

    /// All that has happened after the game has been asked for the marker of the node.
    pub open spec fn marker_asked(self, game: Game, past: Seq<Event>, id: Value) -> Seq<Event> {
        let named = self.named(past, id);
        file_asked(game, self.calls.get_path, self.calls.exists, named, (game.result)(named))
    }

    /// Whether the marker of the node exists.
    pub open spec fn marker_exists(self, game: Game, past: Seq<Event>, id: Value) -> bool {
        let named = self.named(past, id);
        file_exists(game, self.calls.get_path, self.calls.exists, named, (game.result)(named))
    }

    /// Whether the check unlocks a node, and all that has happened by then. `reachable` is the
    /// answer to the game's own question.
    pub open spec fn passes(self, game: Game, past: Seq<Event>, id: Value, reachable: bool) -> (
        bool,
        Seq<Event>,
    ) {
        let asked = self.flag_asked(game, past);
        if self.flag_exists(game, past) || reachable {
            (self.marker_exists(game, asked, id), self.marker_asked(game, asked, id))
        } else {
            (false, asked)
        }
    }
}

/// The check goes on to the instruction that unlocks the node, or to the one that locks it, as
/// [`Gate::passes`] says.
pub proof fn lemma_check_runs(code: ModuleView, ops: Seq<Opcode>, game: Game, s: State, gate: Gate) -> (t:
    State)
    requires
        gate.in_pools(code),
        holds_at(ops, 9, gate.ops()),
        s.pc == 9,
    ensures
        leads(code, ops, game, Machine::Running(s), Machine::Running(t)),
        ({
            let (unlocks, past) = gate.passes(
                game,
                s.past,
                s.reg(Reg(1)),
                s.reg(Reg(5)) == Value::Bool(true),
            );
            &&& t.pc == if unlocks {
                27int
            } else {
                29
            }
            &&& t.past == past
        }),
{
    let part = gate.ops();
    let texts = gate.texts;
    let calls = gate.calls;
    let a = string_ops(gate.shape, texts.flag, texts.flag_len, Reg(8), Reg(9), Reg(10));
    assert(holds_at(ops, 9, a)) by {
        assert forall|i: int| 0 <= i < a.len() implies ops[9 + i] == #[trigger] a[i] by {
            assert(a[i] == part[i]);
        }
    }
    let s1 = lemma_string_made(
        code,
        ops,
        game,
        s,
        gate.shape,
        texts.flag,
        texts.flag_len,
        gate.flag,
        Reg(8),
        Reg(9),
        Reg(10),
    );
    let b = ask_ops(calls.get_path, calls.exists, Reg(10), Reg(11), Reg(12));
    assert(holds_at(ops, 14, b)) by {
        assert forall|i: int| 0 <= i < b.len() implies ops[14 + i] == #[trigger] b[i] by {
            assert(b[i] == part[5 + i]);
        }
    }
    let s2 = lemma_file_asked(
        code,
        ops,
        game,
        s1,
        calls.get_path,
        calls.exists,
        Reg(10),
        Reg(11),
        Reg(12),
    );
    let m = Machine::Running(s);
    lemma_leads_trans(code, ops, game, m, Machine::Running(s1), Machine::Running(s2));
    assert(part[7] == ops[16]);
    assert(part[8] == ops[17]);
    assert(s2.regs[1] == s.regs[1]);
    assert(s2.regs[5] == s.regs[5]);
    let m3 = step(code, ops, game, Machine::Running(s2));
    lemma_leads_here(code, ops, game, m3);
    lemma_leads_step(code, ops, game, Machine::Running(s2), m3);
    lemma_leads_trans(code, ops, game, m, Machine::Running(s2), m3);
    let m4 = if gate.flag_exists(game, s.past) {
        m3
    } else {
        step(code, ops, game, m3)
    };
    if !gate.flag_exists(game, s.past) {
        lemma_leads_here(code, ops, game, m4);
        lemma_leads_step(code, ops, game, m3, m4);
        lemma_leads_trans(code, ops, game, m, m3, m4);
    }
    let s4 = m4->Running_0;
    assert(m4 is Running);
    if !gate.flag_exists(game, s.past) && s.reg(Reg(5)) != Value::Bool(true) {
        assert(s4.pc == 29);
        s4
    } else {
        assert(s4.pc == 18);
        let t = lemma_marker_checked(code, ops, game, s4, gate);
        lemma_leads_trans(code, ops, game, m, m4, Machine::Running(t));
        t
    }
}

/// The second half of the check, which asks for the marker.
proof fn lemma_marker_checked(
    code: ModuleView,
    ops: Seq<Opcode>,
    game: Game,
    s: State,
    gate: Gate,
) -> (t: State)
    requires
        gate.in_pools(code),
        holds_at(ops, 9, gate.ops()),
        s.pc == 18,
    ensures
        leads(code, ops, game, Machine::Running(s), Machine::Running(t)),
        t.pc == if gate.marker_exists(game, s.past, s.reg(Reg(1))) {
            27int
        } else {
            29
        },
        t.past == gate.marker_asked(game, s.past, s.reg(Reg(1))),
{
    let part = gate.ops();
    let texts = gate.texts;
    let calls = gate.calls;
    let m = Machine::Running(s);
    let a = string_ops(gate.shape, texts.prefix, texts.prefix_len, Reg(13), Reg(14), Reg(15));
    assert(holds_at(ops, 18, a)) by {
        assert forall|i: int| 0 <= i < a.len() implies ops[18 + i] == #[trigger] a[i] by {
            assert(a[i] == part[9 + i]);
        }
    }
    let s1 = lemma_string_made(
        code,
        ops,
        game,
        s,
        gate.shape,
        texts.prefix,
        texts.prefix_len,
        gate.prefix,
        Reg(13),
        Reg(14),
        Reg(15),
    );
    assert(part[14] == ops[23]);
    assert(s1.regs[1] == s.regs[1]);
    let m2 = step(code, ops, game, Machine::Running(s1));
    let s2 = m2->Running_0;
    assert(m2 is Running && s2.pc == 24 && s2.past == gate.named(s.past, s.reg(Reg(1))));
    lemma_leads_here(code, ops, game, m2);
    lemma_leads_step(code, ops, game, Machine::Running(s1), m2);
    lemma_leads_trans(code, ops, game, m, Machine::Running(s1), m2);
    let b = ask_ops(calls.get_path, calls.exists, Reg(16), Reg(17), Reg(18));
    assert(holds_at(ops, 24, b)) by {
        assert forall|i: int| 0 <= i < b.len() implies ops[24 + i] == #[trigger] b[i] by {
            assert(b[i] == part[15 + i]);
        }
    }
    let s3 = lemma_file_asked(
        code,
        ops,
        game,
        s2,
        calls.get_path,
        calls.exists,
        Reg(16),
        Reg(17),
        Reg(18),
    );
    lemma_leads_trans(code, ops, game, m, m2, Machine::Running(s3));
    assert(part[17] == ops[26]);
    let m4 = step(code, ops, game, Machine::Running(s3));
    lemma_leads_here(code, ops, game, m4);
    lemma_leads_step(code, ops, game, Machine::Running(s3), m4);
    lemma_leads_trans(code, ops, game, m, Machine::Running(s3), m4);
    m4->Running_0
}

/// What the game's own `Conquest.getBattleState` refers to.
pub struct OwnCode {
    /// The number of the function that looks up how far a battle has come.
    pub get_progress: usize,
    /// The number of the function that looks up a battle.
    pub get_battle: usize,
    /// The field of a battle that holds its column.
    pub column: RefField,
    /// The number of the function that tells whether a column is reachable.
    pub is_reachable: usize,
    /// The globals that stand for a node that is done, unlocked, or locked, with their types.
    pub done: usize,
    pub unlocked: usize,
    pub locked: usize,
}

impl OwnCode {
    /// The instructions of the game's own `Conquest.getBattleState`.
    pub open spec fn ops(self) -> Seq<Opcode> {
        seq![
            Opcode::Call2 { dst: Reg(2), fun: RefFun(self.get_progress), arg0: Reg(0), arg1: Reg(1) },
            Opcode::JNull { reg: Reg(2), offset: 2 },
            Opcode::GetGlobal { dst: Reg(3), global: RefGlobal(self.done) },
            Opcode::Ret { ret: Reg(3) },
            Opcode::Call2 { dst: Reg(4), fun: RefFun(self.get_battle), arg0: Reg(0), arg1: Reg(1) },
            Opcode::NullCheck { reg: Reg(4) },
            Opcode::Field { dst: Reg(6), obj: Reg(4), field: self.column },
            Opcode::SafeCast { dst: Reg(7), src: Reg(6) },
            Opcode::Call2 { dst: Reg(5), fun: RefFun(self.is_reachable), arg0: Reg(0), arg1: Reg(7) },
            Opcode::JFalse { cond: Reg(5), offset: 2 },
            Opcode::GetGlobal { dst: Reg(3), global: RefGlobal(self.unlocked) },
            Opcode::Ret { ret: Reg(3) },
            Opcode::GetGlobal { dst: Reg(3), global: RefGlobal(self.locked) },
            Opcode::Ret { ret: Reg(3) },
        ]
    }
}

/// What `Conquest.getBattleState` says of a node.
pub enum Verdict {
    Done,
    Unlocked,
    Locked,
    /// It throws an exception: there is no such battle.
    Thrown,
}

/// How `Conquest.getBattleState` ends with a verdict, after `past`.
pub open spec fn ending(game: Game, own: OwnCode, verdict: Verdict, past: Seq<Event>) -> Machine {
    match verdict {
        Verdict::Done => Machine::Returned((game.global)(past, own.done), past),
        Verdict::Unlocked => Machine::Returned((game.global)(past, own.unlocked), past),
        Verdict::Locked => Machine::Returned((game.global)(past, own.locked), past),
        Verdict::Thrown => Machine::Stopped,
    }
}

/// What the game's own code says of the node `id`, and all that has happened by then.
pub open spec fn own_verdict(
    game: Game,
    own: OwnCode,
    past: Seq<Event>,
    conquest: Value,
    id: Value,
) -> (Verdict, Seq<Event>) {
    let p1 = past.push(Event::Call(own.get_progress, seq![conquest, id]));
    if !((game.result)(p1) is Null) {
        (Verdict::Done, p1)
    } else {
        let p2 = p1.push(Event::Call(own.get_battle, seq![conquest, id]));
        let battle = (game.result)(p2);
        let column = match battle {
            Value::Made(fields) => fields[own.column.0],
            _ => (game.field)(p2, battle, own.column.0),
        };
        let p3 = p2.push(Event::Call(own.is_reachable, seq![conquest, column]));
        if battle is Null {
            (Verdict::Thrown, p2)
        } else if (game.result)(p3) == Value::Bool(true) {
            (Verdict::Unlocked, p3)
        } else {
            (Verdict::Locked, p3)
        }
    }
}

/// What the patched code says of the node `id`, and all that has happened by then.
pub open spec fn new_verdict(
    game: Game,
    own: OwnCode,
    gate: Gate,
    past: Seq<Event>,
    conquest: Value,
    id: Value,
) -> (Verdict, Seq<Event>) {
    match own_verdict(game, own, past, conquest, id) {
        (Verdict::Unlocked, asked) => if gate.marker_exists(game, gate.flag_asked(game, asked), id) {
            (Verdict::Unlocked, gate.marker_asked(game, gate.flag_asked(game, asked), id))
        } else {
            (Verdict::Locked, gate.marker_asked(game, gate.flag_asked(game, asked), id))
        },
        (Verdict::Locked, asked) => if !gate.flag_exists(game, asked) {
            (Verdict::Locked, gate.flag_asked(game, asked))
        } else if gate.marker_exists(game, gate.flag_asked(game, asked), id) {
            (Verdict::Unlocked, gate.marker_asked(game, gate.flag_asked(game, asked), id))
        } else {
            (Verdict::Locked, gate.marker_asked(game, gate.flag_asked(game, asked), id))
        },
        other => other,
    }
}

/// The first half of both codes, up to the answer to the game's own question.
proof fn lemma_first_half(
    code: ModuleView,
    ops: Seq<Opcode>,
    game: Game,
    s: State,
    own: OwnCode,
) -> (m: Machine)
    requires
        s.pc == 0,
        ops.len() >= 14,
        forall|i: int| 0 <= i < 9 ==> #[trigger] ops[i] == own.ops()[i],
    ensures
        leads(code, ops, game, Machine::Running(s), m),
        ({
            let (verdict, past) = own_verdict(game, own, s.past, s.reg(Reg(0)), s.reg(Reg(1)));
            match verdict {
                Verdict::Done | Verdict::Thrown => m == ending(game, own, verdict, past),
                _ => {
                    &&& m is Running
                    &&& m->Running_0.pc == 9
                    &&& m->Running_0.past == past
                    &&& m->Running_0.regs[1] == s.regs[1]
                    &&& (m->Running_0.regs[5] == Value::Bool(true)) == (verdict is Unlocked)
                },
            }
        }),
{
    let m0 = Machine::Running(s);
    let p1 = s.past.push(Event::Call(own.get_progress, seq![s.reg(Reg(0)), s.reg(Reg(1))]));
    let m1 = step(code, ops, game, m0);
    let m2 = step(code, ops, game, m1);
    let m3 = step(code, ops, game, m2);
    let m4 = step(code, ops, game, m3);
    let m5 = step(code, ops, game, m4);
    let m6 = step(code, ops, game, m5);
    let m7 = step(code, ops, game, m6);
    assert(ops[0] == own.ops()[0] && ops[1] == own.ops()[1]);
    assert(m1 is Running && m1->Running_0.pc == 1 && m1->Running_0.past == p1);
    if !((game.result)(p1) is Null) {
        assert(ops[2] == own.ops()[2] && ops[3] == own.ops()[3]);
        assert(m2 is Running && m2->Running_0.pc == 2);
        assert(m3 is Running && m3->Running_0.pc == 3);
        lemma_leads_here(code, ops, game, m4);
        lemma_leads_step(code, ops, game, m3, m4);
        lemma_leads_step(code, ops, game, m2, m4);
        lemma_leads_step(code, ops, game, m1, m4);
        lemma_leads_step(code, ops, game, m0, m4);
        m4
    } else {
        assert(m2 is Running && m2->Running_0.pc == 4);
        assert(ops[4] == own.ops()[4] && ops[5] == own.ops()[5]);
        assert(m3 is Running && m3->Running_0.pc == 5);
        let p2 = p1.push(Event::Call(own.get_battle, seq![s.reg(Reg(0)), s.reg(Reg(1))]));
        assert(m3->Running_0.past == p2);
        if (game.result)(p2) is Null {
            assert(m4 is Stopped);
            lemma_leads_here(code, ops, game, m4);
            lemma_leads_step(code, ops, game, m3, m4);
            lemma_leads_step(code, ops, game, m2, m4);
            lemma_leads_step(code, ops, game, m1, m4);
            lemma_leads_step(code, ops, game, m0, m4);
            m4
        } else {
            assert(ops[6] == own.ops()[6] && ops[7] == own.ops()[7] && ops[8] == own.ops()[8]);
            assert(m4 is Running && m4->Running_0.pc == 6);
            assert(m5 is Running && m5->Running_0.pc == 7);
            assert(m6 is Running && m6->Running_0.pc == 8);
            assert(m7 is Running && m7->Running_0.pc == 9);
            lemma_leads_here(code, ops, game, m7);
            lemma_leads_step(code, ops, game, m6, m7);
            lemma_leads_step(code, ops, game, m5, m7);
            lemma_leads_step(code, ops, game, m4, m7);
            lemma_leads_step(code, ops, game, m3, m7);
            lemma_leads_step(code, ops, game, m2, m7);
            lemma_leads_step(code, ops, game, m1, m7);
            lemma_leads_step(code, ops, game, m0, m7);
            m7
        }
    }
}

/// A global is loaded and returned.
proof fn lemma_returns_global(
    code: ModuleView,
    ops: Seq<Opcode>,
    game: Game,
    s: State,
    global: usize,
)
    requires
        0 <= s.pc,
        s.pc + 1 < ops.len(),
        ops[s.pc] == (Opcode::GetGlobal { dst: Reg(3), global: RefGlobal(global) }),
        ops[s.pc + 1] == (Opcode::Ret { ret: Reg(3) }),
    ensures
        leads(
            code,
            ops,
            game,
            Machine::Running(s),
            Machine::Returned((game.global)(s.past, global), s.past),
        ),
{
    let m0 = Machine::Running(s);
    let m1 = step(code, ops, game, m0);
    let m2 = step(code, ops, game, m1);
    assert(m1 is Running && m1->Running_0.pc == s.pc + 1);
    lemma_leads_here(code, ops, game, m2);
    lemma_leads_step(code, ops, game, m1, m2);
    lemma_leads_step(code, ops, game, m0, m2);
}

/// The marker of a node is asked for on top of the game's own question.
///
/// Whatever the game answers, the patched `Conquest.getBattleState` says of a node what the
/// game's own code says of it, but for this: a node that the game's own code would unlock is
/// locked where it has no marker, and a node that the game's own code would lock because its
/// column is not reachable is unlocked where it has a marker and the file of the non-linear mode
/// exists. A node without a marker is never unlocked.
pub proof fn law_marker_is_asked_for(
    code: ModuleView,
    f: FunctionView,
    game: Game,
    s: State,
    own: OwnCode,
    gate: Gate,
)
    requires
        f.ops == own.ops(),
        gate.in_pools(code),
        s.pc == 0,
    ensures
        ({
            let (verdict, past) = own_verdict(game, own, s.past, s.reg(Reg(0)), s.reg(Reg(1)));
            leads(code, f.ops, game, Machine::Running(s), ending(game, own, verdict, past))
        }),
        ({
            let (verdict, past) = new_verdict(
                game,
                own,
                gate,
                s.past,
                s.reg(Reg(0)),
                s.reg(Reg(1)),
            );
            leads(
                code,
                gated(f, gate.shape, gate.calls, gate.texts).ops,
                game,
                Machine::Running(s),
                ending(game, own, verdict, past),
            )
        }),
{
    lemma_own_runs(code, f.ops, game, s, own);
    let ops = gated(f, gate.shape, gate.calls, gate.texts).ops;
    let m = lemma_first_half(code, ops, game, s, own);
    let (verdict, past) = own_verdict(game, own, s.past, s.reg(Reg(0)), s.reg(Reg(1)));
    if verdict is Unlocked || verdict is Locked {
        let s1 = m->Running_0;
        assert(holds_at(ops, 9, gate.ops()));
        let t = lemma_check_runs(code, ops, game, s1, gate);
        assert(ops[27] == own.ops()[10] && ops[28] == own.ops()[11]);
        assert(ops[29] == own.ops()[12] && ops[30] == own.ops()[13]);
        let global = if t.pc == 27 {
            own.unlocked
        } else {
            own.locked
        };
        lemma_returns_global(code, ops, game, t, global);
        let end = Machine::Returned((game.global)(t.past, global), t.past);
        lemma_leads_trans(code, ops, game, m, Machine::Running(t), end);
        lemma_leads_trans(code, ops, game, Machine::Running(s), m, end);
    }
}

/// The game's own code ends as [`own_verdict`] says.
proof fn lemma_own_runs(code: ModuleView, ops: Seq<Opcode>, game: Game, s: State, own: OwnCode)
    requires
        ops == own.ops(),
        s.pc == 0,
    ensures
        ({
            let (verdict, past) = own_verdict(game, own, s.past, s.reg(Reg(0)), s.reg(Reg(1)));
            leads(code, ops, game, Machine::Running(s), ending(game, own, verdict, past))
        }),
{
    let m = lemma_first_half(code, ops, game, s, own);
    let (verdict, past) = own_verdict(game, own, s.past, s.reg(Reg(0)), s.reg(Reg(1)));
    if verdict is Unlocked || verdict is Locked {
        let m1 = step(code, ops, game, m);
        let t = m1->Running_0;
        assert(m1 is Running && t.past == past);
        lemma_leads_here(code, ops, game, m1);
        lemma_leads_step(code, ops, game, m, m1);
        let global = if verdict is Unlocked {
            own.unlocked
        } else {
            own.locked
        };
        lemma_returns_global(code, ops, game, t, global);
        let end = Machine::Returned((game.global)(past, global), past);
        lemma_leads_trans(code, ops, game, m, m1, end);
        lemma_leads_trans(code, ops, game, Machine::Running(s), m, end);
    }
}

} // verus!
