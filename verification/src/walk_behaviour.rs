//! What the walk over the nodes of the map does when it runs.

use vstd::prelude::*;
use hlbc::opcodes::Opcode;
use hlbc::types::Reg;
use crate::gate_behaviour::holds_at;
use crate::machine::{
    leads, lemma_leads_here, lemma_leads_step, lemma_leads_trans, step, Event, Game, Machine, State,
    Value,
};
use crate::module::ModuleView;
use crate::refresh::{
    walk_ops, walk_regs, ARRAYOBJ_ARRAY, ARRAYOBJ_LENGTH, BATTLEDATA_INFID, BATTLE_DATA,
    CMC_CONQUEST, CMC_CONTAINER, MAPBUTTON_DATA, MAPCONTAINER_BUTTONS,
};

verus! {

/// A node of the map: its button, and the identifier of its battle.
pub struct Node {
    pub button: Value,
    pub id: Value,
}

/// A column of the map: the object that holds its buttons, and its nodes.
pub struct Column {
    pub object: Value,
    pub nodes: Seq<Node>,
}

/// The map while it is open.
pub struct OpenMap {
    pub conquest: Value,
    pub container: Value,
    /// The object that holds the columns.
    pub object: Value,
    pub columns: Seq<Column>,
}

/// After `past`, the object `object` is an array of `n` elements.
pub open spec fn array_at(game: Game, past: Seq<Event>, object: Value, n: nat) -> bool {
    (game.field)(past, object, ARRAYOBJ_LENGTH) == Value::Int(n as i32)
}

/// After `past`, the element `i` of the array `object` is `item`.
pub open spec fn element_at(
    game: Game,
    past: Seq<Event>,
    object: Value,
    i: int,
    item: Value,
) -> bool {
    (game.element)(past, (game.field)(past, object, ARRAYOBJ_ARRAY), i as i32) == item
}

/// After `past`, the button of a node has a battle, with the identifier of the node.
pub open spec fn node_at(game: Game, past: Seq<Event>, node: Node) -> bool {
    let battle = (game.field)(past, node.button, MAPBUTTON_DATA);
    let data = (game.field)(past, battle, BATTLE_DATA);
    &&& battle is Given
    &&& data is Given
    &&& (game.field)(past, data, BATTLEDATA_INFID) == node.id
}

impl Column {
    /// The column stands still: at all times it holds the buttons of its nodes.
    pub open spec fn stands(self, game: Game) -> bool {
        &&& self.object is Given
        &&& self.nodes.len() < i32::MAX
        &&& forall|past: Seq<Event>| #[trigger]
            array_at(game, past, self.object, self.nodes.len())
        &&& forall|past: Seq<Event>, j: int|
            0 <= j < self.nodes.len() ==> #[trigger] element_at(
                game,
                past,
                self.object,
                j,
                self.nodes[j].button,
            )
        &&& forall|j: int| 0 <= j < self.nodes.len() ==> (#[trigger] self.nodes[j]).button is Given
        &&& forall|past: Seq<Event>, j: int|
            0 <= j < self.nodes.len() ==> #[trigger] node_at(game, past, self.nodes[j])
    }
}

impl OpenMap {
    /// The map `this` stands still: at all times it holds its columns.
    pub open spec fn stands(self, game: Game, this: Value) -> bool {
        &&& this is Given
        &&& self.container is Given
        &&& self.object is Given
        &&& self.columns.len() < i32::MAX
        &&& forall|past: Seq<Event>|
            (#[trigger] (game.field)(past, this, CMC_CONQUEST)) == self.conquest
        &&& forall|past: Seq<Event>|
            (#[trigger] (game.field)(past, this, CMC_CONTAINER)) == self.container
        &&& forall|past: Seq<Event>|
            (#[trigger] (game.field)(past, self.container, MAPCONTAINER_BUTTONS)) == self.object
        &&& forall|past: Seq<Event>| #[trigger]
            array_at(game, past, self.object, self.columns.len())
        &&& forall|past: Seq<Event>, i: int|
            0 <= i < self.columns.len() ==> #[trigger] element_at(
                game,
                past,
                self.object,
                i,
                self.columns[i].object,
            )
        &&& forall|i: int| 0 <= i < self.columns.len() ==> (#[trigger] self.columns[i]).stands(game)
    }
}

/// The numbers of the functions that the walk calls.
pub struct WalkCalls {
    /// `Conquest.getBattleState`.
    pub gate: usize,
    /// `MapButton.changeState`.
    pub change_state: usize,
}

/// All that has happened after a node has been asked for its state, and its button has been
/// handed the answer.
pub open spec fn node_shown(
    game: Game,
    calls: WalkCalls,
    conquest: Value,
    node: Node,
    past: Seq<Event>,
) -> Seq<Event> {
    let asked = past.push(Event::Call(calls.gate, seq![conquest, node.id]));
    asked.push(
        Event::Call(calls.change_state, seq![node.button, (game.result)(asked), Value::Null]),
    )
}

/// All that has happened after the first `n` nodes of a column have been shown.
pub open spec fn nodes_shown(
    game: Game,
    calls: WalkCalls,
    conquest: Value,
    nodes: Seq<Node>,
    n: nat,
    past: Seq<Event>,
) -> Seq<Event>
    decreases n,
{
    if n == 0 {
        past
    } else {
        node_shown(
            game,
            calls,
            conquest,
            nodes[n - 1],
            nodes_shown(game, calls, conquest, nodes, (n - 1) as nat, past),
        )
    }
}

/// All that has happened after all nodes of the first `n` columns have been shown.
pub open spec fn columns_shown(
    game: Game,
    calls: WalkCalls,
    map: OpenMap,
    n: nat,
    past: Seq<Event>,
) -> Seq<Event>
    decreases n,
{
    if n == 0 {
        past
    } else {
        let nodes = map.columns[n - 1].nodes;
        nodes_shown(
            game,
            calls,
            map.conquest,
            nodes,
            nodes.len(),
            columns_shown(game, calls, map, (n - 1) as nat, past),
        )
    }
}

/// The registers of the walk follow each other.
proof fn lemma_walk_regs(base: u32)
    requires
        base + 17 <= u32::MAX,
    ensures
        ({
            let r = walk_regs(base);
            &&& r.conquest.0 == base
            &&& r.container.0 == base + 1
            &&& r.columns.0 == base + 2
            &&& r.i.0 == base + 3
            &&& r.len1.0 == base + 4
            &&& r.column.0 == base + 5
            &&& r.item.0 == base + 6
            &&& r.raw1.0 == base + 7
            &&& r.button.0 == base + 8
            &&& r.j.0 == base + 9
            &&& r.len2.0 == base + 10
            &&& r.raw2.0 == base + 11
            &&& r.battle.0 == base + 12
            &&& r.battle_data.0 == base + 13
            &&& r.inf_id.0 == base + 14
            &&& r.new_state.0 == base + 15
            &&& r.no_callback.0 == base + 16
        }),
{
}

/// The registers at the start of the inner loop: it is about to look at the node `j` of a column,
/// and the outer loop goes on with the column `i`.
pub open spec fn in_column(
    s: State,
    base: u32,
    map: OpenMap,
    column: Column,
    i: int,
    j: int,
) -> bool {
    &&& s.pc == 18
    &&& s.regs[base] == map.conquest
    &&& s.regs[(base + 2) as u32] == map.object
    &&& s.regs[(base + 3) as u32] == Value::Int(i as i32)
    &&& s.regs[(base + 5) as u32] == column.object
    &&& s.regs[(base + 9) as u32] == Value::Int(j as i32)
}

/// The registers of the game's own code are as they were, but for one that nobody reads.
pub open spec fn own_regs_kept(s: State, t: State, base: u32) -> bool {
    forall|r: u32| r < base && r != 3 ==> #[trigger] t.regs[r] == s.regs[r]
}

/// The first half of the inner loop fetches the button.
proof fn lemma_button_fetched(
    code: ModuleView,
    ops: Seq<Opcode>,
    game: Game,
    s: State,
    base: u32,
    calls: WalkCalls,
    map: OpenMap,
    column: Column,
    i: int,
    j: int,
) -> (t: State)
    requires
        holds_at(ops, 0, walk_ops(walk_regs(base), calls.gate, calls.change_state)),
        3 < base,
        base + 17 <= u32::MAX,
        column.stands(game),
        0 <= j < column.nodes.len(),
        in_column(s, base, map, column, i, j),
    ensures
        leads(code, ops, game, Machine::Running(s), Machine::Running(t)),
        t.pc == 29,
        t.past == s.past,
        t.regs[(base + 8) as u32] == column.nodes[j].button,
        in_column(State { pc: 18, ..t }, base, map, column, i, j),
        own_regs_kept(s, t, base),
{
    let r = walk_regs(base);
    lemma_walk_regs(base);
    let part = walk_ops(r, calls.gate, calls.change_state);
    assert(array_at(game, s.past, column.object, column.nodes.len()));
    assert(element_at(game, s.past, column.object, j, column.nodes[j].button));
    assert(ops[18] == part[18] && ops[19] == part[19] && ops[20] == part[20]);
    assert(ops[21] == part[21] && ops[22] == part[22] && ops[23] == part[23]);
    assert(ops[26] == part[26] && ops[27] == part[27] && ops[28] == part[28]);
    let m0 = Machine::Running(s);
    let m1 = step(code, ops, game, m0);
    let m2 = step(code, ops, game, m1);
    let m3 = step(code, ops, game, m2);
    let m4 = step(code, ops, game, m3);
    let m5 = step(code, ops, game, m4);
    let m6 = step(code, ops, game, m5);
    let m7 = step(code, ops, game, m6);
    let m8 = step(code, ops, game, m7);
    let m9 = step(code, ops, game, m8);
    assert(m1 is Running && m1->Running_0.pc == 19);
    assert(m2 is Running && m2->Running_0.pc == 20);
    assert(m3 is Running && m3->Running_0.pc == 21);
    assert(m4 is Running && m4->Running_0.pc == 22);
    assert(m5 is Running && m5->Running_0.pc == 23);
    assert(m6 is Running && m6->Running_0.pc == 26);
    assert(m7 is Running && m7->Running_0.pc == 27);
    assert(m8 is Running && m8->Running_0.pc == 28);
    assert(m9 is Running && m9->Running_0.pc == 29);
    lemma_leads_here(code, ops, game, m9);
    lemma_leads_step(code, ops, game, m8, m9);
    lemma_leads_step(code, ops, game, m7, m9);
    lemma_leads_step(code, ops, game, m6, m9);
    lemma_leads_step(code, ops, game, m5, m9);
    lemma_leads_step(code, ops, game, m4, m9);
    lemma_leads_step(code, ops, game, m3, m9);
    lemma_leads_step(code, ops, game, m2, m9);
    lemma_leads_step(code, ops, game, m1, m9);
    lemma_leads_step(code, ops, game, m0, m9);
    m9->Running_0
}

/// The second half of the inner loop shows the node.
proof fn lemma_button_shown(
    code: ModuleView,
    ops: Seq<Opcode>,
    game: Game,
    s: State,
    base: u32,
    calls: WalkCalls,
    map: OpenMap,
    column: Column,
    i: int,
    j: int,
) -> (t: State)
    requires
        holds_at(ops, 0, walk_ops(walk_regs(base), calls.gate, calls.change_state)),
        3 < base,
        base + 17 <= u32::MAX,
        column.stands(game),
        0 <= j < column.nodes.len(),
        s.pc == 29,
        s.regs[(base + 8) as u32] == column.nodes[j].button,
        in_column(State { pc: 18, ..s }, base, map, column, i, j),
    ensures
        leads(code, ops, game, Machine::Running(s), Machine::Running(t)),
        t.past == node_shown(game, calls, map.conquest, column.nodes[j], s.past),
        in_column(t, base, map, column, i, j + 1),
        own_regs_kept(s, t, base),
{
    let r = walk_regs(base);
    lemma_walk_regs(base);
    let part = walk_ops(r, calls.gate, calls.change_state);
    let node = column.nodes[j];
    assert(node.button is Given);
    assert(node_at(game, s.past, node));
    assert(ops[29] == part[29] && ops[30] == part[30] && ops[31] == part[31]);
    assert(ops[32] == part[32] && ops[33] == part[33] && ops[34] == part[34]);
    assert(ops[35] == part[35] && ops[36] == part[36] && ops[37] == part[37]);
    assert(ops[38] == part[38] && ops[39] == part[39]);
    let m0 = Machine::Running(s);
    let m1 = step(code, ops, game, m0);
    let m2 = step(code, ops, game, m1);
    let m3 = step(code, ops, game, m2);
    let m4 = step(code, ops, game, m3);
    let m5 = step(code, ops, game, m4);
    let m6 = step(code, ops, game, m5);
    let m7 = step(code, ops, game, m6);
    let m8 = step(code, ops, game, m7);
    let m9 = step(code, ops, game, m8);
    let m10 = step(code, ops, game, m9);
    let m11 = step(code, ops, game, m10);
    assert(m1 is Running && m1->Running_0.pc == 30);
    assert(m2 is Running && m2->Running_0.pc == 31);
    assert(m3 is Running && m3->Running_0.pc == 32);
    assert(m4 is Running && m4->Running_0.pc == 33);
    assert(m5 is Running && m5->Running_0.pc == 34);
    assert(m6 is Running && m6->Running_0.pc == 35);
    assert(m7 is Running && m7->Running_0.pc == 36);
    assert(m8 is Running && m8->Running_0.pc == 37);
    assert(m9 is Running && m9->Running_0.pc == 38);
    assert(m10 is Running && m10->Running_0.pc == 39);
    assert(m11 is Running && m11->Running_0.pc == 18);
    lemma_leads_here(code, ops, game, m11);
    lemma_leads_step(code, ops, game, m10, m11);
    lemma_leads_step(code, ops, game, m9, m11);
    lemma_leads_step(code, ops, game, m8, m11);
    lemma_leads_step(code, ops, game, m7, m11);
    lemma_leads_step(code, ops, game, m6, m11);
    lemma_leads_step(code, ops, game, m5, m11);
    lemma_leads_step(code, ops, game, m4, m11);
    lemma_leads_step(code, ops, game, m3, m11);
    lemma_leads_step(code, ops, game, m2, m11);
    lemma_leads_step(code, ops, game, m1, m11);
    lemma_leads_step(code, ops, game, m0, m11);
    m11->Running_0
}

/// The inner loop shows the nodes of a column from `j` on, and goes back to the outer loop.
proof fn lemma_column_shown(
    code: ModuleView,
    ops: Seq<Opcode>,
    game: Game,
    s: State,
    base: u32,
    calls: WalkCalls,
    map: OpenMap,
    column: Column,
    i: int,
    j: int,
    start: Seq<Event>,
) -> (t: State)
    requires
        holds_at(ops, 0, walk_ops(walk_regs(base), calls.gate, calls.change_state)),
        3 < base,
        base + 17 <= u32::MAX,
        column.stands(game),
        0 <= j <= column.nodes.len(),
        in_column(s, base, map, column, i, j),
        s.past == nodes_shown(game, calls, map.conquest, column.nodes, j as nat, start),
    ensures
        leads(code, ops, game, Machine::Running(s), Machine::Running(t)),
        t.pc == 5,
        t.past == nodes_shown(
            game,
            calls,
            map.conquest,
            column.nodes,
            column.nodes.len(),
            start,
        ),
        t.regs[base] == map.conquest,
        t.regs[(base + 2) as u32] == map.object,
        t.regs[(base + 3) as u32] == Value::Int(i as i32),
        own_regs_kept(s, t, base),
    decreases column.nodes.len() - j,
{
    let m = Machine::Running(s);
    if j < column.nodes.len() {
        let s1 = lemma_button_fetched(code, ops, game, s, base, calls, map, column, i, j);
        let s2 = lemma_button_shown(code, ops, game, s1, base, calls, map, column, i, j);
        lemma_leads_trans(code, ops, game, m, Machine::Running(s1), Machine::Running(s2));
        let t = lemma_column_shown(
            code,
            ops,
            game,
            s2,
            base,
            calls,
            map,
            column,
            i,
            j + 1,
            start,
        );
        lemma_leads_trans(code, ops, game, m, Machine::Running(s2), Machine::Running(t));
        assert forall|r: u32| r < base && r != 3 implies #[trigger] t.regs[r] == s.regs[r] by {
            assert(s2.regs[r] == s1.regs[r]);
            assert(s1.regs[r] == s.regs[r]);
        }
        t
    } else {
        let r = walk_regs(base);
        lemma_walk_regs(base);
        let part = walk_ops(r, calls.gate, calls.change_state);
        assert(array_at(game, s.past, column.object, column.nodes.len()));
        assert(ops[18] == part[18] && ops[19] == part[19] && ops[20] == part[20]);
        assert(ops[21] == part[21]);
        let m0 = m;
        let m1 = step(code, ops, game, m0);
        let m2 = step(code, ops, game, m1);
        let m3 = step(code, ops, game, m2);
        let m4 = step(code, ops, game, m3);
        assert(m1 is Running && m1->Running_0.pc == 19);
        assert(m2 is Running && m2->Running_0.pc == 20);
        assert(m3 is Running && m3->Running_0.pc == 21);
        assert(m4 is Running && m4->Running_0.pc == 5);
        lemma_leads_here(code, ops, game, m4);
        lemma_leads_step(code, ops, game, m3, m4);
        lemma_leads_step(code, ops, game, m2, m4);
        lemma_leads_step(code, ops, game, m1, m4);
        lemma_leads_step(code, ops, game, m0, m4);
        m4->Running_0
    }
}

/// The registers at the start of the outer loop: it is about to look at the column `i`.
pub open spec fn in_map(s: State, base: u32, map: OpenMap, i: int) -> bool {
    &&& s.pc == 5
    &&& s.regs[base] == map.conquest
    &&& s.regs[(base + 2) as u32] == map.object
    &&& s.regs[(base + 3) as u32] == Value::Int(i as i32)
}

/// The outer loop fetches a column.
proof fn lemma_column_fetched(
    code: ModuleView,
    ops: Seq<Opcode>,
    game: Game,
    s: State,
    base: u32,
    calls: WalkCalls,
    map: OpenMap,
    this: Value,
    i: int,
) -> (t: State)
    requires
        holds_at(ops, 0, walk_ops(walk_regs(base), calls.gate, calls.change_state)),
        3 < base,
        base + 17 <= u32::MAX,
        code.ints[0] == 0,
        map.stands(game, this),
        0 <= i < map.columns.len(),
        in_map(s, base, map, i),
    ensures
        leads(code, ops, game, Machine::Running(s), Machine::Running(t)),
        t.past == s.past,
        in_column(t, base, map, map.columns[i], i + 1, 0),
        own_regs_kept(s, t, base),
{
    let r = walk_regs(base);
    lemma_walk_regs(base);
    let part = walk_ops(r, calls.gate, calls.change_state);
    assert(array_at(game, s.past, map.object, map.columns.len()));
    assert(element_at(game, s.past, map.object, i, map.columns[i].object));
    assert(ops[5] == part[5] && ops[6] == part[6] && ops[7] == part[7]);
    assert(ops[8] == part[8] && ops[9] == part[9] && ops[10] == part[10]);
    assert(ops[13] == part[13] && ops[14] == part[14] && ops[15] == part[15]);
    assert(ops[16] == part[16] && ops[17] == part[17]);
    let m0 = Machine::Running(s);
    let m1 = step(code, ops, game, m0);
    let m2 = step(code, ops, game, m1);
    let m3 = step(code, ops, game, m2);
    let m4 = step(code, ops, game, m3);
    let m5 = step(code, ops, game, m4);
    let m6 = step(code, ops, game, m5);
    let m7 = step(code, ops, game, m6);
    let m8 = step(code, ops, game, m7);
    let m9 = step(code, ops, game, m8);
    let m10 = step(code, ops, game, m9);
    let m11 = step(code, ops, game, m10);
    assert(m1 is Running && m1->Running_0.pc == 6);
    assert(m2 is Running && m2->Running_0.pc == 7);
    assert(m3 is Running && m3->Running_0.pc == 8);
    assert(m4 is Running && m4->Running_0.pc == 9);
    assert(m5 is Running && m5->Running_0.pc == 10);
    assert(m6 is Running && m6->Running_0.pc == 13);
    assert(m7 is Running && m7->Running_0.pc == 14);
    assert(m8 is Running && m8->Running_0.pc == 15);
    assert(m9 is Running && m9->Running_0.pc == 16);
    assert(m10 is Running && m10->Running_0.pc == 17);
    assert(m11 is Running && m11->Running_0.pc == 18);
    lemma_leads_here(code, ops, game, m11);
    lemma_leads_step(code, ops, game, m10, m11);
    lemma_leads_step(code, ops, game, m9, m11);
    lemma_leads_step(code, ops, game, m8, m11);
    lemma_leads_step(code, ops, game, m7, m11);
    lemma_leads_step(code, ops, game, m6, m11);
    lemma_leads_step(code, ops, game, m5, m11);
    lemma_leads_step(code, ops, game, m4, m11);
    lemma_leads_step(code, ops, game, m3, m11);
    lemma_leads_step(code, ops, game, m2, m11);
    lemma_leads_step(code, ops, game, m1, m11);
    lemma_leads_step(code, ops, game, m0, m11);
    m11->Running_0
}

/// The outer loop shows the columns from `i` on, and leaves the walk.
proof fn lemma_map_shown(
    code: ModuleView,
    ops: Seq<Opcode>,
    game: Game,
    s: State,
    base: u32,
    calls: WalkCalls,
    map: OpenMap,
    this: Value,
    i: int,
    start: Seq<Event>,
) -> (t: State)
    requires
        holds_at(ops, 0, walk_ops(walk_regs(base), calls.gate, calls.change_state)),
        3 < base,
        base + 17 <= u32::MAX,
        code.ints[0] == 0,
        map.stands(game, this),
        0 <= i <= map.columns.len(),
        in_map(s, base, map, i),
        s.past == columns_shown(game, calls, map, i as nat, start),
    ensures
        leads(code, ops, game, Machine::Running(s), Machine::Running(t)),
        t.pc == 40,
        t.past == columns_shown(game, calls, map, map.columns.len(), start),
        own_regs_kept(s, t, base),
    decreases map.columns.len() - i,
{
    let m = Machine::Running(s);
    if i < map.columns.len() {
        let column = map.columns[i];
        assert(column.stands(game));
        let s1 = lemma_column_fetched(code, ops, game, s, base, calls, map, this, i);
        let s2 = lemma_column_shown(
            code,
            ops,
            game,
            s1,
            base,
            calls,
            map,
            column,
            i + 1,
            0,
            s1.past,
        );
        lemma_leads_trans(code, ops, game, m, Machine::Running(s1), Machine::Running(s2));
        let t = lemma_map_shown(code, ops, game, s2, base, calls, map, this, i + 1, start);
        lemma_leads_trans(code, ops, game, m, Machine::Running(s2), Machine::Running(t));
        assert forall|r: u32| r < base && r != 3 implies #[trigger] t.regs[r] == s.regs[r] by {
            assert(s2.regs[r] == s1.regs[r]);
            assert(s1.regs[r] == s.regs[r]);
        }
        t
    } else {
        let r = walk_regs(base);
        lemma_walk_regs(base);
        let part = walk_ops(r, calls.gate, calls.change_state);
        assert(array_at(game, s.past, map.object, map.columns.len()));
        assert(ops[5] == part[5] && ops[6] == part[6] && ops[7] == part[7]);
        assert(ops[8] == part[8]);
        let m0 = m;
        let m1 = step(code, ops, game, m0);
        let m2 = step(code, ops, game, m1);
        let m3 = step(code, ops, game, m2);
        let m4 = step(code, ops, game, m3);
        assert(m1 is Running && m1->Running_0.pc == 6);
        assert(m2 is Running && m2->Running_0.pc == 7);
        assert(m3 is Running && m3->Running_0.pc == 8);
        assert(m4 is Running && m4->Running_0.pc == 40);
        lemma_leads_here(code, ops, game, m4);
        lemma_leads_step(code, ops, game, m3, m4);
        lemma_leads_step(code, ops, game, m2, m4);
        lemma_leads_step(code, ops, game, m1, m4);
        lemma_leads_step(code, ops, game, m0, m4);
        m4->Running_0
    }
}

/// The walk shows every node of the map its present state: column by column, it asks
/// `Conquest.getBattleState` for the state of each node, and hands the answer to the node's
/// button. Then it goes on to the game's own code, with the registers of that code as they were,
/// but for register 3, which holds a result that nobody reads.
///
/// The first integer of the pool must be zero, and the columns and buttons of the map must stay
/// the same while they are walked.
pub proof fn law_walk_shows_every_node(
    code: ModuleView,
    ops: Seq<Opcode>,
    game: Game,
    s: State,
    base: u32,
    calls: WalkCalls,
    map: OpenMap,
) -> (t: State)
    requires
        holds_at(ops, 0, walk_ops(walk_regs(base), calls.gate, calls.change_state)),
        3 < base,
        base + 17 <= u32::MAX,
        code.ints[0] == 0,
        map.stands(game, s.reg(Reg(0))),
        s.pc == 0,
    ensures
        leads(code, ops, game, Machine::Running(s), Machine::Running(t)),
        t.pc == 40,
        t.past == columns_shown(game, calls, map, map.columns.len(), s.past),
        own_regs_kept(s, t, base),
{
    let r = walk_regs(base);
    lemma_walk_regs(base);
    let part = walk_ops(r, calls.gate, calls.change_state);
    let this = s.reg(Reg(0));
    assert(ops[0] == part[0] && ops[1] == part[1] && ops[2] == part[2]);
    assert(ops[3] == part[3] && ops[4] == part[4]);
    let m0 = Machine::Running(s);
    let m1 = step(code, ops, game, m0);
    let m2 = step(code, ops, game, m1);
    let m3 = step(code, ops, game, m2);
    let m4 = step(code, ops, game, m3);
    let m5 = step(code, ops, game, m4);
    assert(m1 is Running && m1->Running_0.pc == 1);
    assert(m2 is Running && m2->Running_0.pc == 2);
    assert(m3 is Running && m3->Running_0.pc == 3);
    assert(m4 is Running && m4->Running_0.pc == 4);
    assert(m5 is Running && m5->Running_0.pc == 5);
    lemma_leads_here(code, ops, game, m5);
    lemma_leads_step(code, ops, game, m4, m5);
    lemma_leads_step(code, ops, game, m3, m5);
    lemma_leads_step(code, ops, game, m2, m5);
    lemma_leads_step(code, ops, game, m1, m5);
    lemma_leads_step(code, ops, game, m0, m5);
    let s5 = m5->Running_0;
    let t = lemma_map_shown(code, ops, game, s5, base, calls, map, this, 0, s.past);
    lemma_leads_trans(code, ops, game, m0, m5, Machine::Running(t));
    assert forall|r: u32| r < base && r != 3 implies #[trigger] t.regs[r] == s.regs[r] by {
        assert(s5.regs[r] == s.regs[r]);
    }
    t
}

} // verus!
