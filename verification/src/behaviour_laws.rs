//! What the new code comes to, for whoever plays the game.

use vstd::prelude::*;
use crate::gate::byte_len;
use crate::gate_behaviour::{new_verdict, own_verdict, string_value, Gate, OwnCode};
use crate::machine::{Event, Game, Value};
use crate::walk_behaviour::{columns_shown, nodes_shown, Node, OpenMap, WalkCalls};

verus! {

/// A node shows as unlocked only where its marker exists, and then only where the game itself would
/// unlock it or the file of the non-linear mode exists. It shows as done where the game says so, and
/// where the game throws an exception, so does the new code. Nothing else makes a difference.
pub proof fn law_node_is_unlocked_by_its_marker_only(
    game: Game,
    own: OwnCode,
    gate: Gate,
    past: Seq<Event>,
    conquest: Value,
    id: Value,
)
    ensures
        ({
            let (before, asked) = own_verdict(game, own, past, conquest, id);
            let (now, _) = new_verdict(game, own, gate, past, conquest, id);
            let linear = !gate.flag_exists(game, asked);
            let marker = gate.marker_exists(game, gate.flag_asked(game, asked), id);
            &&& now is Unlocked <==> marker && (before is Unlocked || (before is Locked && !linear))
            &&& now is Done <==> before is Done
            &&& now is Thrown <==> before is Thrown
            &&& now is Locked <==> (before is Locked && linear) || (!marker && (before is Unlocked
                || before is Locked))
        }),
{
}

/// The marker of a node is a file: its path is the prefix with the identifier of the node behind it, as
/// `String.__add__` puts them together. The file of the non-linear mode is asked for by its own path.
/// Each path is turned into one of the system, and the system is asked whether there is such a file.
pub proof fn law_files_are_asked_for_by_their_paths(
    game: Game,
    gate: Gate,
    past: Seq<Event>,
    id: Value,
)
    requires
        gate.shape.bytes != gate.shape.length,
    ensures
        ({
            let asked = gate.flag_asked(game, past);
            let n = past.len() as int;
            &&& asked.len() == n + 2
            &&& asked.take(n) == past
            &&& asked[n] matches Event::Call(fun, args)
            &&& fun == gate.calls.get_path
            &&& args.len() == 1
            &&& args[0] matches Value::Made(fields)
            &&& fields[gate.shape.bytes.0] == Value::Text(gate.flag)
            &&& fields[gate.shape.length.0] == Value::Int(byte_len(gate.flag))
            &&& asked[n + 1] == Event::Call(
                gate.calls.exists,
                seq![(game.result)(asked.take(n + 1))],
            )
            &&& gate.flag_exists(game, past) <==> (game.result)(asked) == Value::Bool(true)
        }),
        ({
            let asked = gate.marker_asked(game, past, id);
            let n = past.len() as int;
            &&& asked.len() == n + 3
            &&& asked.take(n) == past
            &&& asked[n] matches Event::Call(fun, args)
            &&& fun == gate.calls.add
            &&& args.len() == 2
            &&& args[0] matches Value::Made(fields)
            &&& fields[gate.shape.bytes.0] == Value::Text(gate.prefix)
            &&& fields[gate.shape.length.0] == Value::Int(byte_len(gate.prefix))
            &&& args[1] == id
            &&& asked[n + 1] == Event::Call(
                gate.calls.get_path,
                seq![(game.result)(asked.take(n + 1))],
            )
            &&& asked[n + 2] == Event::Call(
                gate.calls.exists,
                seq![(game.result)(asked.take(n + 2))],
            )
            &&& gate.marker_exists(game, past, id) <==> (game.result)(asked) == Value::Bool(true)
        }),
{
    let n = past.len() as int;
    let first = gate.flag_asked(game, past);
    assert(first.take(n) =~= past);
    let name = string_value(gate.shape, gate.flag);
    assert(first.take(n + 1) =~= past.push(Event::Call(gate.calls.get_path, seq![name])));
    let asked = gate.marker_asked(game, past, id);
    let named = gate.named(past, id);
    assert(asked.take(n) =~= past);
    assert(asked.take(n + 1) =~= named);
    assert(asked.take(n + 2) =~= named.push(
        Event::Call(gate.calls.get_path, seq![(game.result)(named)]),
    ));
}

/// How many nodes there are in the first `n` columns of a map.
pub open spec fn node_count(map: OpenMap, n: nat) -> nat
    decreases n,
{
    if n == 0 {
        0
    } else {
        node_count(map, (n - 1) as nat) + map.columns[n - 1].nodes.len()
    }
}

/// At the place `k` of all that has happened, a node was asked for its state, and its button was then
/// handed the answer, with no callback.
pub open spec fn shown_at(
    game: Game,
    calls: WalkCalls,
    conquest: Value,
    node: Node,
    past: Seq<Event>,
    k: int,
) -> bool {
    &&& 0 <= k
    &&& k + 1 < past.len()
    &&& past[k] == Event::Call(calls.gate, seq![conquest, node.id])
    &&& past[k + 1] == Event::Call(
        calls.change_state,
        seq![node.button, (game.result)(past.take(k + 1)), Value::Null],
    )
}

/// What has been shown stays shown.
proof fn lemma_shown_stays(
    game: Game,
    calls: WalkCalls,
    conquest: Value,
    node: Node,
    past: Seq<Event>,
    later: Seq<Event>,
    k: int,
)
    requires
        shown_at(game, calls, conquest, node, past, k),
        past.is_prefix_of(later),
    ensures
        shown_at(game, calls, conquest, node, later, k),
{
    assert(later.take(k + 1) =~= past.take(k + 1));
    assert(later[k] == past[k] && later[k + 1] == past[k + 1]);
}

/// The nodes of a column are shown one after the other.
proof fn lemma_nodes_shown(
    game: Game,
    calls: WalkCalls,
    conquest: Value,
    nodes: Seq<Node>,
    n: nat,
    past: Seq<Event>,
)
    requires
        n <= nodes.len(),
    ensures
        ({
            let after = nodes_shown(game, calls, conquest, nodes, n, past);
            &&& past.is_prefix_of(after)
            &&& after.len() == past.len() + 2 * n
            &&& forall|j: int|
                0 <= j < n ==> shown_at(
                    game,
                    calls,
                    conquest,
                    #[trigger] nodes[j],
                    after,
                    past.len() + 2 * j,
                )
        }),
    decreases n,
{
    if n > 0 {
        let m = (n - 1) as nat;
        lemma_nodes_shown(game, calls, conquest, nodes, m, past);
        let before = nodes_shown(game, calls, conquest, nodes, m, past);
        let after = nodes_shown(game, calls, conquest, nodes, n, past);
        assert(before.is_prefix_of(after));
        assert(past.is_prefix_of(after));
        assert forall|j: int| 0 <= j < n implies shown_at(
            game,
            calls,
            conquest,
            #[trigger] nodes[j],
            after,
            past.len() + 2 * j,
        ) by {
            if j < m {
                lemma_shown_stays(
                    game,
                    calls,
                    conquest,
                    nodes[j],
                    before,
                    after,
                    past.len() + 2 * j,
                );
            } else {
                let k = before.len() as int;
                assert(after.take(k + 1) =~= before.push(
                    Event::Call(calls.gate, seq![conquest, nodes[j].id]),
                ));
            }
        }
    }
}

/// The walk shows every node of the map once, column by column and from the first to the last of each:
/// it asks for the state of the node, and hands just that answer to the button of the node. It does
/// nothing else.
pub proof fn law_walk_hands_every_node_its_state(
    game: Game,
    calls: WalkCalls,
    map: OpenMap,
    n: nat,
    past: Seq<Event>,
)
    requires
        n <= map.columns.len(),
    ensures
        ({
            let after = columns_shown(game, calls, map, n, past);
            &&& past.is_prefix_of(after)
            &&& after.len() == past.len() + 2 * node_count(map, n)
            &&& forall|i: int, j: int|
                0 <= i < n && 0 <= j < map.columns[i].nodes.len() ==> shown_at(
                    game,
                    calls,
                    map.conquest,
                    #[trigger] map.columns[i].nodes[j],
                    after,
                    past.len() + 2 * node_count(map, i as nat) + 2 * j,
                )
        }),
    decreases n,
{
    if n > 0 {
        let m = (n - 1) as nat;
        law_walk_hands_every_node_its_state(game, calls, map, m, past);
        let before = columns_shown(game, calls, map, m, past);
        let after = columns_shown(game, calls, map, n, past);
        let nodes = map.columns[m as int].nodes;
        lemma_nodes_shown(game, calls, map.conquest, nodes, nodes.len(), before);
        assert(past.is_prefix_of(after));
        assert forall|i: int, j: int|
            0 <= i < n && 0 <= j < map.columns[i].nodes.len() implies shown_at(
            game,
            calls,
            map.conquest,
            #[trigger] map.columns[i].nodes[j],
            after,
            past.len() + 2 * node_count(map, i as nat) + 2 * j,
        ) by {
            let node = map.columns[i].nodes[j];
            let k = past.len() + 2 * node_count(map, i as nat) + 2 * j;
            if i < m {
                lemma_shown_stays(game, calls, map.conquest, node, before, after, k);
            } else {
                assert(nodes[j] == node);
            }
        }
    }
}

} // verus!
