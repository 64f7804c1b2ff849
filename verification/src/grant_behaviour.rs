//! What the code of the grants does when it runs.

use vstd::prelude::*;
use hlbc::opcodes::Opcode;
use hlbc::types::{RefField, Reg, ValBool};
use crate::gate::byte_len;
use crate::gate_behaviour::{
    ask_ops, file_asked, file_exists, holds_at, lemma_file_asked, lemma_string_made, path_asked,
    same_but, string_ops, string_value,
};
use crate::grants::{
    alias_ops, aliases_ops, grant_ops, lemma_aliases_len, marker_ops, sentinel_of, slot_ops,
    slots_ops, GrantKind, GrantSite, GrantView, Sentinels, ADDED, AMOUNT, APPLIED, EXISTS,
    MARKER_BYTES, MARKER_LEN, MARKER_PATH, MARKER_STR, NAME_BYTES, NAME_LEN, NAME_STR, REASON, RES,
    TRUE,
};
use crate::machine::{
    leads, lemma_leads_here, lemma_leads_step, lemma_leads_trans, step, Event, Game, Machine, State,
    Value,
};
use crate::module::{Float, ModuleView};

verus! {

/// The call that adds `amount` of the resource `id` to the resources `res`.
pub open spec fn added_one(site: GrantSite, res: Value, id: Seq<char>, amount: u32) -> Event {
    Event::Call(
        site.add_resource,
        seq![
            res,
            string_value(site.shape, id),
            Value::Number(Float::Whole(amount)),
            Value::Null,
        ],
    )
}

/// The calls that add `amount` of each of the resources `ids`.
pub open spec fn added_all(
    site: GrantSite,
    res: Value,
    ids: Seq<Seq<char>>,
    amount: u32,
) -> Seq<Event> {
    Seq::new(ids.len(), |i: int| added_one(site, res, ids[i], amount))
}

/// The registers that adding a resource uses.
pub open spec fn name_regs() -> Set<u32> {
    set![NAME_BYTES, NAME_LEN, NAME_STR, AMOUNT, REASON, ADDED]
}

/// The instructions that add a resource do so.
proof fn lemma_one_added(
    code: ModuleView,
    ops: Seq<Opcode>,
    game: Game,
    s: State,
    site: GrantSite,
    text_at: int,
    len_at: int,
    amount_at: int,
    id: Seq<char>,
    amount: u32,
) -> (t: State)
    requires
        holds_at(ops, s.pc, alias_ops(site, text_at, len_at, amount_at)),
        0 <= text_at < code.strings.len() <= usize::MAX,
        0 <= len_at < code.ints.len() <= usize::MAX,
        0 <= amount_at < code.floats.len() <= usize::MAX,
        code.strings[text_at] == id,
        code.ints[len_at] == byte_len(id),
        code.floats[amount_at] == Float::Whole(amount),
        !(s.reg(Reg(RES)) is Null),
    ensures
        leads(code, ops, game, Machine::Running(s), Machine::Running(t)),
        t.pc == s.pc + 9,
        t.past == s.past.push(added_one(site, s.reg(Reg(RES)), id, amount)),
        same_but(s, t, name_regs()),
{
    let part = alias_ops(site, text_at, len_at, amount_at);
    let a = string_ops(
        site.shape,
        text_at as usize,
        len_at as usize,
        Reg(NAME_BYTES),
        Reg(NAME_LEN),
        Reg(NAME_STR),
    );
    assert(holds_at(ops, s.pc, a)) by {
        assert forall|i: int| 0 <= i < a.len() implies ops[s.pc + i] == #[trigger] a[i] by {
            assert(a[i] == part[i]);
        }
    }
    let s1 = lemma_string_made(
        code,
        ops,
        game,
        s,
        site.shape,
        text_at as usize,
        len_at as usize,
        id,
        Reg(NAME_BYTES),
        Reg(NAME_LEN),
        Reg(NAME_STR),
    );
    assert(part[5] == ops[s.pc + 5]);
    assert(part[6] == ops[s.pc + 6]);
    assert(part[7] == ops[s.pc + 7]);
    assert(part[8] == ops[s.pc + 8]);
    let m1 = Machine::Running(s1);
    let m2 = step(code, ops, game, m1);
    let m3 = step(code, ops, game, m2);
    let m4 = step(code, ops, game, m3);
    let m5 = step(code, ops, game, m4);
    assert(s1.regs[RES] == s.regs[RES]);
    assert(m2 is Running && m2->Running_0.pc == s.pc + 6);
    assert(m3 is Running && m3->Running_0.pc == s.pc + 7);
    assert(m4 is Running && m4->Running_0.pc == s.pc + 8);
    assert(m5 is Running && m5->Running_0.pc == s.pc + 9);
    lemma_leads_here(code, ops, game, m5);
    lemma_leads_step(code, ops, game, m4, m5);
    lemma_leads_step(code, ops, game, m3, m5);
    lemma_leads_step(code, ops, game, m2, m5);
    lemma_leads_step(code, ops, game, m1, m5);
    lemma_leads_trans(code, ops, game, Machine::Running(s), m1, m5);
    m5->Running_0
}

/// The constants of the identifiers `ids` are in the pools, from these places on.
pub open spec fn ids_in_pools(
    code: ModuleView,
    text_at: int,
    len_at: int,
    amount_at: int,
    ids: Seq<Seq<char>>,
    amount: u32,
) -> bool {
    &&& 0 <= text_at && text_at + ids.len() <= code.strings.len() <= usize::MAX
    &&& 0 <= len_at && len_at + ids.len() <= code.ints.len() <= usize::MAX
    &&& 0 <= amount_at && amount_at + ids.len() <= code.floats.len() <= usize::MAX
    &&& forall|i: int|
        0 <= i < ids.len() ==> {
            &&& code.strings[text_at + i] == #[trigger] ids[i]
            &&& code.ints[len_at + i] == byte_len(ids[i])
            &&& code.floats[amount_at + i] == Float::Whole(amount)
        }
}

/// The instructions that add several resources do so.
proof fn lemma_all_added(
    code: ModuleView,
    ops: Seq<Opcode>,
    game: Game,
    s: State,
    site: GrantSite,
    text_at: int,
    len_at: int,
    amount_at: int,
    ids: Seq<Seq<char>>,
    amount: u32,
) -> (t: State)
    requires
        holds_at(ops, s.pc, aliases_ops(site, text_at, len_at, amount_at, ids.len())),
        ids_in_pools(code, text_at, len_at, amount_at, ids, amount),
        !(s.reg(Reg(RES)) is Null),
    ensures
        leads(code, ops, game, Machine::Running(s), Machine::Running(t)),
        t.pc == s.pc + 9 * ids.len(),
        t.past == s.past + added_all(site, s.reg(Reg(RES)), ids, amount),
        same_but(s, t, name_regs()),
    decreases ids.len(),
{
    let res = s.reg(Reg(RES));
    let n = ids.len();
    if n == 0 {
        lemma_leads_here(code, ops, game, Machine::Running(s));
        assert(s.past + added_all(site, res, ids, amount) =~= s.past);
        s
    } else {
        let fewer = ids.drop_last();
        let before = aliases_ops(site, text_at, len_at, amount_at, (n - 1) as nat);
        let last = alias_ops(site, text_at + n - 1, len_at + n - 1, amount_at + n - 1);
        let part = aliases_ops(site, text_at, len_at, amount_at, n);
        assert(part == before + last);
        lemma_aliases_len(site, text_at, len_at, amount_at, (n - 1) as nat);
        assert(holds_at(ops, s.pc, before)) by {
            assert forall|i: int| 0 <= i < before.len() implies ops[s.pc + i]
                == #[trigger] before[i] by {
                assert(part[i] == before[i]);
            }
        }
        assert(ids_in_pools(code, text_at, len_at, amount_at, fewer, amount)) by {
            assert forall|i: int| 0 <= i < fewer.len() implies {
                &&& code.strings[text_at + i] == #[trigger] fewer[i]
                &&& code.ints[len_at + i] == byte_len(fewer[i])
                &&& code.floats[amount_at + i] == Float::Whole(amount)
            } by {
                assert(fewer[i] == ids[i]);
            }
        }
        let s1 = lemma_all_added(
            code,
            ops,
            game,
            s,
            site,
            text_at,
            len_at,
            amount_at,
            fewer,
            amount,
        );
        assert(s1.regs[RES] == s.regs[RES]);
        assert(holds_at(ops, s1.pc, last)) by {
            assert forall|i: int| 0 <= i < last.len() implies ops[s1.pc + i]
                == #[trigger] last[i] by {
                assert(part[before.len() + i] == last[i]);
            }
        }
        assert(ids[n - 1] == ids.last());
        let t = lemma_one_added(
            code,
            ops,
            game,
            s1,
            site,
            text_at + n - 1,
            len_at + n - 1,
            amount_at + n - 1,
            ids.last(),
            amount,
        );
        lemma_leads_trans(
            code,
            ops,
            game,
            Machine::Running(s),
            Machine::Running(s1),
            Machine::Running(t),
        );
        assert(t.past =~= s.past + added_all(site, res, ids, amount));
        t
    }
}

/// The instructions that ask for a marker do so.
proof fn lemma_marker_asked(
    code: ModuleView,
    ops: Seq<Opcode>,
    game: Game,
    s: State,
    site: GrantSite,
    text_at: int,
    len_at: int,
    path: Seq<char>,
) -> (t: State)
    requires
        holds_at(ops, s.pc, marker_ops(site, text_at, len_at)),
        0 <= text_at < code.strings.len() <= usize::MAX,
        0 <= len_at < code.ints.len() <= usize::MAX,
        code.strings[text_at] == path,
        code.ints[len_at] == byte_len(path),
    ensures
        leads(code, ops, game, Machine::Running(s), Machine::Running(t)),
        t.pc == s.pc + 7,
        t.past == file_asked(
            game,
            site.get_path,
            site.exists,
            s.past,
            string_value(site.shape, path),
        ),
        t.reg(Reg(EXISTS)) == (game.result)(t.past),
        t.reg(Reg(MARKER_PATH)) == (game.result)(
            path_asked(site.get_path, s.past, string_value(site.shape, path)),
        ),
        same_but(s, t, set![MARKER_BYTES, MARKER_LEN, MARKER_STR, MARKER_PATH, EXISTS]),
{
    let part = marker_ops(site, text_at, len_at);
    let a = string_ops(
        site.shape,
        text_at as usize,
        len_at as usize,
        Reg(MARKER_BYTES),
        Reg(MARKER_LEN),
        Reg(MARKER_STR),
    );
    assert(holds_at(ops, s.pc, a)) by {
        assert forall|i: int| 0 <= i < a.len() implies ops[s.pc + i] == #[trigger] a[i] by {
            assert(a[i] == part[i]);
        }
    }
    let s1 = lemma_string_made(
        code,
        ops,
        game,
        s,
        site.shape,
        text_at as usize,
        len_at as usize,
        path,
        Reg(MARKER_BYTES),
        Reg(MARKER_LEN),
        Reg(MARKER_STR),
    );
    let b = ask_ops(
        site.get_path,
        site.exists,
        Reg(MARKER_STR),
        Reg(MARKER_PATH),
        Reg(EXISTS),
    );
    assert(holds_at(ops, s1.pc, b)) by {
        assert forall|i: int| 0 <= i < b.len() implies ops[s1.pc + i] == #[trigger] b[i] by {
            assert(b[i] == part[5 + i]);
        }
    }
    let t = lemma_file_asked(
        code,
        ops,
        game,
        s1,
        site.get_path,
        site.exists,
        Reg(MARKER_STR),
        Reg(MARKER_PATH),
        Reg(EXISTS),
    );
    lemma_leads_trans(
        code,
        ops,
        game,
        Machine::Running(s),
        Machine::Running(s1),
        Machine::Running(t),
    );
    t
}

/// The resources of the player.
pub open spec fn resources(game: Game, site: GrantSite, player: Value, past: Seq<Event>) -> Value {
    (game.field)(past, player, site.res.0)
}

/// The player is an object of the game, and has resources at all times.
pub open spec fn has_resources(game: Game, site: GrantSite, player: Value) -> bool {
    &&& player is Given
    &&& forall|past: Seq<Event>| #[trigger] resources(game, site, player, past) is Given
}

/// Whether the marker of a grant exists.
pub open spec fn marker_exists(
    game: Game,
    site: GrantSite,
    grant: GrantView,
    past: Seq<Event>,
) -> bool {
    file_exists(
        game,
        site.get_path,
        site.exists,
        past,
        string_value(site.shape, grant.marker_path),
    )
}

/// All that has happened after the game has been asked for the marker of a grant.
pub open spec fn marker_asked(
    game: Game,
    site: GrantSite,
    grant: GrantView,
    past: Seq<Event>,
) -> Seq<Event> {
    file_asked(
        game,
        site.get_path,
        site.exists,
        past,
        string_value(site.shape, grant.marker_path),
    )
}

/// All that has happened after a grant whose marker was found has been added.
pub open spec fn grant_added(
    game: Game,
    site: GrantSite,
    grant: GrantView,
    player: Value,
    past: Seq<Event>,
) -> Seq<Event> {
    let asked = marker_asked(game, site, grant, past);
    asked + added_all(
        site,
        resources(game, site, player, asked),
        grant.resource_ids,
        grant.amount,
    )
}

/// Whether the field `sentinel` says that a useful grant has been applied.
pub open spec fn is_applied(
    game: Game,
    site: GrantSite,
    sentinel: RefField,
    player: Value,
    past: Seq<Event>,
) -> bool {
    (game.field)(past, resources(game, site, player, past), sentinel.0) == Value::Bool(true)
}

/// All that has happened after the code of a useful grant has run. A grant that has been applied
/// is left alone. Otherwise, where its marker exists, the resources are added, and the field
/// remembers it; the marker stays.
pub open spec fn useful_run(
    game: Game,
    site: GrantSite,
    sentinel: RefField,
    grant: GrantView,
    player: Value,
    past: Seq<Event>,
) -> Seq<Event> {
    let added = grant_added(game, site, grant, player, past);
    if is_applied(game, site, sentinel, player, past) {
        past
    } else if !marker_exists(game, site, grant, past) {
        marker_asked(game, site, grant, past)
    } else {
        added.push(
            Event::Store(resources(game, site, player, added), sentinel.0, Value::Bool(true)),
        )
    }
}

/// All that has happened after the code of a filler grant has run. Where its marker exists, the
/// resources are added, and the marker is deleted.
pub open spec fn filler_run(
    game: Game,
    site: GrantSite,
    grant: GrantView,
    player: Value,
    past: Seq<Event>,
) -> Seq<Event> {
    if !marker_exists(game, site, grant, past) {
        marker_asked(game, site, grant, past)
    } else {
        let path = (game.result)(
            path_asked(site.get_path, past, string_value(site.shape, grant.marker_path)),
        );
        grant_added(game, site, grant, player, past).push(Event::Call(site.delete, seq![path]))
    }
}

/// All that has happened after the code of a grant has run.
pub open spec fn slot_run(
    game: Game,
    site: GrantSite,
    sentinels: Sentinels,
    grant: GrantView,
    player: Value,
    past: Seq<Event>,
) -> Seq<Event> {
    match grant.kind {
        GrantKind::Useful => useful_run(
            game,
            site,
            sentinel_of(sentinels, grant.key),
            grant,
            player,
            past,
        ),
        GrantKind::Filler => filler_run(game, site, grant, player, past),
    }
}

/// The constants of a grant are in the pools, from these places on, and its code is short enough
/// to jump over.
pub open spec fn grant_in_pools(
    code: ModuleView,
    text_at: int,
    len_at: int,
    amount_at: int,
    grant: GrantView,
) -> bool {
    &&& 0 <= text_at < code.strings.len()
    &&& 0 <= len_at < code.ints.len()
    &&& code.strings[text_at] == grant.marker_path
    &&& code.ints[len_at] == byte_len(grant.marker_path)
    &&& ids_in_pools(
        code,
        text_at + 1,
        len_at + 1,
        amount_at,
        grant.resource_ids,
        grant.amount,
    )
    &&& 9 * grant.resource_ids.len() + 12 <= i32::MAX
}

/// From the marker to the last resource: `skip` is how far the code goes on where the marker does
/// not exist.
proof fn lemma_marker_and_resources(
    code: ModuleView,
    ops: Seq<Opcode>,
    game: Game,
    s: State,
    site: GrantSite,
    grant: GrantView,
    text_at: int,
    len_at: int,
    amount_at: int,
    skip: i32,
) -> (t: State)
    requires
        has_resources(game, site, s.reg(Reg(0))),
        grant_in_pools(code, text_at, len_at, amount_at, grant),
        holds_at(ops, s.pc, marker_ops(site, text_at, len_at)),
        s.pc + 9 + 9 * grant.resource_ids.len() <= ops.len(),
        ops[s.pc + 7] == (Opcode::JFalse { cond: Reg(EXISTS), offset: skip }),
        ops[s.pc + 8] == (Opcode::GetThis { dst: Reg(RES), field: site.res }),
        holds_at(
            ops,
            s.pc + 9,
            aliases_ops(site, text_at + 1, len_at + 1, amount_at, grant.resource_ids.len()),
        ),
    ensures
        leads(code, ops, game, Machine::Running(s), Machine::Running(t)),
        if marker_exists(game, site, grant, s.past) {
            &&& t.pc == s.pc + 9 + 9 * grant.resource_ids.len()
            &&& t.past == grant_added(game, site, grant, s.reg(Reg(0)), s.past)
        } else {
            &&& t.pc == s.pc + 8 + skip
            &&& t.past == marker_asked(game, site, grant, s.past)
        },
        t.reg(Reg(MARKER_PATH)) == (game.result)(
            path_asked(site.get_path, s.past, string_value(site.shape, grant.marker_path)),
        ),
        forall|r: u32| r < 5 ==> #[trigger] t.regs[r] == s.regs[r],
{
    let m = Machine::Running(s);
    let player = s.reg(Reg(0));
    let s1 = lemma_marker_asked(
        code,
        ops,
        game,
        s,
        site,
        text_at,
        len_at,
        grant.marker_path,
    );
    let m1 = Machine::Running(s1);
    let m2 = step(code, ops, game, m1);
    assert(m2 is Running);
    lemma_leads_here(code, ops, game, m2);
    lemma_leads_step(code, ops, game, m1, m2);
    lemma_leads_trans(code, ops, game, m, m1, m2);
    let s2 = m2->Running_0;
    if !marker_exists(game, site, grant, s.past) {
        s2
    } else {
        let m3 = step(code, ops, game, m2);
        assert(s2.regs[0] == s.regs[0]);
        assert(resources(game, site, player, s2.past) is Given);
        assert(m3 is Running);
        lemma_leads_here(code, ops, game, m3);
        lemma_leads_step(code, ops, game, m2, m3);
        lemma_leads_trans(code, ops, game, m, m2, m3);
        let s3 = m3->Running_0;
        assert(s3.reg(Reg(RES)) == resources(game, site, player, s3.past));
        let t = lemma_all_added(
            code,
            ops,
            game,
            s3,
            site,
            text_at + 1,
            len_at + 1,
            amount_at,
            grant.resource_ids,
            grant.amount,
        );
        lemma_leads_trans(code, ops, game, m, m3, Machine::Running(t));
        assert(t.regs[MARKER_PATH] == s3.regs[MARKER_PATH]);
        t
    }
}

/// The code of a filler grant does what [`filler_run`] says.
proof fn lemma_filler_runs(
    code: ModuleView,
    ops: Seq<Opcode>,
    game: Game,
    s: State,
    before: ModuleView,
    site: GrantSite,
    sentinels: Sentinels,
    grant: GrantView,
) -> (t: State)
    requires
        grant.kind is Filler,
        has_resources(game, site, s.reg(Reg(0))),
        grant_in_pools(
            code,
            before.strings.len() as int,
            before.ints.len() as int,
            before.floats.len() as int,
            grant,
        ),
        holds_at(ops, s.pc, slot_ops(before, site, sentinels, grant)),
    ensures
        leads(code, ops, game, Machine::Running(s), Machine::Running(t)),
        t.pc == s.pc + slot_ops(before, site, sentinels, grant).len(),
        t.past == filler_run(game, site, grant, s.reg(Reg(0)), s.past),
        forall|r: u32| r < 5 ==> #[trigger] t.regs[r] == s.regs[r],
{
    let text_at = before.strings.len() as int;
    let len_at = before.ints.len() as int;
    let amount_at = before.floats.len() as int;
    let n = grant.resource_ids.len();
    let slot = slot_ops(before, site, sentinels, grant);
    let marker = marker_ops(site, text_at, len_at);
    let aliases = aliases_ops(site, text_at + 1, len_at + 1, amount_at, n);
    lemma_aliases_len(site, text_at + 1, len_at + 1, amount_at, n);
    assert(holds_at(ops, s.pc, marker)) by {
        assert forall|i: int| 0 <= i < marker.len() implies ops[s.pc + i]
            == #[trigger] marker[i] by {
            assert(slot[i] == marker[i]);
        }
    }
    assert(holds_at(ops, s.pc + 9, aliases)) by {
        assert forall|i: int| 0 <= i < aliases.len() implies ops[s.pc + 9 + i]
            == #[trigger] aliases[i] by {
            assert(slot[9 + i] == aliases[i]);
        }
    }
    let skip = (9 * n + 2) as i32;
    assert(ops[s.pc + 7] == slot[7]);
    assert(ops[s.pc + 8] == slot[8]);
    let s1 = lemma_marker_and_resources(
        code,
        ops,
        game,
        s,
        site,
        grant,
        text_at,
        len_at,
        amount_at,
        skip,
    );
    let m1 = Machine::Running(s1);
    if marker_exists(game, site, grant, s.past) {
        assert(ops[s.pc + (9 + 9 * n)] == slot[9int + 9 * n]);
        let m2 = step(code, ops, game, m1);
        assert(m2 is Running);
        lemma_leads_here(code, ops, game, m2);
        lemma_leads_step(code, ops, game, m1, m2);
        lemma_leads_trans(code, ops, game, Machine::Running(s), m1, m2);
        m2->Running_0
    } else {
        s1
    }
}

/// The end of a useful grant: the field remembers that it has been applied.
proof fn lemma_sentinel_stored(
    code: ModuleView,
    ops: Seq<Opcode>,
    game: Game,
    s: State,
    site: GrantSite,
    sentinel: RefField,
) -> (t: State)
    requires
        has_resources(game, site, s.reg(Reg(0))),
        0 <= s.pc,
        s.pc + 3 <= ops.len(),
        ops[s.pc] == (Opcode::GetThis { dst: Reg(RES), field: site.res }),
        ops[s.pc + 1] == (Opcode::Bool { dst: Reg(TRUE), value: ValBool(true) }),
        ops[s.pc + 2] == (Opcode::SetField { obj: Reg(RES), field: sentinel, src: Reg(TRUE) }),
    ensures
        leads(code, ops, game, Machine::Running(s), Machine::Running(t)),
        t.pc == s.pc + 3,
        t.past == s.past.push(
            Event::Store(
                resources(game, site, s.reg(Reg(0)), s.past),
                sentinel.0,
                Value::Bool(true),
            ),
        ),
        forall|r: u32| r < 5 ==> #[trigger] t.regs[r] == s.regs[r],
{
    let m0 = Machine::Running(s);
    let m1 = step(code, ops, game, m0);
    let m2 = step(code, ops, game, m1);
    let m3 = step(code, ops, game, m2);
    assert(resources(game, site, s.reg(Reg(0)), s.past) is Given);
    assert(m1 is Running && m1->Running_0.pc == s.pc + 1);
    assert(m2 is Running && m2->Running_0.pc == s.pc + 2);
    assert(m3 is Running && m3->Running_0.pc == s.pc + 3);
    lemma_leads_here(code, ops, game, m3);
    lemma_leads_step(code, ops, game, m2, m3);
    lemma_leads_step(code, ops, game, m1, m3);
    lemma_leads_step(code, ops, game, m0, m3);
    m3->Running_0
}

/// The start of a useful grant: has it been applied?
proof fn lemma_sentinel_asked(
    code: ModuleView,
    ops: Seq<Opcode>,
    game: Game,
    s: State,
    site: GrantSite,
    sentinel: RefField,
    skip: i32,
) -> (t: State)
    requires
        has_resources(game, site, s.reg(Reg(0))),
        0 <= s.pc,
        s.pc + 3 <= ops.len(),
        ops[s.pc] == (Opcode::GetThis { dst: Reg(RES), field: site.res }),
        ops[s.pc + 1] == (Opcode::Field { dst: Reg(APPLIED), obj: Reg(RES), field: sentinel }),
        ops[s.pc + 2] == (Opcode::JTrue { cond: Reg(APPLIED), offset: skip }),
    ensures
        leads(code, ops, game, Machine::Running(s), Machine::Running(t)),
        t.pc == if is_applied(game, site, sentinel, s.reg(Reg(0)), s.past) {
            s.pc + 3 + skip
        } else {
            s.pc + 3
        },
        t.past == s.past,
        forall|r: u32| r < 5 ==> #[trigger] t.regs[r] == s.regs[r],
{
    let m0 = Machine::Running(s);
    let m1 = step(code, ops, game, m0);
    let m2 = step(code, ops, game, m1);
    let m3 = step(code, ops, game, m2);
    assert(resources(game, site, s.reg(Reg(0)), s.past) is Given);
    assert(m1 is Running && m1->Running_0.pc == s.pc + 1);
    assert(m2 is Running && m2->Running_0.pc == s.pc + 2);
    assert(m3 is Running);
    lemma_leads_here(code, ops, game, m3);
    lemma_leads_step(code, ops, game, m2, m3);
    lemma_leads_step(code, ops, game, m1, m3);
    lemma_leads_step(code, ops, game, m0, m3);
    m3->Running_0
}

/// The code of a useful grant does what [`useful_run`] says.
proof fn lemma_useful_runs(
    code: ModuleView,
    ops: Seq<Opcode>,
    game: Game,
    s: State,
    before: ModuleView,
    site: GrantSite,
    sentinels: Sentinels,
    grant: GrantView,
) -> (t: State)
    requires
        grant.kind is Useful,
        has_resources(game, site, s.reg(Reg(0))),
        grant_in_pools(
            code,
            before.strings.len() as int,
            before.ints.len() as int,
            before.floats.len() as int,
            grant,
        ),
        holds_at(ops, s.pc, slot_ops(before, site, sentinels, grant)),
    ensures
        leads(code, ops, game, Machine::Running(s), Machine::Running(t)),
        t.pc == s.pc + slot_ops(before, site, sentinels, grant).len(),
        t.past == useful_run(
            game,
            site,
            sentinel_of(sentinels, grant.key),
            grant,
            s.reg(Reg(0)),
            s.past,
        ),
        forall|r: u32| r < 5 ==> #[trigger] t.regs[r] == s.regs[r],
{
    let player = s.reg(Reg(0));
    let sentinel = sentinel_of(sentinels, grant.key);
    let text_at = before.strings.len() as int;
    let len_at = before.ints.len() as int;
    let amount_at = before.floats.len() as int;
    let n = grant.resource_ids.len();
    let slot = slot_ops(before, site, sentinels, grant);
    let marker = marker_ops(site, text_at, len_at);
    let aliases = aliases_ops(site, text_at + 1, len_at + 1, amount_at, n);
    lemma_aliases_len(site, text_at + 1, len_at + 1, amount_at, n);
    assert(ops[s.pc + 0] == slot[0]);
    assert(ops[s.pc + 1] == slot[1]);
    assert(ops[s.pc + 2] == slot[2]);
    let m0 = Machine::Running(s);
    let s3 = lemma_sentinel_asked(code, ops, game, s, site, sentinel, (9 * n + 12) as i32);
    let m3 = Machine::Running(s3);
    assert(s3.regs[0] == s.regs[0]);
    if is_applied(game, site, sentinel, player, s.past) {
        s3
    } else {
        assert(holds_at(ops, s3.pc, marker)) by {
            assert forall|i: int| 0 <= i < marker.len() implies ops[s3.pc + i]
                == #[trigger] marker[i] by {
                assert(slot[3 + i] == marker[i]);
            }
        }
        assert(holds_at(ops, s3.pc + 9, aliases)) by {
            assert forall|i: int| 0 <= i < aliases.len() implies ops[s3.pc + 9 + i]
                == #[trigger] aliases[i] by {
                assert(slot[12 + i] == aliases[i]);
            }
        }
        let skip = (9 * n + 4) as i32;
        assert(ops[s.pc + 10] == slot[10]);
        assert(ops[s.pc + 11] == slot[11]);
        let s4 = lemma_marker_and_resources(
            code,
            ops,
            game,
            s3,
            site,
            grant,
            text_at,
            len_at,
            amount_at,
            skip,
        );
        let m4 = Machine::Running(s4);
        lemma_leads_trans(code, ops, game, m0, m3, m4);
        if marker_exists(game, site, grant, s.past) {
            assert(ops[s.pc + (12 + 9 * n)] == slot[12int + 9 * n]);
            assert(ops[s.pc + (13 + 9 * n)] == slot[13int + 9 * n]);
            assert(ops[s.pc + (14 + 9 * n)] == slot[14int + 9 * n]);
            assert(s4.regs[0] == s.regs[0]);
            let t = lemma_sentinel_stored(code, ops, game, s4, site, sentinel);
            lemma_leads_trans(code, ops, game, m0, m4, Machine::Running(t));
            t
        } else {
            s4
        }
    }
}

/// All that has happened after the code of several grants has run.
pub open spec fn slots_run(
    game: Game,
    site: GrantSite,
    sentinels: Sentinels,
    grants: Seq<GrantView>,
    player: Value,
    past: Seq<Event>,
) -> Seq<Event>
    decreases grants.len(),
{
    if grants.len() == 0 {
        past
    } else {
        slot_run(
            game,
            site,
            sentinels,
            grants.last(),
            player,
            slots_run(game, site, sentinels, grants.drop_last(), player, past),
        )
    }
}

/// The pools of `code` start with those of `part`, and are no larger than memory allows.
pub open spec fn pools_start_with(code: ModuleView, part: ModuleView) -> bool {
    &&& part.strings.is_prefix_of(code.strings)
    &&& part.ints.is_prefix_of(code.ints)
    &&& part.floats.is_prefix_of(code.floats)
    &&& code.strings.len() <= usize::MAX
    &&& code.ints.len() <= usize::MAX
    &&& code.floats.len() <= usize::MAX
}

/// The code of every grant is short enough to jump over.
pub open spec fn jumpable(grants: Seq<GrantView>) -> bool {
    forall|i: int|
        0 <= i < grants.len() ==> 9 * (#[trigger] grants[i]).resource_ids.len() + 12 <= i32::MAX
}

/// The constants of the last of several grants are in the pools.
proof fn lemma_last_in_pools(code: ModuleView, before: ModuleView, grants: Seq<GrantView>)
    requires
        grants.len() > 0,
        jumpable(grants),
        pools_start_with(code, before.with_grants(grants)),
    ensures
        ({
            let so_far = before.with_grants(grants.drop_last());
            grant_in_pools(
                code,
                so_far.strings.len() as int,
                so_far.ints.len() as int,
                so_far.floats.len() as int,
                grants.last(),
            )
        }),
        pools_start_with(code, before.with_grants(grants.drop_last())),
{
    let so_far = before.with_grants(grants.drop_last());
    let all = before.with_grants(grants);
    let grant = grants.last();
    let ids = grant.resource_ids;
    assert(all == so_far.with_grant(grant));
    assert(grants[grants.len() - 1] == grant);
    let text_at = so_far.strings.len() as int;
    let len_at = so_far.ints.len() as int;
    let amount_at = so_far.floats.len() as int;
    assert(so_far.strings.is_prefix_of(code.strings)) by {
        assert(so_far.strings.is_prefix_of(all.strings));
    }
    assert(so_far.ints.is_prefix_of(code.ints)) by {
        assert(so_far.ints.is_prefix_of(all.ints));
    }
    assert(so_far.floats.is_prefix_of(code.floats)) by {
        assert(so_far.floats.is_prefix_of(all.floats));
    }
    assert(all.strings[text_at] == grant.marker_path);
    assert(all.ints[len_at] == byte_len(grant.marker_path));
    assert forall|i: int| 0 <= i < ids.len() implies {
        &&& code.strings[text_at + 1 + i] == #[trigger] ids[i]
        &&& code.ints[len_at + 1 + i] == byte_len(ids[i])
        &&& code.floats[amount_at + i] == Float::Whole(grant.amount)
    } by {
        assert(all.strings[text_at + 1 + i] == ids[i]);
        assert(all.ints[len_at + 1 + i] == byte_len(ids[i]));
        assert(all.floats[amount_at + i] == Float::Whole(grant.amount));
    }
}

/// The code of several grants does what [`slots_run`] says.
proof fn lemma_slots_run(
    code: ModuleView,
    ops: Seq<Opcode>,
    game: Game,
    s: State,
    before: ModuleView,
    site: GrantSite,
    sentinels: Sentinels,
    grants: Seq<GrantView>,
) -> (t: State)
    requires
        has_resources(game, site, s.reg(Reg(0))),
        jumpable(grants),
        pools_start_with(code, before.with_grants(grants)),
        holds_at(ops, s.pc, slots_ops(before, site, sentinels, grants)),
    ensures
        leads(code, ops, game, Machine::Running(s), Machine::Running(t)),
        t.pc == s.pc + slots_ops(before, site, sentinels, grants).len(),
        t.past == slots_run(game, site, sentinels, grants, s.reg(Reg(0)), s.past),
        forall|r: u32| r < 5 ==> #[trigger] t.regs[r] == s.regs[r],
    decreases grants.len(),
{
    if grants.len() == 0 {
        lemma_leads_here(code, ops, game, Machine::Running(s));
        s
    } else {
        let fewer = grants.drop_last();
        let grant = grants.last();
        let so_far = before.with_grants(fewer);
        let all = slots_ops(before, site, sentinels, grants);
        let first = slots_ops(before, site, sentinels, fewer);
        let last = slot_ops(so_far, site, sentinels, grant);
        assert(all == first + last);
        assert(jumpable(fewer)) by {
            assert forall|i: int| 0 <= i < fewer.len() implies 9 * (
            #[trigger] fewer[i]).resource_ids.len() + 12 <= i32::MAX by {
                assert(fewer[i] == grants[i]);
            }
        }
        lemma_last_in_pools(code, before, grants);
        assert(holds_at(ops, s.pc, first)) by {
            assert forall|i: int| 0 <= i < first.len() implies ops[s.pc + i]
                == #[trigger] first[i] by {
                assert(all[i] == first[i]);
            }
        }
        let s1 = lemma_slots_run(code, ops, game, s, before, site, sentinels, fewer);
        assert(holds_at(ops, s1.pc, last)) by {
            assert forall|i: int| 0 <= i < last.len() implies ops[s1.pc + i]
                == #[trigger] last[i] by {
                assert(all[first.len() + i] == last[i]);
            }
        }
        assert(s1.regs[0] == s.regs[0]);
        let t = match grant.kind {
            GrantKind::Useful => lemma_useful_runs(
                code,
                ops,
                game,
                s1,
                so_far,
                site,
                sentinels,
                grant,
            ),
            GrantKind::Filler => lemma_filler_runs(
                code,
                ops,
                game,
                s1,
                so_far,
                site,
                sentinels,
                grant,
            ),
        };
        lemma_leads_trans(
            code,
            ops,
            game,
            Machine::Running(s),
            Machine::Running(s1),
            Machine::Running(t),
        );
        assert forall|r: u32| r < 5 implies #[trigger] t.regs[r] == s.regs[r] by {
            assert(s1.regs[r] == s.regs[r]);
        }
        t
    }
}

/// All that has happened after the code before `ent.Player.update` has run. Nothing happens for a
/// player that the computer controls.
pub open spec fn tick_run(
    game: Game,
    site: GrantSite,
    ai_job: RefField,
    sentinels: Sentinels,
    grants: Seq<GrantView>,
    player: Value,
    past: Seq<Event>,
) -> Seq<Event> {
    if (game.field)(past, player, ai_job.0) is Null {
        slots_run(game, site, sentinels, grants, player, past)
    } else {
        past
    }
}

/// The code before `ent.Player.update` hands out the grants, one after the other, to a player
/// that no computer controls, and goes on to the game's own code with all registers of that code
/// as they were.
pub proof fn law_grants_are_handed_out(
    code: ModuleView,
    ops: Seq<Opcode>,
    game: Game,
    s: State,
    before: ModuleView,
    site: GrantSite,
    ai_job: RefField,
    sentinels: Sentinels,
    grants: Seq<GrantView>,
) -> (t: State)
    requires
        s.pc == 0,
        has_resources(game, site, s.reg(Reg(0))),
        jumpable(grants),
        slots_ops(before, site, sentinels, grants).len() <= i32::MAX,
        pools_start_with(code, before.with_grants(grants)),
        holds_at(ops, 0, grant_ops(before, site, ai_job, sentinels, grants)),
    ensures
        leads(code, ops, game, Machine::Running(s), Machine::Running(t)),
        t.pc == grant_ops(before, site, ai_job, sentinels, grants).len(),
        t.past == tick_run(game, site, ai_job, sentinels, grants, s.reg(Reg(0)), s.past),
        forall|r: u32| r < 5 ==> #[trigger] t.regs[r] == s.regs[r],
{
    let part = grant_ops(before, site, ai_job, sentinels, grants);
    let slots = slots_ops(before, site, sentinels, grants);
    let player = s.reg(Reg(0));
    assert(ops[0] == part[0]);
    assert(ops[1] == part[1]);
    let m0 = Machine::Running(s);
    let m1 = step(code, ops, game, m0);
    let m2 = step(code, ops, game, m1);
    assert(m1 is Running && m1->Running_0.pc == 1);
    assert(m2 is Running);
    lemma_leads_here(code, ops, game, m2);
    lemma_leads_step(code, ops, game, m1, m2);
    lemma_leads_step(code, ops, game, m0, m2);
    let s2 = m2->Running_0;
    if (game.field)(s.past, player, ai_job.0) is Null {
        assert(holds_at(ops, 2, slots)) by {
            assert forall|i: int| 0 <= i < slots.len() implies ops[2 + i] == #[trigger] slots[i] by {
                assert(part[2 + i] == slots[i]);
            }
        }
        assert(s2.regs[0] == s.regs[0]);
        let t = lemma_slots_run(code, ops, game, s2, before, site, sentinels, grants);
        lemma_leads_trans(code, ops, game, m0, m2, Machine::Running(t));
        t
    } else {
        s2
    }
}

/// The field `sentinel` of the resources `res` of a battle belongs to the patch alone: it is zeroed
/// when the battle begins, and says what was last stored there.
pub open spec fn remembers(
    game: Game,
    site: GrantSite,
    player: Value,
    res: Value,
    sentinel: RefField,
) -> bool {
    &&& forall|past: Seq<Event>| #[trigger] resources(game, site, player, past) == res
    &&& forall|past: Seq<Event>|
        ((#[trigger] (game.field)(past, res, sentinel.0)) == Value::Bool(true)) == past.contains(
            Event::Store(res, sentinel.0, Value::Bool(true)),
        )
}

/// A useful grant is applied once in a battle: after the code has added it, the code does nothing
/// more for it, whatever else happens in the battle.
pub proof fn law_useful_grant_is_applied_once(
    game: Game,
    site: GrantSite,
    sentinel: RefField,
    grant: GrantView,
    player: Value,
    res: Value,
    past: Seq<Event>,
    later: Seq<Event>,
)
    requires
        remembers(game, site, player, res, sentinel),
        marker_exists(game, site, grant, past),
        useful_run(game, site, sentinel, grant, player, past).is_prefix_of(later),
    ensures
        is_applied(game, site, sentinel, player, later),
        useful_run(game, site, sentinel, grant, player, later) == later,
{
    let ran = useful_run(game, site, sentinel, grant, player, past);
    let stored = Event::Store(res, sentinel.0, Value::Bool(true));
    let added = grant_added(game, site, grant, player, past);
    assert(resources(game, site, player, past) == res);
    assert(resources(game, site, player, added) == res);
    assert(resources(game, site, player, later) == res);
    assert(ran.contains(stored)) by {
        if !is_applied(game, site, sentinel, player, past) {
            assert(ran[ran.len() - 1] == stored);
        }
    }
    let i = choose|i: int| 0 <= i < ran.len() && ran[i] == stored;
    assert(later[i] == ran[i]);
    assert(later.contains(stored));
}

/// Useful grants do not get in each other's way: running the code of one leaves it open whether
/// another, with a field of its own, has been applied.
pub proof fn law_useful_grants_are_independent(
    game: Game,
    site: GrantSite,
    sentinel: RefField,
    grant: GrantView,
    other: RefField,
    player: Value,
    res: Value,
    past: Seq<Event>,
)
    requires
        remembers(game, site, player, res, sentinel),
        remembers(game, site, player, res, other),
        sentinel != other,
    ensures
        is_applied(
            game,
            site,
            other,
            player,
            useful_run(game, site, sentinel, grant, player, past),
        ) == is_applied(game, site, other, player, past),
{
    let ran = useful_run(game, site, sentinel, grant, player, past);
    let stored = Event::Store(res, other.0, Value::Bool(true));
    assert(resources(game, site, player, past) == res);
    assert(resources(game, site, player, ran) == res);
    lemma_useful_prefix(game, site, sentinel, grant, player, past);
    if past.contains(stored) {
        let i = choose|i: int| 0 <= i < past.len() && past[i] == stored;
        assert(ran[i] == stored);
    }
    if ran.contains(stored) {
        let i = choose|i: int| 0 <= i < ran.len() && ran[i] == stored;
        if i >= past.len() {
            lemma_useful_events(game, site, sentinel, grant, player, past, i);
        } else {
            assert(past[i] == ran[i]);
        }
    }
}

/// The native path of a marker is always the same, and a marker that has just been deleted does
/// not exist.
pub open spec fn deletes(game: Game, site: GrantSite, grant: GrantView, path: Value) -> bool {
    &&& forall|past: Seq<Event>|
        (game.result)(
            #[trigger] path_asked(
                site.get_path,
                past,
                string_value(site.shape, grant.marker_path),
            ),
        ) == path
    &&& forall|past: Seq<Event>|
        !marker_exists(
            game,
            site,
            grant,
            #[trigger] past.push(Event::Call(site.delete, seq![path])),
        )
}

/// A filler grant is applied once for each marker: after the code has added it, the marker is
/// gone, and running the code again adds nothing.
pub proof fn law_filler_grant_uses_up_its_marker(
    game: Game,
    site: GrantSite,
    grant: GrantView,
    player: Value,
    path: Value,
    past: Seq<Event>,
)
    requires
        deletes(game, site, grant, path),
        marker_exists(game, site, grant, past),
    ensures
        ({
            let ran = filler_run(game, site, grant, player, past);
            &&& ran == grant_added(game, site, grant, player, past).push(
                Event::Call(site.delete, seq![path]),
            )
            &&& filler_run(game, site, grant, player, ran) == marker_asked(game, site, grant, ran)
        }),
{
    let added = grant_added(game, site, grant, player, past);
    let name = string_value(site.shape, grant.marker_path);
    assert((game.result)(path_asked(site.get_path, past, name)) == path);
    assert(!marker_exists(
        game,
        site,
        grant,
        added.push(Event::Call(site.delete, seq![path])),
    ));
}

/// What has happened has happened.
proof fn lemma_useful_prefix(
    game: Game,
    site: GrantSite,
    sentinel: RefField,
    grant: GrantView,
    player: Value,
    past: Seq<Event>,
)
    ensures
        past.is_prefix_of(useful_run(game, site, sentinel, grant, player, past)),
{
    let asked = marker_asked(game, site, grant, past);
    assert(past.is_prefix_of(asked));
    assert(asked.is_prefix_of(grant_added(game, site, grant, player, past)));
}

/// Everything that the code of a useful grant does.
proof fn lemma_useful_events(
    game: Game,
    site: GrantSite,
    sentinel: RefField,
    grant: GrantView,
    player: Value,
    past: Seq<Event>,
    i: int,
)
    requires
        past.len() <= i < useful_run(game, site, sentinel, grant, player, past).len(),
    ensures
        match useful_run(game, site, sentinel, grant, player, past)[i] {
            Event::Call(fun, _) => fun == site.get_path || fun == site.exists || fun
                == site.add_resource,
            Event::Store(_, field, value) => field == sentinel.0 && value == Value::Bool(true),
            Event::Invoke(_, _) => false,
        },
{
    let ran = useful_run(game, site, sentinel, grant, player, past);
    let asked = marker_asked(game, site, grant, past);
    let added = grant_added(game, site, grant, player, past);
    assert(asked.len() == past.len() + 2);
    if i < asked.len() {
        assert(ran[i] == asked[i]);
    } else if i < added.len() {
        assert(ran[i] == added[i]);
    }
}

/// A useful grant keeps its marker: its code calls nothing that deletes a file.
pub proof fn law_useful_grant_keeps_its_marker(
    game: Game,
    site: GrantSite,
    sentinel: RefField,
    grant: GrantView,
    player: Value,
    past: Seq<Event>,
    i: int,
)
    requires
        site.delete != site.get_path,
        site.delete != site.exists,
        site.delete != site.add_resource,
        past.len() <= i < useful_run(game, site, sentinel, grant, player, past).len(),
    ensures
        useful_run(game, site, sentinel, grant, player, past)[i] matches Event::Call(fun, _) ==> fun
            != site.delete,
{
    lemma_useful_events(game, site, sentinel, grant, player, past, i);
}

} // verus!
