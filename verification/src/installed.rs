//! What the patched game does, in the program as all patches leave it.

use vstd::prelude::*;
use hlbc::opcodes::Opcode;
use hlbc::types::{RefField, RefFun, RefType, Reg};
use crate::fixes::{calling_back, NULL_JUMP_OP, REVEAL_OP, SKIP_PATH_PUSH_OP};
use crate::gate::{byte_len, gated, GateTexts};
use crate::gate_behaviour::{
    ending, holds_at, law_marker_is_asked_for, new_verdict, Gate, OwnCode,
};
use crate::grant_behaviour::{
    has_resources, jumpable, law_grants_are_handed_out, pools_start_with, tick_run,
};
use crate::grants::{
    ai_job_field, grant_ops, in_order, lemma_aliases_len, lemma_with_grants_keeps, of_kind,
    slots_ops, GrantKind, GrantSite, GrantView, Sentinels,
};
use crate::laws::{
    applied_in_turn, changed_by, law_patches, lemma_all_differ, lemma_function_place, lemma_kept_between,
    lemma_place_fixed, lemma_sentinels_extend, lemma_stages, staged, staged_at, Stages,
};
use crate::machine::{leads, Game, Machine, State};
use crate::lookup::lemma_first_where;
use crate::module::{FunctionView, ModuleView};
use crate::refresh::{refresh_methods, refresh_sources, refreshing, walk_ops, walk_regs};
use crate::resources::{configs, grants_of};
use crate::sites::{Failure, Method};
use crate::walk_behaviour::{
    columns_shown, law_walk_shows_every_node, own_regs_kept, OpenMap, WalkCalls,
};
use crate::valid::{extends, lemma_function_index_kept, lemma_methods_kept};

verus! {

/// The pools are no larger than memory allows.
pub open spec fn fits(code: ModuleView) -> bool {
    &&& code.strings.len() <= usize::MAX
    &&& code.ints.len() <= usize::MAX
    &&& code.floats.len() <= usize::MAX
}

/// The place of a method of the game.
pub open spec fn place(code: ModuleView, method: Method) -> int {
    code.method_at(method)->Ok_0
}

/// The check for markers is in the patched program, with its texts in the pools: the markers are
/// in the directory `unlock_dir`, and `flag` is the file of the non-linear mode.
pub proof fn law_check_is_installed(
    code: ModuleView,
    unlock_dir: Seq<char>,
    flag: Seq<char>,
    pending_dir: Seq<char>,
    args: Vec<Reg>,
) -> (gate: Gate)
    requires
        code.valid(),
        code.patch_all(unlock_dir, flag, pending_dir, args).1 is Ok,
        fits(code.patch_all(unlock_dir, flag, pending_dir, args).0),
    ensures
        ({
            let after = code.patch_all(unlock_dir, flag, pending_dir, args).0;
            let i = place(code, Method::GetBattleState);
            &&& gate.in_pools(after)
            &&& gate.prefix == unlock_dir + "\\"@
            &&& gate.flag == flag
            &&& Ok::<_, Failure>(gate.calls) == code.gate_calls()
            &&& code.method_at(Method::GetBattleState) is Ok
            &&& 0 <= i < code.functions.len()
            &&& after.functions[i] == gated(
                code.functions[i],
                gate.shape,
                gate.calls,
                gate.texts,
            )
        }),
{
    let st = lemma_stages(code, unlock_dir, flag, pending_dir, args);
    let gate = lemma_check_stage(code, unlock_dir, flag, pending_dir, args, st);
    let i = place(code, Method::GetBattleState);
    lemma_place_fixed(code, st, changed_by(1), 1);
    lemma_all_differ();
    lemma_kept_between(code, st, changed_by(1), i, 1, 6);
    lemma_in_pools_kept(st.gated, st.granted, gate);
    gate
}

/// The first of the patches puts the check there.
proof fn lemma_check_stage(
    code: ModuleView,
    unlock_dir: Seq<char>,
    flag: Seq<char>,
    pending_dir: Seq<char>,
    args: Vec<Reg>,
    st: Stages,
) -> (gate: Gate)
    requires
        applied_in_turn(code, unlock_dir, flag, pending_dir, args, st),
        staged(code, st),
        code.valid(),
        fits(st.granted),
    ensures
        check_placed(
            code,
            st.gated,
            place(code, Method::GetBattleState),
            unlock_dir + "\\"@,
            flag,
            gate,
        ),
        code.method_at(Method::GetBattleState) is Ok,
{
    lemma_place_fixed(code, st, changed_by(1), 6);
    lemma_place_fixed(code, st, changed_by(1), 1);
    assert(staged_at(code, st, 2));
    assert(staged_at(code, st, 3));
    assert(staged_at(code, st, 4));
    assert(staged_at(code, st, 5));
    assert(staged_at(code, st, 6));
    assert(st.gated.strings.len() <= st.granted.strings.len());
    assert(st.gated.ints.len() <= st.granted.ints.len());
    reveal(applied_in_turn);
    lemma_check_placed(code, st.gate, unlock_dir + "\\"@, flag)
}

/// The check is in the `i`-th function of `after`, which comes from `code` by this patch alone.
pub open spec fn check_placed(
    code: ModuleView,
    after: ModuleView,
    i: int,
    prefix: Seq<char>,
    flag: Seq<char>,
    gate: Gate,
) -> bool {
    &&& gate.in_pools(after)
    &&& gate.texts.prefix < after.strings.len()
    &&& gate.texts.flag < after.strings.len()
    &&& gate.texts.prefix_len < after.ints.len()
    &&& gate.texts.flag_len < after.ints.len()
    &&& gate.prefix == prefix
    &&& gate.flag == flag
    &&& Ok::<_, Failure>(gate.calls) == code.gate_calls()
    &&& after.functions[i] == gated(code.functions[i], gate.shape, gate.calls, gate.texts)
}

/// The patch of `Conquest.getBattleState` puts the check there.
proof fn lemma_check_placed(
    code: ModuleView,
    findex: usize,
    prefix: Seq<char>,
    flag: Seq<char>,
) -> (gate: Gate)
    requires
        code.patch_gate(findex, prefix, flag).1 is Ok,
        code.patch_gate(findex, prefix, flag).0.strings.len() <= usize::MAX,
        code.patch_gate(findex, prefix, flag).0.ints.len() <= usize::MAX,
    ensures
        code.function_index(findex) is Some,
        check_placed(
            code,
            code.patch_gate(findex, prefix, flag).0,
            code.function_index(findex)->0,
            prefix,
            flag,
            gate,
        ),
{
    let calls = code.gate_calls()->Ok_0;
    let with_texts = code.with_string(prefix).with_string(flag);
    let shape = with_texts.string_shape(calls.add)->Ok_0;
    let with_lens = with_texts.with_int(byte_len(prefix)).with_int(byte_len(flag));
    let texts = GateTexts {
        prefix: code.strings.len() as usize,
        flag: (code.strings.len() + 1) as usize,
        prefix_len: code.ints.len() as usize,
        flag_len: (code.ints.len() + 1) as usize,
    };
    let i = with_lens.function_index(findex)->0;
    assert(with_lens.functions == code.functions);
    assert(code.function_index(findex) == Some(i));
    lemma_function_place(code, findex);
    let after = code.patch_gate(findex, prefix, flag).0;
    assert(after == with_lens.with_function(i, gated(code.functions[i], shape, calls, texts)));
    Gate { shape, calls, texts, prefix, flag }
}

/// Texts that are in the pools stay there.
proof fn lemma_in_pools_kept(a: ModuleView, b: ModuleView, gate: Gate)
    requires
        extends(a, b),
        gate.in_pools(a),
        gate.texts.prefix < a.strings.len(),
        gate.texts.flag < a.strings.len(),
        gate.texts.prefix_len < a.ints.len(),
        gate.texts.flag_len < a.ints.len(),
    ensures
        gate.in_pools(b),
{
}

/// In the patched game, a node shows as unlocked only where its marker exists.
///
/// The program had the game's own `Conquest.getBattleState` (`own`), and all patches succeeded.
/// Then the function, called for any node in any game, ends as [`new_verdict`] says.
pub proof fn law_patched_game_asks_for_markers(
    code: ModuleView,
    unlock_dir: Seq<char>,
    flag: Seq<char>,
    pending_dir: Seq<char>,
    args: Vec<Reg>,
    own: OwnCode,
    game: Game,
    s: State,
) -> (gate: Gate)
    requires
        code.valid(),
        code.patch_all(unlock_dir, flag, pending_dir, args).1 is Ok,
        fits(code.patch_all(unlock_dir, flag, pending_dir, args).0),
        code.functions[place(code, Method::GetBattleState)].ops == own.ops(),
        s.pc == 0,
    ensures
        gate.prefix == unlock_dir + "\\"@,
        gate.flag == flag,
        ({
            let after = code.patch_all(unlock_dir, flag, pending_dir, args).0;
            let (verdict, past) = new_verdict(
                game,
                own,
                gate,
                s.past,
                s.reg(Reg(0)),
                s.reg(Reg(1)),
            );
            leads(
                after,
                after.functions[place(code, Method::GetBattleState)].ops,
                game,
                Machine::Running(s),
                ending(game, own, verdict, past),
            )
        }),
{
    let after = code.patch_all(unlock_dir, flag, pending_dir, args).0;
    let gate = law_check_is_installed(code, unlock_dir, flag, pending_dir, args);
    let f = code.functions[place(code, Method::GetBattleState)];
    law_marker_is_asked_for(after, f, game, s, own, gate);
    gate
}

/// Around the `k`-th patch, nothing happens to the method that it changes.
proof fn lemma_around(code: ModuleView, st: Stages, k: int)
    requires
        code.valid(),
        staged(code, st),
        1 <= k <= 6,
        st.program(code, k - 1).method_at(changed_by(k)) is Ok,
    ensures
        ({
            let i = place(code, changed_by(k));
            &&& code.method_at(changed_by(k)) is Ok
            &&& 0 <= i < code.functions.len()
            &&& place(st.program(code, k - 1), changed_by(k)) == i
            &&& st.program(code, k - 1).functions[i] == code.functions[i]
            &&& st.granted.functions[i] == st.program(code, k).functions[i]
        }),
{
    let i = place(code, changed_by(k));
    lemma_place_fixed(code, st, changed_by(k), k - 1);
    lemma_place_fixed(code, st, changed_by(k), k);
    lemma_all_differ();
    lemma_kept_between(code, st, changed_by(k), i, 0, k - 1);
    lemma_kept_between(code, st, changed_by(k), i, k, 6);
}

/// The walk over the map is before the code that `ConquestMapContent.update` had.
pub proof fn law_walk_is_installed(
    code: ModuleView,
    unlock_dir: Seq<char>,
    flag: Seq<char>,
    pending_dir: Seq<char>,
    args: Vec<Reg>,
) -> (walk: (Seq<RefType>, usize, usize))
    requires
        code.valid(),
        code.patch_all(unlock_dir, flag, pending_dir, args).1 is Ok,
    ensures
        ({
            let after = code.patch_all(unlock_dir, flag, pending_dir, args).0;
            let i = place(code, Method::MapUpdate);
            let (types, gate, change_state) = walk;
            &&& code.method_at(Method::MapUpdate) is Ok
            &&& 0 <= i < code.functions.len()
            &&& code.method(Method::GetBattleState) == Ok::<usize, Failure>(gate)
            &&& code.method(Method::ChangeState) == Ok::<usize, Failure>(change_state)
            &&& after.functions[i] == refreshing(code.functions[i], types, gate, change_state)
        }),
{
    let st = lemma_stages(code, unlock_dir, flag, pending_dir, args);
    let walk = lemma_walk_stage(code, unlock_dir, flag, pending_dir, args, st);
    lemma_around(code, st, 2);
    lemma_place_fixed(code, st, Method::ChangeState, 1);
    assert(staged_at(code, st, 1));
    lemma_methods_kept(
        code,
        st.gated,
        Method::ChangeState.class(),
        Method::ChangeState.name(),
    );
    walk
}

/// In the patched game, the open map hands every node its present state on every frame, and then
/// goes on with the game's own code.
pub proof fn law_patched_map_shows_every_node(
    code: ModuleView,
    unlock_dir: Seq<char>,
    flag: Seq<char>,
    pending_dir: Seq<char>,
    args: Vec<Reg>,
    game: Game,
    s: State,
    map: OpenMap,
) -> (t: State)
    requires
        code.valid(),
        code.patch_all(unlock_dir, flag, pending_dir, args).1 is Ok,
        code.ints.len() > 0,
        code.ints[0] == 0,
        code.functions[place(code, Method::MapUpdate)].regs.len() + 17 <= u32::MAX,
        map.stands(game, s.reg(Reg(0))),
        s.pc == 0,
    ensures
        ({
            let after = code.patch_all(unlock_dir, flag, pending_dir, args).0;
            let f = code.functions[place(code, Method::MapUpdate)];
            let calls = WalkCalls {
                gate: code.method(Method::GetBattleState)->Ok_0,
                change_state: code.method(Method::ChangeState)->Ok_0,
            };
            &&& leads(
                after,
                after.functions[place(code, Method::MapUpdate)].ops,
                game,
                Machine::Running(s),
                Machine::Running(t),
            )
            &&& t.pc == 40
            &&& t.past == columns_shown(game, calls, map, map.columns.len(), s.past)
            &&& own_regs_kept(s, t, f.regs.len() as u32)
        }),
{
    let after = code.patch_all(unlock_dir, flag, pending_dir, args).0;
    let i = place(code, Method::MapUpdate);
    let (types, gate, change_state) = law_walk_is_installed(
        code,
        unlock_dir,
        flag,
        pending_dir,
        args,
    );
    law_patches(code, unlock_dir, flag, pending_dir, args);
    let f = code.functions[i];
    let base = f.regs.len() as u32;
    let ops = after.functions[i].ops;
    let part = walk_ops(walk_regs(base), gate, change_state);
    assert(ops == part + f.ops);
    assert(holds_at(ops, 0, part));
    assert(after.ints[0] == code.ints[0]);
    lemma_update_has_registers(code, unlock_dir, flag, pending_dir, args);
    law_walk_shows_every_node(
        after,
        ops,
        game,
        s,
        base,
        WalkCalls { gate, change_state },
        map,
    )
}

/// `ConquestMapContent.update` has the registers that the walk takes for granted.
proof fn lemma_update_has_registers(
    code: ModuleView,
    unlock_dir: Seq<char>,
    flag: Seq<char>,
    pending_dir: Seq<char>,
    args: Vec<Reg>,
)
    requires
        code.valid(),
        code.patch_all(unlock_dir, flag, pending_dir, args).1 is Ok,
    ensures
        code.functions[place(code, Method::MapUpdate)].regs.len() > 10,
{
    let st = lemma_stages(code, unlock_dir, flag, pending_dir, args);
    lemma_walk_stage(code, unlock_dir, flag, pending_dir, args, st);
    lemma_around(code, st, 2);
}

/// The second of the patches puts the walk there.
proof fn lemma_walk_stage(
    code: ModuleView,
    unlock_dir: Seq<char>,
    flag: Seq<char>,
    pending_dir: Seq<char>,
    args: Vec<Reg>,
    st: Stages,
) -> (walk: (Seq<RefType>, usize, usize))
    requires
        applied_in_turn(code, unlock_dir, flag, pending_dir, args, st),
    ensures
        ({
            let i = place(st.gated, Method::MapUpdate);
            let (types, gate, change_state) = walk;
            &&& st.gated.method_at(Method::MapUpdate) is Ok
            &&& code.method(Method::GetBattleState) == Ok::<usize, Failure>(gate)
            &&& st.gated.method(Method::ChangeState) == Ok::<usize, Failure>(change_state)
            &&& st.gated.functions[i].regs.len() > 10
            &&& st.refreshed.functions[i] == refreshing(
                st.gated.functions[i],
                types,
                gate,
                change_state,
            )
        }),
{
    reveal(applied_in_turn);
    let wanted = refresh_methods();
    let results = Seq::new(wanted.len(), |k: int| st.gated.method(wanted[k]));
    lemma_first_where(results, |r: Result<usize, Failure>| r is Err);
    assert(results[0] == st.gated.method(Method::MapUpdate));
    assert(results[1] == st.gated.method(Method::ChangeState));
    let found = st.gated.method_list(wanted)->Ok_0;
    let types = st.gated.type_list(refresh_sources(found))->Ok_0;
    lemma_function_place(st.gated, found[0]);
    (types, st.gate, found[1])
}

/// The corrections are in the patched program, each in its own method; the rest of the method is
/// as it was.
pub proof fn law_corrections_are_installed(
    code: ModuleView,
    unlock_dir: Seq<char>,
    flag: Seq<char>,
    pending_dir: Seq<char>,
    args: Vec<Reg>,
) -> (regs: (Reg, Reg))
    requires
        code.valid(),
        code.patch_all(unlock_dir, flag, pending_dir, args).1 is Ok,
    ensures
        ({
            let after = code.patch_all(unlock_dir, flag, pending_dir, args).0;
            let reveal_at = place(code, Method::AnimateNewBattlePlots);
            let path_at = place(code, Method::OnBattleCompleted);
            let callback_at = place(code, Method::AnimateLastPath);
            let gate = code.method(Method::GetBattleState)->Ok_0;
            &&& 0 <= reveal_at < code.functions.len()
            &&& 0 <= path_at < code.functions.len()
            &&& 0 <= callback_at < code.functions.len()
            &&& after.functions[reveal_at] == (FunctionView {
                ops: code.functions[reveal_at].ops.update(
                    REVEAL_OP as int,
                    Opcode::Call2 {
                        dst: regs.0,
                        fun: RefFun(gate),
                        arg0: Reg(6),
                        arg1: Reg(4),
                    },
                ),
                ..code.functions[reveal_at]
            })
            &&& after.functions[path_at] == (FunctionView {
                ops: code.functions[path_at].ops.update(
                    SKIP_PATH_PUSH_OP as int,
                    Opcode::JAlways { offset: 0 },
                ),
                ..code.functions[path_at]
            })
            &&& code.functions[callback_at].ops[NULL_JUMP_OP as int] == (Opcode::JNull {
                reg: regs.1,
                offset: 16,
            })
            &&& after.functions[callback_at] == calling_back(
                code.functions[callback_at],
                regs.1,
                args,
            )
        }),
{
    let st = lemma_stages(code, unlock_dir, flag, pending_dir, args);
    let regs = lemma_correction_stages(code, unlock_dir, flag, pending_dir, args, st);
    lemma_around(code, st, 3);
    lemma_around(code, st, 4);
    lemma_around(code, st, 5);
    regs
}

/// The third, fourth and fifth of the patches put the corrections there.
proof fn lemma_correction_stages(
    code: ModuleView,
    unlock_dir: Seq<char>,
    flag: Seq<char>,
    pending_dir: Seq<char>,
    args: Vec<Reg>,
    st: Stages,
) -> (regs: (Reg, Reg))
    requires
        applied_in_turn(code, unlock_dir, flag, pending_dir, args, st),
    ensures
        ({
            let reveal_at = place(st.refreshed, Method::AnimateNewBattlePlots);
            let path_at = place(st.revealed, Method::OnBattleCompleted);
            let callback_at = place(st.recorded, Method::AnimateLastPath);
            let gate = code.method(Method::GetBattleState)->Ok_0;
            &&& st.refreshed.method_at(Method::AnimateNewBattlePlots) is Ok
            &&& st.revealed.method_at(Method::OnBattleCompleted) is Ok
            &&& st.recorded.method_at(Method::AnimateLastPath) is Ok
            &&& st.revealed.functions[reveal_at] == (FunctionView {
                ops: st.refreshed.functions[reveal_at].ops.update(
                    REVEAL_OP as int,
                    Opcode::Call2 {
                        dst: regs.0,
                        fun: RefFun(gate),
                        arg0: Reg(6),
                        arg1: Reg(4),
                    },
                ),
                ..st.refreshed.functions[reveal_at]
            })
            &&& st.recorded.functions[path_at] == (FunctionView {
                ops: st.revealed.functions[path_at].ops.update(
                    SKIP_PATH_PUSH_OP as int,
                    Opcode::JAlways { offset: 0 },
                ),
                ..st.revealed.functions[path_at]
            })
            &&& st.recorded.functions[callback_at].ops[NULL_JUMP_OP as int] == (Opcode::JNull {
                reg: regs.1,
                offset: 16,
            })
            &&& st.called_back.functions[callback_at] == calling_back(
                st.recorded.functions[callback_at],
                regs.1,
                args,
            )
        }),
{
    reveal(applied_in_turn);
    let reveal_at = place(st.refreshed, Method::AnimateNewBattlePlots);
    let path_at = place(st.revealed, Method::OnBattleCompleted);
    let callback_at = place(st.recorded, Method::AnimateLastPath);
    lemma_function_place(
        st.refreshed,
        st.refreshed.method(Method::AnimateNewBattlePlots)->Ok_0,
    );
    lemma_function_place(st.revealed, st.revealed.method(Method::OnBattleCompleted)->Ok_0);
    lemma_function_place(st.recorded, st.recorded.method(Method::AnimateLastPath)->Ok_0);
    let dst = match st.refreshed.functions[reveal_at].ops[REVEAL_OP as int] {
        Opcode::GetGlobal { dst, .. } => dst,
        _ => Reg(0),
    };
    let reg = match st.recorded.functions[callback_at].ops[NULL_JUMP_OP as int] {
        Opcode::JNull { reg, .. } => reg,
        _ => Reg(0),
    };
    (dst, reg)
}

/// What the code of the grants refers to, where it is installed.
pub struct Granting {
    /// The program with the fields, before the constants were added.
    pub before: ModuleView,
    pub site: GrantSite,
    pub ai_job: RefField,
    pub sentinels: Sentinels,
    /// The grants, in the order in which they are handed out.
    pub grants: Seq<GrantView>,
}

impl Granting {
    /// The instructions of the grants.
    pub open spec fn ops(self) -> Seq<Opcode> {
        grant_ops(self.before, self.site, self.ai_job, self.sentinels, self.grants)
    }
}

/// The code of `grants` is in the program `after`, before the code that `ent.Player.update` has in
/// `code`, with its constants in the pools.
pub open spec fn grants_installed(
    code: ModuleView,
    after: ModuleView,
    grants: Seq<GrantView>,
    g: Granting,
) -> bool {
    let i = place(code, Method::PlayerUpdate);
    &&& g.grants == grants
    &&& code.method_at(Method::PlayerUpdate) is Ok
    &&& 0 <= i < code.functions.len()
    &&& after.functions[i].ops == g.ops() + code.functions[i].ops
    &&& pools_start_with(after, g.before.with_grants(g.grants))
    &&& jumpable(g.grants)
    &&& slots_ops(g.before, g.site, g.sentinels, g.grants).len() <= i32::MAX
}

/// All grants are in the patched program: for each resource, the useful one and the filler one,
/// whose markers are in the directory `pending_dir`.
pub proof fn law_grants_are_installed(
    code: ModuleView,
    unlock_dir: Seq<char>,
    flag: Seq<char>,
    pending_dir: Seq<char>,
    args: Vec<Reg>,
) -> (g: Granting)
    requires
        code.valid(),
        code.patch_all(unlock_dir, flag, pending_dir, args).1 is Ok,
        fits(code.patch_all(unlock_dir, flag, pending_dir, args).0),
    ensures
        grants_installed(
            code,
            code.patch_all(unlock_dir, flag, pending_dir, args).0,
            in_order(grants_of(configs(), pending_dir)),
            g,
        ),
{
    let st = lemma_stages(code, unlock_dir, flag, pending_dir, args);
    let grants = grants_of(configs(), pending_dir);
    let g = lemma_grants_stage(code, unlock_dir, flag, pending_dir, args, st);
    lemma_few_identifiers(pending_dir);
    lemma_in_order(grants, 2);
    lemma_slots_short(g.before, g.site, g.sentinels, g.grants, 2);
    lemma_place_fixed(code, st, changed_by(6), 5);
    lemma_all_differ();
    lemma_kept_between(code, st, changed_by(6), place(code, Method::PlayerUpdate), 0, 5);
    g
}

/// The last of the patches puts the code of the grants there.
proof fn lemma_grants_stage(
    code: ModuleView,
    unlock_dir: Seq<char>,
    flag: Seq<char>,
    pending_dir: Seq<char>,
    args: Vec<Reg>,
    st: Stages,
) -> (g: Granting)
    requires
        applied_in_turn(code, unlock_dir, flag, pending_dir, args, st),
        fits(st.granted),
    ensures
        grants_placed(
            st.called_back,
            st.granted,
            in_order(grants_of(configs(), pending_dir)),
            g,
        ),
{
    reveal(applied_in_turn);
    lemma_grants_placed(st.called_back, grants_of(configs(), pending_dir))
}

/// The code of the grants is in `after`, which comes from `code` by this patch alone.
pub open spec fn grants_placed(
    code: ModuleView,
    after: ModuleView,
    grants: Seq<GrantView>,
    g: Granting,
) -> bool {
    let i = place(code, Method::PlayerUpdate);
    &&& g.grants == grants
    &&& code.method_at(Method::PlayerUpdate) is Ok
    &&& after.functions[i].ops == g.ops() + code.functions[i].ops
    &&& pools_start_with(after, g.before.with_grants(g.grants))
}

/// The patch of `ent.Player.update` puts the code of the grants there.
proof fn lemma_grants_placed(code: ModuleView, grants: Seq<GrantView>) -> (g: Granting)
    requires
        code.patch_grants(grants).1 is Ok,
        fits(code.patch_grants(grants).0),
    ensures
        grants_placed(code, code.patch_grants(grants).0, in_order(grants), g),
{
    let site = code.grant_site()->Ok_0;
    let useful = of_kind(grants, GrantKind::Useful);
    let (before, added) = code.add_sentinels(useful, site.bool_ty);
    lemma_sentinels_extend(code, useful, site.bool_ty);
    lemma_function_index_kept(code, before, site.update);
    lemma_function_place(code, site.update);
    let i = before.function_index(site.update)->0;
    let ai_job = ai_job_field(before.functions[i])->Ok_0;
    lemma_with_grants_keeps(before, in_order(grants));
    Granting { before, site, ai_job, sentinels: added->Ok_0, grants: in_order(grants) }
}

/// No grant has more than `most` identifiers.
spec fn few(grants: Seq<GrantView>, most: nat) -> bool {
    forall|i: int|
        0 <= i < grants.len() ==> (#[trigger] grants[i]).resource_ids.len() <= most
}

/// The resources that can be granted have two identifiers at most.
proof fn lemma_few_identifiers(dir: Seq<char>)
    ensures
        few(grants_of(configs(), dir), 2),
        grants_of(configs(), dir).len() == 14,
{
    let grants = grants_of(configs(), dir);
    assert forall|i: int| 0 <= i < grants.len() implies (
    #[trigger] grants[i]).resource_ids.len() <= 2 by {
        let k = i / 2;
        assert(k == 0 || k == 1 || k == 2 || k == 3 || k == 4 || k == 5 || k == 6);
    }
}

/// Putting grants in order adds none.
proof fn lemma_in_order(grants: Seq<GrantView>, most: nat)
    requires
        few(grants, most),
    ensures
        few(in_order(grants), most),
        in_order(grants).len() <= 2 * grants.len(),
{
    lemma_kind_few(grants, GrantKind::Useful, most);
    lemma_kind_few(grants, GrantKind::Filler, most);
}

/// The grants of a kind are some of the grants.
proof fn lemma_kind_few(grants: Seq<GrantView>, kind: GrantKind, most: nat)
    requires
        few(grants, most),
    ensures
        few(of_kind(grants, kind), most),
        of_kind(grants, kind).len() <= grants.len(),
    decreases grants.len(),
{
    reveal(Seq::filter);
    if grants.len() > 0 {
        let fewer = grants.drop_last();
        assert(few(fewer, most)) by {
            assert forall|i: int| 0 <= i < fewer.len() implies (
            #[trigger] fewer[i]).resource_ids.len() <= most by {
                assert(fewer[i] == grants[i]);
            }
        }
        lemma_kind_few(fewer, kind, most);
        assert(grants[grants.len() - 1].resource_ids.len() <= most);
    }
}

/// The code of grants with few identifiers is short.
proof fn lemma_slots_short(
    before: ModuleView,
    site: GrantSite,
    sentinels: Sentinels,
    grants: Seq<GrantView>,
    most: nat,
)
    requires
        few(grants, most),
        most <= 2,
    ensures
        slots_ops(before, site, sentinels, grants).len() <= 33 * grants.len(),
    decreases grants.len(),
{
    if grants.len() > 0 {
        let fewer = grants.drop_last();
        let grant = grants.last();
        let so_far = before.with_grants(fewer);
        assert(few(fewer, most)) by {
            assert forall|i: int| 0 <= i < fewer.len() implies (
            #[trigger] fewer[i]).resource_ids.len() <= most by {
                assert(fewer[i] == grants[i]);
            }
        }
        lemma_slots_short(before, site, sentinels, fewer, most);
        lemma_aliases_len(
            site,
            (so_far.strings.len() + 1) as int,
            (so_far.ints.len() + 1) as int,
            so_far.floats.len() as int,
            grant.resource_ids.len(),
        );
        assert(grants[grants.len() - 1].resource_ids.len() <= most);
    }
}

/// In the patched game, every tick of the human player hands out the grants that are due, and
/// then goes on with the game's own code.
///
/// What is handed out is what [`tick_run`] says. The state returned is that in which the game's
/// own code begins; its registers are as they were.
pub proof fn law_patched_game_hands_out_grants(
    code: ModuleView,
    after: ModuleView,
    grants: Seq<GrantView>,
    g: Granting,
    game: Game,
    s: State,
) -> (t: State)
    requires
        grants_installed(code, after, grants, g),
        s.pc == 0,
        has_resources(game, g.site, s.reg(Reg(0))),
    ensures
        leads(
            after,
            after.functions[place(code, Method::PlayerUpdate)].ops,
            game,
            Machine::Running(s),
            Machine::Running(t),
        ),
        t.pc == g.ops().len(),
        t.past == tick_run(
            game,
            g.site,
            g.ai_job,
            g.sentinels,
            grants,
            s.reg(Reg(0)),
            s.past,
        ),
        forall|k: u32| k < 5 ==> #[trigger] t.regs[k] == s.regs[k],
{
    let ops = after.functions[place(code, Method::PlayerUpdate)].ops;
    assert(holds_at(ops, 0, g.ops()));
    law_grants_are_handed_out(
        after,
        ops,
        game,
        s,
        g.before,
        g.site,
        g.ai_job,
        g.sentinels,
        g.grants,
    )
}

} // verus!
