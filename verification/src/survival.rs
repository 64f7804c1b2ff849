//! That a patched program comes back when it is written and read, and which programs those are.

use vstd::prelude::*;
use hlbc::opcodes::Opcode;
use hlbc::types::{RefField, RefFun, RefType, Reg, Type, TypeObj};
use std::collections::hash_map::RandomState;
use std::collections::HashSet;
use vstd::std_specs::hash::{builds_valid_hashers, obeys_key_model};
use crate::gate::{gate_ops, gated, GateCalls, GateTexts, StringShape};
use crate::grants::{
    alias_ops, aliases_ops, grant_ops, in_order, lemma_with_grants_keeps, marker_ops, of_kind,
    slot_ops, slots_ops, GrantKind, GrantSite, GrantView, Sentinels,
};
use crate::laws::{
    applied_in_turn, changes_only, law_patches, lemma_callback_changes, lemma_function_place,
    lemma_gate_changes, lemma_grants_change, lemma_path_changes, lemma_refresh_changes,
    lemma_reveal_changes, lemma_sentinels_extend, lemma_stages, staged_at, Stages,
};
use crate::image::{loaded_as, readable, stored_as};
use crate::limits::list_bindings;
use crate::links::sound;
use crate::lookup::{find_type_index_by_name, lemma_first_where};
use crate::module::{
    class_view, texts_view, type_view, ClassView, FunctionView, Module, ModuleView, TypeView,
};
use crate::prepend::prepended;
use crate::refresh::{walk_ops, WalkRegs};
use crate::reread::{
    aligned, binds_once, bound_once, class_of, debug_aligned, extended, given_out, grown, grown_type,
    lemma_same_state, op_aligned, ops_aligned, room, survives, texts_have_room,
};
use crate::resources::{configs, grants_of};
use crate::sites::{Failure, Method, RESOURCES_CLASS};
use crate::status::StateView;
use crate::text::chars_of;
use crate::valid::{
    extends, is_valid, lemma_class_index_kept, lemma_extends_trans, lemma_function_index_kept,
};

verus! {

/// The function is such that its end is found, in a program with the names of source files.
pub open spec fn in_line(f: FunctionView) -> bool {
    ops_aligned(f.ops) && debug_aligned(f, true)
}

/// The program has the names of source files, and the end of every function is found.
pub open spec fn all_in_line(code: ModuleView) -> bool {
    code.debug_files is Some && aligned(code)
}

/// Instructions one after the other.
proof fn lemma_ops_joined(a: Seq<Opcode>, b: Seq<Opcode>)
    requires
        ops_aligned(a),
        ops_aligned(b),
    ensures
        ops_aligned(a + b),
{
    assert forall|i: int| 0 <= i < (a + b).len() implies op_aligned(#[trigger] (a + b)[i]) by {
        if i < a.len() {
            assert(op_aligned(a[i]));
        } else {
            assert(op_aligned(b[i - a.len()]));
        }
    }
}

/// A program of which one function has changed.
proof fn lemma_one_changed(code: ModuleView, after: ModuleView, i: int)
    requires
        all_in_line(code),
        after.debug_files == code.debug_files,
        after.functions.len() == code.functions.len(),
        changes_only(code, after, i),
        0 <= i < code.functions.len(),
        in_line(after.functions[i]),
    ensures
        all_in_line(after),
{
    assert forall|j: int| 0 <= j < after.functions.len() implies ops_aligned(
        (#[trigger] after.functions[j]).ops,
    ) && debug_aligned(after.functions[j], true) by {
        if j != i {
            assert(after.functions[j] == code.functions[j]);
        }
    }
}

/// New code before a function.
proof fn lemma_prepended_in_line(f: FunctionView, regs: Seq<RefType>, ops: Seq<Opcode>)
    requires
        in_line(f),
        ops_aligned(ops),
    ensures
        in_line(prepended(f, regs, ops)),
{
    lemma_ops_joined(ops, f.ops);
}

/// The check for markers.
proof fn lemma_gated_in_line(
    f: FunctionView,
    shape: StringShape,
    calls: GateCalls,
    texts: GateTexts,
)
    requires
        in_line(f),
        f.ops.len() == 14,
    ensures
        in_line(gated(f, shape, calls, texts)),
{
    let start = f.ops.take(9).update(1, Opcode::JNull { reg: Reg(2), offset: 2 });
    let end = f.ops.subrange(10, 14);
    let check = gate_ops(shape, calls, texts);
    assert(ops_aligned(start)) by {
        assert forall|i: int| 0 <= i < start.len() implies op_aligned(#[trigger] start[i]) by {
            assert(op_aligned(f.ops[i]));
        }
    }
    assert(ops_aligned(end)) by {
        assert forall|i: int| 0 <= i < end.len() implies op_aligned(#[trigger] end[i]) by {
            assert(op_aligned(f.ops[i + 10]));
        }
    }
    assert(ops_aligned(check));
    lemma_ops_joined(start, check);
    lemma_ops_joined(start + check, end);
}

/// The walk over the map.
proof fn lemma_walk_aligned(r: WalkRegs, gate: usize, change_state: usize)
    ensures
        ops_aligned(walk_ops(r, gate, change_state)),
{
}

/// The patches of the map.
proof fn lemma_map_in_line(
    code: ModuleView,
    gate: usize,
    prefix: Seq<char>,
    flag: Seq<char>,
    unlocked: usize,
    args: Vec<Reg>,
)
    requires
        all_in_line(code),
        args@.len() == 0,
    ensures
        all_in_line(code.patch_gate(gate, prefix, flag).0),
        all_in_line(code.patch_refresh(gate).0),
        all_in_line(code.patch_reveal(gate, unlocked).0),
        all_in_line(code.patch_path().0),
        all_in_line(code.patch_callback(args).0),
{
    lemma_gate_in_line(code, gate, prefix, flag);
    lemma_refresh_in_line(code, gate);
    lemma_reveal_changes(code, gate, unlocked);
    lemma_path_changes(code);
    lemma_callback_changes(code, args);
    let m3 = code.patch_reveal(gate, unlocked).0;
    if code.patch_reveal(gate, unlocked).1 is Ok {
        let i = code.method_at(Method::AnimateNewBattlePlots)->Ok_0;
        lemma_ops_kept(code.functions[i].ops, m3.functions[i].ops);
        lemma_one_changed(code, m3, i);
    }
    let m4 = code.patch_path().0;
    if code.patch_path().1 is Ok {
        let i = code.method_at(Method::OnBattleCompleted)->Ok_0;
        lemma_ops_kept(code.functions[i].ops, m4.functions[i].ops);
        lemma_one_changed(code, m4, i);
    }
    let m5 = code.patch_callback(args).0;
    if code.patch_callback(args).1 is Ok {
        let i = code.method_at(Method::AnimateLastPath)->Ok_0;
        let f = code.functions[i];
        assert(in_line(f));
        let new = m5.functions[i].ops;
        assert forall|k: int| 0 <= k < new.len() implies op_aligned(#[trigger] new[k]) by {
            if k < f.ops.len() {
                assert(op_aligned(f.ops[k]));
            }
        }
        lemma_one_changed(code, m5, i);
    }
}

/// Instructions of which those that have changed hold no lists.
proof fn lemma_ops_kept(before: Seq<Opcode>, after: Seq<Opcode>)
    requires
        ops_aligned(before),
        after.len() == before.len(),
        forall|k: int|
            0 <= k < after.len() ==> (#[trigger] after[k]) == before[k] || after[k] is Call2
                || after[k] is JAlways,
    ensures
        ops_aligned(after),
{
    assert forall|k: int| 0 <= k < after.len() implies op_aligned(#[trigger] after[k]) by {
        assert(op_aligned(before[k]));
    }
}

/// The patch of `Conquest.getBattleState`.
proof fn lemma_gate_in_line(code: ModuleView, gate: usize, prefix: Seq<char>, flag: Seq<char>)
    requires
        all_in_line(code),
    ensures
        all_in_line(code.patch_gate(gate, prefix, flag).0),
{
    lemma_gate_changes(code, gate, prefix, flag);
    let (after, patched) = code.patch_gate(gate, prefix, flag);
    if patched is Ok {
        let i = code.function_index(gate)->0;
        let calls = code.gate_calls()->Ok_0;
        let with_texts = code.with_string(prefix).with_string(flag);
        let shape = with_texts.string_shape(calls.add)->Ok_0;
        let texts = GateTexts {
            prefix: code.strings.len() as usize,
            flag: (code.strings.len() + 1) as usize,
            prefix_len: code.ints.len() as usize,
            flag_len: (code.ints.len() + 1) as usize,
        };
        assert(in_line(code.functions[i]));
        lemma_gated_in_line(code.functions[i], shape, calls, texts);
        let with_lens = with_texts.with_int(crate::gate::byte_len(prefix)).with_int(
            crate::gate::byte_len(flag),
        );
        lemma_function_place(with_lens, gate);
        assert(with_lens.function_index(gate) == Some(i)) by {
            assert(with_lens.functions == code.functions);
        }
        lemma_one_changed(code, after, i);
    }
}

/// The patch of `ConquestMapContent.update`.
proof fn lemma_refresh_in_line(code: ModuleView, gate: usize)
    requires
        all_in_line(code),
    ensures
        all_in_line(code.patch_refresh(gate).0),
{
    lemma_refresh_changes(code, gate);
    let (after, patched) = code.patch_refresh(gate);
    if patched is Ok {
        let found = code.method_list(crate::refresh::refresh_methods())->Ok_0;
        let types = code.type_list(crate::refresh::refresh_sources(found))->Ok_0;
        let i = code.function_index(found[0])->0;
        lemma_function_place(code, found[0]);
        let f = code.functions[i];
        assert(in_line(f));
        let r = crate::refresh::walk_regs(f.regs.len() as usize as u32);
        lemma_walk_aligned(r, gate, found[1]);
        lemma_prepended_in_line(
            f,
            crate::refresh::walk_types(types, f.regs[10]),
            walk_ops(r, gate, found[1]),
        );
        lemma_one_changed(code, after, i);
    }
}

/// The instructions of the identifiers of a grant.
proof fn lemma_aliases_aligned(site: GrantSite, text_at: int, len_at: int, amount_at: int, n: nat)
    ensures
        ops_aligned(aliases_ops(site, text_at, len_at, amount_at, n)),
    decreases n,
{
    if n > 0 {
        let k = (n - 1) as nat;
        lemma_aliases_aligned(site, text_at, len_at, amount_at, k);
        let last = alias_ops(site, text_at + k, len_at + k, amount_at + k);
        assert(ops_aligned(last));
        lemma_ops_joined(aliases_ops(site, text_at, len_at, amount_at, k), last);
    }
}

/// The instructions of a grant.
proof fn lemma_slot_aligned(
    code: ModuleView,
    site: GrantSite,
    sentinels: Sentinels,
    grant: GrantView,
)
    ensures
        ops_aligned(slot_ops(code, site, sentinels, grant)),
{
    let text_at = code.strings.len() as int;
    let len_at = code.ints.len() as int;
    let amount_at = code.floats.len() as int;
    let marker = marker_ops(site, text_at, len_at);
    let n = grant.resource_ids.len();
    let aliases = aliases_ops(site, text_at + 1, len_at + 1, amount_at, n);
    lemma_aliases_aligned(site, text_at + 1, len_at + 1, amount_at, n);
    assert(ops_aligned(marker));
    let all = slot_ops(code, site, sentinels, grant);
    let head: int = if grant.kind is Useful {
        3
    } else {
        0
    };
    let body = head + marker.len() + 2;
    assert forall|i: int| 0 <= i < all.len() implies op_aligned(#[trigger] all[i]) by {
        if head <= i < head + marker.len() {
            assert(all[i] == marker[i - head]);
        } else if body <= i < body + aliases.len() {
            assert(all[i] == aliases[i - body]);
        }
    }
}

/// The instructions of several grants.
proof fn lemma_slots_aligned(
    code: ModuleView,
    site: GrantSite,
    sentinels: Sentinels,
    grants: Seq<GrantView>,
)
    ensures
        ops_aligned(slots_ops(code, site, sentinels, grants)),
    decreases grants.len(),
{
    if grants.len() > 0 {
        let fewer = grants.drop_last();
        lemma_slots_aligned(code, site, sentinels, fewer);
        lemma_slot_aligned(code.with_grants(fewer), site, sentinels, grants.last());
        lemma_ops_joined(
            slots_ops(code, site, sentinels, fewer),
            slot_ops(code.with_grants(fewer), site, sentinels, grants.last()),
        );
    }
}

/// The patch of `ent.Player.update`.
proof fn lemma_grants_in_line(code: ModuleView, grants: Seq<GrantView>)
    requires
        all_in_line(code),
    ensures
        all_in_line(code.patch_grants(grants).0),
{
    lemma_grants_change(code, grants);
    let (after, patched) = code.patch_grants(grants);
    if patched is Ok {
        let site = code.grant_site()->Ok_0;
        let useful = of_kind(grants, GrantKind::Useful);
        let (with_fields, added) = code.add_sentinels(useful, site.bool_ty);
        lemma_sentinels_extend(code, useful, site.bool_ty);
        lemma_with_grants_keeps(with_fields, in_order(grants));
        lemma_function_index_kept(code, with_fields, site.update);
        lemma_function_place(with_fields, site.update);
        let i = with_fields.function_index(site.update)->0;
        let f = code.functions[i];
        assert(in_line(f));
        let ai_job = crate::grants::ai_job_field(f)->Ok_0;
        let slots = slots_ops(with_fields, site, added->Ok_0, in_order(grants));
        lemma_slots_aligned(with_fields, site, added->Ok_0, in_order(grants));
        let new = grant_ops(with_fields, site, ai_job, added->Ok_0, in_order(grants));
        assert(ops_aligned(new)) by {
            assert forall|k: int| 0 <= k < new.len() implies op_aligned(#[trigger] new[k]) by {
                if k >= 2 {
                    assert(new[k] == slots[k - 2]);
                }
            }
        }
        lemma_prepended_in_line(f, crate::grants::grant_regs(site, f.regs[3]), new);
        lemma_one_changed(code, after, i);
    }
}

/// The patches leave the end of every function where it is found.
proof fn lemma_patches_in_line(
    code: ModuleView,
    unlock_dir: Seq<char>,
    flag: Seq<char>,
    pending_dir: Seq<char>,
    args: Vec<Reg>,
)
    requires
        all_in_line(code),
        args@.len() == 0,
    ensures
        all_in_line(code.patch_all(unlock_dir, flag, pending_dir, args).0),
{
    reveal(ModuleView::patch_map);
    reveal(ModuleView::patch_all);
    if let Ok(gate) = code.method(Method::GetBattleState) {
        let prefix = unlock_dir + "\\"@;
        let (m1, r1) = code.patch_gate(gate, prefix, flag);
        let unlocked = r1->Ok_0;
        let m2 = m1.patch_refresh(gate).0;
        let m3 = m2.patch_reveal(gate, unlocked).0;
        let m4 = m3.patch_path().0;
        let m5 = m4.patch_callback(args).0;
        lemma_map_in_line(code, gate, prefix, flag, unlocked, args);
        lemma_map_in_line(m1, gate, prefix, flag, unlocked, args);
        lemma_map_in_line(m2, gate, prefix, flag, unlocked, args);
        lemma_map_in_line(m3, gate, prefix, flag, unlocked, args);
        lemma_map_in_line(m4, gate, prefix, flag, unlocked, args);
        lemma_grants_in_line(m5, grants_of(configs(), pending_dir));
    }
}

/// The types after new fields for grants: only the class of the resources has changed, and has only
/// more fields.
pub open spec fn resources_grown(a: ModuleView, b: ModuleView) -> bool {
    &&& b.types.len() == a.types.len()
    &&& forall|j: int|
        0 <= j < a.types.len() ==> (#[trigger] b.types[j]) == a.types[j] || {
            &&& a.class_index(RESOURCES_CLASS@) == Some(j)
            &&& a.types[j] matches TypeView::Class(old)
            &&& b.types[j] matches TypeView::Class(new)
            &&& new == (ClassView { own_fields: new.own_fields, fields: new.fields, ..old })
            &&& old.own_fields.is_prefix_of(new.own_fields)
        }
}

/// New fields for grants.
proof fn lemma_sentinels_grow(code: ModuleView, grants: Seq<GrantView>, bool_ty: RefType)
    requires
        code.valid(),
    ensures
        resources_grown(code, code.add_sentinels(grants, bool_ty).0),
    decreases grants.len(),
{
    if grants.len() > 0 {
        let fewer = grants.drop_last();
        lemma_sentinels_grow(code, fewer, bool_ty);
        lemma_sentinels_extend(code, fewer, bool_ty);
        let (before, added) = code.add_sentinels(fewer, bool_ty);
        lemma_class_index_kept(code, before, RESOURCES_CLASS@);
        lemma_first_where(before.types, |x: TypeView| before.is_class(x, RESOURCES_CLASS@));
        let after = code.add_sentinels(grants, bool_ty).0;
        assert forall|j: int| 0 <= j < code.types.len() implies (#[trigger] after.types[j])
            == code.types[j] || {
            &&& code.class_index(RESOURCES_CLASS@) == Some(j)
            &&& code.types[j] matches TypeView::Class(old)
            &&& after.types[j] matches TypeView::Class(new)
            &&& new == (ClassView { own_fields: new.own_fields, fields: new.fields, ..old })
            &&& old.own_fields.is_prefix_of(new.own_fields)
        } by {
            assert(before.types[j] == before.types[j]);
        }
    }
}

/// The patches of the map leave every type as it is.
proof fn lemma_map_keeps_types(
    code: ModuleView,
    gate: usize,
    prefix: Seq<char>,
    flag: Seq<char>,
    unlocked: usize,
    args: Vec<Reg>,
)
    ensures
        code.patch_gate(gate, prefix, flag).0.types == code.types,
        code.patch_refresh(gate).0.types == code.types,
        code.patch_reveal(gate, unlocked).0.types == code.types,
        code.patch_path().0.types == code.types,
        code.patch_callback(args).0.types == code.types,
{
}

/// All patches but the last leave every type as it is.
proof fn lemma_stages_keep_types(
    code: ModuleView,
    unlock_dir: Seq<char>,
    flag: Seq<char>,
    pending_dir: Seq<char>,
    args: Vec<Reg>,
    st: Stages,
)
    requires
        applied_in_turn(code, unlock_dir, flag, pending_dir, args, st),
    ensures
        st.called_back.types == code.types,
        st.called_back.patch_grants(grants_of(configs(), pending_dir)) == (
            st.granted,
            Ok::<(), Failure>(()),
        ),
{
    reveal(applied_in_turn);
    let prefix = unlock_dir + "\\"@;
    lemma_map_keeps_types(code, st.gate, prefix, flag, st.unlocked, args);
    lemma_map_keeps_types(st.gated, st.gate, prefix, flag, st.unlocked, args);
    lemma_map_keeps_types(st.refreshed, st.gate, prefix, flag, st.unlocked, args);
    lemma_map_keeps_types(st.revealed, st.gate, prefix, flag, st.unlocked, args);
    lemma_map_keeps_types(st.recorded, st.gate, prefix, flag, st.unlocked, args);
}

/// The program after the patches of the map, where all patches succeed.
proof fn lemma_map_patched(
    code: ModuleView,
    unlock_dir: Seq<char>,
    flag: Seq<char>,
    pending_dir: Seq<char>,
    args: Vec<Reg>,
) -> (m: ModuleView)
    requires
        code.valid(),
        code.patch_all(unlock_dir, flag, pending_dir, args).1 is Ok,
    ensures
        extends(code, m),
        m.valid(),
        m.types == code.types,
        m.patch_grants(grants_of(configs(), pending_dir)).1 is Ok,
        m.patch_grants(grants_of(configs(), pending_dir)).0 == code.patch_all(
            unlock_dir,
            flag,
            pending_dir,
            args,
        ).0,
{
    let st = lemma_stages(code, unlock_dir, flag, pending_dir, args);
    assert(staged_at(code, st, 1) && staged_at(code, st, 2) && staged_at(code, st, 3) && staged_at(
        code,
        st,
        4,
    ) && staged_at(code, st, 5));
    lemma_extends_trans(code, st.gated, st.refreshed);
    lemma_extends_trans(code, st.refreshed, st.revealed);
    lemma_extends_trans(code, st.revealed, st.recorded);
    lemma_extends_trans(code, st.recorded, st.called_back);
    lemma_stages_keep_types(code, unlock_dir, flag, pending_dir, args, st);
    st.called_back
}

/// The whole of the patches grows a program, where nothing extends the class of the resources.
proof fn lemma_patches_grow(
    code: ModuleView,
    unlock_dir: Seq<char>,
    flag: Seq<char>,
    pending_dir: Seq<char>,
    args: Vec<Reg>,
)
    requires
        code.valid(),
        code.class_index(RESOURCES_CLASS@) matches Some(i) ==> !extended(code, i),
        code.patch_all(unlock_dir, flag, pending_dir, args).1 is Ok,
    ensures
        grown(code, code.patch_all(unlock_dir, flag, pending_dir, args).0),
{
    law_patches(code, unlock_dir, flag, pending_dir, args);
    let after = code.patch_all(unlock_dir, flag, pending_dir, args).0;
    let m = lemma_map_patched(code, unlock_dir, flag, pending_dir, args);
    lemma_class_index_kept(code, m, RESOURCES_CLASS@);
    let grants = grants_of(configs(), pending_dir);
    let site = m.grant_site()->Ok_0;
    let useful = of_kind(grants, GrantKind::Useful);
    lemma_sentinels_grow(m, useful, site.bool_ty);
    let with_fields = m.add_sentinels(useful, site.bool_ty).0;
    lemma_with_grants_keeps(with_fields, in_order(grants));
    assert(after.types == with_fields.types);
    assert forall|i: int| 0 <= i < code.types.len() implies grown_type(
        code,
        i,
        #[trigger] after.types[i],
    ) by {
        assert(with_fields.types[i] == after.types[i]);
    }
}

/// The program is one whose patches last: its references are in order, the names of its functions
/// do not depend on the order of bindings, it has what there is for debugging, and nothing extends
/// the class of the resources.
pub open spec fn lasting(code: ModuleView) -> bool {
    &&& code.valid()
    &&& bound_once(code)
    &&& all_in_line(code)
    &&& code.class_index(RESOURCES_CLASS@) matches Some(i) ==> !extended(code, i)
}

/// A program that was read, and then patched, can be written and read again.
pub proof fn law_patched_program_survives(
    image: Seq<u8>,
    code: ModuleView,
    unlock_dir: Seq<char>,
    flag: Seq<char>,
    pending_dir: Seq<char>,
    args: Vec<Reg>,
)
    requires
        sound(image),
        loaded_as(image, code),
        lasting(code),
        args@.len() == 0,
        code.patch_all(unlock_dir, flag, pending_dir, args).1 is Ok,
        texts_have_room(code.patch_all(unlock_dir, flag, pending_dir, args).0),
    ensures
        survives(image, code, code.patch_all(unlock_dir, flag, pending_dir, args).0),
{
    lemma_patches_grow(code, unlock_dir, flag, pending_dir, args);
    lemma_patches_in_line(code, unlock_dir, flag, pending_dir, args);
}

/// The bytes that a patched program was written as can be read, and hold a patched program.
pub proof fn law_written_patch_is_read_as_patched(
    image: Seq<u8>,
    code: ModuleView,
    unlock_dir: Seq<char>,
    flag: Seq<char>,
    pending_dir: Seq<char>,
    args: Vec<Reg>,
    written: Seq<u8>,
)
    requires
        sound(image),
        loaded_as(image, code),
        lasting(code),
        args@.len() == 0,
        code.patch_all(unlock_dir, flag, pending_dir, args).1 is Ok,
        texts_have_room(code.patch_all(unlock_dir, flag, pending_dir, args).0),
        stored_as(code.patch_all(unlock_dir, flag, pending_dir, args).0, written),
    ensures
        sound(written),
        readable(written),
        forall|program: ModuleView| #[trigger]
            loaded_as(written, program) ==> program.state() == StateView::Patched,
{
    let after = code.patch_all(unlock_dir, flag, pending_dir, args).0;
    law_patched_program_survives(image, code, unlock_dir, flag, pending_dir, args);
    law_patches(code, unlock_dir, flag, pending_dir, args);
    assert(survives(image, code, after));
    assert forall|program: ModuleView| #[trigger] loaded_as(written, program) implies program.state()
        == StateView::Patched by {
        lemma_same_state(after, program);
    }
}

/// Whether the lists of instructions are ones that the format can hold.
fn are_ops_aligned(ops: &Vec<Opcode>) -> (fine: bool)
    ensures
        fine == ops_aligned(ops@),
{
    for i in 0..ops.len()
        invariant
            ops_aligned(ops@.take(i as int)),
    {
        let fine = match &ops[i] {
            Opcode::CallN { args, .. } => args.len() <= 255,
            Opcode::CallMethod { args, .. } => args.len() <= 255,
            Opcode::CallThis { args, .. } => args.len() <= 255,
            Opcode::CallClosure { args, .. } => args.len() <= 255,
            Opcode::MakeEnum { args, .. } => args.len() <= 255,
            Opcode::Switch { offsets, .. } => none_negative(offsets),
            _ => true,
        };
        assert(fine == op_aligned(ops@[i as int]));
        if !fine {
            return false;
        }
        let ghost so_far = ops@.take(i + 1);
        assert forall|k: int| 0 <= k < so_far.len() implies op_aligned(#[trigger] so_far[k]) by {
            if k < i {
                assert(op_aligned(ops@.take(i as int)[k]));
            }
        }
    }
    assert(ops@.take(ops@.len() as int) =~= ops@);
    true
}

/// Whether no number is negative.
fn none_negative(numbers: &Vec<i32>) -> (fine: bool)
    ensures
        fine == forall|k: int| 0 <= k < numbers@.len() ==> #[trigger] numbers@[k] >= 0,
{
    for i in 0..numbers.len()
        invariant
            forall|k: int| 0 <= k < i ==> #[trigger] numbers@[k] >= 0,
    {
        if numbers[i] < 0 {
            return false;
        }
    }
    true
}

/// Whether the program has the names of source files, and the end of every function is found.
fn are_all_in_line(code: &Module) -> (fine: bool)
    ensures
        fine == all_in_line(code@),
{
    if code.debug_files.is_none() {
        return false;
    }
    for i in 0..code.functions.len()
        invariant
            code@.debug_files is Some,
            forall|j: int| 0 <= j < i ==> in_line(#[trigger] code@.functions[j]),
    {
        let f = &code.functions[i];
        let lines = match &f.debug_info {
            Some(lines) => lines.len() == f.ops.len(),
            None => false,
        };
        let fine = lines && f.assigns.is_some() && are_ops_aligned(&f.ops);
        assert(fine == in_line(code@.functions[i as int]));
        if !fine {
            return false;
        }
    }
    true
}

/// Whether some class extends the `i`-th type.
fn is_extended(code: &Module, i: usize) -> (is: bool)
    ensures
        is == extended(code@, i as int),
{
    for j in 0..code.types.len()
        invariant
            forall|k: int|
                0 <= k < j ==> !(class_of(#[trigger] code@.types[k]) matches Some(class)
                    && class.super_ == Some(RefType(i))),
    {
        let parent = match &code.types[j] {
            Type::Obj(obj) => obj.super_,
            Type::Struct(obj) => obj.super_,
            _ => None,
        };
        assert(code@.types[j as int] == type_view(code.types@[j as int]));
        if let Some(parent) = parent {
            if parent.0 == i {
                assert(class_of(code@.types[j as int]) matches Some(class) && class.super_ == Some(
                    RefType(i),
                ));
                return true;
            }
        }
    }
    false
}

/// The numbers that the program gives out.
fn numbers_given_out(code: &Module) -> (numbers: HashSet<usize>)
    ensures
        forall|findex: RefFun| #[trigger]
            given_out(code@, findex) <==> numbers@.contains(findex.0),
{
    broadcast use vstd::std_specs::hash::group_hash_axioms;

    let mut numbers: HashSet<usize> = HashSet::new();
    for k in 0..code.functions.len()
        invariant
            obeys_key_model::<usize>(),
            builds_valid_hashers::<RandomState>(),
            forall|n: usize| #[trigger]
                numbers@.contains(n) ==> given_out(code@, RefFun(n)),
            forall|i: int|
                0 <= i < k ==> numbers@.contains((#[trigger] code@.functions[i]).findex.0),
    {
        let findex = code.functions[k].findex.0;
        assert(code@.functions[k as int].findex == RefFun(findex));
        numbers.insert(findex);
    }
    for k in 0..code.natives.len()
        invariant
            obeys_key_model::<usize>(),
            builds_valid_hashers::<RandomState>(),
            forall|n: usize| #[trigger]
                numbers@.contains(n) ==> given_out(code@, RefFun(n)),
            forall|i: int|
                0 <= i < code@.functions.len() ==> numbers@.contains(
                    (#[trigger] code@.functions[i]).findex.0,
                ),
            forall|i: int| 0 <= i < k ==> numbers@.contains((#[trigger] code@.natives[i]).findex.0),
    {
        let findex = code.natives[k].findex.0;
        assert(code@.natives[k as int].findex == RefFun(findex));
        numbers.insert(findex);
    }
    proof {
        assert forall|findex: RefFun| #[trigger] given_out(code@, findex) <==> numbers@.contains(
            findex.0,
        ) by {
            if numbers@.contains(findex.0) {
                assert(given_out(code@, RefFun(findex.0)));
            }
        }
    }
    numbers
}

/// Whether a class binds no two fields to one function, and every function that it binds is there.
fn does_bind_once(code: &Module, obj: &TypeObj, numbers: &HashSet<usize>) -> (does: bool)
    requires
        forall|findex: RefFun| #[trigger]
            given_out(code@, findex) <==> numbers@.contains(findex.0),
    ensures
        does == binds_once(code@, class_view(*obj)),
{
    broadcast use vstd::std_specs::hash::group_hash_axioms;

    let list = list_bindings(&obj.bindings);
    let ghost map = obj.bindings@;
    let mut used: HashSet<usize> = HashSet::new();
    for k in 0..list.len()
        invariant
            obeys_key_model::<usize>(),
            builds_valid_hashers::<RandomState>(),
            map == class_view(*obj).bindings,
            list@.no_duplicates(),
            forall|findex: RefFun| #[trigger]
                given_out(code@, findex) <==> numbers@.contains(findex.0),
            forall|i: int|
                0 <= i < list@.len() ==> map.contains_pair((#[trigger] list@[i]).0, list@[i].1),
            forall|n: usize| #[trigger]
                used@.contains(n) ==> exists|i: int|
                    0 <= i < k && (#[trigger] list@[i]).1.0 == n,
            forall|i: int| 0 <= i < k ==> used@.contains((#[trigger] list@[i]).1.0),
            forall|i: int| 0 <= i < k ==> given_out(code@, (#[trigger] list@[i]).1),
            forall|i: int, j: int|
                0 <= i < j < k ==> (#[trigger] list@[i]).1 != (#[trigger] list@[j]).1,
    {
        let fun = list[k].1.0;
        assert(map.contains_pair(list@[k as int].0, list@[k as int].1));
        assert(given_out(code@, list@[k as int].1) <==> numbers@.contains(fun));
        if !numbers.contains(&fun) {
            proof {
                let field = list@[k as int].0;
                assert(map.dom().contains(field) && !given_out(code@, map[field]));
            }
            return false;
        }
        let ghost before = used@;
        if !used.insert(fun) {
            proof {
                let i = choose|i: int| 0 <= i < k && (#[trigger] list@[i]).1.0 == fun;
                assert(list@[i] != list@[k as int]);
                assert(map.contains_pair(list@[i].0, list@[i].1));
                let x = list@[i].0;
                let y = list@[k as int].0;
                assert(map.dom().contains(x) && map.dom().contains(y) && map[x] == map[y]);
            }
            return false;
        }
        assert forall|i: int| 0 <= i < k implies (#[trigger] list@[i]).1 != list@[k as int].1 by {
            assert(before.contains(list@[i].1.0));
        }
        assert forall|n: usize| #[trigger] used@.contains(n) implies exists|i: int|
            0 <= i < k + 1 && (#[trigger] list@[i]).1.0 == n by {
            if n == fun {
                assert(list@[k as int].1.0 == n);
            } else {
                assert(before.contains(n));
                let i = choose|i: int| 0 <= i < k && (#[trigger] list@[i]).1.0 == n;
                assert(list@[i].1.0 == n);
            }
        }
    }
    proof {
        assert forall|x: RefField| #[trigger] map.dom().contains(x) implies given_out(
            code@,
            map[x],
        ) by {
            assert(list@.contains((x, map[x])));
        }
        assert forall|x: RefField, y: RefField|
            map.dom().contains(x) && map.dom().contains(y) && #[trigger] map[x] == #[trigger] map[y]
            implies x == y by {
            assert(list@.contains((x, map[x])) && list@.contains((y, map[y])));
            let i = choose|i: int| 0 <= i < list@.len() && list@[i] == (x, map[x]);
            let j = choose|j: int| 0 <= j < list@.len() && list@[j] == (y, map[y]);
            if i < j {
                assert(list@[i].1 != list@[j].1);
            }
            if j < i {
                assert(list@[j].1 != list@[i].1);
            }
        }
    }
    true
}

/// Whether the names of the functions do not depend on the order of bindings.
fn are_bound_once(code: &Module) -> (fine: bool)
    ensures
        fine == bound_once(code@),
{
    let numbers = numbers_given_out(code);
    for i in 0..code.types.len()
        invariant
            forall|findex: RefFun| #[trigger]
                given_out(code@, findex) <==> numbers@.contains(findex.0),
            forall|j: int|
                0 <= j < i ==> (class_of(#[trigger] code@.types[j]) matches Some(class)
                    ==> binds_once(code@, class)),
    {
        assert(code@.types[i as int] == type_view(code.types@[i as int]));
        let fine = match &code.types[i] {
            Type::Obj(obj) => does_bind_once(code, obj, &numbers),
            Type::Struct(obj) => does_bind_once(code, obj, &numbers),
            _ => true,
        };
        assert(fine == (class_of(code@.types[i as int]) matches Some(class) ==> binds_once(
            code@,
            class,
        )));
        if !fine {
            proof {
                let class = class_of(code@.types[i as int])->0;
                assert(!binds_once(code@, class));
                assert(class_of(code@.types[i as int]) == Some(class));
            }
            return false;
        }
    }
    true
}

/// Whether the patches of a program last.
pub fn is_lasting(code: &Module) -> (fine: bool)
    ensures
        fine == lasting(code@),
{
    let free = match find_type_index_by_name(code, RESOURCES_CLASS) {
        Some(i) => !is_extended(code, i),
        None => true,
    };
    free && is_valid(code) && are_bound_once(code) && are_all_in_line(code)
}

/// More texts take more room.
proof fn lemma_room_grows(texts: Seq<Seq<char>>, i: int)
    requires
        0 <= i <= texts.len(),
    ensures
        0 <= room(texts.take(i)) <= room(texts),
    decreases texts.len(),
{
    if i == texts.len() {
        assert(texts.take(i) =~= texts);
        if i > 0 {
            lemma_room_grows(texts.drop_last(), i - 1);
        }
    } else {
        lemma_room_grows(texts.drop_last(), i);
        assert(texts.drop_last().take(i) =~= texts.take(i));
    }
}

/// Whether texts fit into a block of the format.
fn do_texts_fit(texts: &Vec<String>) -> (fine: bool)
    ensures
        fine == (room(texts_view(texts@)) < 0x8000_0000),
{
    let ghost all = texts_view(texts@);
    let mut taken: u64 = 0;
    for i in 0..texts.len()
        invariant
            all == texts_view(texts@),
            taken == room(all.take(i as int)),
            taken < 0x8000_0000,
    {
        let len = chars_of(texts[i].as_str()).len();
        proof {
            let so_far = all.take(i + 1);
            assert(so_far.drop_last() =~= all.take(i as int));
            assert(so_far.last().len() == len);
            lemma_room_grows(all, i + 1);
        }
        if len >= 0x8000_0000 {
            return false;
        }
        taken = taken + 4 * len as u64 + 1;
        if taken >= 0x8000_0000 {
            return false;
        }
    }
    assert(all.take(all.len() as int) =~= all);
    true
}

/// Whether the texts of a program fit into the blocks of the format.
pub fn has_room(code: &Module) -> (fine: bool)
    ensures
        fine == texts_have_room(code@),
{
    let files = match &code.debug_files {
        Some(files) => do_texts_fit(files),
        None => true,
    };
    files && do_texts_fit(&code.strings)
}

} // verus!
