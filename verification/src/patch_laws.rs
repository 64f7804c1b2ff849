//! Which programs each patch takes, and what it leaves of them.

use vstd::prelude::*;
use hlbc::opcodes::Opcode;
use hlbc::types::{RefFun, Reg};
use crate::gate::{byte_len, gate_lines};
use crate::grants::{in_order, of_kind, GrantKind, GrantView};
use crate::lookup::{lemma_first_where, lemma_first_where_is, lemma_first_where_none};
use crate::module::{FunctionView, ModuleView};
use crate::prepend::prepended;
use crate::refresh::{refresh_methods, refresh_sources};
use crate::sites::{Failure, Method};
use crate::status::{exit_code_of, lemma_method_exists, status_view, StateView, Status};
use crate::typed::{
    has_number, is_at, law_registers_of_the_check_fit_their_use,
    law_registers_of_the_walk_fit_their_use, CheckSite, WalkSite,
};

verus! {

/// A function is found by its number at the place where it is first.
proof fn lemma_found_by_number(code: ModuleView, findex: usize, at: int)
    requires
        has_number(code, findex, at),
    ensures
        code.function_index(findex) == Some(at),
{
    let p = |f: FunctionView| f.findex.0 == findex;
    assert forall|j: int| 0 <= j < at implies !p(#[trigger] code.functions[j]) by {}
    lemma_first_where_is(code.functions, p, at);
}

/// The place of a method that was found.
proof fn lemma_method_at(code: ModuleView, method: Method) -> (found: (usize, int))
    requires
        code.method_at(method) is Ok,
    ensures
        is_at(code, method.class(), method.name(), found.0, found.1),
        code.method_at(method) == Ok::<int, Failure>(found.1),
{
    let findex = code.method(method)->Ok_0;
    assert(code.methods(method.class(), method.name()) =~= seq![findex]);
    lemma_first_where(code.functions, |f: FunctionView| f.findex.0 == findex);
    let at = code.function_index(findex)->0;
    assert forall|j: int| 0 <= j < at implies (#[trigger] code.functions[j]).findex.0
        != findex by {
        assert(!(|f: FunctionView| f.findex.0 == findex)(code.functions[j]));
    }
    (findex, at)
}

/// A method is found where there is exactly one of its name.
proof fn lemma_method_found(code: ModuleView, method: Method, findex: usize, at: int)
    requires
        is_at(code, method.class(), method.name(), findex, at),
    ensures
        code.method(method) == Ok::<usize, Failure>(findex),
        code.function(findex, method) == Ok::<int, Failure>(at),
        code.method_at(method) == Ok::<int, Failure>(at),
{
    lemma_found_by_number(code, findex, at);
}

/// The two programs differ in one instruction of one function at most.
pub open spec fn one_op_differs(a: ModuleView, b: ModuleView, at: int, place: int) -> bool {
    &&& b == (ModuleView { functions: b.functions, ..a })
    &&& b.functions.len() == a.functions.len()
    &&& forall|j: int| 0 <= j < a.functions.len() && j != at ==> #[trigger] b.functions[j]
        == a.functions[j]
    &&& b.functions[at] == (FunctionView { ops: b.functions[at].ops, ..a.functions[at] })
    &&& b.functions[at].ops.len() == a.functions[at].ops.len()
    &&& forall|k: int|
        0 <= k < a.functions[at].ops.len() && k != place ==> #[trigger] b.functions[at].ops[k]
            == a.functions[at].ops[k]
}

/// The reveal of the next column is corrected where instruction 46 of `animateNewBattlePlots` takes a
/// node for unlocked, and nowhere else: then, and only then, the patch succeeds. The instruction
/// becomes a call of `Conquest.getBattleState` with the conquest and the identifier of the node, whose
/// answer goes where the constant went. Nothing else changes, and where the patch fails, nothing at
/// all.
pub proof fn law_reveal_is_corrected(
    code: ModuleView,
    gate: usize,
    unlocked: usize,
    findex: usize,
    at: int,
)
    requires
        is_at(
            code,
            "ui.menus.conquest.ConquestMapContent"@,
            "animateNewBattlePlots"@,
            findex,
            at,
        ),
    ensures
        ({
            let own = code.functions[at].ops;
            let (after, done) = code.patch_reveal(gate, unlocked);
            let fits = own.len() > 46 && (own[46] matches Opcode::GetGlobal { global, .. }
                && global.0 == unlocked);
            &&& done is Ok <==> fits
            &&& !fits ==> after == code
            &&& fits ==> {
                &&& own[46] matches Opcode::GetGlobal { dst: target, .. }
                &&& after.functions[at].ops[46] == (Opcode::Call2 {
                    dst: target,
                    fun: RefFun(gate),
                    arg0: Reg(6),
                    arg1: Reg(4),
                })
                &&& one_op_differs(code, after, at, 46)
            }
        }),
{
    lemma_method_found(code, Method::AnimateNewBattlePlots, findex, at);
}

/// A won battle is recorded where instruction 55 of `onBattleCompleted` skips the seven that record it,
/// and nowhere else: then, and only then, the patch succeeds. The instruction then skips nothing. Nothing
/// else changes, and where the patch fails, nothing at all.
pub proof fn law_path_is_corrected(code: ModuleView, findex: usize, at: int)
    requires
        is_at(code, "gamesys.conquest.Conquest"@, "onBattleCompleted"@, findex, at),
    ensures
        ({
            let own = code.functions[at].ops;
            let (after, done) = code.patch_path();
            let fits = own.len() > 55 && (own[55] matches Opcode::JTrue { offset, .. } && offset
                == 7);
            &&& done is Ok <==> fits
            &&& !fits ==> after == code
            &&& fits ==> {
                &&& after.functions[at].ops[55] == (Opcode::JAlways { offset: 0 })
                &&& one_op_differs(code, after, at, 55)
            }
        }),
{
    lemma_method_found(code, Method::OnBattleCompleted, findex, at);
}

/// `animateLastPath` calls back where it has 19 instructions and its second one leaves for the last one
/// when no node has been clicked: then, and only then, the patch succeeds. That instruction then leaves
/// for a call of the callback, which is the function's one argument, with a return behind it. Nothing
/// else changes but that these two have the source position of the last one, and where the patch fails,
/// nothing at all.
pub proof fn law_callback_is_corrected(code: ModuleView, args: Vec<Reg>, findex: usize, at: int)
    requires
        is_at(code, "ui.menus.conquest.ConquestMapContent"@, "animateLastPath"@, findex, at),
    ensures
        ({
            let own = code.functions[at];
            let (after, done) = code.patch_callback(args);
            let new = after.functions[at];
            let fits = own.ops.len() == 19 && (own.ops[1] matches Opcode::JNull { offset, .. }
                && offset == 16);
            &&& done is Ok <==> fits
            &&& !fits ==> after == code
            &&& fits ==> {
                &&& new.ops.len() == 21
                &&& own.ops[1] matches Opcode::JNull { reg: clicked, .. }
                &&& new.ops[1] == (Opcode::JNull { reg: clicked, offset: 17 })
                &&& new.ops[19] == (Opcode::CallClosure { dst: Reg(2), fun: Reg(1), args })
                &&& new.ops[20] == (Opcode::Ret { ret: Reg(2) })
                &&& forall|k: int|
                    0 <= k < 19 && k != 1 ==> #[trigger] new.ops[k] == own.ops[k]
                &&& new == (FunctionView {
                    ops: new.ops,
                    debug_info: new.debug_info,
                    assigns: Some(Seq::empty()),
                    ..own
                })
                &&& own.debug_info is None ==> new.debug_info is None
                &&& own.debug_info matches Some(lines) ==> new.debug_info matches Some(now)
                    && now.len() == lines.len() + 2 && now.take(lines.len() as int) == lines && (
                lines.len() > 0 ==> now[lines.len() as int] == lines.last() && now[lines.len() as int + 1]
                    == lines.last())
                &&& after == (ModuleView { functions: after.functions, ..code })
                &&& forall|j: int|
                    0 <= j < code.functions.len() && j != at ==> #[trigger] after.functions[j]
                        == code.functions[j]
            }
        }),
{
    lemma_method_found(code, Method::AnimateLastPath, findex, at);
    let own = code.functions[at];
    let new = code.patch_callback(args).0.functions[at];
    if let Some(lines) = own.debug_info {
        if let Some(now) = new.debug_info {
            assert(now.take(lines.len() as int) =~= lines);
        }
    }
}

/// The corrections are refused where the method is not there, or not just once. Nothing changes then.
pub proof fn law_corrections_need_their_methods(
    code: ModuleView,
    gate: usize,
    unlocked: usize,
    args: Vec<Reg>,
)
    ensures
        code.methods(
            "ui.menus.conquest.ConquestMapContent"@,
            "animateNewBattlePlots"@,
        ).len() != 1 ==> code.patch_reveal(gate, unlocked).0 == code && code.patch_reveal(
            gate,
            unlocked,
        ).1 is Err,
        code.methods("gamesys.conquest.Conquest"@, "onBattleCompleted"@).len() != 1
            ==> code.patch_path().0 == code && code.patch_path().1 is Err,
        code.methods("ui.menus.conquest.ConquestMapContent"@, "animateLastPath"@).len() != 1
            ==> code.patch_callback(args).0 == code && code.patch_callback(args).1 is Err,
{
}

/// The check for markers goes into `getBattleState` where that has 14 instructions and 8 registers and
/// loads a global in its eleventh instruction, and where all that the check refers to is found: then,
/// and only then, the patch succeeds.
pub proof fn law_check_goes_into_the_known_code(
    code: ModuleView,
    gate: usize,
    prefix: Seq<char>,
    flag: Seq<char>,
)
    requires
        code.strings.len() + 1 < usize::MAX,
        code.ints.len() + 1 < usize::MAX,
    ensures
        code.patch_gate(gate, prefix, flag).1 is Ok <==> exists|site: CheckSite| #[trigger]
            site.found(code, gate) && is_own_check(code.functions[site.at]),
{
    if code.patch_gate(gate, prefix, flag).1 is Ok {
        let site = law_registers_of_the_check_fit_their_use(code, gate, prefix, flag);
        lemma_found_by_number(code, gate, site.at);
        let with_texts = code.with_string(prefix).with_string(flag);
        let with_lens = with_texts.with_int(byte_len(prefix)).with_int(byte_len(flag));
        assert(with_lens.function_index(gate) == code.function_index(gate));
        assert(site.found(code, gate) && is_own_check(code.functions[site.at]));
    }
    if exists|site: CheckSite| #[trigger]
        site.found(code, gate) && is_own_check(code.functions[site.at]) {
        let site = choose|site: CheckSite| #[trigger]
            site.found(code, gate) && is_own_check(code.functions[site.at]);
        lemma_found_by_number(code, gate, site.at);
        lemma_found_by_number(code, site.strings.add, site.strings.at);
        let with_texts = code.with_string(prefix).with_string(flag);
        let with_lens = with_texts.with_int(byte_len(prefix)).with_int(byte_len(flag));
        assert(with_texts.function_index(site.strings.add) == code.function_index(
            site.strings.add,
        ));
        assert(with_lens.function_index(gate) == code.function_index(gate));
    }
}

/// The function has the shape of the game's own `getBattleState`.
pub open spec fn is_own_check(f: FunctionView) -> bool {
    &&& f.ops.len() == 14
    &&& f.regs.len() == 8
    &&& f.ops[10] is GetGlobal
}

/// The check is the only thing that its patch changes, besides the pools: all other functions, the
/// types and the natives stay as they are, and the texts and numbers that were there stay where they
/// were. Of the function itself only the instructions, the registers and what there is for debugging
/// change.
pub proof fn law_check_changes_nothing_else(
    code: ModuleView,
    gate: usize,
    prefix: Seq<char>,
    flag: Seq<char>,
    at: int,
)
    requires
        has_number(code, gate, at),
    ensures
        ({
            let after = code.patch_gate(gate, prefix, flag).0;
            &&& after == (ModuleView {
                strings: after.strings,
                ints: after.ints,
                functions: after.functions,
                ..code
            })
            &&& code.strings.is_prefix_of(after.strings)
            &&& code.ints.is_prefix_of(after.ints)
            &&& after.functions.len() == code.functions.len()
            &&& forall|j: int|
                0 <= j < code.functions.len() && j != at ==> #[trigger] after.functions[j]
                    == code.functions[j]
            &&& after.functions[at] == (FunctionView {
                ops: after.functions[at].ops,
                regs: after.functions[at].regs,
                debug_info: after.functions[at].debug_info,
                assigns: after.functions[at].assigns,
                ..code.functions[at]
            })
            &&& code.patch_gate(gate, prefix, flag).1 is Err ==> after.functions == code.functions
            &&& code.patch_gate(gate, prefix, flag).1 is Ok ==> after.functions[at].assigns == Some(
                Seq::<(hlbc::types::RefString, usize)>::empty(),
            )
        }),
{
    lemma_found_by_number(code, gate, at);
    let with_texts = code.with_string(prefix).with_string(flag);
    let with_lens = with_texts.with_int(byte_len(prefix)).with_int(byte_len(flag));
    assert(with_lens.function_index(gate) == code.function_index(gate));
    assert(code.strings.is_prefix_of(with_texts.strings));
    assert(code.ints.is_prefix_of(with_lens.ints));
    assert(code.strings.is_prefix_of(code.strings) && code.ints.is_prefix_of(code.ints));
}

/// With the check, every instruction of the game's own that is kept keeps its source position, and all
/// that is new has the position of the jump that the check replaces.
pub proof fn law_check_keeps_source_positions(lines: Seq<(usize, usize)>, k: int)
    requires
        lines.len() == 14,
    ensures
        gate_lines(lines).len() == 31,
        0 <= k < 9 ==> gate_lines(lines)[k] == lines[k],
        9 <= k < 27 ==> gate_lines(lines)[k] == lines[9],
        10 <= k < 14 ==> gate_lines(lines)[k + 17] == lines[k],
{
}

/// Where code comes before a function, every instruction of the function keeps its source position, its
/// registers keep theirs, and all that is new has the position of the function's first instruction.
pub proof fn law_code_before_a_function_keeps_it(
    f: FunctionView,
    regs: Seq<hlbc::types::RefType>,
    ops: Seq<Opcode>,
)
    ensures
        ({
            let new = prepended(f, regs, ops);
            &&& new.ops.len() == ops.len() + f.ops.len()
            &&& new.ops.skip(ops.len() as int) == f.ops
            &&& new.ops.take(ops.len() as int) == ops
            &&& new.regs.take(f.regs.len() as int) == f.regs
            &&& new.regs.skip(f.regs.len() as int) == regs
            &&& new.assigns == Some(Seq::<(hlbc::types::RefString, usize)>::empty())
            &&& new.name == f.name && new.t == f.t && new.findex == f.findex && new.parent
                == f.parent
            &&& f.debug_info is None ==> new.debug_info is None
            &&& f.debug_info matches Some(lines) ==> new.debug_info matches Some(now) && now.len()
                == ops.len() + lines.len() && now.skip(ops.len() as int) == lines && (lines.len()
                > 0 ==> forall|k: int| 0 <= k < ops.len() ==> #[trigger] now[k] == lines[0])
        }),
{
    let new = prepended(f, regs, ops);
    assert(new.ops.skip(ops.len() as int) =~= f.ops);
    assert(new.ops.take(ops.len() as int) =~= ops);
    assert(new.regs.take(f.regs.len() as int) =~= f.regs);
    assert(new.regs.skip(f.regs.len() as int) =~= regs);
    if let Some(lines) = f.debug_info {
        if let Some(now) = new.debug_info {
            assert(now.skip(ops.len() as int) =~= lines);
        }
    }
}

/// The walk over the map goes before `ConquestMapContent.update` where all that it refers to is found:
/// then, and only then, the patch succeeds. No other function changes, and nothing else of the program;
/// where the patch fails, nothing at all.
pub proof fn law_walk_goes_before_the_update(code: ModuleView, gate: usize)
    requires
        forall|i: int|
            0 <= i < code.functions.len() ==> (#[trigger] code.functions[i]).regs.len() + 17
                <= u32::MAX,
    ensures
        code.patch_refresh(gate).1 is Ok <==> exists|site: WalkSite| #[trigger] site.found(code),
        code.patch_refresh(gate).1 is Err ==> code.patch_refresh(gate).0 == code,
        forall|site: WalkSite| #[trigger]
            site.found(code) ==> {
                let after = code.patch_refresh(gate).0;
                &&& after == (ModuleView { functions: after.functions, ..code })
                &&& after.functions.len() == code.functions.len()
                &&& forall|j: int|
                    0 <= j < code.functions.len() && j != site.at ==> #[trigger] after.functions[j]
                        == code.functions[j]
            },
{
    if code.patch_refresh(gate).1 is Ok {
        let site = law_registers_of_the_walk_fit_their_use(code, gate);
        assert(site.found(code));
    }
    assert forall|site: WalkSite| #[trigger] site.found(code) implies code.patch_refresh(
        gate,
    ).1 is Ok && code.method_list(refresh_methods())->Ok_0[0] == site.update
        && code.function_index(site.update) == Some(site.at) by {
        lemma_walk_found(code, site);
    }
}

/// The walk finds what it refers to.
proof fn lemma_walk_found(code: ModuleView, site: WalkSite)
    requires
        site.found(code),
    ensures
        code.method_list(refresh_methods()) is Ok,
        code.method_list(refresh_methods())->Ok_0[0] == site.update,
        code.type_list(refresh_sources(code.method_list(refresh_methods())->Ok_0)) is Ok,
        code.function_index(site.update) == Some(site.at),
        code.functions[site.at].regs.len() > 10,
{
    lemma_method_found(code, Method::MapUpdate, site.update, site.at);
    lemma_method_found(code, Method::ChangeState, site.change, site.change_at);
    lemma_method_found(code, Method::HasNextToUnlock, site.next, site.next_at);
    lemma_method_found(code, Method::GetButton, site.button, site.button_at);
    lemma_method_found(code, Method::GetButtonById, site.by_id, site.by_id_at);
    lemma_found_by_number(code, site.update, site.at);
    lemma_found_by_number(code, site.change, site.change_at);
    lemma_found_by_number(code, site.next, site.next_at);
    lemma_found_by_number(code, site.button, site.button_at);
    lemma_found_by_number(code, site.by_id, site.by_id_at);
    let wanted = refresh_methods();
    let results = Seq::new(wanted.len(), |k: int| code.method(wanted[k]));
    let failed = |r: Result<usize, Failure>| r is Err;
    assert forall|k: int| 0 <= k < results.len() implies !failed(#[trigger] results[k]) by {
        assert(k == 0 || k == 1 || k == 2 || k == 3 || k == 4);
    }
    lemma_first_where_none(results, failed);
    let found = code.method_list(wanted)->Ok_0;
    assert(found[0] == site.update && found[1] == site.change && found[2] == site.next);
    assert(found[3] == site.button && found[4] == site.by_id);
    let sources = refresh_sources(found);
    let types = Seq::new(
        sources.len(),
        |k: int| code.reg_type(sources[k].findex, sources[k].reg as int, sources[k].method),
    );
    let failed = |r: Result<hlbc::types::RefType, Failure>| r is Err;
    assert forall|k: int| 0 <= k < types.len() implies !failed(#[trigger] types[k]) by {
        let source = sources[k];
        assert(code.reg_type(source.findex, source.reg as int, source.method) is Ok) by {
            assert(k == 0 || k == 1 || k == 2 || k == 3 || k == 4 || k == 5 || k == 6 || k == 7 || k
                == 8 || k == 9 || k == 10);
        }
    }
    lemma_first_where_none(types, failed);
}

/// Every grant is in the code once, those of the useful kind before the others, and nothing else is.
pub proof fn law_all_grants_are_in_the_code(grants: Seq<GrantView>)
    ensures
        in_order(grants).len() == grants.len(),
        in_order(grants).to_multiset() == grants.to_multiset(),
        forall|j: int, k: int|
            0 <= j < k < in_order(grants).len() && (#[trigger] in_order(grants)[k]).kind is Useful
                ==> (#[trigger] in_order(grants)[j]).kind is Useful,
    decreases grants.len(),
{
    broadcast use vstd::seq_lib::group_to_multiset_ensures;

    reveal(Seq::filter);
    let useful = of_kind(grants, GrantKind::Useful);
    let filler = of_kind(grants, GrantKind::Filler);
    let all = in_order(grants);
    let p = |g: GrantView| g.kind == GrantKind::Useful;
    let q = |g: GrantView| g.kind == GrantKind::Filler;
    assert forall|j: int, k: int|
        0 <= j < k < all.len() && (#[trigger] all[k]).kind is Useful implies (
    #[trigger] all[j]).kind is Useful by {
        if k >= useful.len() {
            grants.lemma_filter_pred(q, k - useful.len());
            assert(all[k] == filler[k - useful.len()]);
        } else {
            grants.lemma_filter_pred(p, j);
            assert(all[j] == useful[j]);
        }
    }
    if grants.len() == 0 {
        assert(all =~= grants);
    } else {
        let fewer = grants.drop_last();
        let last = grants.last();
        law_all_grants_are_in_the_code(fewer);
        let u = of_kind(fewer, GrantKind::Useful);
        let f = of_kind(fewer, GrantKind::Filler);
        assert(grants =~= fewer.push(last));
        vstd::seq_lib::lemma_multiset_commutative(u, f);
        vstd::seq_lib::lemma_multiset_commutative(useful, filler);
        if last.kind is Useful {
            assert(useful == u.push(last) && filler == f);
        } else {
            assert(useful == u && filler == f.push(last));
        }
        assert(all.to_multiset() =~= grants.to_multiset());
    }
}

/// A program is the game's own where the one function that is `Conquest.getBattleState` has 14
/// instructions, and patched where it has 31. Where there is no such function, or more than one, or one
/// of any other length, neither can be said.
pub proof fn law_state_goes_by_the_length(code: ModuleView)
    ensures
        ({
            let found = code.methods("gamesys.conquest.Conquest"@, "getBattleState"@);
            &&& code.state() is Vanilla <==> exists|findex: usize, at: int| #[trigger]
                is_at(
                    code,
                    "gamesys.conquest.Conquest"@,
                    "getBattleState"@,
                    findex,
                    at,
                ) && code.functions[at].ops.len() == 14
            &&& code.state() is Patched <==> exists|findex: usize, at: int| #[trigger]
                is_at(
                    code,
                    "gamesys.conquest.Conquest"@,
                    "getBattleState"@,
                    findex,
                    at,
                ) && code.functions[at].ops.len() == 31
            &&& code.state() is Missing <==> found.len() != 1
        }),
{
    let class = "gamesys.conquest.Conquest"@;
    let name = "getBattleState"@;
    let found = code.methods(class, name);
    assert forall|findex: usize, at: int| #[trigger]
        is_at(code, class, name, findex, at) implies found.len() == 1 && code.function_index(
        found[0],
    ) == Some(at) by {
        lemma_found_by_number(code, findex, at);
    }
    if found.len() == 1 {
        lemma_method_exists(code, class, name, 0);
        let (findex, at) = lemma_method_at(code, Method::GetBattleState);
        assert(is_at(code, class, name, findex, at));
    }
}

/// How many bytes a character takes.
pub open spec fn char_bytes(c: char) -> int {
    if (c as u32) < 0x80 {
        1
    } else if (c as u32) < 0x800 {
        2
    } else if (c as u32) < 0x1_0000 {
        3
    } else {
        4
    }
}

/// How many bytes a text takes.
pub open spec fn text_bytes(text: Seq<char>) -> int
    decreases text.len(),
{
    if text.len() == 0 {
        0
    } else {
        char_bytes(text[0]) + text_bytes(text.drop_first())
    }
}

/// The length that the game's code holds of a text is the number of its bytes.
pub proof fn law_length_is_number_of_bytes(text: Seq<char>)
    requires
        text_bytes(text) <= i32::MAX,
    ensures
        byte_len(text) == text_bytes(text),
{
    lemma_text_bytes(text);
}

/// The number of bytes of a text.
proof fn lemma_text_bytes(text: Seq<char>)
    ensures
        vstd::utf8::encode_utf8(text).len() == text_bytes(text),
        text_bytes(text) >= 0,
    decreases text.len(),
{
    if text.len() > 0 {
        lemma_text_bytes(text.drop_first());
        vstd::utf8::char_is_scalar(text[0]);
    }
}

/// Where a method is not found, or not in the shape that a patch was made for, the error says what is
/// there: which functions go by its name, or how many instructions and registers it has.
pub open spec fn tells_what_is_there(code: ModuleView, failure: Failure) -> bool {
    match failure {
        Failure::Method(method, found) => found == code.methods(method.class(), method.name())
            && found.len() != 1,
        Failure::Shape(_, ops, regs) => exists|i: int|
            0 <= i < code.functions.len() && (#[trigger] code.functions[i]).ops.len() == ops
                && code.functions[i].regs.len() == regs,
        Failure::Op(_, at) => exists|i: int|
            0 <= i < code.functions.len() && 0 <= at < (#[trigger] code.functions[i]).ops.len(),
        Failure::Short(_, at) => exists|i: int|
            0 <= i < code.functions.len() && (#[trigger] code.functions[i]).ops.len() <= at,
        Failure::Register(_, at) => exists|i: int|
            0 <= i < code.functions.len() && (#[trigger] code.functions[i]).regs.len() <= at,
        Failure::Native(native) => code.native_index("std"@, native.name()) is None,
        _ => true,
    }
}

/// The errors of the check and of the corrections say what is there.
pub proof fn law_errors_say_what_is_there(
    code: ModuleView,
    gate: usize,
    prefix: Seq<char>,
    flag: Seq<char>,
    unlocked: usize,
    args: Vec<Reg>,
)
    ensures
        code.patch_gate(gate, prefix, flag).1 matches Err(failure) ==> tells_what_is_there(
            code,
            failure,
        ),
        code.patch_reveal(gate, unlocked).1 matches Err(failure) ==> tells_what_is_there(
            code,
            failure,
        ),
        code.patch_path().1 matches Err(failure) ==> tells_what_is_there(code, failure),
        code.patch_callback(args).1 matches Err(failure) ==> tells_what_is_there(code, failure),
{
    if let Ok(calls) = code.gate_calls() {
        let with_texts = code.with_string(prefix).with_string(flag);
        let with_lens = with_texts.with_int(byte_len(prefix)).with_int(byte_len(flag));
        assert(with_texts.function_index(calls.add) == code.function_index(calls.add));
        assert(with_lens.function_index(gate) == code.function_index(gate));
        lemma_first_where(code.functions, |f: FunctionView| f.findex.0 == calls.add);
        lemma_first_where(code.functions, |f: FunctionView| f.findex.0 == gate);
        if let Some(i) = code.function_index(calls.add) {
            assert(code.functions[i] == code.functions[i]);
        }
        if let Some(i) = code.function_index(gate) {
            assert(code.functions[i] == code.functions[i]);
        }
    }
    if code.method_at(Method::AnimateNewBattlePlots) is Ok {
        let (_, i) = lemma_method_at(code, Method::AnimateNewBattlePlots);
        assert(code.functions[i] == code.functions[i]);
    }
    if code.method_at(Method::OnBattleCompleted) is Ok {
        let (_, i) = lemma_method_at(code, Method::OnBattleCompleted);
        assert(code.functions[i] == code.functions[i]);
    }
    if code.method_at(Method::AnimateLastPath) is Ok {
        let (_, i) = lemma_method_at(code, Method::AnimateLastPath);
        assert(code.functions[i] == code.functions[i]);
    }
}

/// An installation is reported as patched, or as not patched, where there is a program that says so
/// itself; a missing file, an unreadable one and a program that says neither are told apart.
pub proof fn law_status_goes_by_the_program(file_exists: bool, program: Option<StateView>)
    ensures
        ({
            let status = status_view(file_exists, program);
            &&& status is Patched <==> file_exists && program == Some(StateView::Patched)
            &&& status is NotPatched <==> file_exists && program == Some(StateView::Vanilla)
            &&& status is NoFile <==> !file_exists
            &&& status is Unreadable <==> file_exists && program is None
            &&& status is Unknown <==> file_exists && (program matches Some(state) && (
            state is Missing || state is Unfamiliar))
        }),
{
}

/// The exit code says what other programs ask: 0 that the program is patched, 1 that it has to be, and 2
/// that neither can be said.
pub proof fn law_exit_code_says_what_is_to_be_done(status: Status)
    ensures
        exit_code_of(status) == 0 <==> status is Patched,
        exit_code_of(status) == 1 <==> status is NotPatched,
        exit_code_of(status) == 2 <==> !(status is Patched) && !(status is NotPatched),
{
}

} // verus!
