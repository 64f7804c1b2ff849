//! What holds of the patches as a whole.

use vstd::prelude::*;
use vstd::utf8::{is_ascii_chars, is_ascii_chars_encode_utf8};
use hlbc::types::{ObjField, RefField, RefString, RefType, Reg};
use crate::gate::byte_len;
use crate::grants::{
    has_key, in_order, lemma_with_grants_keeps, of_kind, sentinel_name, sentinel_of, GrantKind,
    GrantView,
};
use crate::lookup::{
    is_first, lemma_first_where, lemma_first_where_is, lemma_first_where_none, FieldError,
};
use crate::module::{FunctionView, ModuleView, TypeView};
use crate::resources::{configs, grants_of};
use crate::sites::{Failure, Method, RESOURCES_CLASS};
use crate::status::{lemma_method_exists, StateView, PATCHED_OPS, VANILLA_OPS};
use crate::valid::{
    extends, lemma_class_index_kept, lemma_extends_trans, lemma_function_extends,
    lemma_function_index_kept, lemma_is_class_kept, lemma_is_method_kept, lemma_methods_kept,
    lemma_pools_extend, lemma_text_kept, lemma_valid_kept,
};

verus! {

/// At most the `i`-th function of `b` differs from that of `a`.
pub open spec fn changes_only(a: ModuleView, b: ModuleView, i: int) -> bool {
    forall|j: int|
        0 <= j < a.functions.len() && j != i ==> (#[trigger] b.functions[j]) == a.functions[j]
}

/// The numbers of functions have places.
pub proof fn lemma_function_place(code: ModuleView, findex: usize)
    ensures
        code.function_index(findex) matches Some(i) ==> 0 <= i < code.functions.len()
            && code.functions[i].findex.0 == findex,
{
    lemma_first_where(code.functions, |f: FunctionView| f.findex.0 == findex);
}

/// In a program that is in order, a method is at the place of its number.
pub proof fn lemma_method_place(code: ModuleView, method: Method, findex: usize, i: int)
    requires
        code.valid(),
        code.method(method) == Ok::<usize, Failure>(findex),
        code.function_index(findex) == Some(i),
    ensures
        0 <= i < code.functions.len(),
        code.is_method(code.functions[i], method.class(), method.name()),
{
    let at = lemma_method_exists(code, method.class(), method.name(), 0);
    lemma_function_place(code, findex);
    if at < i {
        assert(code.functions[at].findex.0 != code.functions[i].findex.0);
    }
    if i < at {
        assert(code.functions[i].findex.0 != code.functions[at].findex.0);
    }
}

/// What the patch of `Conquest.getBattleState` changes.
pub proof fn lemma_gate_changes(
    code: ModuleView,
    gate: usize,
    prefix: Seq<char>,
    flag: Seq<char>,
)
    ensures
        extends(code, code.patch_gate(gate, prefix, flag).0),
        code.patch_gate(gate, prefix, flag).1 is Ok ==> {
            let after = code.patch_gate(gate, prefix, flag).0;
            &&& code.function_index(gate) matches Some(i)
            &&& 0 <= i < code.functions.len()
            &&& changes_only(code, after, i)
            &&& code.functions[i].ops.len() == VANILLA_OPS
            &&& after.functions[i].ops.len() == PATCHED_OPS
        },
{
    let after = code.patch_gate(gate, prefix, flag).0;
    match code.gate_calls() {
        Err(e) => {},
        Ok(calls) => {
            let with_texts = code.with_string(prefix).with_string(flag);
            lemma_pools_extend(code, with_texts);
            match with_texts.string_shape(calls.add) {
                Err(e) => {},
                Ok(shape) => {
                    let with_lens = with_texts.with_int(crate::gate::byte_len(prefix)).with_int(
                        crate::gate::byte_len(flag),
                    );
                    lemma_pools_extend(code, with_lens);
                    lemma_function_index_kept(code, with_lens, gate);
                    lemma_function_place(with_lens, gate);
                    if let Some(i) = with_lens.function_index(gate) {
                        if ModuleView::unlocked_global(with_lens.functions[i]) is Ok {
                            lemma_function_extends(with_lens, i, after.functions[i]);
                            lemma_extends_trans(code, with_lens, after);
                        }
                    }
                },
            }
        },
    }
}

/// What the patch of `ConquestMapContent.update` changes.
pub proof fn lemma_refresh_changes(code: ModuleView, gate: usize)
    ensures
        extends(code, code.patch_refresh(gate).0),
        code.patch_refresh(gate).1 is Ok ==> {
            let after = code.patch_refresh(gate).0;
            &&& code.method(Method::MapUpdate) matches Ok(findex)
            &&& code.function_index(findex) matches Some(i)
            &&& 0 <= i < code.functions.len()
            &&& changes_only(code, after, i)
        },
{
    let after = code.patch_refresh(gate).0;
    let wanted = crate::refresh::refresh_methods();
    match code.method_list(wanted) {
        Err(e) => {},
        Ok(found) => {
            let results = Seq::new(wanted.len(), |i: int| code.method(wanted[i]));
            lemma_first_where(results, |r: Result<usize, Failure>| r is Err);
            assert(results[0] == code.method(Method::MapUpdate));
            assert(!(results[0] is Err));
            lemma_function_place(code, found[0]);
            if code.patch_refresh(gate).1 is Ok {
                let i = code.function_index(found[0])->0;
                lemma_function_extends(code, i, after.functions[i]);
            }
        },
    }
}

/// What the patch of `ConquestMapContent.animateNewBattlePlots` changes.
pub proof fn lemma_reveal_changes(code: ModuleView, gate: usize, unlocked: usize)
    ensures
        extends(code, code.patch_reveal(gate, unlocked).0),
        code.patch_reveal(gate, unlocked).1 is Ok ==> {
            let after = code.patch_reveal(gate, unlocked).0;
            &&& code.method(Method::AnimateNewBattlePlots) matches Ok(findex)
            &&& code.function_index(findex) matches Some(i)
            &&& 0 <= i < code.functions.len()
            &&& changes_only(code, after, i)
        },
{
    let after = code.patch_reveal(gate, unlocked).0;
    if let Ok(findex) = code.method(Method::AnimateNewBattlePlots) {
        lemma_function_place(code, findex);
        if let Some(i) = code.function_index(findex) {
            lemma_function_extends(code, i, after.functions[i]);
        }
    }
}

/// What the patch of `Conquest.onBattleCompleted` changes.
pub proof fn lemma_path_changes(code: ModuleView)
    ensures
        extends(code, code.patch_path().0),
        code.patch_path().1 is Ok ==> {
            let after = code.patch_path().0;
            &&& code.method(Method::OnBattleCompleted) matches Ok(findex)
            &&& code.function_index(findex) matches Some(i)
            &&& 0 <= i < code.functions.len()
            &&& changes_only(code, after, i)
        },
{
    let after = code.patch_path().0;
    if let Ok(findex) = code.method(Method::OnBattleCompleted) {
        lemma_function_place(code, findex);
        if let Some(i) = code.function_index(findex) {
            lemma_function_extends(code, i, after.functions[i]);
        }
    }
}

/// What the patch of `ConquestMapContent.animateLastPath` changes.
pub proof fn lemma_callback_changes(code: ModuleView, args: Vec<Reg>)
    ensures
        extends(code, code.patch_callback(args).0),
        code.patch_callback(args).1 is Ok ==> {
            let after = code.patch_callback(args).0;
            &&& code.method(Method::AnimateLastPath) matches Ok(findex)
            &&& code.function_index(findex) matches Some(i)
            &&& 0 <= i < code.functions.len()
            &&& changes_only(code, after, i)
        },
{
    let after = code.patch_callback(args).0;
    if let Ok(findex) = code.method(Method::AnimateLastPath) {
        lemma_function_place(code, findex);
        if let Some(i) = code.function_index(findex) {
            lemma_function_extends(code, i, after.functions[i]);
        }
    }
}

/// A new field leaves everything else as it was.
pub proof fn lemma_field_extends(code: ModuleView, class: Seq<char>, field: Seq<char>, t: RefType)
    ensures
        extends(code, code.add_field(class, field, t).0),
        code.add_field(class, field, t).0.functions == code.functions,
{
    lemma_first_where(code.types, |x: TypeView| code.is_class(x, class));
}

/// New fields leave everything else as it was.
pub proof fn lemma_sentinels_extend(code: ModuleView, grants: Seq<GrantView>, bool_ty: RefType)
    ensures
        extends(code, code.add_sentinels(grants, bool_ty).0),
        code.add_sentinels(grants, bool_ty).0.functions == code.functions,
    decreases grants.len(),
{
    if grants.len() > 0 {
        lemma_sentinels_extend(code, grants.drop_last(), bool_ty);
        let (before, added) = code.add_sentinels(grants.drop_last(), bool_ty);
        if added is Ok {
            let name = sentinel_name(grants.last().key);
            lemma_field_extends(before, RESOURCES_CLASS@, name, bool_ty);
            lemma_extends_trans(
                code,
                before,
                before.add_field(RESOURCES_CLASS@, name, bool_ty).0,
            );
        }
    }
}

/// The constants of grants go behind those that are there.
proof fn lemma_with_grants_extends(code: ModuleView, grants: Seq<GrantView>)
    ensures
        extends(code, code.with_grants(grants)),
    decreases grants.len(),
{
    if grants.len() > 0 {
        let before = code.with_grants(grants.drop_last());
        lemma_with_grants_extends(code, grants.drop_last());
        lemma_pools_extend(before, before.with_grant(grants.last()));
        lemma_extends_trans(code, before, before.with_grant(grants.last()));
    }
}

/// What the patch of `ent.Player.update` changes.
pub proof fn lemma_grants_change(code: ModuleView, grants: Seq<GrantView>)
    ensures
        extends(code, code.patch_grants(grants).0),
        code.patch_grants(grants).1 is Err ==> code.patch_grants(grants).0.functions
            == code.functions,
        code.patch_grants(grants).1 is Ok ==> {
            let after = code.patch_grants(grants).0;
            &&& code.method(Method::PlayerUpdate) matches Ok(findex)
            &&& code.function_index(findex) matches Some(i)
            &&& 0 <= i < code.functions.len()
            &&& changes_only(code, after, i)
        },
{
    let after = code.patch_grants(grants).0;
    if let Ok(site) = code.grant_site() {
        let useful = of_kind(grants, GrantKind::Useful);
        lemma_sentinels_extend(code, useful, site.bool_ty);
        let (with_fields, added) = code.add_sentinels(useful, site.bool_ty);
        if added is Ok {
            lemma_function_index_kept(code, with_fields, site.update);
            lemma_function_place(with_fields, site.update);
            if let Some(i) = with_fields.function_index(site.update) {
                if crate::grants::ai_job_field(with_fields.functions[i]) is Ok {
                    let pooled = with_fields.with_grants(in_order(grants));
                    lemma_with_grants_extends(with_fields, in_order(grants));
                    lemma_with_grants_keeps(with_fields, in_order(grants));
                    lemma_function_extends(pooled, i, after.functions[i]);
                    lemma_extends_trans(with_fields, pooled, after);
                    lemma_extends_trans(code, with_fields, after);
                }
            }
        }
    }
}

/// Every function of `a` that is not the method `method` is in `b` as it was.
pub open spec fn keeps_all_but(a: ModuleView, b: ModuleView, method: Method) -> bool {
    forall|j: int|
        0 <= j < a.functions.len() && !a.is_method(
            #[trigger] a.functions[j],
            method.class(),
            method.name(),
        ) ==> b.functions[j] == a.functions[j]
}

/// Every type of `a` that is not the class of the player's resources is in `b` as it was.
pub open spec fn keeps_other_types(a: ModuleView, b: ModuleView) -> bool {
    forall|j: int|
        0 <= j < a.types.len() && !a.is_class(#[trigger] a.types[j], RESOURCES_CLASS@)
            ==> b.types[j] == a.types[j]
}

/// The methods that the patches change.
pub open spec fn is_changed(code: ModuleView, f: FunctionView) -> bool {
    ||| code.is_method(f, Method::GetBattleState.class(), Method::GetBattleState.name())
    ||| code.is_method(f, Method::MapUpdate.class(), Method::MapUpdate.name())
    ||| code.is_method(
        f,
        Method::AnimateNewBattlePlots.class(),
        Method::AnimateNewBattlePlots.name(),
    )
    ||| code.is_method(f, Method::OnBattleCompleted.class(), Method::OnBattleCompleted.name())
    ||| code.is_method(f, Method::AnimateLastPath.class(), Method::AnimateLastPath.name())
    ||| code.is_method(f, Method::PlayerUpdate.class(), Method::PlayerUpdate.name())
}

/// The patch of `Conquest.getBattleState`, as the whole of the patches applies it.
proof fn lemma_gate_step(code: ModuleView, gate: usize, prefix: Seq<char>, flag: Seq<char>)
    requires
        code.valid(),
        code.method(Method::GetBattleState) == Ok::<usize, Failure>(gate),
    ensures
        ({
            let (after, patched) = code.patch_gate(gate, prefix, flag);
            &&& extends(code, after)
            &&& after.valid()
            &&& keeps_all_but(code, after, Method::GetBattleState)
            &&& keeps_other_types(code, after)
            &&& patched is Ok ==> code.state() == StateView::Vanilla && after.state()
                == StateView::Patched
        }),
{
    let method = Method::GetBattleState;
    let (after, patched) = code.patch_gate(gate, prefix, flag);
    lemma_gate_changes(code, gate, prefix, flag);
    lemma_valid_kept(code, after);
    lemma_methods_kept(code, after, method.class(), method.name());
    lemma_function_index_kept(code, after, gate);
    if patched is Ok {
        lemma_method_place(code, method, gate, code.function_index(gate)->0);
    }
}

/// A patch of another method leaves the check for markers as it is.
proof fn lemma_state_kept(a: ModuleView, b: ModuleView, method: Method)
    requires
        a.valid(),
        extends(a, b),
        keeps_all_but(a, b, method),
        apart(Method::GetBattleState, method),
    ensures
        b.state() == a.state(),
{
    let gate = Method::GetBattleState;
    lemma_methods_kept(a, b, gate.class(), gate.name());
    if a.methods(gate.class(), gate.name()).len() == 1 {
        let findex = a.methods(gate.class(), gate.name())[0];
        lemma_method_exists(a, gate.class(), gate.name(), 0);
        lemma_function_index_kept(a, b, findex);
        lemma_method_place(a, gate, findex, a.function_index(findex)->0);
    }
}

/// What every patch but that of `Conquest.getBattleState` does to a program as a whole.
pub open spec fn steps(a: ModuleView, b: ModuleView, method: Method) -> bool {
    &&& extends(a, b)
    &&& b.valid()
    &&& keeps_all_but(a, b, method)
    &&& keeps_other_types(a, b)
    &&& b.state() == a.state()
}

/// The patch of `ConquestMapContent.update` in a whole.
proof fn lemma_refresh_step(code: ModuleView, gate: usize)
    requires
        code.valid(),
    ensures
        steps(code, code.patch_refresh(gate).0, Method::MapUpdate),
{
    let method = Method::MapUpdate;
    let (after, patched) = code.patch_refresh(gate);
    lemma_refresh_changes(code, gate);
    lemma_valid_kept(code, after);
    if patched is Ok {
        let findex = code.method(method)->Ok_0;
        lemma_method_place(code, method, findex, code.function_index(findex)->0);
    }
    lemma_methods_apart();
    lemma_state_kept(code, after, method);
}

/// The patch of `ConquestMapContent.animateNewBattlePlots` in a whole.
proof fn lemma_reveal_step(code: ModuleView, gate: usize, unlocked: usize)
    requires
        code.valid(),
    ensures
        steps(code, code.patch_reveal(gate, unlocked).0, Method::AnimateNewBattlePlots),
{
    let method = Method::AnimateNewBattlePlots;
    let (after, patched) = code.patch_reveal(gate, unlocked);
    lemma_reveal_changes(code, gate, unlocked);
    lemma_valid_kept(code, after);
    if patched is Ok {
        let findex = code.method(method)->Ok_0;
        lemma_method_place(code, method, findex, code.function_index(findex)->0);
    }
    lemma_methods_apart();
    lemma_state_kept(code, after, method);
}

/// The patch of `Conquest.onBattleCompleted` in a whole.
proof fn lemma_path_step(code: ModuleView)
    requires
        code.valid(),
    ensures
        steps(code, code.patch_path().0, Method::OnBattleCompleted),
{
    let method = Method::OnBattleCompleted;
    let (after, patched) = code.patch_path();
    lemma_path_changes(code);
    lemma_valid_kept(code, after);
    if patched is Ok {
        let findex = code.method(method)->Ok_0;
        lemma_method_place(code, method, findex, code.function_index(findex)->0);
    }
    lemma_methods_apart();
    lemma_state_kept(code, after, method);
}

/// The patch of `ConquestMapContent.animateLastPath` in a whole.
proof fn lemma_callback_step(code: ModuleView, args: Vec<Reg>)
    requires
        code.valid(),
    ensures
        steps(code, code.patch_callback(args).0, Method::AnimateLastPath),
{
    let method = Method::AnimateLastPath;
    let (after, patched) = code.patch_callback(args);
    lemma_callback_changes(code, args);
    lemma_valid_kept(code, after);
    if patched is Ok {
        let findex = code.method(method)->Ok_0;
        lemma_method_place(code, method, findex, code.function_index(findex)->0);
    }
    lemma_methods_apart();
    lemma_state_kept(code, after, method);
}

/// New fields for grants leave every other class as it is.
proof fn lemma_sentinels_keep_types(code: ModuleView, grants: Seq<GrantView>, bool_ty: RefType)
    requires
        code.valid(),
    ensures
        keeps_other_types(code, code.add_sentinels(grants, bool_ty).0),
    decreases grants.len(),
{
    if grants.len() > 0 {
        let fewer = grants.drop_last();
        lemma_sentinels_keep_types(code, fewer, bool_ty);
        lemma_sentinels_extend(code, fewer, bool_ty);
        let (before, added) = code.add_sentinels(fewer, bool_ty);
        if added is Ok {
            let name = sentinel_name(grants.last().key);
            let after = before.add_field(RESOURCES_CLASS@, name, bool_ty).0;
            lemma_first_where(before.types, |x: TypeView| before.is_class(x, RESOURCES_CLASS@));
            assert forall|j: int|
                0 <= j < code.types.len() && !code.is_class(
                    #[trigger] code.types[j],
                    RESOURCES_CLASS@,
                ) implies after.types[j] == code.types[j] by {
                lemma_is_class_kept(code, before, j, RESOURCES_CLASS@);
                assert(before.types[j] == code.types[j]);
            }
        }
    }
}

/// The patch of `ent.Player.update` leaves every class but one as it is.
proof fn lemma_grants_keep_types(code: ModuleView, grants: Seq<GrantView>)
    requires
        code.valid(),
    ensures
        keeps_other_types(code, code.patch_grants(grants).0),
{
    if let Ok(site) = code.grant_site() {
        let useful = of_kind(grants, GrantKind::Useful);
        lemma_sentinels_keep_types(code, useful, site.bool_ty);
        let with_fields = code.add_sentinels(useful, site.bool_ty).0;
        lemma_with_grants_keeps(with_fields, in_order(grants));
    }
}

/// The patch of `ent.Player.update` in a whole.
proof fn lemma_grants_step(code: ModuleView, grants: Seq<GrantView>)
    requires
        code.valid(),
    ensures
        steps(code, code.patch_grants(grants).0, Method::PlayerUpdate),
{
    let method = Method::PlayerUpdate;
    let (after, patched) = code.patch_grants(grants);
    lemma_grants_change(code, grants);
    lemma_grants_keep_types(code, grants);
    lemma_valid_kept(code, after);
    if patched is Ok {
        let findex = code.method(method)->Ok_0;
        lemma_method_place(code, method, findex, code.function_index(findex)->0);
    }
    lemma_methods_apart();
    lemma_state_kept(code, after, method);
}

/// `b` comes from `a` by changes to the methods that the patches change, to the fields of the class
/// that holds the resources, and by more in the pools, and by nothing else.
pub open spec fn patched_from(a: ModuleView, b: ModuleView) -> bool {
    &&& extends(a, b)
    &&& b.valid()
    &&& keeps_other_types(a, b)
    &&& forall|j: int|
        0 <= j < a.functions.len() && !is_changed(a, #[trigger] a.functions[j])
            ==> b.functions[j] == a.functions[j]
}

/// One more patch.
proof fn lemma_patched_from_step(a: ModuleView, b: ModuleView, c: ModuleView, method: Method)
    requires
        a.valid(),
        patched_from(a, b),
        steps(b, c, method),
        method is MapUpdate || method is AnimateNewBattlePlots || method is OnBattleCompleted
            || method is AnimateLastPath || method is PlayerUpdate,
    ensures
        patched_from(a, c),
        c.state() == b.state(),
{
    lemma_extends_trans(a, b, c);
    assert forall|j: int|
        0 <= j < a.functions.len() && !is_changed(a, #[trigger] a.functions[j]) implies c.functions[j]
        == a.functions[j] by {
        lemma_is_method_kept(a, b, j, method.class(), method.name());
        assert(b.functions[j] == a.functions[j]);
    }
    assert forall|j: int|
        0 <= j < a.types.len() && !a.is_class(
            #[trigger] a.types[j],
            RESOURCES_CLASS@,
        ) implies c.types[j] == a.types[j] by {
        lemma_is_class_kept(a, b, j, RESOURCES_CLASS@);
        assert(b.types[j] == a.types[j]);
    }
}

/// The programs that come after each of the patches, where all of them succeed.
pub struct Stages {
    /// The number of `Conquest.getBattleState`.
    pub gate: usize,
    /// The number of the global for an unlocked node.
    pub unlocked: usize,
    pub gated: ModuleView,
    pub refreshed: ModuleView,
    pub revealed: ModuleView,
    pub recorded: ModuleView,
    pub called_back: ModuleView,
    pub granted: ModuleView,
}

/// The whole of the patches, whether they succeed or not, changes nothing but the six methods,
/// the pools, and the fields of the class that holds the resources: every other function stays
/// as it was, and every number, name and constant means what it meant.
///
/// Where they succeed, the program was the game's own before, and is reported as patched after.
/// So a program that has been patched is never patched again.
pub proof fn law_patches(
    code: ModuleView,
    unlock_dir: Seq<char>,
    flag: Seq<char>,
    pending_dir: Seq<char>,
    args: Vec<Reg>,
)
    requires
        code.valid(),
    ensures
        ({
            let (after, patched) = code.patch_all(unlock_dir, flag, pending_dir, args);
            &&& patched_from(code, after)
            &&& patched is Ok ==> code.state() == StateView::Vanilla && after.state()
                == StateView::Patched
        }),
{
    reveal(ModuleView::patch_map);
    reveal(ModuleView::patch_all);
    if let Ok(gate) = code.method(Method::GetBattleState) {
        let prefix = unlock_dir + "\\"@;
        lemma_gate_step(code, gate, prefix, flag);
        let (m1, r1) = code.patch_gate(gate, prefix, flag);
        assert(patched_from(code, m1));
        if r1 is Ok {
            let unlocked = r1->Ok_0;
            lemma_refresh_step(m1, gate);
            let (m2, r2) = m1.patch_refresh(gate);
            lemma_patched_from_step(code, m1, m2, Method::MapUpdate);
            if r2 is Ok {
                lemma_reveal_step(m2, gate, unlocked);
                let (m3, r3) = m2.patch_reveal(gate, unlocked);
                lemma_patched_from_step(code, m2, m3, Method::AnimateNewBattlePlots);
                if r3 is Ok {
                    lemma_path_step(m3);
                    let (m4, r4) = m3.patch_path();
                    lemma_patched_from_step(code, m3, m4, Method::OnBattleCompleted);
                    if r4 is Ok {
                        lemma_callback_step(m4, args);
                        let (m5, r5) = m4.patch_callback(args);
                        lemma_patched_from_step(code, m4, m5, Method::AnimateLastPath);
                        if r5 is Ok {
                            let grants = grants_of(configs(), pending_dir);
                            lemma_grants_step(m5, grants);
                            let (m6, r6) = m5.patch_grants(grants);
                            lemma_patched_from_step(code, m5, m6, Method::PlayerUpdate);
                        }
                    }
                }
            }
        }
    }
}

impl Stages {
    /// The program after `k` patches.
    pub open spec fn program(self, code: ModuleView, k: int) -> ModuleView {
        if k <= 0 {
            code
        } else if k == 1 {
            self.gated
        } else if k == 2 {
            self.refreshed
        } else if k == 3 {
            self.revealed
        } else if k == 4 {
            self.recorded
        } else if k == 5 {
            self.called_back
        } else {
            self.granted
        }
    }
}

/// The method that the `k`-th patch changes.
pub open spec fn changed_by(k: int) -> Method {
    if k <= 1 {
        Method::GetBattleState
    } else if k == 2 {
        Method::MapUpdate
    } else if k == 3 {
        Method::AnimateNewBattlePlots
    } else if k == 4 {
        Method::OnBattleCompleted
    } else if k == 5 {
        Method::AnimateLastPath
    } else {
        Method::PlayerUpdate
    }
}

/// The program after `k` patches comes from the one before it by changes to one method.
pub open spec fn staged_at(code: ModuleView, st: Stages, k: int) -> bool {
    &&& extends(st.program(code, k - 1), st.program(code, k))
    &&& st.program(code, k).valid()
    &&& keeps_all_but(st.program(code, k - 1), st.program(code, k), changed_by(k))
}

/// The `k`-th patch does not change `method`.
pub open spec fn differs(k: int, method: Method) -> bool {
    apart(changed_by(k), method) || apart(method, changed_by(k))
}

/// Each program comes from the one before it by changes to one method.
pub open spec fn staged(code: ModuleView, st: Stages) -> bool {
    forall|k: int| 1 <= k <= 6 ==> #[trigger] staged_at(code, st, k)
}

/// The programs come from the patches, one after the other.
#[verifier::opaque]
pub open spec fn applied_in_turn(
    code: ModuleView,
    unlock_dir: Seq<char>,
    flag: Seq<char>,
    pending_dir: Seq<char>,
    args: Vec<Reg>,
    st: Stages,
) -> bool {
    &&& code.method(Method::GetBattleState) == Ok::<usize, Failure>(st.gate)
    &&& code.patch_gate(st.gate, unlock_dir + "\\"@, flag) == (
        st.gated,
        Ok::<usize, Failure>(st.unlocked),
    )
    &&& st.gated.patch_refresh(st.gate) == (st.refreshed, Ok::<(), Failure>(()))
    &&& st.refreshed.patch_reveal(st.gate, st.unlocked) == (st.revealed, Ok::<(), Failure>(()))
    &&& st.revealed.patch_path() == (st.recorded, Ok::<(), Failure>(()))
    &&& st.recorded.patch_callback(args) == (st.called_back, Ok::<(), Failure>(()))
    &&& st.called_back.patch_grants(grants_of(configs(), pending_dir)) == (
        st.granted,
        Ok::<(), Failure>(()),
    )
}

/// All patches, one after the other.
#[verifier::rlimit(40)]
pub proof fn lemma_stages(
    code: ModuleView,
    unlock_dir: Seq<char>,
    flag: Seq<char>,
    pending_dir: Seq<char>,
    args: Vec<Reg>,
) -> (st: Stages)
    requires
        code.valid(),
        code.patch_all(unlock_dir, flag, pending_dir, args).1 is Ok,
    ensures
        applied_in_turn(code, unlock_dir, flag, pending_dir, args, st),
        code.patch_all(unlock_dir, flag, pending_dir, args).0 == st.granted,
        staged(code, st),
{
    reveal(ModuleView::patch_map);
    reveal(ModuleView::patch_all);
    reveal(applied_in_turn);
    let gate = code.method(Method::GetBattleState)->Ok_0;
    let prefix = unlock_dir + "\\"@;
    let (gated, r1) = code.patch_gate(gate, prefix, flag);
    let unlocked = r1->Ok_0;
    lemma_gate_step(code, gate, prefix, flag);
    let refreshed = gated.patch_refresh(gate).0;
    lemma_refresh_step(gated, gate);
    let revealed = refreshed.patch_reveal(gate, unlocked).0;
    lemma_reveal_step(refreshed, gate, unlocked);
    let recorded = revealed.patch_path().0;
    lemma_path_step(revealed);
    let called_back = recorded.patch_callback(args).0;
    lemma_callback_step(recorded, args);
    let granted = called_back.patch_grants(grants_of(configs(), pending_dir)).0;
    lemma_grants_step(called_back, grants_of(configs(), pending_dir));
    let st = Stages { gate, unlocked, gated, refreshed, revealed, recorded, called_back, granted };
    assert forall|k: int| 1 <= k <= 6 implies #[trigger] staged_at(code, st, k) by {
        assert(k == 1 || k == 2 || k == 3 || k == 4 || k == 5 || k == 6);
    }
    st
}

/// A method stays as it is through the patches from the one behind `from` to `to`, where none of
/// them changes it.
pub proof fn lemma_kept_between(
    code: ModuleView,
    st: Stages,
    method: Method,
    i: int,
    from: int,
    to: int,
)
    requires
        code.valid(),
        staged(code, st),
        0 <= from <= to <= 6,
        forall|k: int| from < k <= to ==> #[trigger] differs(k, method),
        0 <= i < st.program(code, from).functions.len(),
        st.program(code, from).is_method(
            st.program(code, from).functions[i],
            method.class(),
            method.name(),
        ),
    ensures
        extends(st.program(code, from), st.program(code, to)),
        0 <= i < st.program(code, to).functions.len(),
        st.program(code, to).functions[i] == st.program(code, from).functions[i],
        st.program(code, to).is_method(
            st.program(code, to).functions[i],
            method.class(),
            method.name(),
        ),
    decreases to - from,
{
    if from < to {
        lemma_kept_between(code, st, method, i, from, to - 1);
        let a = st.program(code, to - 1);
        let b = st.program(code, to);
        assert(staged_at(code, st, to));
        if to - 1 >= 1 {
            assert(staged_at(code, st, to - 1));
        }
        assert(differs(to, method));
        lemma_place_kept(a, b, changed_by(to), method, i);
        lemma_extends_trans(st.program(code, from), a, b);
    }
}

/// Every method of the game has the same place in all programs.
pub proof fn lemma_place_fixed(code: ModuleView, st: Stages, method: Method, k: int)
    requires
        code.valid(),
        staged(code, st),
        0 <= k <= 6,
    ensures
        extends(code, st.program(code, k)),
        st.program(code, k).method_at(method) == code.method_at(method),
        code.method_at(method) matches Ok(i) ==> {
            &&& 0 <= i < code.functions.len()
            &&& code.is_method(code.functions[i], method.class(), method.name())
            &&& st.program(code, k).is_method(
                st.program(code, k).functions[i],
                method.class(),
                method.name(),
            )
        },
    decreases k,
{
    if k > 0 {
        lemma_place_fixed(code, st, method, k - 1);
        assert(staged_at(code, st, k));
        lemma_extends_trans(code, st.program(code, k - 1), st.program(code, k));
    }
    let now = st.program(code, k);
    lemma_methods_kept(code, now, method.class(), method.name());
    if let Ok(findex) = code.method(method) {
        lemma_function_index_kept(code, now, findex);
        if let Some(i) = code.function_index(findex) {
            lemma_method_place(code, method, findex, i);
            lemma_is_method_kept(code, now, i, method.class(), method.name());
        }
    }
}

/// Two methods of different names or classes.
pub open spec fn apart(a: Method, b: Method) -> bool {
    a.name() != b.name() || a.class() != b.class()
}

/// The methods that the patches change are all different.
pub proof fn lemma_methods_apart()
    ensures
        apart(Method::GetBattleState, Method::MapUpdate),
        apart(Method::GetBattleState, Method::AnimateNewBattlePlots),
        apart(Method::GetBattleState, Method::OnBattleCompleted),
        apart(Method::GetBattleState, Method::AnimateLastPath),
        apart(Method::GetBattleState, Method::PlayerUpdate),
        apart(Method::MapUpdate, Method::AnimateNewBattlePlots),
        apart(Method::MapUpdate, Method::OnBattleCompleted),
        apart(Method::MapUpdate, Method::AnimateLastPath),
        apart(Method::MapUpdate, Method::PlayerUpdate),
        apart(Method::AnimateNewBattlePlots, Method::OnBattleCompleted),
        apart(Method::AnimateNewBattlePlots, Method::AnimateLastPath),
        apart(Method::AnimateNewBattlePlots, Method::PlayerUpdate),
        apart(Method::OnBattleCompleted, Method::AnimateLastPath),
        apart(Method::OnBattleCompleted, Method::PlayerUpdate),
        apart(Method::AnimateLastPath, Method::PlayerUpdate),
{
    reveal_strlit("getBattleState");
    reveal_strlit("update");
    reveal_strlit("animateNewBattlePlots");
    reveal_strlit("onBattleCompleted");
    reveal_strlit("animateLastPath");
    reveal_strlit("ent.Player");
    reveal_strlit("ui.menus.conquest.ConquestMapContent");
    assert(Method::GetBattleState.name().len() == 14);
    assert(Method::MapUpdate.name().len() == 6);
    assert(Method::PlayerUpdate.name().len() == 6);
    assert(Method::AnimateNewBattlePlots.name().len() == 21);
    assert(Method::OnBattleCompleted.name().len() == 17);
    assert(Method::AnimateLastPath.name().len() == 15);
    assert(Method::MapUpdate.class().len() == 36);
    assert(Method::PlayerUpdate.class().len() == 10);
}

/// Each patch changes a method of its own.
pub proof fn lemma_all_differ()
    ensures
        forall|k: int, j: int|
            1 <= k <= 6 && 1 <= j <= 6 && k != j ==> #[trigger] differs(k, changed_by(j)),
{
    lemma_methods_apart();
    assert forall|k: int, j: int| 1 <= k <= 6 && 1 <= j <= 6 && k != j implies #[trigger] differs(
        k,
        changed_by(j),
    ) by {
        assert(k == 1 || k == 2 || k == 3 || k == 4 || k == 5 || k == 6);
        assert(j == 1 || j == 2 || j == 3 || j == 4 || j == 5 || j == 6);
    }
}

/// A patch of another method leaves a method as it is.
pub proof fn lemma_place_kept(a: ModuleView, b: ModuleView, changed: Method, method: Method, i: int)
    requires
        a.valid(),
        extends(a, b),
        keeps_all_but(a, b, changed),
        apart(changed, method) || apart(method, changed),
        0 <= i < a.functions.len(),
        a.is_method(a.functions[i], method.class(), method.name()),
    ensures
        b.functions[i] == a.functions[i],
        0 <= i < b.functions.len(),
        b.is_method(b.functions[i], method.class(), method.name()),
{
    assert(!a.is_method(a.functions[i], changed.class(), changed.name()));
    lemma_is_method_kept(a, b, i, method.class(), method.name());
}

/// A new field goes behind the others: every field of the class keeps its number, its name and
/// its type, and the new one has the number that is returned.
pub proof fn law_new_field_goes_last(
    code: ModuleView,
    class: Seq<char>,
    field: Seq<char>,
    t: RefType,
)
    requires
        code.valid(),
        code.add_field(class, field, t).1 is Ok,
        0 < code.strings.len() < usize::MAX,
        code.fields(code.class_index(class)->0).len() < usize::MAX,
    ensures
        ({
            let (after, added) = code.add_field(class, field, t);
            let i = code.class_index(class)->0;
            let fields = code.fields(i);
            &&& extends(code, after)
            &&& after.valid()
            &&& after.functions == code.functions
            &&& after.class_index(class) == Some(i)
            &&& after.fields(i).len() == fields.len() + 1
            &&& fields.is_prefix_of(after.fields(i))
            &&& added == Ok::<RefField, FieldError>(RefField(fields.len() as usize))
            &&& after.text(after.fields(i).last().name) == Some(field)
            &&& after.fields(i).last().t == t
            &&& forall|j: int|
                0 <= j < code.types.len() && j != i ==> #[trigger] after.types[j] == code.types[j]
        }),
{
    let (after, added) = code.add_field(class, field, t);
    let i = code.class_index(class)->0;
    lemma_first_where(code.types, |x: TypeView| code.is_class(x, class));
    lemma_field_extends(code, class, field, t);
    lemma_valid_kept(code, after);
    lemma_class_index_kept(code, after, class);
    let name = after.fields(i).last().name;
    assert(name == RefString(code.strings.len() as usize));
    assert(after.strings[code.strings.len() as int] == field);
}

/// A field that has been added is found by its name, with the number and the type that it was given,
/// and every other name finds what it found before.
pub proof fn law_added_field_is_found(
    code: ModuleView,
    class: Seq<char>,
    field: Seq<char>,
    t: RefType,
)
    requires
        code.valid(),
        code.add_field(class, field, t).1 is Ok,
        code.field(class, field) is Err,
        0 < code.strings.len() < usize::MAX,
        code.fields(code.class_index(class)->0).len() < usize::MAX,
        forall|k: int|
            0 <= k < code.fields(code.class_index(class)->0).len() ==> code.has_name(
                (#[trigger] code.fields(code.class_index(class)->0)[k]).name,
            ),
    ensures
        ({
            let (after, added) = code.add_field(class, field, t);
            &&& after.field(class, field) == Ok::<(RefField, RefType), FieldError>(
                (added->Ok_0, t),
            )
            &&& forall|other: Seq<char>|
                other != field ==> #[trigger] after.field(class, other) == code.field(class, other)
        }),
{
    let (after, added) = code.add_field(class, field, t);
    let i = code.class_index(class)->0;
    let old_fields = code.fields(i);
    let new_fields = after.fields(i);
    law_new_field_goes_last(code, class, field, t);
    assert forall|k: int| 0 <= k < old_fields.len() implies after.text(
        (#[trigger] new_fields[k]).name,
    ) == code.text(old_fields[k].name) by {
        assert(new_fields[k] == old_fields[k]);
        assert(code.has_name(code.fields(code.class_index(class)->0)[k].name));
        lemma_text_kept(code, after, old_fields[k].name);
    }
    let p = |f: ObjField| code.text(f.name) == Some(field);
    let q = |f: ObjField| after.text(f.name) == Some(field);
    lemma_first_where(old_fields, p);
    let last = old_fields.len() as int;
    assert(is_first(new_fields, q, last)) by {
        assert forall|k: int| 0 <= k < last implies !q(#[trigger] new_fields[k]) by {
            assert(!p(old_fields[k]));
        }
    }
    lemma_first_where_is(new_fields, q, last);
    assert forall|other: Seq<char>| other != field implies #[trigger] after.field(class, other)
        == code.field(class, other) by {
        let r = |f: ObjField| code.text(f.name) == Some(other);
        let s = |f: ObjField| after.text(f.name) == Some(other);
        lemma_first_where(old_fields, r);
        match code.field_index(old_fields, other) {
            Some(k) => {
                assert(is_first(new_fields, s, k)) by {
                    assert(s(new_fields[k]));
                    assert forall|j: int| 0 <= j < k implies !s(#[trigger] new_fields[j]) by {
                        assert(!r(old_fields[j]));
                    }
                }
                lemma_first_where_is(new_fields, s, k);
                assert(new_fields[k] == old_fields[k]);
            },
            None => {
                assert forall|j: int| 0 <= j < new_fields.len() implies !s(
                    #[trigger] new_fields[j],
                ) by {
                    if j < last {
                        assert(!r(old_fields[j]));
                    }
                }
                lemma_first_where_none(new_fields, s);
            },
        }
    }
}

/// Each useful grant gets a field of its own, behind all fields that the player's resources had.
pub proof fn law_each_grant_has_its_own_field(
    code: ModuleView,
    grants: Seq<GrantView>,
    bool_ty: RefType,
)
    requires
        code.valid(),
        code.add_sentinels(grants, bool_ty).1 is Ok,
        0 < code.strings.len(),
        code.strings.len() + grants.len() <= usize::MAX,
        code.fields(code.class_index(RESOURCES_CLASS@)->0).len() + grants.len() <= usize::MAX,
        code.class_index(RESOURCES_CLASS@) is Some,
    ensures
        ({
            let (after, added) = code.add_sentinels(grants, bool_ty);
            let i = code.class_index(RESOURCES_CLASS@)->0;
            let sentinels = added->Ok_0;
            &&& after.strings.len() == code.strings.len() + grants.len()
            &&& after.valid()
            &&& after.class_index(RESOURCES_CLASS@) == Some(i)
            &&& after.fields(i).len() == code.fields(i).len() + grants.len()
            &&& code.fields(i).is_prefix_of(after.fields(i))
            &&& sentinels.len() == grants.len()
            &&& forall|k: int|
                0 <= k < grants.len() ==> {
                    &&& (#[trigger] sentinels[k]).0 == grants[k].key
                    &&& sentinels[k].1 == RefField((code.fields(i).len() + k) as usize)
                }
        }),
    decreases grants.len(),
{
    if grants.len() > 0 {
        let fewer = grants.drop_last();
        let (before, added) = code.add_sentinels(fewer, bool_ty);
        law_each_grant_has_its_own_field(code, fewer, bool_ty);
        let name = sentinel_name(grants.last().key);
        law_new_field_goes_last(before, RESOURCES_CLASS@, name, bool_ty);
        let sentinels = code.add_sentinels(grants, bool_ty).1->Ok_0;
        let i = code.class_index(RESOURCES_CLASS@)->0;
        assert forall|k: int| 0 <= k < grants.len() implies {
            &&& (#[trigger] sentinels[k]).0 == grants[k].key
            &&& sentinels[k].1 == RefField((code.fields(i).len() + k) as usize)
        } by {
            if k < fewer.len() {
                assert(sentinels[k] == (added->Ok_0)[k]);
                assert(fewer[k] == grants[k]);
            }
        }
    }
}

/// Each useful grant goes by its own field, where no two grants have the same key: the `k`-th by
/// the `k`-th of the new fields.
pub proof fn law_each_grant_goes_by_its_own_field(
    code: ModuleView,
    grants: Seq<GrantView>,
    bool_ty: RefType,
    k: int,
)
    requires
        code.valid(),
        code.add_sentinels(grants, bool_ty).1 is Ok,
        0 < code.strings.len(),
        code.strings.len() + grants.len() <= usize::MAX,
        code.fields(code.class_index(RESOURCES_CLASS@)->0).len() + grants.len() <= usize::MAX,
        code.class_index(RESOURCES_CLASS@) is Some,
        forall|i: int, j: int|
            0 <= i < j < grants.len() ==> (#[trigger] grants[i]).key != (#[trigger] grants[j]).key,
        0 <= k < grants.len(),
    ensures
        sentinel_of(code.add_sentinels(grants, bool_ty).1->Ok_0, grants[k].key) == RefField(
            (code.fields(code.class_index(RESOURCES_CLASS@)->0).len() + k) as usize,
        ),
{
    law_each_grant_has_its_own_field(code, grants, bool_ty);
    let sentinels = code.add_sentinels(grants, bool_ty).1->Ok_0;
    let p = has_key(grants[k].key);
    assert forall|j: int| 0 <= j < k implies !p(#[trigger] sentinels[j]) by {
        assert(grants[j].key != grants[k].key);
    }
    assert(p(sentinels[k]));
    lemma_first_where_is(sentinels, p, k);
}

/// The length that the game's code holds of a text is the number of its characters, where they
/// are all ASCII.
pub proof fn law_length_is_number_of_characters(text: Seq<char>)
    requires
        is_ascii_chars(text),
        text.len() <= i32::MAX,
    ensures
        byte_len(text) == text.len(),
{
    is_ascii_chars_encode_utf8(text);
}

/// Where the function has source positions, there is one for every instruction.
pub open spec fn is_lined(f: FunctionView) -> bool {
    f.debug_info matches Some(lines) ==> lines.len() == f.ops.len()
}

/// Every function of the program has a source position for every instruction, or none at all.
pub open spec fn all_lined(code: ModuleView) -> bool {
    forall|i: int| 0 <= i < code.functions.len() ==> is_lined(#[trigger] code.functions[i])
}

/// The patches of the map leave every instruction with a source position.
proof fn lemma_map_lined(
    code: ModuleView,
    gate: usize,
    prefix: Seq<char>,
    flag: Seq<char>,
    unlocked: usize,
    args: Vec<Reg>,
)
    requires
        all_lined(code),
    ensures
        all_lined(code.patch_gate(gate, prefix, flag).0),
        all_lined(code.patch_refresh(gate).0),
        all_lined(code.patch_reveal(gate, unlocked).0),
        all_lined(code.patch_path().0),
        all_lined(code.patch_callback(args).0),
{
    lemma_gate_changes(code, gate, prefix, flag);
    lemma_refresh_changes(code, gate);
    lemma_reveal_changes(code, gate, unlocked);
    lemma_path_changes(code);
    lemma_callback_changes(code, args);
}

/// The patch of the grants leaves every instruction with a source position.
proof fn lemma_grants_lined(code: ModuleView, grants: Seq<GrantView>)
    requires
        all_lined(code),
    ensures
        all_lined(code.patch_grants(grants).0),
{
    lemma_grants_change(code, grants);
    if let Ok(site) = code.grant_site() {
        let useful = of_kind(grants, GrantKind::Useful);
        let (with_fields, added) = code.add_sentinels(useful, site.bool_ty);
        lemma_sentinels_extend(code, useful, site.bool_ty);
        lemma_with_grants_keeps(with_fields, in_order(grants));
        lemma_function_index_kept(code, with_fields, site.update);
        lemma_function_place(with_fields, site.update);
    }
}

/// The patches leave every instruction with a source position: a debugger that goes by them finds
/// one for each.
pub proof fn law_every_instruction_has_a_position(
    code: ModuleView,
    unlock_dir: Seq<char>,
    flag: Seq<char>,
    pending_dir: Seq<char>,
    args: Vec<Reg>,
)
    requires
        all_lined(code),
    ensures
        all_lined(code.patch_all(unlock_dir, flag, pending_dir, args).0),
{
    reveal(ModuleView::patch_map);
    reveal(ModuleView::patch_all);
    if let Ok(gate) = code.method(Method::GetBattleState) {
        let prefix = unlock_dir + "\\"@;
        let (m1, r1) = code.patch_gate(gate, prefix, flag);
        let unlocked = r1->Ok_0;
        let m2 = m1.patch_refresh(gate).0;
        let m3 = m2.patch_reveal(gate, unlocked).0;
        let m4 = m3.patch_path().0;
        let m5 = m4.patch_callback(args).0;
        lemma_map_lined(code, gate, prefix, flag, unlocked, args);
        lemma_map_lined(m1, gate, prefix, flag, unlocked, args);
        lemma_map_lined(m2, gate, prefix, flag, unlocked, args);
        lemma_map_lined(m3, gate, prefix, flag, unlocked, args);
        lemma_map_lined(m4, gate, prefix, flag, unlocked, args);
        lemma_grants_lined(m5, grants_of(configs(), pending_dir));
    }
}

} // verus!
