//! What of a program comes back when the bytes that it was written as are read.
//!
//! Reading names the functions anew, by the methods and the bindings of the classes. What it finds
//! in the bytes depends on how the writer cut the numbers, and on lists that have to be as long as
//! others. Here stands what a program has to be like for that to come out right.

use vstd::prelude::*;
use hlbc::opcodes::Opcode;
use hlbc::types::{RefField, RefFun, RefType};
use crate::image::reads_as;
use crate::links::sound;
use crate::lookup::{is_first, lemma_first_where, lemma_first_where_is};
use crate::module::{ClassView, FunctionView, ModuleView, TypeView};
use crate::sites::Method;
use crate::status::lemma_method_exists;
use crate::valid::{lemma_same_filter, same_function_name};

verus! {

/// The class that a type is, if it is one.
pub open spec fn class_of(t: TypeView) -> Option<ClassView> {
    match t {
        TypeView::Class(class) => Some(class),
        TypeView::Struct(class) => Some(class),
        TypeView::Other(_) => None,
    }
}

/// Some class extends the `i`-th type.
pub open spec fn extended(code: ModuleView, i: int) -> bool {
    exists|j: int|
        0 <= j < code.types.len() && (class_of(#[trigger] code.types[j]) matches Some(class)
            && class.super_ == Some(RefType(i as usize)))
}

/// The `i`-th type has become `t`: it is what it was, or a class that nothing extends, with more
/// fields behind its own.
pub open spec fn grown_type(a: ModuleView, i: int, t: TypeView) -> bool {
    ||| t == a.types[i]
    ||| {
        &&& a.types[i] matches TypeView::Class(old)
        &&& t matches TypeView::Class(new)
        &&& new == (ClassView { own_fields: new.own_fields, fields: new.fields, ..old })
        &&& old.own_fields.is_prefix_of(new.own_fields)
        &&& !extended(a, i)
    }
}

/// `p` is `a` with other constants and more texts in its pools, other code in its functions, and
/// more fields in classes that nothing extends.
pub open spec fn grown(a: ModuleView, p: ModuleView) -> bool {
    &&& p.rest == a.rest
    &&& p.natives == a.natives
    &&& p.debug_files == a.debug_files
    &&& a.strings.is_prefix_of(p.strings)
    &&& p.types.len() == a.types.len()
    &&& forall|i: int| 0 <= i < a.types.len() ==> grown_type(a, i, #[trigger] p.types[i])
    &&& p.functions.len() == a.functions.len()
    &&& forall|i: int|
        0 <= i < a.functions.len() ==> same_function_name(
            #[trigger] a.functions[i],
            #[trigger] p.functions[i],
        )
}

/// The number is that of a function of the program, or of one that the runtime supplies.
pub open spec fn given_out(code: ModuleView, findex: RefFun) -> bool {
    ||| exists|i: int|
        0 <= i < code.functions.len() && (#[trigger] code.functions[i]).findex == findex
    ||| exists|i: int|
        0 <= i < code.natives.len() && (#[trigger] code.natives[i]).findex == findex
}

/// A class binds no two fields to one function, and every function that it binds is there.
pub open spec fn binds_once(code: ModuleView, class: ClassView) -> bool {
    &&& forall|x: RefField, y: RefField|
        class.bindings.dom().contains(x) && class.bindings.dom().contains(y)
            && #[trigger] class.bindings[x] == #[trigger] class.bindings[y] ==> x == y
    &&& forall|x: RefField| #[trigger]
        class.bindings.dom().contains(x) ==> given_out(code, class.bindings[x])
}

/// No class binds two fields to one function, and every function that is bound is there. The name
/// of a function then does not depend on the order in which bindings are gone through.
pub open spec fn bound_once(code: ModuleView) -> bool {
    forall|i: int|
        0 <= i < code.types.len() ==> (class_of(#[trigger] code.types[i]) matches Some(class)
            ==> binds_once(code, class))
}

/// No class binds more than one field. The writer then has no choice of the order of bindings.
pub open spec fn bound_singly(code: ModuleView) -> bool {
    forall|i: int|
        0 <= i < code.types.len() ==> (class_of(#[trigger] code.types[i]) matches Some(class)
            ==> forall|x: RefField, y: RefField| #[trigger]
            class.bindings.dom().contains(x) && #[trigger] class.bindings.dom().contains(y) ==> x
            == y)
}

/// The lists of an instruction are ones that the format can hold: one byte gives the number of
/// arguments, and no jump of a table goes back.
pub open spec fn op_aligned(op: Opcode) -> bool {
    match op {
        Opcode::CallN { args, .. } => args@.len() <= 255,
        Opcode::CallMethod { args, .. } => args@.len() <= 255,
        Opcode::CallThis { args, .. } => args@.len() <= 255,
        Opcode::CallClosure { args, .. } => args@.len() <= 255,
        Opcode::MakeEnum { args, .. } => args@.len() <= 255,
        Opcode::Switch { offsets, .. } => forall|k: int|
            0 <= k < offsets@.len() ==> #[trigger] offsets@[k] >= 0,
        _ => true,
    }
}

/// The lists of instructions are ones that the format can hold.
pub open spec fn ops_aligned(ops: Seq<Opcode>) -> bool {
    forall|i: int| 0 <= i < ops.len() ==> op_aligned(#[trigger] ops[i])
}

/// What there is for debugging of a function is what the format has room for: where the program has
/// the names of source files (`debug`), a source line for every instruction, and names for its
/// registers; otherwise nothing.
pub open spec fn debug_aligned(f: FunctionView, debug: bool) -> bool {
    if debug {
        f.assigns is Some && (f.debug_info matches Some(lines) && lines.len() == f.ops.len())
    } else {
        f.assigns is None && f.debug_info is None
    }
}

/// The functions of the program are such that the end of one is found where the next begins.
pub open spec fn aligned(code: ModuleView) -> bool {
    forall|i: int|
        0 <= i < code.functions.len() ==> ops_aligned((#[trigger] code.functions[i]).ops)
            && debug_aligned(code.functions[i], code.debug_files is Some)
}

/// The number of bytes that texts take at most, each with one more behind it.
pub open spec fn room(texts: Seq<Seq<char>>) -> int
    decreases texts.len(),
{
    if texts.len() == 0 {
        0
    } else {
        room(texts.drop_last()) + 4 * texts.last().len() + 1
    }
}

/// The texts of the program fit into the blocks of the format.
pub open spec fn texts_have_room(code: ModuleView) -> bool {
    &&& room(code.strings) < 0x8000_0000
    &&& code.debug_files matches Some(files) ==> room(files) < 0x8000_0000
}

/// The program `p` comes from the program `a`, which was read from the bytes `first`, and can be
/// read again once it has been written.
pub open spec fn survives(first: Seq<u8>, a: ModuleView, p: ModuleView) -> bool {
    &&& sound(first)
    &&& reads_as(first, a)
    &&& bound_once(a)
    &&& aligned(a)
    &&& grown(a, p)
    &&& aligned(p)
    &&& texts_have_room(p)
}

/// Two types of the same kind and name.
pub open spec fn same_kind(a: TypeView, b: TypeView) -> bool {
    match (a, b) {
        (TypeView::Class(x), TypeView::Class(y)) => x.name == y.name,
        (TypeView::Struct(x), TypeView::Struct(y)) => x.name == y.name,
        (TypeView::Other(_), TypeView::Other(_)) => true,
        (_, _) => false,
    }
}

/// Two programs of the same texts, types and functions, as far as names, numbers and the lengths of
/// functions go.
pub open spec fn same_shape(a: ModuleView, b: ModuleView) -> bool {
    &&& b.strings == a.strings
    &&& b.types.len() == a.types.len()
    &&& forall|i: int|
        0 <= i < a.types.len() ==> same_kind(#[trigger] a.types[i], #[trigger] b.types[i])
    &&& b.functions.len() == a.functions.len()
    &&& forall|i: int|
        0 <= i < a.functions.len() ==> same_function_name(
            #[trigger] a.functions[i],
            #[trigger] b.functions[i],
        ) && b.functions[i].ops.len() == a.functions[i].ops.len()
}

/// A function is the same method in programs of the same shape.
proof fn lemma_same_method(
    a: ModuleView,
    b: ModuleView,
    i: int,
    class: Seq<char>,
    method: Seq<char>,
)
    requires
        same_shape(a, b),
        0 <= i < a.functions.len(),
    ensures
        b.is_method(b.functions[i], class, method) == a.is_method(a.functions[i], class, method),
{
    assert(same_function_name(a.functions[i], b.functions[i]));
    if let Some(parent) = a.functions[i].parent {
        if parent.0 < a.types.len() {
            assert(same_kind(a.types[parent.0 as int], b.types[parent.0 as int]));
        }
    }
}

/// Programs of the same shape are in the same state.
pub proof fn lemma_same_state(a: ModuleView, b: ModuleView)
    requires
        same_shape(a, b),
    ensures
        b.state() == a.state(),
{
    let class = Method::GetBattleState.class();
    let method = Method::GetBattleState.name();
    let p = |f: FunctionView| a.is_method(f, class, method);
    let q = |f: FunctionView| b.is_method(f, class, method);
    let num = |f: FunctionView| f.findex.0;
    assert forall|i: int| 0 <= i < a.functions.len() implies p(#[trigger] a.functions[i]) == q(
        b.functions[i],
    ) by {
        lemma_same_method(a, b, i, class, method);
    }
    assert forall|i: int| 0 <= i < a.functions.len() implies num(#[trigger] a.functions[i]) == num(
        b.functions[i],
    ) by {
        assert(same_function_name(a.functions[i], b.functions[i]));
    }
    lemma_same_filter(a.functions, b.functions, p, q, num);
    let found = a.methods(class, method);
    assert(b.methods(class, method) == found);
    if found.len() == 1 {
        let findex = found[0];
        let r = |f: FunctionView| f.findex.0 == findex;
        lemma_method_exists(a, class, method, 0);
        lemma_first_where(a.functions, r);
        let i = a.function_index(findex)->0;
        assert(is_first(b.functions, r, i)) by {
            assert(same_function_name(a.functions[i], b.functions[i]));
            assert forall|j: int| 0 <= j < i implies !r(#[trigger] b.functions[j]) by {
                assert(same_function_name(a.functions[j], b.functions[j]));
                assert(!r(a.functions[j]));
            }
        }
        lemma_first_where_is(b.functions, r, i);
        assert(same_function_name(a.functions[i], b.functions[i]));
    }
}

} // verus!
