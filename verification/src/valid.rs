//! Programs whose references are in order, and what the patches leave in order.

use vstd::prelude::*;
use hlbc::types::{RefString, RefType, Type};
use std::collections::hash_map::RandomState;
use std::collections::HashSet;
use vstd::std_specs::hash::{builds_valid_hashers, obeys_key_model};
use crate::lookup::{is_first, lemma_first_where, lemma_first_where_is};
use crate::module::{FunctionView, Module, ModuleView, TypeView};

verus! {

impl ModuleView {
    /// The name is one that the program has.
    pub open spec fn has_name(self, name: RefString) -> bool {
        name.0 == 0 || name.0 < self.strings.len()
    }

    /// The names of a type are there.
    pub open spec fn type_named(self, t: TypeView) -> bool {
        match t {
            TypeView::Class(class) => self.has_name(class.name),
            TypeView::Struct(class) => self.has_name(class.name),
            TypeView::Other(_) => true,
        }
    }

    /// The references of the program are in order: every name is there, and no two functions
    /// have the same number.
    pub open spec fn valid(self) -> bool {
        &&& forall|i: int|
            0 <= i < self.functions.len() ==> self.has_name((#[trigger] self.functions[i]).name)
        &&& forall|i: int| 0 <= i < self.types.len() ==> self.type_named(#[trigger] self.types[i])
        &&& forall|i: int|
            0 <= i < self.natives.len() ==> self.has_name((#[trigger] self.natives[i]).lib)
                && self.has_name(self.natives[i].name)
        &&& forall|i: int, j: int|
            0 <= i < j < self.functions.len() ==> (#[trigger] self.functions[i]).findex.0 != (
            #[trigger] self.functions[j]).findex.0
    }
}

/// Whether a name is one that the program has.
fn has_name(code: &Module, name: RefString) -> (has: bool)
    ensures
        has == code@.has_name(name),
{
    name.0 == 0 || name.0 < code.strings.len()
}

/// Whether no two functions have the same number.
fn have_own_numbers(code: &Module) -> (fine: bool)
    ensures
        fine == forall|i: int, j: int|
            0 <= i < j < code@.functions.len() ==> (#[trigger] code@.functions[i]).findex.0 != (
            #[trigger] code@.functions[j]).findex.0,
{
    broadcast use vstd::std_specs::hash::group_hash_axioms;

    let mut seen: HashSet<usize> = HashSet::new();
    for k in 0..code.functions.len()
        invariant
            obeys_key_model::<usize>(),
            builds_valid_hashers::<RandomState>(),
            forall|n: usize| #[trigger]
                seen@.contains(n) <==> exists|i: int|
                    0 <= i < k && (#[trigger] code@.functions[i]).findex.0 == n,
            forall|i: int, j: int|
                0 <= i < j < k ==> (#[trigger] code@.functions[i]).findex.0 != (
                #[trigger] code@.functions[j]).findex.0,
    {
        let findex = code.functions[k].findex.0;
        assert(code@.functions[k as int].findex.0 == findex);
        let ghost before = seen@;
        if !seen.insert(findex) {
            proof {
                assert(before.contains(findex));
                let i = choose|i: int|
                    0 <= i < k && (#[trigger] code@.functions[i]).findex.0 == findex;
                assert(code@.functions[i].findex.0 == code@.functions[k as int].findex.0);
            }
            return false;
        }
        assert(!before.contains(findex));
        assert forall|n: usize| #[trigger] seen@.contains(n) implies exists|i: int|
            0 <= i < k + 1 && (#[trigger] code@.functions[i]).findex.0 == n by {
            if n != findex {
                assert(before.contains(n));
                let i = choose|i: int|
                    0 <= i < k && (#[trigger] code@.functions[i]).findex.0 == n;
                assert(code@.functions[i].findex.0 == n);
            }
        }
        assert forall|n: usize|
            (exists|i: int|
                0 <= i < k + 1 && (#[trigger] code@.functions[i]).findex.0 == n) implies #[trigger]
            seen@.contains(n) by {
            let i = choose|i: int|
                0 <= i < k + 1 && (#[trigger] code@.functions[i]).findex.0 == n;
            if i < k {
                assert(before.contains(n));
            }
        }
    }
    true
}

/// Whether the references of a program are in order.
pub fn is_valid(code: &Module) -> (fine: bool)
    ensures
        fine == code@.valid(),
{
    for i in 0..code.functions.len()
        invariant
            forall|j: int| 0 <= j < i ==> code@.has_name((#[trigger] code@.functions[j]).name),
    {
        if !has_name(code, code.functions[i].name) {
            assert(!code@.has_name(code@.functions[i as int].name));
            return false;
        }
    }
    for i in 0..code.types.len()
        invariant
            forall|j: int| 0 <= j < i ==> code@.type_named(#[trigger] code@.types[j]),
    {
        let named = match &code.types[i] {
            Type::Obj(obj) => has_name(code, obj.name),
            Type::Struct(obj) => has_name(code, obj.name),
            _ => true,
        };
        assert(named == code@.type_named(code@.types[i as int]));
        if !named {
            return false;
        }
    }
    for i in 0..code.natives.len()
        invariant
            forall|j: int|
                0 <= j < i ==> code@.has_name((#[trigger] code@.natives[j]).lib) && code@.has_name(
                    code@.natives[j].name,
                ),
    {
        if !has_name(code, code.natives[i].lib) || !has_name(code, code.natives[i].name) {
            assert(!code@.has_name(code@.natives[i as int].lib) || !code@.has_name(
                code@.natives[i as int].name,
            ));
            return false;
        }
    }
    have_own_numbers(code)
}

/// Two types of the same name: at most the fields of a class differ.
pub open spec fn same_type_name(a: TypeView, b: TypeView) -> bool {
    match (a, b) {
        (TypeView::Class(x), TypeView::Class(y)) => x.name == y.name,
        (TypeView::Struct(x), TypeView::Struct(y)) => x == y,
        (TypeView::Other(x), TypeView::Other(y)) => x == y,
        (_, _) => false,
    }
}

/// Two functions of the same identity: at most their registers and instructions differ.
pub open spec fn same_function_name(a: FunctionView, b: FunctionView) -> bool {
    a.name == b.name && a.parent == b.parent && a.findex == b.findex && a.t == b.t
}

/// `b` is `a` with more in its pools, and with other code or more fields in some places: every
/// number, name and constant of `a` means in `b` what it meant in `a`.
pub open spec fn extends(a: ModuleView, b: ModuleView) -> bool {
    &&& a.strings.is_prefix_of(b.strings)
    &&& a.ints.is_prefix_of(b.ints)
    &&& a.floats.is_prefix_of(b.floats)
    &&& b.debug_files == a.debug_files
    &&& b.natives == a.natives
    &&& b.rest == a.rest
    &&& a.types.len() == b.types.len()
    &&& a.functions.len() == b.functions.len()
    &&& forall|i: int|
        0 <= i < a.types.len() ==> same_type_name(#[trigger] a.types[i], #[trigger] b.types[i])
    &&& forall|i: int|
        0 <= i < a.functions.len() ==> same_function_name(
            #[trigger] a.functions[i],
            #[trigger] b.functions[i],
        )
}

/// Extending twice is extending.
pub proof fn lemma_extends_trans(a: ModuleView, b: ModuleView, c: ModuleView)
    requires
        extends(a, b),
        extends(b, c),
    ensures
        extends(a, c),
{
    assert(a.strings.is_prefix_of(c.strings));
    assert forall|i: int| 0 <= i < a.types.len() implies same_type_name(
        #[trigger] a.types[i],
        #[trigger] c.types[i],
    ) by {
        assert(same_type_name(a.types[i], b.types[i]));
        assert(same_type_name(b.types[i], c.types[i]));
    }
    assert forall|i: int| 0 <= i < a.functions.len() implies same_function_name(
        #[trigger] a.functions[i],
        #[trigger] c.functions[i],
    ) by {
        assert(same_function_name(a.functions[i], b.functions[i]));
        assert(same_function_name(b.functions[i], c.functions[i]));
    }
}

/// A name that is there keeps its text.
pub proof fn lemma_text_kept(a: ModuleView, b: ModuleView, name: RefString)
    requires
        extends(a, b),
        a.has_name(name),
    ensures
        b.text(name) == a.text(name),
        b.has_name(name),
{
    if name.0 != 0 {
        assert(a.strings[name.0 as int] == b.strings[name.0 as int]);
    }
}

/// A type keeps its name.
proof fn lemma_class_text_kept(a: ModuleView, b: ModuleView, t: RefType)
    requires
        extends(a, b),
        a.valid(),
    ensures
        b.class_text(t) == a.class_text(t),
{
    if t.0 < a.types.len() {
        let i = t.0 as int;
        assert(same_type_name(a.types[i], b.types[i]));
        assert(a.type_named(a.types[i]));
        match a.types[i] {
            TypeView::Class(class) => lemma_text_kept(a, b, class.name),
            TypeView::Struct(class) => lemma_text_kept(a, b, class.name),
            TypeView::Other(_) => {},
        }
    }
}

/// A function stays the method that it was.
pub proof fn lemma_is_method_kept(
    a: ModuleView,
    b: ModuleView,
    i: int,
    class: Seq<char>,
    method: Seq<char>,
)
    requires
        extends(a, b),
        a.valid(),
        0 <= i < a.functions.len(),
    ensures
        b.is_method(b.functions[i], class, method) == a.is_method(a.functions[i], class, method),
{
    assert(same_function_name(a.functions[i], b.functions[i]));
    lemma_text_kept(a, b, a.functions[i].name);
    if let Some(parent) = a.functions[i].parent {
        lemma_class_text_kept(a, b, parent);
    }
}

/// A filter of two lists that keeps the same places, then the same property of what it keeps.
pub proof fn lemma_same_filter<T, U>(
    s: Seq<T>,
    t: Seq<T>,
    p: spec_fn(T) -> bool,
    q: spec_fn(T) -> bool,
    f: spec_fn(T) -> U,
)
    requires
        s.len() == t.len(),
        forall|i: int| 0 <= i < s.len() ==> p(#[trigger] s[i]) == q(t[i]),
        forall|i: int| 0 <= i < s.len() ==> f(#[trigger] s[i]) == f(t[i]),
    ensures
        s.filter(p).map_values(f) == t.filter(q).map_values(f),
    decreases s.len(),
{
    reveal(Seq::filter);
    if s.len() > 0 {
        let s1 = s.drop_last();
        let t1 = t.drop_last();
        assert forall|i: int| 0 <= i < s1.len() implies p(#[trigger] s1[i]) == q(t1[i]) by {
            assert(s1[i] == s[i]);
        }
        assert forall|i: int| 0 <= i < s1.len() implies f(#[trigger] s1[i]) == f(t1[i]) by {
            assert(s1[i] == s[i]);
        }
        lemma_same_filter(s1, t1, p, q, f);
        assert(p(s[s.len() - 1]) == q(t[s.len() - 1]));
        if p(s.last()) {
            assert(s1.filter(p).push(s.last()).map_values(f) =~= s1.filter(p).map_values(f).push(
                f(s.last()),
            ));
            assert(t1.filter(q).push(t.last()).map_values(f) =~= t1.filter(q).map_values(f).push(
                f(t.last()),
            ));
        }
    } else {
        assert(s.filter(p).map_values(f) =~= t.filter(q).map_values(f));
    }
}

/// Every method keeps its number.
pub proof fn lemma_methods_kept(a: ModuleView, b: ModuleView, class: Seq<char>, method: Seq<char>)
    requires
        extends(a, b),
        a.valid(),
    ensures
        b.methods(class, method) == a.methods(class, method),
{
    let p = |f: FunctionView| a.is_method(f, class, method);
    let q = |f: FunctionView| b.is_method(f, class, method);
    let num = |f: FunctionView| f.findex.0;
    assert forall|i: int| 0 <= i < a.functions.len() implies p(#[trigger] a.functions[i]) == q(
        b.functions[i],
    ) by {
        lemma_is_method_kept(a, b, i, class, method);
    }
    assert forall|i: int| 0 <= i < a.functions.len() implies num(#[trigger] a.functions[i]) == num(
        b.functions[i],
    ) by {
        assert(same_function_name(a.functions[i], b.functions[i]));
    }
    lemma_same_filter(a.functions, b.functions, p, q, num);
}

/// Every number keeps its place.
pub proof fn lemma_function_index_kept(a: ModuleView, b: ModuleView, findex: usize)
    requires
        extends(a, b),
    ensures
        b.function_index(findex) == a.function_index(findex),
{
    let p = |f: FunctionView| f.findex.0 == findex;
    lemma_first_where(a.functions, p);
    lemma_first_where(b.functions, p);
    match a.function_index(findex) {
        Some(i) => {
            assert(is_first(b.functions, p, i)) by {
                assert(same_function_name(a.functions[i], b.functions[i]));
                assert forall|j: int| 0 <= j < i implies !p(#[trigger] b.functions[j]) by {
                    assert(same_function_name(a.functions[j], b.functions[j]));
                }
            }
            lemma_first_where_is(b.functions, p, i);
        },
        None => {
            if let Some(i) = b.function_index(findex) {
                assert(same_function_name(a.functions[i], b.functions[i]));
                assert(p(a.functions[i]));
            }
        },
    }
}

/// A class stays the class that it was.
pub proof fn lemma_is_class_kept(a: ModuleView, b: ModuleView, i: int, class: Seq<char>)
    requires
        extends(a, b),
        a.valid(),
        0 <= i < a.types.len(),
    ensures
        b.is_class(b.types[i], class) == a.is_class(a.types[i], class),
{
    assert(same_type_name(a.types[i], b.types[i]));
    assert(a.type_named(a.types[i]));
    if let TypeView::Class(c) = a.types[i] {
        lemma_text_kept(a, b, c.name);
    }
}

/// Every class keeps its place.
pub proof fn lemma_class_index_kept(a: ModuleView, b: ModuleView, class: Seq<char>)
    requires
        extends(a, b),
        a.valid(),
    ensures
        b.class_index(class) == a.class_index(class),
{
    let p = |t: TypeView| a.is_class(t, class);
    let q = |t: TypeView| b.is_class(t, class);
    assert forall|i: int| 0 <= i < a.types.len() implies p(#[trigger] a.types[i]) == q(
        b.types[i],
    ) by {
        lemma_is_class_kept(a, b, i, class);
    }
    lemma_first_where(a.types, p);
    lemma_first_where(b.types, q);
    match a.class_index(class) {
        Some(i) => {
            assert(is_first(b.types, q, i)) by {
                assert(p(a.types[i]) == q(b.types[i]));
                assert forall|j: int| 0 <= j < i implies !q(#[trigger] b.types[j]) by {
                    assert(p(a.types[j]) == q(b.types[j]));
                }
            }
            lemma_first_where_is(b.types, q, i);
        },
        None => {
            if let Some(i) = b.class_index(class) {
                assert(p(a.types[i]) == q(b.types[i]));
            }
        },
    }
}

/// A program that is in order stays so when it is extended.
pub proof fn lemma_valid_kept(a: ModuleView, b: ModuleView)
    requires
        extends(a, b),
        a.valid(),
    ensures
        b.valid(),
{
    assert forall|i: int| 0 <= i < b.functions.len() implies b.has_name(
        (#[trigger] b.functions[i]).name,
    ) by {
        assert(same_function_name(a.functions[i], b.functions[i]));
    }
    assert forall|i: int| 0 <= i < b.types.len() implies b.type_named(#[trigger] b.types[i]) by {
        assert(same_type_name(a.types[i], b.types[i]));
        assert(a.type_named(a.types[i]));
    }
    assert forall|i: int, j: int| 0 <= i < j < b.functions.len() implies (
    #[trigger] b.functions[i]).findex.0 != (#[trigger] b.functions[j]).findex.0 by {
        assert(same_function_name(a.functions[i], b.functions[i]));
        assert(same_function_name(a.functions[j], b.functions[j]));
    }
}

/// More in the pools extends a program.
pub proof fn lemma_pools_extend(a: ModuleView, b: ModuleView)
    requires
        a.strings.is_prefix_of(b.strings),
        a.ints.is_prefix_of(b.ints),
        a.floats.is_prefix_of(b.floats),
        b == (ModuleView { strings: b.strings, ints: b.ints, floats: b.floats, ..a }),
    ensures
        extends(a, b),
{
}

/// Other code in one function extends a program.
pub proof fn lemma_function_extends(a: ModuleView, i: int, f: FunctionView)
    requires
        0 <= i < a.functions.len(),
        same_function_name(a.functions[i], f),
    ensures
        extends(a, a.with_function(i, f)),
{
}

} // verus!
