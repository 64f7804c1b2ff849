//! Finding the parts of a program by name.
//!
//! The numbers that the compiler gives to functions, types and fields move with every release of
//! the game. The names come from the game's own source and stay, so everything here goes by name.

use vstd::prelude::*;
use hlbc::types::{Native, ObjField, RefField, RefString, RefType, Type, TypeFun};
use crate::module::{function_view, Module, ModuleView, FunctionView, TypeView};
use crate::text::same_text;

verus! {

/// `i` is the first position of `s` that satisfies `p`.
pub open spec fn is_first<T>(s: Seq<T>, p: spec_fn(T) -> bool, i: int) -> bool {
    &&& 0 <= i < s.len()
    &&& p(s[i])
    &&& forall|j: int| 0 <= j < i ==> !p(#[trigger] s[j])
}

/// The first position of `s` that satisfies `p`, if there is one.
pub open spec fn first_where<T>(s: Seq<T>, p: spec_fn(T) -> bool) -> Option<int> {
    if exists|i: int| is_first(s, p, i) {
        Some(choose|i: int| is_first(s, p, i))
    } else {
        None
    }
}

/// There is at most one first position.
pub proof fn lemma_first_where_is<T>(s: Seq<T>, p: spec_fn(T) -> bool, i: int)
    requires
        is_first(s, p, i),
    ensures
        first_where(s, p) == Some(i),
{
    let k = choose|k: int| is_first(s, p, k);
    assert(is_first(s, p, k));
    if k < i {
        assert(!p(s[k]));
    }
    if i < k {
        assert(!p(s[i]));
    }
}

/// Where nothing satisfies `p` there is no first position.
pub proof fn lemma_first_where_none<T>(s: Seq<T>, p: spec_fn(T) -> bool)
    requires
        forall|j: int| 0 <= j < s.len() ==> !p(#[trigger] s[j]),
    ensures
        first_where(s, p) is None,
{
}

/// What [`first_where`] promises of its result.
pub proof fn lemma_first_where<T>(s: Seq<T>, p: spec_fn(T) -> bool)
    ensures
        match first_where(s, p) {
            Some(i) => is_first(s, p, i),
            None => forall|j: int| 0 <= j < s.len() ==> !p(#[trigger] s[j]),
        },
{
    if first_where(s, p) is None {
        assert forall|j: int| 0 <= j < s.len() implies !p(#[trigger] s[j]) by {
            if p(s[j]) {
                lemma_first_exists(s, p, j);
            }
        }
    }
}

/// Where something satisfies `p` there is a first position.
proof fn lemma_first_exists<T>(s: Seq<T>, p: spec_fn(T) -> bool, j: int)
    requires
        0 <= j < s.len(),
        p(s[j]),
    ensures
        exists|i: int| is_first(s, p, i),
    decreases j,
{
    if forall|k: int| 0 <= k < j ==> !p(#[trigger] s[k]) {
        assert(is_first(s, p, j));
    } else {
        let k = choose|k: int| 0 <= k < j && p(#[trigger] s[k]);
        lemma_first_exists(s, p, k);
    }
}

/// The text that a reference into the string pool stands for. Reference zero means that there
/// is no name, which HashLink tools show as `<none>`; a reference outside the pool stands for
/// nothing.
pub open spec fn name_text(strings: Seq<Seq<char>>, name: RefString) -> Option<Seq<char>> {
    if name.0 == 0 {
        Some("<none>"@)
    } else if name.0 < strings.len() {
        Some(strings[name.0 as int])
    } else {
        None
    }
}

/// Why a method could not be found by name.
#[derive(Debug)]
pub enum LookupError {
    /// No function has that class and name.
    NotFound,
    /// Several functions have: these are their numbers.
    Ambiguous(Vec<usize>),
}

/// Why a field could not be found by name.
#[derive(Clone, Copy, Debug, PartialEq, Eq, Structural)]
pub enum FieldError {
    /// There is no class of that name.
    NoClass,
    /// The class has no field of that name.
    NoField,
}

impl ModuleView {
    /// The text of a name of this program.
    pub open spec fn text(self, name: RefString) -> Option<Seq<char>> {
        name_text(self.strings, name)
    }

    /// The name of the class that a type reference stands for.
    pub open spec fn class_text(self, t: RefType) -> Option<Seq<char>> {
        if t.0 < self.types.len() {
            match self.types[t.0 as int] {
                TypeView::Class(class) => self.text(class.name),
                TypeView::Struct(class) => self.text(class.name),
                TypeView::Other(_) => None,
            }
        } else {
            None
        }
    }

    /// Whether `f` is the method `method` of the class `class`.
    pub open spec fn is_method(
        self,
        f: FunctionView,
        class: Seq<char>,
        method: Seq<char>,
    ) -> bool {
        &&& self.text(f.name) == Some(method)
        &&& f.parent matches Some(parent) && self.class_text(parent) == Some(class)
    }

    /// The numbers of the functions that are the method `method` of the class `class`.
    pub open spec fn methods(self, class: Seq<char>, method: Seq<char>) -> Seq<usize> {
        self.functions.filter(|f: FunctionView| self.is_method(f, class, method)).map_values(
            |f: FunctionView| f.findex.0,
        )
    }

    /// The position of the first function that has the number `findex`.
    pub open spec fn function_index(self, findex: usize) -> Option<int> {
        first_where(self.functions, |f: FunctionView| f.findex.0 == findex)
    }

    /// Whether `n` is the native `name` of the library `lib`.
    pub open spec fn is_native(self, n: Native, lib: Seq<char>, name: Seq<char>) -> bool {
        self.text(n.lib) == Some(lib) && self.text(n.name) == Some(name)
    }

    /// The position of the first native `name` of the library `lib`.
    pub open spec fn native_index(self, lib: Seq<char>, name: Seq<char>) -> Option<int> {
        first_where(self.natives, |n: Native| self.is_native(n, lib, name))
    }

    /// Whether `t` is the class `class`.
    pub open spec fn is_class(self, t: TypeView, class: Seq<char>) -> bool {
        t matches TypeView::Class(c) && self.text(c.name) == Some(class)
    }

    /// The position of the first class `class`.
    pub open spec fn class_index(self, class: Seq<char>) -> Option<int> {
        first_where(self.types, |t: TypeView| self.is_class(t, class))
    }

    /// The fields of the `i`-th type, inherited ones first.
    pub open spec fn fields(self, i: int) -> Seq<ObjField> {
        match self.types[i] {
            TypeView::Class(class) => class.fields,
            _ => Seq::empty(),
        }
    }

    /// The position of the first field `field` among `fields`.
    pub open spec fn field_index(self, fields: Seq<ObjField>, field: Seq<char>) -> Option<int> {
        first_where(fields, |f: ObjField| self.text(f.name) == Some(field))
    }

    /// The field `field` of the class `class`, with its type.
    pub open spec fn field(self, class: Seq<char>, field: Seq<char>) -> Result<
        (RefField, RefType),
        FieldError,
    > {
        match self.class_index(class) {
            None => Err(FieldError::NoClass),
            Some(i) => match self.field_index(self.fields(i), field) {
                None => Err(FieldError::NoField),
                Some(k) => Ok((RefField(k as usize), self.fields(i)[k].t)),
            },
        }
    }

    /// The signature that a type reference stands for.
    pub open spec fn signature(self, t: RefType) -> Option<TypeFun> {
        if t.0 < self.types.len() {
            match self.types[t.0 as int] {
                TypeView::Other(Type::Fun(fun)) => Some(fun),
                TypeView::Other(Type::Method(fun)) => Some(fun),
                _ => None,
            }
        } else {
            None
        }
    }
}

/// Whether the name `name` of the program `code` reads `text`.
pub fn name_is(code: &Module, name: RefString, text: &str) -> (is: bool)
    ensures
        is == (code@.text(name) == Some(text@)),
{
    if name.0 == 0 {
        same_text("<none>", text)
    } else if name.0 < code.strings.len() {
        same_text(code.strings[name.0].as_str(), text)
    } else {
        false
    }
}

/// Whether the type `t` of the program `code` is a class (or struct) of the name `class_name`.
pub fn class_is(code: &Module, t: RefType, class_name: &str) -> (is: bool)
    ensures
        is == (code@.class_text(t) == Some(class_name@)),
{
    if t.0 < code.types.len() {
        match &code.types[t.0] {
            Type::Obj(obj) => name_is(code, obj.name, class_name),
            Type::Struct(obj) => name_is(code, obj.name, class_name),
            _ => false,
        }
    } else {
        false
    }
}

/// Finds the number of a class method by name.
///
/// There must be exactly one function of that class and name.
pub fn find_method_findex(code: &Module, class_name: &str, method_name: &str) -> (found: Result<
    usize,
    LookupError,
>)
    ensures
        match found {
            Ok(findex) => code@.methods(class_name@, method_name@) == seq![findex],
            Err(LookupError::NotFound) => code@.methods(class_name@, method_name@).len() == 0,
            Err(LookupError::Ambiguous(many)) => {
                &&& many@ == code@.methods(class_name@, method_name@)
                &&& many@.len() > 1
            },
        },
{
    let ghost p = |f: FunctionView| code@.is_method(f, class_name@, method_name@);
    let ghost num = |f: FunctionView| f.findex.0;
    let mut matches: Vec<usize> = Vec::new();
    for i in 0..code.functions.len()
        invariant
            p == (|f: FunctionView| code@.is_method(f, class_name@, method_name@)),
            num == (|f: FunctionView| f.findex.0),
            matches@ == code@.functions.take(i as int).filter(p).map_values(num),
    {
        let f = &code.functions[i];
        proof {
            let fs = code@.functions;
            assert(fs.take(i + 1).drop_last() =~= fs.take(i as int));
            assert(fs.take(i + 1).last() == function_view(*f));
            reveal(Seq::filter);
        }
        if name_is(code, f.name, method_name) {
            if let Some(parent) = f.parent {
                if class_is(code, parent, class_name) {
                    matches.push(f.findex.0);
                    proof {
                        let kept = code@.functions.take(i as int).filter(p);
                        assert(kept.push(function_view(*f)).map_values(num) =~= kept.map_values(
                            num,
                        ).push(f.findex.0));
                    }
                }
            }
        }
    }
    assert(code@.functions.take(code@.functions.len() as int) =~= code@.functions);
    if matches.len() == 1 {
        assert(matches@ =~= seq![matches@[0]]);
        Ok(matches[0])
    } else if matches.len() == 0 {
        Err(LookupError::NotFound)
    } else {
        Err(LookupError::Ambiguous(matches))
    }
}

/// Finds the number of a native by library and name: the first one counts.
pub fn find_native_findex(code: &Module, lib: &str, name: &str) -> (found: Option<usize>)
    ensures
        found == match code@.native_index(lib@, name@) {
            Some(i) => Some(code@.natives[i].findex.0),
            None => None,
        },
{
    let ghost p = |n: Native| code@.is_native(n, lib@, name@);
    for i in 0..code.natives.len()
        invariant
            p == (|n: Native| code@.is_native(n, lib@, name@)),
            forall|j: int| 0 <= j < i ==> !p(#[trigger] code@.natives[j]),
    {
        let n = &code.natives[i];
        if name_is(code, n.lib, lib) && name_is(code, n.name, name) {
            proof {
                lemma_first_where_is(code@.natives, p, i as int);
            }
            return Some(n.findex.0);
        }
    }
    proof {
        lemma_first_where_none(code@.natives, p);
    }
    None
}

/// Finds the position of the class `class_name` among the types: the first one counts.
pub fn find_type_index_by_name(code: &Module, class_name: &str) -> (found: Option<usize>)
    ensures
        match found {
            Some(i) => code@.class_index(class_name@) == Some(i as int) && i
                < code.types@.len() && code.types@[i as int] is Obj,
            None => code@.class_index(class_name@) is None,
        },
{
    let ghost p = |t: TypeView| code@.is_class(t, class_name@);
    for i in 0..code.types.len()
        invariant
            p == (|t: TypeView| code@.is_class(t, class_name@)),
            forall|j: int| 0 <= j < i ==> !p(#[trigger] code@.types[j]),
    {
        if let Type::Obj(obj) = &code.types[i] {
            if name_is(code, obj.name, class_name) {
                proof {
                    lemma_first_where_is(code@.types, p, i as int);
                }
                return Some(i);
            }
        }
    }
    proof {
        lemma_first_where_none(code@.types, p);
    }
    None
}

/// Finds a field of a class, inherited ones included, with its type.
pub fn find_field_by_name(code: &Module, class_name: &str, field_name: &str) -> (found: Result<
    (RefField, RefType),
    FieldError,
>)
    ensures
        found == code@.field(class_name@, field_name@),
{
    let type_index = match find_type_index_by_name(code, class_name) {
        Some(i) => i,
        None => return Err(FieldError::NoClass),
    };
    if let Type::Obj(obj) = &code.types[type_index] {
        let ghost p = |f: ObjField| code@.text(f.name) == Some(field_name@);
        assert(code@.fields(type_index as int) == obj.fields@);
        for i in 0..obj.fields.len()
            invariant
                p == (|f: ObjField| code@.text(f.name) == Some(field_name@)),
                forall|j: int| 0 <= j < i ==> !p(#[trigger] obj.fields@[j]),
                code@.class_index(class_name@) == Some(type_index as int),
                code@.fields(type_index as int) == obj.fields@,
        {
            if name_is(code, obj.fields[i].name, field_name) {
                proof {
                    lemma_first_where_is(obj.fields@, p, i as int);
                }
                return Ok((RefField(i), obj.fields[i].t));
            }
        }
        proof {
            lemma_first_where_none(obj.fields@, p);
        }
    }
    Err(FieldError::NoField)
}

/// Finds the position of the first function that has the number `findex`.
pub fn find_function(code: &Module, findex: usize) -> (found: Option<usize>)
    ensures
        match found {
            Some(i) => code@.function_index(findex) == Some(i as int) && i
                < code.functions@.len(),
            None => code@.function_index(findex) is None,
        },
{
    let ghost p = |f: FunctionView| f.findex.0 == findex;
    for i in 0..code.functions.len()
        invariant
            p == (|f: FunctionView| f.findex.0 == findex),
            forall|j: int| 0 <= j < i ==> !p(#[trigger] code@.functions[j]),
    {
        if code.functions[i].findex.0 == findex {
            proof {
                lemma_first_where_is(code@.functions, p, i as int);
            }
            return Some(i);
        }
    }
    proof {
        lemma_first_where_none(code@.functions, p);
    }
    None
}

/// The `i`-th element of `s` is the only one that satisfies `p`, and has the number `x`.
pub open spec fn is_only<T>(
    s: Seq<T>,
    p: spec_fn(T) -> bool,
    f: spec_fn(T) -> usize,
    x: usize,
    i: int,
) -> bool {
    &&& 0 <= i < s.len()
    &&& p(s[i])
    &&& f(s[i]) == x
    &&& forall|j: int| 0 <= j < s.len() && j != i ==> !p(#[trigger] s[j])
}

/// A filter keeps nothing where nothing satisfies it.
proof fn lemma_filter_empty<T>(s: Seq<T>, p: spec_fn(T) -> bool)
    ensures
        s.filter(p).len() == 0 <==> forall|j: int| 0 <= j < s.len() ==> !p(#[trigger] s[j]),
    decreases s.len(),
{
    reveal(Seq::filter);
    if s.len() > 0 {
        let fewer = s.drop_last();
        lemma_filter_empty(fewer, p);
        assert(forall|j: int| 0 <= j < fewer.len() ==> fewer[j] == s[j]);
        if s.filter(p).len() == 0 {
            assert forall|j: int| 0 <= j < s.len() implies !p(#[trigger] s[j]) by {
                if j < fewer.len() {
                    assert(!p(fewer[j]));
                }
            }
        } else if forall|j: int| 0 <= j < s.len() ==> !p(#[trigger] s[j]) {
            assert(!p(s[s.len() - 1]));
            assert forall|j: int| 0 <= j < fewer.len() implies !p(#[trigger] fewer[j]) by {
                assert(!p(s[j]));
            }
        }
    }
}

/// A filter keeps one element where one satisfies it.
pub proof fn lemma_filter_single<T>(
    s: Seq<T>,
    p: spec_fn(T) -> bool,
    f: spec_fn(T) -> usize,
    x: usize,
)
    ensures
        s.filter(p).map_values(f) == seq![x] <==> exists|i: int| is_only(s, p, f, x, i),
    decreases s.len(),
{
    reveal(Seq::filter);
    let kept = s.filter(p).map_values(f);
    if s.len() > 0 {
        let fewer = s.drop_last();
        let last = s.len() - 1;
        lemma_filter_single(fewer, p, f, x);
        lemma_filter_empty(fewer, p);
        if p(s[last]) {
            assert(s.filter(p) == fewer.filter(p).push(s[last]));
            if kept == seq![x] {
                assert(kept.len() == 1);
                assert(fewer.filter(p).len() == 0);
                assert(kept[0] == f(s[last]));
                assert forall|j: int| 0 <= j < s.len() && j != last implies !p(#[trigger] s[j]) by {
                    assert(!p(fewer[j]));
                }
                assert(is_only(s, p, f, x, last));
            }
            if exists|i: int| is_only(s, p, f, x, i) {
                let i = choose|i: int| is_only(s, p, f, x, i);
                assert(i == last);
                assert forall|j: int| 0 <= j < fewer.len() implies !p(#[trigger] fewer[j]) by {
                    assert(!p(s[j]));
                }
                assert(kept =~= seq![x]);
            }
        } else {
            assert(s.filter(p) == fewer.filter(p));
            if exists|i: int| is_only(fewer, p, f, x, i) {
                let i = choose|i: int| is_only(fewer, p, f, x, i);
                assert forall|j: int| 0 <= j < s.len() && j != i implies !p(#[trigger] s[j]) by {
                    if j < last {
                        assert(!p(fewer[j]));
                    }
                }
                assert(is_only(s, p, f, x, i));
            }
            if exists|i: int| is_only(s, p, f, x, i) {
                let i = choose|i: int| is_only(s, p, f, x, i);
                assert forall|j: int| 0 <= j < fewer.len() && j != i implies !p(
                    #[trigger] fewer[j],
                ) by {
                    assert(!p(s[j]));
                }
                assert(is_only(fewer, p, f, x, i));
            }
        }
    } else {
        assert(kept.len() == 0);
        if kept == seq![x] {
            assert(seq![x].len() == 1);
        }
    }
}

/// `b` is `a` with its functions in another order, and with other numbers: the `i`-th function of `b`
/// is that at `order[i]` of `a`, which is found again at `back`, and has the number that `renumber`
/// gives.
pub open spec fn renumbered(
    a: ModuleView,
    b: ModuleView,
    order: Seq<int>,
    back: Seq<int>,
    renumber: spec_fn(usize) -> usize,
) -> bool {
    &&& b.strings == a.strings
    &&& b.types == a.types
    &&& b.functions.len() == a.functions.len()
    &&& order.len() == a.functions.len()
    &&& back.len() == a.functions.len()
    &&& forall|i: int|
        0 <= i < order.len() ==> 0 <= #[trigger] order[i] < back.len() && back[order[i]] == i
    &&& forall|j: int|
        0 <= j < back.len() ==> 0 <= #[trigger] back[j] < order.len() && order[back[j]] == j
    &&& forall|i: int|
        0 <= i < order.len() ==> {
            let f = a.functions[order[i]];
            &&& (#[trigger] b.functions[i]).name == f.name
            &&& b.functions[i].parent == f.parent
            &&& b.functions[i].findex.0 == renumber(f.findex.0)
        }
}

/// Finding a method survives a release that puts the functions in another order and gives them other
/// numbers: the same method is found, by its new number.
pub proof fn law_method_is_found_after_renumbering(
    a: ModuleView,
    b: ModuleView,
    order: Seq<int>,
    back: Seq<int>,
    renumber: spec_fn(usize) -> usize,
    class: Seq<char>,
    method: Seq<char>,
    x: usize,
)
    requires
        renumbered(a, b, order, back, renumber),
        forall|m: usize, n: usize| #[trigger] renumber(m) == #[trigger] renumber(n) ==> m == n,
    ensures
        a.methods(class, method) == seq![x] <==> b.methods(class, method) == seq![renumber(x)],
{
    let p = |f: FunctionView| a.is_method(f, class, method);
    let q = |f: FunctionView| b.is_method(f, class, method);
    let num = |f: FunctionView| f.findex.0;
    lemma_filter_single(a.functions, p, num, x);
    let y = renumber(x);
    lemma_filter_single(b.functions, q, num, y);
    assert forall|i: int| 0 <= i < order.len() implies q(#[trigger] b.functions[i]) == p(
        a.functions[order[i]],
    ) by {
        assert(0 <= order[i] < back.len());
    }
    if exists|j: int| is_only(a.functions, p, num, x, j) {
        let j = choose|j: int| is_only(a.functions, p, num, x, j);
        let i = back[j];
        assert(order[i] == j);
        assert forall|k: int| 0 <= k < b.functions.len() && k != i implies !q(
            #[trigger] b.functions[k],
        ) by {
            assert(back[order[k]] == k);
            assert(!p(a.functions[order[k]]));
        }
        assert(q(b.functions[i]));
        assert(is_only(b.functions, q, num, y, i));
    }
    if exists|i: int| is_only(b.functions, q, num, y, i) {
        let i = choose|i: int| is_only(b.functions, q, num, y, i);
        let j = order[i];
        assert(back[j] == i);
        assert forall|k: int| 0 <= k < a.functions.len() && k != j implies !p(
            #[trigger] a.functions[k],
        ) by {
            let n = back[k];
            assert(order[n] == k);
            assert(!q(b.functions[n]));
        }
        assert(num(b.functions[i]) == renumber(num(a.functions[j])));
        assert(is_only(a.functions, p, num, x, j));
    }
}

} // verus!
