//! What the questions about a program answer.

use vstd::prelude::*;
use hlbc::types::{Native, ObjField, RefString, RefType, Type};
use crate::diagnose::{
    calls_in, calls_of, occurs_at, occurs_in, CallSite, FieldSite, SignatureError,
};
use crate::dialogue::{lower, same_but_case};
use crate::lookup::{is_only, lemma_filter_single, lemma_first_where, FieldError};
use crate::machine::{step, Event, Game, Machine, State};
use crate::module::{FunctionView, ModuleView, TypeView};

verus! {

/// The next step of a function that is running calls the function of the number `target`.
pub open spec fn calls_next(
    code: ModuleView,
    i: int,
    game: Game,
    s: State,
    target: usize,
) -> bool {
    match step(code, code.functions[i].ops, game, Machine::Running(s)) {
        Machine::Running(t) => {
            &&& t.past.len() == s.past.len() + 1
            &&& t.past.last() matches Event::Call(fun, _)
            &&& fun == target
        },
        _ => false,
    }
}

/// One call comes before another: in an earlier function, or earlier in the same one.
pub open spec fn earlier(a: CallSite, b: CallSite) -> bool {
    a.function < b.function || (a.function == b.function && a.op < b.op)
}

/// The calls that are found in one function, and their order.
proof fn lemma_calls_in(
    code: ModuleView,
    i: int,
    target: usize,
    n: nat,
)
    requires
        0 <= i < code.functions.len() <= usize::MAX,
        n <= code.functions[i].ops.len() <= usize::MAX,
    ensures
        ({
            let found = calls_in(i, code.functions[i].ops, target, n);
            &&& forall|k: int|
                0 <= k < found.len() ==> (#[trigger] found[k]).function == i && found[k].op < n
            &&& forall|j: int, k: int|
                0 <= j < k < found.len() ==> (#[trigger] found[j]).op < (#[trigger] found[k]).op
            &&& forall|game: Game, s: State|
                0 <= s.pc < n ==> (#[trigger] calls_next(code, i, game, s, target)
                    == found.contains(CallSite { function: i as usize, op: s.pc as usize }))
        }),
    decreases n,
{
    let ops = code.functions[i].ops;
    let found = calls_in(i, ops, target, n);
    if n > 0 {
        lemma_calls_in(code, i, target, (n - 1) as nat);
        let before = calls_in(i, ops, target, (n - 1) as nat);
        let last = CallSite { function: i as usize, op: (n - 1) as usize };
        assert forall|game: Game, s: State| 0 <= s.pc < n implies (#[trigger] calls_next(
            code,
            i,
            game,
            s,
            target,
        ) == found.contains(CallSite { function: i as usize, op: s.pc as usize })) by {
            let site = CallSite { function: i as usize, op: s.pc as usize };
            if found != before {
                assert(found == before.push(last));
                assert(found[found.len() - 1] == last);
                assert(forall|x: CallSite| before.contains(x) ==> found.contains(x)) by {
                    assert forall|x: CallSite| before.contains(x) implies found.contains(x) by {
                        let j = choose|j: int| 0 <= j < before.len() && before[j] == x;
                        assert(found[j] == x);
                    }
                }
                if found.contains(site) && !before.contains(site) {
                    let j = choose|j: int| 0 <= j < found.len() && found[j] == site;
                    assert(j == before.len());
                }
            }
            if s.pc < n - 1 {
                assert(calls_next(code, i, game, s, target) == before.contains(site));
                assert(site != last);
            } else {
                assert(site == last);
                if before.contains(site) {
                    let j = choose|j: int| 0 <= j < before.len() && before[j] == site;
                    assert(before[j].op < n - 1);
                }
            }
        }
    }
}

/// The calls that are found in the first functions.
proof fn lemma_calls_of(code: ModuleView, target: usize, n: nat)
    requires
        n <= code.functions.len() <= usize::MAX,
        forall|i: int|
            0 <= i < code.functions.len() ==> (#[trigger] code.functions[i]).ops.len()
                <= usize::MAX,
    ensures
        ({
            let found = calls_of(code.functions, target, n);
            &&& forall|k: int|
                0 <= k < found.len() ==> (#[trigger] found[k]).function < n && found[k].op
                    < code.functions[found[k].function as int].ops.len()
            &&& forall|j: int, k: int|
                0 <= j < k < found.len() ==> earlier(#[trigger] found[j], #[trigger] found[k])
            &&& forall|i: int, game: Game, s: State|
                0 <= i < n && 0 <= s.pc < code.functions[i].ops.len() ==> (#[trigger] calls_next(
                    code,
                    i,
                    game,
                    s,
                    target,
                ) == found.contains(CallSite { function: i as usize, op: s.pc as usize }))
        }),
    decreases n,
{
    if n > 0 {
        let m = n - 1;
        lemma_calls_of(code, target, m as nat);
        let ops = code.functions[m].ops;
        lemma_calls_in(code, m, target, ops.len());
        let before = calls_of(code.functions, target, m as nat);
        let here = calls_in(m, ops, target, ops.len());
        let found = calls_of(code.functions, target, n);
        assert(found == before + here);
        assert forall|i: int, game: Game, s: State|
            0 <= i < n && 0 <= s.pc < code.functions[i].ops.len() implies (#[trigger] calls_next(
            code,
            i,
            game,
            s,
            target,
        ) == found.contains(CallSite { function: i as usize, op: s.pc as usize })) by {
            let site = CallSite { function: i as usize, op: s.pc as usize };
            if before.contains(site) {
                let j = choose|j: int| 0 <= j < before.len() && before[j] == site;
                assert(found[j] == site);
                assert(before[j].function < m);
            }
            if here.contains(site) {
                let j = choose|j: int| 0 <= j < here.len() && here[j] == site;
                assert(found[before.len() + j] == site);
                assert(here[j].function == m);
            }
            if found.contains(site) {
                let j = choose|j: int| 0 <= j < found.len() && found[j] == site;
                if j < before.len() {
                    assert(before[j] == site);
                } else {
                    assert(here[j - before.len()] == site);
                }
            }
        }
    }
}

/// An instruction is found as a call of a function if and only if that function is called when the
/// instruction runs, whatever the state it runs in.
pub proof fn law_callers_are_those_that_call(
    code: ModuleView,
    target: usize,
    i: int,
    game: Game,
    s: State,
)
    requires
        code.functions.len() <= usize::MAX,
        forall|k: int|
            0 <= k < code.functions.len() ==> (#[trigger] code.functions[k]).ops.len()
                <= usize::MAX,
        0 <= i < code.functions.len(),
        0 <= s.pc < code.functions[i].ops.len(),
    ensures
        calls_of(code.functions, target, code.functions.len()).contains(
            CallSite { function: i as usize, op: s.pc as usize },
        ) <==> calls_next(code, i, game, s, target),
{
    lemma_calls_of(code, target, code.functions.len());
    assert(calls_next(code, i, game, s, target) == calls_next(code, i, game, s, target));
}

/// Every call that is found is an instruction of the program, and the calls are found one after the
/// other: none comes twice.
pub proof fn law_callers_are_in_order(code: ModuleView, target: usize, j: int, k: int)
    requires
        code.functions.len() <= usize::MAX,
        forall|k: int|
            0 <= k < code.functions.len() ==> (#[trigger] code.functions[k]).ops.len()
                <= usize::MAX,
        0 <= j < k < calls_of(code.functions, target, code.functions.len()).len(),
    ensures
        ({
            let found = calls_of(code.functions, target, code.functions.len());
            &&& earlier(found[j], found[k])
            &&& found[k].function < code.functions.len()
            &&& found[k].op < code.functions[found[k].function as int].ops.len()
        }),
{
    lemma_calls_of(code, target, code.functions.len());
}

/// A text is in another: the other is that text with something before and behind it.
pub open spec fn is_part(part: Seq<char>, whole: Seq<char>) -> bool {
    exists|before: Seq<char>, behind: Seq<char>| #[trigger] (before + part + behind) == whole
}

/// What [`occurs_in`] says of two texts.
pub proof fn law_text_occurs_where_it_is_a_part(part: Seq<char>, whole: Seq<char>)
    ensures
        occurs_in(part, whole) <==> is_part(part, whole),
{
    if occurs_in(part, whole) {
        let i = choose|i: int| #[trigger] occurs_at(part, whole, i);
        let before = whole.take(i);
        let behind = whole.skip(i + part.len());
        assert(before + part + behind =~= whole);
    }
    if is_part(part, whole) {
        let (before, behind) = choose|before: Seq<char>, behind: Seq<char>| #[trigger]
            (before + part + behind) == whole;
        assert(whole.subrange(
            before.len() as int,
            (before.len() + part.len()) as int,
        ) =~= part);
        assert(occurs_at(part, whole, before.len() as int));
    }
}

/// The needle is in the name of the source file of the first instruction of a function.
pub open spec fn in_source_file(code: ModuleView, i: int, needle: Seq<char>) -> bool {
    &&& code.functions[i].debug_info matches Some(lines)
    &&& code.debug_files matches Some(files)
    &&& lines.len() > 0
    &&& lines[0].0 < files.len()
    &&& is_part(needle, files[lines[0].0 as int])
}

/// The positions among the first ones that are listed.
proof fn lemma_listed(code: ModuleView, headers: Seq<Seq<char>>, needle: Seq<char>, n: nat)
    requires
        n <= code.functions.len() <= usize::MAX,
        n <= headers.len(),
    ensures
        ({
            let found = code.listed(headers, needle, n);
            &&& forall|k: int| 0 <= k < found.len() ==> #[trigger] found[k] < n
            &&& forall|j: int, k: int|
                0 <= j < k < found.len() ==> #[trigger] found[j] < #[trigger] found[k]
            &&& forall|i: usize|
                i < n ==> (#[trigger] found.contains(i) <==> is_part(needle, headers[i as int])
                    || in_source_file(code, i as int, needle))
        }),
    decreases n,
{
    if n > 0 {
        let m = (n - 1) as usize;
        lemma_listed(code, headers, needle, m as nat);
        let before = code.listed(headers, needle, m as nat);
        let found = code.listed(headers, needle, n);
        law_text_occurs_where_it_is_a_part(needle, headers[m as int]);
        let f = code.functions[m as int];
        if let Some(lines) = f.debug_info {
            if let Some(files) = code.debug_files {
                if lines.len() > 0 {
                    law_text_occurs_where_it_is_a_part(needle, files[lines[0].0 as int]);
                }
            }
        }
        assert forall|i: usize| i < n implies (#[trigger] found.contains(i) <==> is_part(
            needle,
            headers[i as int],
        ) || in_source_file(code, i as int, needle)) by {
            lemma_pushed(before, m, found, i);
            if before.contains(m) {
                let j = choose|j: int| 0 <= j < before.len() && before[j] == m;
                assert(before[j] < m);
            }
            assert(i < m ==> (before.contains(i) <==> is_part(needle, headers[i as int])
                || in_source_file(code, i as int, needle)));
        }
    }
}

/// What a list holds to which something may have been added.
proof fn lemma_pushed(before: Seq<usize>, last: usize, found: Seq<usize>, i: usize)
    requires
        found == before || found == before.push(last),
    ensures
        found.contains(i) <==> before.contains(i) || (i == last && found == before.push(last)),
{
    if before.contains(i) {
        let j = choose|j: int| 0 <= j < before.len() && before[j] == i;
        assert(found[j] == i);
    }
    if found == before.push(last) {
        assert(found[before.len() as int] == last);
        if found.contains(i) {
            let j = choose|j: int| 0 <= j < found.len() && found[j] == i;
            if j < before.len() {
                assert(before[j] == i);
            }
        }
    }
}

/// A function is listed if and only if the needle is in its header, or in the name of the source file
/// that it starts in. The list rises, so that no function comes twice.
pub proof fn law_listed_functions_have_to_do_with_the_needle(
    code: ModuleView,
    headers: Seq<Seq<char>>,
    needle: Seq<char>,
    i: usize,
)
    requires
        i < code.functions.len() <= usize::MAX,
        headers.len() == code.functions.len(),
    ensures
        ({
            let found = code.listed(headers, needle, code.functions.len());
            &&& found.contains(i) <==> is_part(needle, headers[i as int]) || in_source_file(
                code,
                i as int,
                needle,
            )
            &&& forall|k: int| 0 <= k < found.len() ==> #[trigger] found[k] < code.functions.len()
            &&& forall|j: int, k: int|
                0 <= j < k < found.len() ==> #[trigger] found[j] < #[trigger] found[k]
        }),
{
    lemma_listed(code, headers, needle, code.functions.len());
}

/// Where there are headers for the first functions only, only those are listed, and they as they
/// would be if there were more headers.
pub proof fn law_list_goes_by_the_headers(
    code: ModuleView,
    headers: Seq<Seq<char>>,
    needle: Seq<char>,
    n: nat,
    i: usize,
)
    requires
        i < n <= code.functions.len() <= usize::MAX,
        n <= headers.len(),
    ensures
        ({
            let found = code.listed(headers, needle, n);
            &&& found.contains(i) <==> is_part(needle, headers[i as int]) || in_source_file(
                code,
                i as int,
                needle,
            )
            &&& forall|k: int| 0 <= k < found.len() ==> #[trigger] found[k] < n
            &&& forall|j: int, k: int|
                0 <= j < k < found.len() ==> #[trigger] found[j] < #[trigger] found[k]
        }),
{
    lemma_listed(code, headers, needle, n);
}

/// The one function that goes by a header has to do with a needle where it would be listed.
pub proof fn law_function_matches_where_it_is_listed(
    code: ModuleView,
    i: int,
    header: Seq<char>,
    needle: Seq<char>,
)
    requires
        0 <= i < code.functions.len(),
    ensures
        code.has_to_do_with(code.functions[i], header, needle) <==> is_part(needle, header)
            || in_source_file(code, i, needle),
{
    law_text_occurs_where_it_is_a_part(needle, header);
    if let Some(lines) = code.functions[i].debug_info {
        if let Some(files) = code.debug_files {
            if lines.len() > 0 {
                law_text_occurs_where_it_is_a_part(needle, files[lines[0].0 as int]);
            }
        }
    }
}

/// A name reads so: it is the place of that text in the pool. The first place stands for no name, and
/// is shown as `<none>`.
pub open spec fn reads(code: ModuleView, name: RefString, text: Seq<char>) -> bool {
    if name.0 == 0 {
        text == "<none>"@
    } else {
        name.0 < code.strings.len() && code.strings[name.0 as int] == text
    }
}

/// The name of a function, a class, a field or a native is what stands at its place in the pool.
pub proof fn law_names_are_read_from_the_pool(code: ModuleView, name: RefString, text: Seq<char>)
    ensures
        code.text(name) == Some(text) <==> reads(code, name, text),
        code.text(name) is None <==> name.0 >= code.strings.len() && name.0 != 0,
{
}

/// A function is of that class and has that name.
pub open spec fn belongs(code: ModuleView, i: int, class: Seq<char>, method: Seq<char>) -> bool {
    &&& reads(code, code.functions[i].name, method)
    &&& code.functions[i].parent matches Some(parent)
    &&& parent.0 < code.types.len()
    &&& match code.types[parent.0 as int] {
        TypeView::Class(c) => reads(code, c.name, class),
        TypeView::Struct(c) => reads(code, c.name, class),
        TypeView::Other(_) => false,
    }
}

/// A method is found where exactly one function is of its class and has its name, and then it is the
/// number of that function.
pub proof fn law_method_is_the_only_one_of_its_name(
    code: ModuleView,
    class: Seq<char>,
    method: Seq<char>,
    x: usize,
)
    ensures
        code.methods(class, method) == seq![x] <==> exists|i: int|
            0 <= i < code.functions.len() && #[trigger] belongs(code, i, class, method)
                && code.functions[i].findex.0 == x && forall|j: int|
                0 <= j < code.functions.len() && j != i ==> !#[trigger] belongs(
                    code,
                    j,
                    class,
                    method,
                ),
        code.methods(class, method).len() == 0 <==> forall|j: int|
            0 <= j < code.functions.len() ==> !#[trigger] belongs(code, j, class, method),
{
    let p = |f: FunctionView| code.is_method(f, class, method);
    let num = |f: FunctionView| f.findex.0;
    lemma_filter_single(code.functions, p, num, x);
    assert forall|j: int| 0 <= j < code.functions.len() implies #[trigger] belongs(
        code,
        j,
        class,
        method,
    ) == p(code.functions[j]) by {
        law_names_are_read_from_the_pool(code, code.functions[j].name, method);
    }
    if exists|i: int| is_only(code.functions, p, num, x, i) {
        let i = choose|i: int| is_only(code.functions, p, num, x, i);
        assert(belongs(code, i, class, method));
        assert forall|j: int| 0 <= j < code.functions.len() && j != i implies !#[trigger] belongs(
            code,
            j,
            class,
            method,
        ) by {
            assert(!p(code.functions[j]));
        }
    }
    if exists|i: int|
        0 <= i < code.functions.len() && #[trigger] belongs(code, i, class, method)
            && code.functions[i].findex.0 == x && forall|j: int|
            0 <= j < code.functions.len() && j != i ==> !#[trigger] belongs(code, j, class, method) {
        let i = choose|i: int|
            0 <= i < code.functions.len() && #[trigger] belongs(code, i, class, method)
                && code.functions[i].findex.0 == x && forall|j: int|
                0 <= j < code.functions.len() && j != i ==> !#[trigger] belongs(
                    code,
                    j,
                    class,
                    method,
                );
        assert forall|j: int| 0 <= j < code.functions.len() && j != i implies !p(
            #[trigger] code.functions[j],
        ) by {
            assert(!belongs(code, j, class, method));
        }
        assert(is_only(code.functions, p, num, x, i));
    }
    let kept = code.functions.filter(p);
    if kept.len() == 0 {
        assert forall|j: int| 0 <= j < code.functions.len() implies !#[trigger] belongs(
            code,
            j,
            class,
            method,
        ) by {
            if p(code.functions[j]) {
                code.functions.lemma_filter_contains(p, j);
            }
        }
    } else {
        code.functions.lemma_filter_pred(p, 0);
        assert(kept.contains(kept[0]));
        code.functions.lemma_filter_contains_rev(p, kept[0]);
        let j = choose|j: int| 0 <= j < code.functions.len() && code.functions[j] == kept[0];
        assert(belongs(code, j, class, method));
    }
}

/// A function is found by its number: it is the first one that has it.
pub proof fn law_function_is_the_first_of_its_number(code: ModuleView, findex: usize)
    ensures
        match code.function_index(findex) {
            Some(i) => 0 <= i < code.functions.len() && code.functions[i].findex.0 == findex
                && forall|j: int|
                0 <= j < i ==> (#[trigger] code.functions[j]).findex.0 != findex,
            None => forall|j: int|
                0 <= j < code.functions.len() ==> (#[trigger] code.functions[j]).findex.0
                    != findex,
        },
{
    let p = |f: FunctionView| f.findex.0 == findex;
    lemma_first_where(code.functions, p);
    match code.function_index(findex) {
        Some(i) => {
            assert forall|j: int| 0 <= j < i implies (#[trigger] code.functions[j]).findex.0
                != findex by {
                assert(!p(code.functions[j]));
            }
        },
        None => {
            assert forall|j: int| 0 <= j < code.functions.len() implies (
            #[trigger] code.functions[j]).findex.0 != findex by {
                assert(!p(code.functions[j]));
            }
        },
    }
}

/// The native at `i` is of that library and has that name.
pub open spec fn native_reads(code: ModuleView, i: int, lib: Seq<char>, name: Seq<char>) -> bool {
    reads(code, code.natives[i].lib, lib) && reads(code, code.natives[i].name, name)
}

/// A native is found by its library and its name: it is the first one that has both.
pub proof fn law_native_is_the_first_of_its_name(code: ModuleView, lib: Seq<char>, name: Seq<char>)
    ensures
        match code.native_index(lib, name) {
            Some(i) => 0 <= i < code.natives.len() && native_reads(code, i, lib, name)
                && forall|j: int|
                0 <= j < i ==> !#[trigger] native_reads(code, j, lib, name),
            None => forall|j: int|
                0 <= j < code.natives.len() ==> !#[trigger] native_reads(code, j, lib, name),
        },
{
    let p = |n: Native| code.is_native(n, lib, name);
    lemma_first_where(code.natives, p);
    assert forall|j: int| 0 <= j < code.natives.len() implies #[trigger] native_reads(
        code,
        j,
        lib,
        name,
    ) == p(code.natives[j]) by {
        law_names_are_read_from_the_pool(code, code.natives[j].lib, lib);
    }
    match code.native_index(lib, name) {
        Some(i) => {
            assert(p(code.natives[i]));
            assert(native_reads(code, i, lib, name));
        },
        None => {},
    }
}

/// The type at `i` is a class of that name.
pub open spec fn class_reads(code: ModuleView, i: int, class: Seq<char>) -> bool {
    code.types[i] matches TypeView::Class(c) && reads(code, c.name, class)
}

/// A class is found by its name: it is the first one that has it.
pub proof fn law_class_is_the_first_of_its_name(code: ModuleView, class: Seq<char>)
    ensures
        match code.class_index(class) {
            Some(i) => 0 <= i < code.types.len() && class_reads(code, i, class) && forall|j: int|
                0 <= j < i ==> !#[trigger] class_reads(code, j, class),
            None => forall|j: int|
                0 <= j < code.types.len() ==> !#[trigger] class_reads(code, j, class),
        },
{
    let p = |t: TypeView| code.is_class(t, class);
    lemma_first_where(code.types, p);
    assert forall|j: int| 0 <= j < code.types.len() implies #[trigger] class_reads(code, j, class)
        == p(code.types[j]) by {}
    match code.class_index(class) {
        Some(i) => {
            assert(p(code.types[i]));
            assert(class_reads(code, i, class));
        },
        None => {},
    }
}

/// The type at `i` is the first class of that name.
pub open spec fn first_class(code: ModuleView, i: int, class: Seq<char>) -> bool {
    &&& 0 <= i < code.types.len()
    &&& class_reads(code, i, class)
    &&& forall|j: int| 0 <= j < i ==> !#[trigger] class_reads(code, j, class)
}

/// The fields that an object of a type has, those that its class inherits included.
pub open spec fn object_fields(t: TypeView) -> Seq<ObjField> {
    match t {
        TypeView::Class(c) => c.fields,
        _ => Seq::empty(),
    }
}

/// The field at `k` is the first one of that name.
pub open spec fn field_first(
    code: ModuleView,
    fields: Seq<ObjField>,
    k: int,
    name: Seq<char>,
) -> bool {
    &&& 0 <= k < fields.len()
    &&& reads(code, fields[k].name, name)
    &&& forall|j: int| 0 <= j < k ==> !reads(code, (#[trigger] fields[j]).name, name)
}

/// A field is found by the names of its class and itself, among the fields that an object of the class
/// has, those that the class inherits included. It comes with its place among them and its type.
pub proof fn law_field_is_the_first_of_its_name(
    code: ModuleView,
    class: Seq<char>,
    field: Seq<char>,
)
    requires
        forall|i: int|
            0 <= i < code.types.len() ==> object_fields(#[trigger] code.types[i]).len()
                <= usize::MAX,
    ensures
        match code.field(class, field) {
            Ok((place, t)) => exists|i: int| #[trigger]
                first_class(code, i, class) && field_first(
                    code,
                    object_fields(code.types[i]),
                    place.0 as int,
                    field,
                ) && object_fields(code.types[i])[place.0 as int].t == t,
            Err(FieldError::NoClass) => forall|j: int|
                0 <= j < code.types.len() ==> !#[trigger] class_reads(code, j, class),
            Err(FieldError::NoField) => exists|i: int| #[trigger]
                first_class(code, i, class) && forall|k: int|
                    0 <= k < object_fields(code.types[i]).len() ==> !reads(
                        code,
                        (#[trigger] object_fields(code.types[i])[k]).name,
                        field,
                    ),
        },
{
    law_class_is_the_first_of_its_name(code, class);
    if let Some(i) = code.class_index(class) {
        let fields = code.fields(i);
        let p = |f: ObjField| code.text(f.name) == Some(field);
        lemma_first_where(fields, p);
        assert forall|k: int| 0 <= k < fields.len() implies reads(
            code,
            (#[trigger] fields[k]).name,
            field,
        ) == p(fields[k]) by {}
        assert(first_class(code, i, class));
        assert(fields == object_fields(code.types[i]));
        if let Some(k) = code.field_index(fields, field) {
            assert(p(fields[k]));
            assert(field_first(code, fields, k, field));
        }
    }
}

/// Two characters are the same, or the two cases of one ASCII letter.
pub open spec fn same_letter(a: char, b: char) -> bool {
    ||| a == b
    ||| 'A' <= a <= 'Z' && b as u32 == a as u32 + 32
    ||| 'A' <= b <= 'Z' && a as u32 == b as u32 + 32
}

/// Two texts are the same but for the case of ASCII letters.
pub open spec fn same_letters(a: Seq<char>, b: Seq<char>) -> bool {
    a.len() == b.len() && forall|i: int| 0 <= i < a.len() ==> same_letter(#[trigger] a[i], b[i])
}

/// What [`same_but_case`] says of two texts.
pub proof fn law_case_of_letters_makes_no_difference(a: Seq<char>, b: Seq<char>)
    ensures
        same_but_case(a, b) <==> same_letters(a, b),
{
    assert forall|x: char, y: char| #[trigger] same_letter(x, y) == (lower(x) == lower(y)) by {
        lemma_lower(x);
        lemma_lower(y);
    }
    if same_but_case(a, b) {
        assert forall|i: int| 0 <= i < a.len() implies same_letter(#[trigger] a[i], b[i]) by {
            assert(lower(a[i]) == lower(b[i]));
        }
    }
    if same_letters(a, b) {
        assert forall|i: int| 0 <= i < a.len() implies lower(#[trigger] a[i]) == lower(b[i]) by {
            assert(same_letter(a[i], b[i]));
        }
    }
}

/// The number of a letter in lower case.
proof fn lemma_lower(c: char)
    ensures
        lower(c) as u32 == if 'A' <= c <= 'Z' {
            c as u32 + 32
        } else {
            c as u32 as int
        },
{
}

/// The fields that a class adds to those it inherits.
pub open spec fn added_fields(t: TypeView) -> Seq<ObjField> {
    match t {
        TypeView::Class(c) => c.own_fields,
        _ => Seq::empty(),
    }
}

/// The field is a field that a class adds to those it inherits, and has that name, but for the case of
/// letters.
pub open spec fn field_answers(code: ModuleView, site: FieldSite, name: Seq<char>) -> bool {
    &&& site.class < code.types.len()
    &&& site.field < added_fields(code.types[site.class as int]).len()
    &&& exists|text: Seq<char>| #[trigger]
        reads(code, added_fields(code.types[site.class as int])[site.field as int].name, text)
            && same_letters(text, name)
}

/// One field comes before another: in an earlier class, or earlier in the same one.
pub open spec fn field_earlier(a: FieldSite, b: FieldSite) -> bool {
    a.class < b.class || (a.class == b.class && a.field < b.field)
}

/// The fields that are found in one class.
proof fn lemma_fields_in(code: ModuleView, i: int, name: Seq<char>, n: nat)
    requires
        0 <= i < code.types.len() <= usize::MAX,
        n <= added_fields(code.types[i]).len() <= usize::MAX,
    ensures
        ({
            let found = code.fields_in(i, name, n);
            &&& forall|k: int|
                0 <= k < found.len() ==> (#[trigger] found[k]).class == i && found[k].field < n
            &&& forall|j: int, k: int|
                0 <= j < k < found.len() ==> (#[trigger] found[j]).field < (
                #[trigger] found[k]).field
            &&& forall|site: FieldSite|
                site.class == i && site.field < n ==> (#[trigger] found.contains(site)
                    <==> field_answers(code, site, name))
        }),
    decreases n,
{
    if n > 0 {
        let m = (n - 1) as nat;
        lemma_fields_in(code, i, name, m);
        let before = code.fields_in(i, name, m);
        let found = code.fields_in(i, name, n);
        let last = FieldSite { class: i as usize, field: m as usize };
        let field = added_fields(code.types[i])[m as int];
        assert(code.own_fields(i) == added_fields(code.types[i]));
        assert(code.field_is(field, name) == field_answers(code, last, name)) by {
            if let Some(text) = code.text(field.name) {
                law_case_of_letters_makes_no_difference(text, name);
                assert(reads(code, field.name, text));
                assert forall|other: Seq<char>| #[trigger]
                    reads(code, field.name, other) implies other == text by {}
            } else {
                assert forall|other: Seq<char>| !#[trigger] reads(code, field.name, other) by {}
            }
        }
        assert forall|site: FieldSite| site.class == i && site.field < n implies (
        #[trigger] found.contains(site) <==> field_answers(code, site, name)) by {
            if before.contains(site) {
                let j = choose|j: int| 0 <= j < before.len() && before[j] == site;
                assert(before[j].field < m);
                assert(found[j] == site);
            }
            if found.contains(site) {
                let j = choose|j: int| 0 <= j < found.len() && found[j] == site;
                if j < before.len() {
                    assert(before[j] == site);
                } else {
                    assert(site == last);
                }
            }
            if site.field == m {
                assert(site == last);
                if field_answers(code, last, name) {
                    assert(found[before.len() as int] == last);
                }
            }
        }
    }
}

/// The fields that are found in the first types.
proof fn lemma_fields_called(code: ModuleView, name: Seq<char>, n: nat)
    requires
        n <= code.types.len() <= usize::MAX,
        forall|i: int|
            0 <= i < code.types.len() ==> added_fields(#[trigger] code.types[i]).len()
                <= usize::MAX,
    ensures
        ({
            let found = code.fields_called(name, n);
            &&& forall|k: int| 0 <= k < found.len() ==> (#[trigger] found[k]).class < n
            &&& forall|j: int, k: int|
                0 <= j < k < found.len() ==> field_earlier(#[trigger] found[j], #[trigger] found[k])
            &&& forall|site: FieldSite|
                site.class < n ==> (#[trigger] found.contains(site) <==> field_answers(
                    code,
                    site,
                    name,
                ))
        }),
    decreases n,
{
    if n > 0 {
        let m = n - 1;
        lemma_fields_called(code, name, m as nat);
        assert(code.own_fields(m) == added_fields(code.types[m]));
        let size = added_fields(code.types[m]).len();
        lemma_fields_in(code, m, name, size);
        let before = code.fields_called(name, m as nat);
        let here = code.fields_in(m, name, size);
        let found = code.fields_called(name, n);
        assert(found == before + here);
        assert forall|site: FieldSite| site.class < n implies (#[trigger] found.contains(site)
            <==> field_answers(code, site, name)) by {
            if before.contains(site) {
                let j = choose|j: int| 0 <= j < before.len() && before[j] == site;
                assert(before[j].class < m);
                assert(found[j] == site);
            }
            if here.contains(site) {
                let j = choose|j: int| 0 <= j < here.len() && here[j] == site;
                assert(here[j].class == m && here[j].field < size);
                assert(found[before.len() + j] == site);
            }
            if found.contains(site) {
                let j = choose|j: int| 0 <= j < found.len() && found[j] == site;
                if j < before.len() {
                    assert(before[j] == site);
                } else {
                    assert(here[j - before.len()] == site);
                }
            }
        }
    }
}

/// A field is found if and only if some class adds it to those it inherits and it has the name, but for
/// the case of letters. The fields come in order, none twice.
pub proof fn law_fields_of_a_name_are_found(code: ModuleView, name: Seq<char>, site: FieldSite)
    requires
        code.types.len() <= usize::MAX,
        forall|i: int|
            0 <= i < code.types.len() ==> added_fields(#[trigger] code.types[i]).len()
                <= usize::MAX,
    ensures
        ({
            let found = code.fields_called(name, code.types.len());
            &&& found.contains(site) <==> field_answers(code, site, name)
            &&& forall|j: int, k: int|
                0 <= j < k < found.len() ==> field_earlier(#[trigger] found[j], #[trigger] found[k])
        }),
{
    lemma_fields_called(code, name, code.types.len());
    let found = code.fields_called(name, code.types.len());
    if found.contains(site) {
        let j = choose|j: int| 0 <= j < found.len() && found[j] == site;
        assert(found[j].class < code.types.len());
    }
}

/// The type at `i` is a class, and the class right above it has that name.
pub open spec fn is_right_below(code: ModuleView, i: int, class: Seq<char>) -> bool {
    &&& 0 <= i < code.types.len()
    &&& code.types[i] matches TypeView::Class(c)
    &&& c.super_ matches Some(above)
    &&& above.0 < code.types.len()
    &&& class_reads(code, above.0 as int, class)
}

/// The classes right below a class among the first types.
proof fn lemma_subclasses(code: ModuleView, class: Seq<char>, n: nat)
    requires
        n <= code.types.len() <= usize::MAX,
    ensures
        ({
            let found = code.subclasses(class, n);
            &&& forall|k: int| 0 <= k < found.len() ==> #[trigger] found[k] < n
            &&& forall|j: int, k: int|
                0 <= j < k < found.len() ==> #[trigger] found[j] < #[trigger] found[k]
            &&& forall|i: usize|
                i < n ==> (#[trigger] found.contains(i) <==> is_right_below(code, i as int, class))
        }),
    decreases n,
{
    if n > 0 {
        let m = (n - 1) as usize;
        lemma_subclasses(code, class, m as nat);
        let before = code.subclasses(class, m as nat);
        let found = code.subclasses(class, n);
        assert forall|i: usize| i < n implies (#[trigger] found.contains(i) <==> is_right_below(
            code,
            i as int,
            class,
        )) by {
            lemma_pushed(before, m, found, i);
            if before.contains(m) {
                let j = choose|j: int| 0 <= j < before.len() && before[j] == m;
                assert(before[j] < m);
            }
            assert(i < m ==> (before.contains(i) <==> is_right_below(code, i as int, class)));
        }
    }
}

/// A class is found to extend another directly if and only if the other is right above it. The classes
/// come in order, none twice.
pub proof fn law_direct_subclasses_are_right_below(code: ModuleView, class: Seq<char>, i: usize)
    requires
        code.types.len() <= usize::MAX,
    ensures
        ({
            let found = code.subclasses(class, code.types.len());
            &&& found.contains(i) <==> is_right_below(code, i as int, class)
            &&& forall|j: int, k: int|
                0 <= j < k < found.len() ==> #[trigger] found[j] < #[trigger] found[k]
        }),
{
    lemma_subclasses(code, class, code.types.len());
    let found = code.subclasses(class, code.types.len());
    if found.contains(i) {
        let j = choose|j: int| 0 <= j < found.len() && found[j] == i;
        assert(found[j] < code.types.len());
    }
}

/// The signature of a native is that of its type, which is that of a function or of a method.
pub proof fn law_signature_is_that_of_a_function(code: ModuleView, t: RefType)
    ensures
        match code.signature(t) {
            Some(fun) => t.0 < code.types.len() && (code.types[t.0 as int] == TypeView::Other(
                Type::Fun(fun),
            ) || code.types[t.0 as int] == TypeView::Other(Type::Method(fun))),
            None => t.0 < code.types.len() ==> !(code.types[t.0 as int] matches TypeView::Other(
                Type::Fun(_),
            )) && !(code.types[t.0 as int] matches TypeView::Other(Type::Method(_))),
        },
{
}

/// The class that a function is said to belong to is the one that its parent is.
pub proof fn law_class_is_that_of_the_parent(code: ModuleView, t: RefType, class: Seq<char>)
    ensures
        code.class_text(t) == Some(class) <==> t.0 < code.types.len()
            && match code.types[t.0 as int] {
            TypeView::Class(c) => reads(code, c.name, class),
            TypeView::Struct(c) => reads(code, c.name, class),
            TypeView::Other(_) => false,
        },
{
}

/// The function of a number is told by its own name and the name of the class that is its parent, where
/// it has one: it is the first function that has the number.
pub proof fn law_function_goes_by_its_own_names(
    code: ModuleView,
    findex: usize,
    name: Seq<char>,
    class: Seq<char>,
)
    ensures
        match code.identity(findex) {
            Some((own, above)) => exists|i: int|
                0 <= i < code.functions.len() && (#[trigger] code.functions[i]).findex.0 == findex
                    && (forall|j: int|
                    0 <= j < i ==> (#[trigger] code.functions[j]).findex.0 != findex) && (own
                    == Some(name) <==> reads(code, code.functions[i].name, name)) && (above == Some(
                    class,
                ) <==> (code.functions[i].parent matches Some(parent) && parent.0
                    < code.types.len() && match code.types[parent.0 as int] {
                    TypeView::Class(c) => reads(code, c.name, class),
                    TypeView::Struct(c) => reads(code, c.name, class),
                    TypeView::Other(_) => false,
                })),
            None => forall|j: int|
                0 <= j < code.functions.len() ==> (#[trigger] code.functions[j]).findex.0
                    != findex,
        },
{
    law_function_is_the_first_of_its_number(code, findex);
    if let Some(i) = code.function_index(findex) {
        law_names_are_read_from_the_pool(code, code.functions[i].name, name);
        if let Some(parent) = code.functions[i].parent {
            law_class_is_that_of_the_parent(code, parent, class);
        }
        assert(code.functions[i].findex.0 == findex);
    }
}

/// The signature of a native is that of the first one of its library and name: its number, and the
/// arguments and the result that its type has.
pub proof fn law_native_goes_by_its_own_type(code: ModuleView, lib: Seq<char>, name: Seq<char>)
    ensures
        match code.native_type(lib, name) {
            Ok((findex, args, ret)) => exists|i: int|
                0 <= i < code.natives.len() && #[trigger] native_reads(code, i, lib, name)
                    && code.natives[i].findex.0 == findex && code.natives[i].t.0 < code.types.len()
                    && match code.types[code.natives[i].t.0 as int] {
                    TypeView::Other(Type::Fun(fun)) => fun.args@ == args && fun.ret == ret,
                    TypeView::Other(Type::Method(fun)) => fun.args@ == args && fun.ret == ret,
                    _ => false,
                },
            Err(SignatureError::NoNative) => forall|j: int|
                0 <= j < code.natives.len() ==> !#[trigger] native_reads(code, j, lib, name),
            Err(SignatureError::NoSignature) => exists|i: int|
                0 <= i < code.natives.len() && #[trigger] native_reads(code, i, lib, name)
                    && code.signature(code.natives[i].t) is None,
        },
{
    law_native_is_the_first_of_its_name(code, lib, name);
    if let Some(i) = code.native_index(lib, name) {
        law_signature_is_that_of_a_function(code, code.natives[i].t);
        assert(native_reads(code, i, lib, name));
    }
}

} // verus!
