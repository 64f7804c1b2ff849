//! Whether what the parts of a program refer to is there.

use vstd::prelude::*;
use std::collections::hash_map::RandomState;
use std::collections::HashSet;
use vstd::std_specs::hash::{builds_valid_hashers, obeys_key_model};
use crate::format::{layout, read_layout, Layout, LayoutView};
use crate::scan::Flaw;
use crate::scan_types::{record_view, Record, RecordView};

verus! {

/// The names of a class's own fields, the last one first.
pub open spec fn own_names(record: RecordView) -> Seq<i32> {
    Seq::new(
        record.fields.len() / 2,
        |k: int| record.fields[record.fields.len() - 2 - 2 * k],
    )
}

/// The names of the fields of the `i`-th type, its own and those that it inherits, the last one
/// first. There are none to be had where the classes that it extends are not all there, or are
/// more than `limit`.
pub open spec fn names_upwards(types: Seq<Option<RecordView>>, i: int, limit: nat) -> Option<
    Seq<i32>,
>
    decreases limit,
{
    match types[i] {
        None => Some(Seq::empty()),
        Some(record) => if record.parent < 0 {
            Some(own_names(record))
        } else if record.parent >= types.len() || limit == 0 {
            None
        } else {
            match names_upwards(types, record.parent as int, (limit - 1) as nat) {
                None => None,
                Some(names) => Some(own_names(record) + names),
            }
        },
    }
}

impl LayoutView {
    /// How many functions the runtime supplies.
    pub open spec fn native_count(self) -> int {
        self.natives.len() as int / 4
    }

    /// The number of the `i`-th function that the runtime supplies.
    pub open spec fn native_number(self, i: int) -> i32 {
        self.natives[4 * i + 3]
    }

    /// The number is one of those that the program gives out.
    pub open spec fn numbered(self, findex: i32) -> bool {
        0 <= findex < self.functions.len() + self.native_count()
    }

    /// The number is that of a function that the runtime supplies.
    pub open spec fn is_native(self, findex: i32) -> bool {
        exists|i: int| 0 <= i < self.native_count() && #[trigger] self.native_number(i) == findex
    }

    /// A class may refer to the function `findex`: the number is given out, and leads somewhere.
    pub open spec fn callable(self, findex: i32) -> bool {
        self.numbered(findex) && (self.is_native(findex) || self.functions.len() > 0)
    }

    /// The position of the function that a number leads to, unless the runtime supplies it.
    pub open spec fn target(self, findex: i32) -> Option<int> {
        if self.is_native(findex) {
            None
        } else {
            Some(place_of(self.functions, findex))
        }
    }

    /// The name is in the pool.
    pub open spec fn in_pool(self, name: i32) -> bool {
        0 <= name < self.texts
    }

    /// The number of the `k`-th method of a class is one that the class may refer to.
    pub open spec fn proto_linked(self, record: RecordView, k: int) -> bool {
        self.callable(record.protos[3 * k + 1])
    }

    /// The last name that the first `n` methods of a class give to the function at `x`, if any does.
    pub open spec fn proto_name(self, record: RecordView, x: int, n: nat) -> Option<i32>
        decreases n,
    {
        if n == 0 {
            None
        } else if self.target(record.protos[3 * (n - 1) + 1]) == Some(x) {
            Some(record.protos[3 * (n - 1)])
        } else {
            self.proto_name(record, x, (n - 1) as nat)
        }
    }

    /// A later binding of the same field takes the place of the `k`-th one.
    pub open spec fn overridden(self, record: RecordView, k: int) -> bool {
        exists|j: int|
            k < j < record.bindings.len() / 2 && #[trigger] bound_field(record, j) == bound_field(
                record,
                k,
            )
    }

    /// What the `k`-th binding of a class refers to is there. `names` are the names of its fields,
    /// the last one first.
    pub open spec fn binding_linked(self, record: RecordView, names: Seq<i32>, k: int) -> bool {
        ||| 0 <= bound_field(record, k) < names.len() && self.callable(record.bindings[2 * k + 1])
        ||| self.overridden(record, k)
    }

    /// The `k`-th binding of a class gives the function at `x` its name.
    pub open spec fn binds(self, record: RecordView, x: int, k: int) -> bool {
        &&& 0 <= k < record.bindings.len() / 2
        &&& !self.overridden(record, k)
        &&& self.target(record.bindings[2 * k + 1]) == Some(x)
    }

    /// The function at `x` has a name in the pool after the first `n` types have given their names,
    /// in whatever order the bindings of a class are gone through.
    pub open spec fn name_found(self, x: int, n: nat) -> bool
        decreases n,
    {
        if n == 0 {
            self.texts > 0
        } else {
            let i = n - 1;
            match self.types[i] {
                None => self.name_found(x, i as nat),
                Some(record) => if exists|k: int| #[trigger] self.binds(record, x, k) {
                    let names = names_upwards(self.types, i, self.types.len())->0;
                    forall|k: int| #[trigger]
                        self.binds(record, x, k) ==> self.in_pool(bound_name(record, names, k))
                } else {
                    match self.proto_name(record, x, record.protos.len() / 3) {
                        Some(name) => self.in_pool(name),
                        None => self.name_found(x, i as nat),
                    }
                },
            }
        }
    }

    /// What a type refers to is there.
    pub open spec fn type_linked(self, i: int) -> bool {
        match self.types[i] {
            None => true,
            Some(record) => match names_upwards(self.types, i, self.types.len()) {
                None => false,
                Some(names) => {
                    &&& forall|k: int|
                        0 <= k < record.protos.len() / 3 ==> #[trigger] self.proto_linked(record, k)
                    &&& forall|k: int|
                        0 <= k < record.bindings.len() / 2 ==> #[trigger] self.binding_linked(
                            record,
                            names,
                            k,
                        )
                },
            },
        }
    }

    /// What the parts of the program refer to is there: every function has a number that is given
    /// out, every class extends classes that are there and not itself, every method and every
    /// binding is that of a function, and the name that a function ends up with is in the pool.
    pub open spec fn linked(self) -> bool {
        &&& forall|i: int|
            0 <= i < self.functions.len() ==> self.numbered(#[trigger] self.functions[i])
        &&& forall|i: int|
            0 <= i < self.native_count() ==> self.numbered(#[trigger] self.native_number(i))
        &&& forall|i: int| 0 <= i < self.types.len() ==> #[trigger] self.type_linked(i)
        &&& forall|x: int|
            0 <= x < self.functions.len() ==> #[trigger] self.name_found(x, self.types.len())
        &&& self.numbered(self.entry)
    }
}

/// The position of the last function that has the number `findex`, or the first position.
pub open spec fn place_of(functions: Seq<i32>, findex: i32) -> int
    decreases functions.len(),
{
    if functions.len() == 0 {
        0
    } else if functions.last() == findex {
        functions.len() - 1
    } else {
        place_of(functions.drop_last(), findex)
    }
}

/// The name of the field of the `k`-th binding of a class, where `names` are the names of its fields,
/// the last one first.
pub open spec fn bound_name(record: RecordView, names: Seq<i32>, k: int) -> i32 {
    names[names.len() - 1 - bound_field(record, k)]
}

/// The field of the `k`-th binding of a class.
pub open spec fn bound_field(record: RecordView, k: int) -> i32 {
    record.bindings[2 * k]
}

/// The bytes hang together: the reader of `hlbc` comes to an end on them, with a program or with an
/// error.
pub open spec fn sound(image: Seq<u8>) -> bool {
    match layout(image) {
        Ok(found) => found.linked(),
        Err(flaw) => flaw is Reported,
    }
}

/// Whether the number is one of those that the program gives out.
fn is_numbered(layout: &Layout, findex: i32) -> (is: bool)
    ensures
        is == layout@.numbered(findex),
{
    findex >= 0 && (findex as u128) < layout.functions.len() as u128 + (layout.natives.len()
        / 4) as u128
}

/// Every number that is given out leads where `slots` says.
spec fn leads(layout: LayoutView, slots: Seq<Option<usize>>) -> bool {
    forall|findex: i32| #[trigger]
        layout.numbered(findex) ==> findex < slots.len() && place_view(slots[findex as int])
            == layout.target(findex)
}

/// A position.
spec fn place_view(place: Option<usize>) -> Option<int> {
    match place {
        Some(x) => Some(x as int),
        None => None,
    }
}

/// A number that some function has leads to a function.
proof fn lemma_place(functions: Seq<i32>, findex: i32)
    requires
        functions.len() > 0,
    ensures
        0 <= place_of(functions, findex) < functions.len(),
    decreases functions.len(),
{
    if functions.last() != findex {
        if functions.len() > 1 {
            lemma_place(functions.drop_last(), findex);
        } else {
            assert(place_of(functions.drop_last(), findex) == 0);
        }
    }
}

/// Finds where every number leads.
fn find_slots(layout: &Layout) -> (slots: Vec<Option<usize>>)
    requires
        layout@.whole(),
        forall|i: int|
            0 <= i < layout@.functions.len() ==> layout@.numbered(#[trigger] layout@.functions[i]),
        forall|i: int|
            0 <= i < layout@.native_count() ==> layout@.numbered(
                #[trigger] layout@.native_number(i),
            ),
    ensures
        leads(layout@, slots@),
{
    let count: u128 = layout.functions.len() as u128 + (layout.natives.len() / 4) as u128;
    let size: usize = if count < 0x8000_0000 {
        count as usize
    } else {
        0x8000_0000
    };
    let mut slots: Vec<Option<usize>> = Vec::new();
    for i in 0..size
        invariant
            slots@.len() == i,
            forall|k: int| 0 <= k < i ==> #[trigger] slots@[k] == Some(0usize),
    {
        slots.push(Some(0));
    }
    assert(layout@.functions.take(0) =~= Seq::empty());
    for i in 0..layout.functions.len()
        invariant
            slots@.len() == size,
            forall|findex: i32| #[trigger] layout@.numbered(findex) ==> 0 <= findex < size,
            forall|i: int|
                0 <= i < layout@.functions.len() ==> layout@.numbered(
                    #[trigger] layout@.functions[i],
                ),
            forall|findex: i32| #[trigger]
                layout@.numbered(findex) ==> place_view(slots@[findex as int]) == Some(
                    place_of(layout@.functions.take(i as int), findex),
                ),
    {
        let findex = layout.functions[i];
        assert(layout@.numbered(layout@.functions[i as int]));
        slots[findex as usize] = Some(i);
        let ghost so_far = layout@.functions.take(i + 1);
        assert(so_far.drop_last() =~= layout@.functions.take(i as int));
        assert(so_far.last() == findex);
    }
    assert(layout@.functions.take(layout@.functions.len() as int) =~= layout@.functions);
    let natives = layout.natives.len() / 4;
    for i in 0..natives
        invariant
            slots@.len() == size,
            layout@.whole(),
            natives == layout.natives.len() / 4,
            natives == layout@.native_count(),
            forall|findex: i32| #[trigger] layout@.numbered(findex) ==> 0 <= findex < size,
            forall|i: int|
                0 <= i < layout@.native_count() ==> layout@.numbered(
                    #[trigger] layout@.native_number(i),
                ),
            forall|findex: i32| #[trigger]
                layout@.numbered(findex) ==> place_view(slots@[findex as int]) == if exists|j: int|
                    0 <= j < i && #[trigger] layout@.native_number(j) == findex {
                    None::<int>
                } else {
                    Some(place_of(layout@.functions, findex))
                },
    {
        let findex = layout.natives[4 * i + 3];
        assert(layout@.native_number(i as int) == findex);
        let ghost before = slots@;
        slots[findex as usize] = None;
        assert forall|other: i32| #[trigger] layout@.numbered(other) implies place_view(
            slots@[other as int],
        ) == if exists|j: int| 0 <= j < i + 1 && #[trigger] layout@.native_number(j) == other {
            None::<int>
        } else {
            Some(place_of(layout@.functions, other))
        } by {
            assert(layout@.numbered(findex));
            if other == findex {
                assert(layout@.native_number(i as int) == other);
            } else {
                assert(slots@[other as int] == before[other as int]);
                if exists|j: int| 0 <= j < i + 1 && #[trigger] layout@.native_number(j) == other {
                    let j = choose|j: int|
                        0 <= j < i + 1 && #[trigger] layout@.native_number(j) == other;
                    assert(j < i);
                }
            }
        }
    }
    slots
}

/// Whether a class may refer to a function.
fn is_callable(layout: &Layout, slots: &Vec<Option<usize>>, findex: i32) -> (may: bool)
    requires
        leads(layout@, slots@),
    ensures
        may == layout@.callable(findex),
{
    if !is_numbered(layout, findex) {
        return false;
    }
    assert(layout@.numbered(findex));
    layout.functions.len() > 0 || slots[findex as usize].is_none()
}

/// Whether a name is in the pool.
fn is_in_pool(layout: &Layout, name: i32) -> (is: bool)
    ensures
        is == layout@.in_pool(name),
{
    0 <= name && name < layout.texts
}

/// The names of the fields of a type, the last one first.
fn collect_names(layout: &Layout, i: usize) -> (names: Option<Vec<i32>>)
    requires
        layout@.whole(),
        i < layout@.types.len(),
    ensures
        match names {
            Some(found) => names_upwards(layout@.types, i as int, layout@.types.len()) == Some(
                found@,
            ),
            None => names_upwards(layout@.types, i as int, layout@.types.len()) is None,
        },
{
    let ghost types = layout@.types;
    let mut names: Vec<i32> = Vec::new();
    let mut at: usize = i;
    let mut limit: usize = layout.types.len();
    assert(forall|s: Seq<i32>| #[trigger] (names@ + s) =~= s);
    loop
        invariant
            types == layout@.types,
            all_linked_so_far(types, i as int, at as int, limit as nat, names@),
            layout@.whole(),
            at < types.len(),
        decreases limit,
    {
        assert(layout@.types[at as int] == record_view(layout.types@[at as int]));
        match &layout.types[at] {
            None => {
                assert(names@ + Seq::<i32>::empty() =~= names@);
                return Some(names);
            },
            Some(record) => {
                let ghost before = names@;
                let n = record.fields.len() / 2;
                for k in 0..n
                    invariant
                        n == record@.fields.len() / 2,
                        record@.whole(),
                        names@ == before + own_names(record@).take(k as int),
                {
                    names.push(record.fields[record.fields.len() - 2 - 2 * k]);
                    assert(own_names(record@).take(k + 1) =~= own_names(record@).take(
                        k as int,
                    ).push(own_names(record@)[k as int]));
                    assert(names@ =~= before + own_names(record@).take(k + 1));
                }
                assert(own_names(record@).take(n as int) =~= own_names(record@));
                if record.parent < 0 {
                    return Some(names);
                }
                if record.parent as u64 >= layout.types.len() as u64 || limit == 0 {
                    return None;
                }
                proof {
                    if let Some(rest) = names_upwards(
                        types,
                        record.parent as int,
                        (limit - 1) as nat,
                    ) {
                        assert(before + (own_names(record@) + rest) =~= names@ + rest);
                    }
                }
                at = record.parent as usize;
                limit = limit - 1;
            },
        }
    }
}

/// The names of the fields of the `i`-th type are `names`, and then those of the type at `at`.
spec fn all_linked_so_far(
    types: Seq<Option<RecordView>>,
    i: int,
    at: int,
    limit: nat,
    names: Seq<i32>,
) -> bool {
    names_upwards(types, i, types.len()) == match names_upwards(types, at, limit) {
        None => None::<Seq<i32>>,
        Some(more) => Some(names + more),
    }
}

/// Tells of each binding of a class whether no later one takes its place.
fn live_bindings(layout: &Layout, record: &Record) -> (live: Vec<bool>)
    requires
        record@.whole(),
    ensures
        live@.len() == record@.bindings.len() / 2,
        forall|k: int|
            0 <= k < live@.len() ==> #[trigger] live@[k] == !layout@.overridden(record@, k),
{
    broadcast use vstd::std_specs::hash::group_hash_axioms;

    let n = record.bindings.len() / 2;
    let mut live: Vec<bool> = Vec::new();
    for i in 0..n
        invariant
            live@.len() == i,
    {
        live.push(false);
    }
    let mut seen: HashSet<i32> = HashSet::new();
    let mut k: usize = n;
    while k > 0
        invariant
            obeys_key_model::<i32>(),
            builds_valid_hashers::<RandomState>(),
            n == record.bindings.len() / 2,
            live@.len() == n,
            k <= n,
            forall|f: i32| #[trigger]
                seen@.contains(f) ==> exists|j: int|
                    k <= j < n && #[trigger] bound_field(record@, j) == f,
            forall|j: int| k <= j < n ==> seen@.contains(#[trigger] bound_field(record@, j)),
            forall|j: int|
                k <= j < n ==> #[trigger] live@[j] == !layout@.overridden(record@, j),
        decreases k,
    {
        k = k - 1;
        let field = record.bindings[2 * k];
        let ghost before = seen@;
        assert(bound_field(record@, k as int) == field);
        let fresh = seen.insert(field);
        live[k] = fresh;
        proof {
            if before.contains(field) {
                let j = choose|j: int| k < j < n && #[trigger] bound_field(record@, j) == field;
                assert(layout@.overridden(record@, k as int));
            } else if layout@.overridden(record@, k as int) {
                let j = choose|j: int|
                    k < j < record@.bindings.len() / 2 && #[trigger] bound_field(record@, j)
                        == bound_field(record@, k as int);
                assert(before.contains(bound_field(record@, j)));
            }
            assert forall|f: i32| #[trigger] seen@.contains(f) implies exists|j: int|
                k <= j < n && #[trigger] bound_field(record@, j) == f by {
                if f == field {
                    assert(bound_field(record@, k as int) == f);
                } else {
                    assert(before.contains(f));
                    let j = choose|j: int| k < j < n && #[trigger] bound_field(record@, j) == f;
                    assert(bound_field(record@, j) == f);
                }
            }
        }
    }
    live
}

/// The functions whose names are in the pool are told by `fine`, after the first `n` types.
spec fn told(layout: LayoutView, fine: Seq<bool>, n: nat) -> bool {
    &&& fine.len() == layout.functions.len()
    &&& forall|x: int| 0 <= x < fine.len() ==> #[trigger] fine[x] == layout.name_found(x, n)
}

/// Whether the function at `x` has a name in the pool after the first `n` types and the first `k`
/// methods of the next one.
spec fn name_after_protos(
    layout: LayoutView,
    record: RecordView,
    n: nat,
    k: nat,
    x: int,
) -> bool {
    match layout.proto_name(record, x, k) {
        Some(name) => layout.in_pool(name),
        None => layout.name_found(x, n),
    }
}

/// Looks up the methods of the type behind the first `n`, and gives their names. Tells whether all of
/// them are there.
fn name_by_protos(
    layout: &Layout,
    slots: &Vec<Option<usize>>,
    record: &Record,
    fine: &mut Vec<bool>,
    n: usize,
) -> (linked: bool)
    requires
        leads(layout@, slots@),
        record@.whole(),
        told(layout@, old(fine)@, n as nat),
    ensures
        linked == forall|k: int|
            0 <= k < record@.protos.len() / 3 ==> #[trigger] layout@.proto_linked(record@, k),
        linked ==> {
            &&& final(fine)@.len() == layout@.functions.len()
            &&& forall|x: int|
                0 <= x < final(fine)@.len() ==> #[trigger] final(fine)@[x] == name_after_protos(
                    layout@,
                    record@,
                    n as nat,
                    record@.protos.len() / 3,
                    x,
                )
        },
{
    let protos = record.protos.len() / 3;
    for k in 0..protos
        invariant
            leads(layout@, slots@),
            record@.whole(),
            protos == record.protos.len() / 3,
            forall|j: int| 0 <= j < k ==> #[trigger] layout@.proto_linked(record@, j),
            fine@.len() == layout@.functions.len(),
            forall|x: int|
                0 <= x < fine@.len() ==> #[trigger] fine@[x] == name_after_protos(
                    layout@,
                    record@,
                    n as nat,
                    k as nat,
                    x,
                ),
    {
        let findex = record.protos[3 * k + 1];
        let name = record.protos[3 * k];
        if !is_callable(layout, slots, findex) {
            assert(!layout@.proto_linked(record@, k as int));
            return false;
        }
        assert(layout@.numbered(findex));
        if let Some(x) = slots[findex as usize] {
            proof {
                lemma_place(layout@.functions, findex);
            }
            fine[x] = is_in_pool(layout, name);
        }
    }
    true
}

/// Whether the function at `x` has a name in the pool after the bindings of a class. `before` tells
/// whether it had one before them; of the bindings that name it, the first `k` have been looked at.
spec fn name_after_bindings(
    layout: LayoutView,
    record: RecordView,
    names: Seq<i32>,
    before: bool,
    x: int,
    k: int,
) -> bool {
    if exists|j: int| #[trigger] layout.binds(record, x, j) {
        forall|j: int| #[trigger]
            layout.binds(record, x, j) && j < k ==> layout.in_pool(bound_name(record, names, j))
    } else {
        before
    }
}

/// One more binding has been taken note of.
proof fn lemma_more_bound(
    layout: LayoutView,
    record: RecordView,
    before: Seq<bool>,
    after: Seq<bool>,
    first: Seq<bool>,
    k: int,
)
    requires
        0 <= k < record.bindings.len() / 2,
        after.len() == before.len(),
        forall|x: int|
            0 <= x < before.len() ==> #[trigger] before[x] == if exists|j: int| #[trigger]
                layout.binds(record, x, j) && j < k {
                true
            } else {
                first[x]
            },
        forall|x: int|
            0 <= x < before.len() ==> #[trigger] after[x] == if layout.binds(record, x, k) {
                true
            } else {
                before[x]
            },
    ensures
        forall|x: int|
            0 <= x < after.len() ==> #[trigger] after[x] == if exists|j: int| #[trigger]
                layout.binds(record, x, j) && j < k + 1 {
                true
            } else {
                first[x]
            },
{
    assert forall|x: int| 0 <= x < after.len() implies #[trigger] after[x] == if exists|j: int|
     #[trigger]
        layout.binds(record, x, j) && j < k + 1 {
        true
    } else {
        first[x]
    } by {
        assert(before[x] == before[x]);
        if exists|j: int| #[trigger] layout.binds(record, x, j) && j < k {
            let j = choose|j: int| #[trigger] layout.binds(record, x, j) && j < k;
            assert(layout.binds(record, x, j) && j < k + 1);
        }
    }
}

/// One more binding has given its name.
proof fn lemma_more_named(
    layout: LayoutView,
    record: RecordView,
    names: Seq<i32>,
    before: Seq<bool>,
    after: Seq<bool>,
    first: Seq<bool>,
    k: int,
)
    requires
        0 <= k < record.bindings.len() / 2,
        after.len() == before.len(),
        forall|x: int|
            0 <= x < before.len() ==> #[trigger] before[x] == name_after_bindings(
                layout,
                record,
                names,
                first[x],
                x,
                k,
            ),
        forall|x: int|
            0 <= x < before.len() ==> #[trigger] after[x] == if layout.binds(record, x, k)
                && !layout.in_pool(bound_name(record, names, k)) {
                false
            } else {
                before[x]
            },
    ensures
        forall|x: int|
            0 <= x < after.len() ==> #[trigger] after[x] == name_after_bindings(
                layout,
                record,
                names,
                first[x],
                x,
                k + 1,
            ),
{
    assert forall|x: int| 0 <= x < after.len() implies #[trigger] after[x] == name_after_bindings(
        layout,
        record,
        names,
        first[x],
        x,
        k + 1,
    ) by {
        assert(before[x] == name_after_bindings(layout, record, names, first[x], x, k));
        if exists|j: int| #[trigger] layout.binds(record, x, j) {
            if forall|j: int| #[trigger]
                layout.binds(record, x, j) && j < k + 1 ==> layout.in_pool(
                    bound_name(record, names, j),
                ) {
                assert(before[x]);
            }
        }
    }
}

/// Looks up the bindings of a class, whose fields have the names `names`, and gives their names. Tells
/// whether all of them are there.
fn name_by_bindings(
    layout: &Layout,
    slots: &Vec<Option<usize>>,
    record: &Record,
    names: &Vec<i32>,
    fine: &mut Vec<bool>,
) -> (linked: bool)
    requires
        leads(layout@, slots@),
        record@.whole(),
        old(fine)@.len() == layout@.functions.len(),
    ensures
        linked == forall|k: int|
            0 <= k < record@.bindings.len() / 2 ==> #[trigger] layout@.binding_linked(
                record@,
                names@,
                k,
            ),
        linked ==> {
            &&& final(fine)@.len() == layout@.functions.len()
            &&& forall|x: int|
                0 <= x < final(fine)@.len() ==> #[trigger] final(fine)@[x] == name_after_bindings(
                    layout@,
                    record@,
                    names@,
                    old(fine)@[x],
                    x,
                    record@.bindings.len() as int / 2,
                )
        },
{
    let n = record.bindings.len() / 2;
    let live = live_bindings(layout, record);
    let ghost before = fine@;
    for k in 0..n
        invariant
            leads(layout@, slots@),
            record@.whole(),
            n == record.bindings.len() / 2,
            live@.len() == n,
            forall|j: int| 0 <= j < n ==> #[trigger] live@[j] == !layout@.overridden(record@, j),
            forall|j: int|
                0 <= j < k ==> #[trigger] layout@.binding_linked(record@, names@, j),
            before.len() == layout@.functions.len(),
            fine@.len() == layout@.functions.len(),
            forall|x: int|
                0 <= x < fine@.len() ==> #[trigger] fine@[x] == if exists|j: int| #[trigger]
                    layout@.binds(record@, x, j) && j < k {
                    true
                } else {
                    before[x]
                },
    {
        let ghost so_far = fine@;
        if live[k] {
            let field = record.bindings[2 * k];
            let findex = record.bindings[2 * k + 1];
            if field < 0 || field as u64 >= names.len() as u64 || !is_callable(
                layout,
                slots,
                findex,
            ) {
                assert(!layout@.binding_linked(record@, names@, k as int));
                return false;
            }
            assert(layout@.numbered(findex));
            if let Some(x) = slots[findex as usize] {
                proof {
                    lemma_place(layout@.functions, findex);
                    assert(layout@.binds(record@, x as int, k as int));
                }
                fine[x] = true;
            }
        }
        proof {
            lemma_more_bound(layout@, record@, so_far, fine@, before, k as int);
        }
    }
    let ghost noted = fine@;
    for k in 0..n
        invariant
            leads(layout@, slots@),
            record@.whole(),
            n == record.bindings.len() / 2,
            live@.len() == n,
            forall|j: int| 0 <= j < n ==> #[trigger] live@[j] == !layout@.overridden(record@, j),
            forall|j: int|
                0 <= j < n ==> #[trigger] layout@.binding_linked(record@, names@, j),
            before.len() == layout@.functions.len(),
            fine@.len() == layout@.functions.len(),
            forall|x: int|
                0 <= x < fine@.len() ==> #[trigger] fine@[x] == name_after_bindings(
                    layout@,
                    record@,
                    names@,
                    before[x],
                    x,
                    k as int,
                ),
    {
        let ghost so_far = fine@;
        if live[k] {
            let field = record.bindings[2 * k];
            let findex = record.bindings[2 * k + 1];
            assert(layout@.binding_linked(record@, names@, k as int));
            assert(layout@.numbered(findex));
            if let Some(x) = slots[findex as usize] {
                proof {
                    lemma_place(layout@.functions, findex);
                    assert(layout@.binds(record@, x as int, k as int));
                }
                if !is_in_pool(layout, names[names.len() - 1 - field as usize]) {
                    fine[x] = false;
                }
            }
        }
        proof {
            lemma_more_named(layout@, record@, names@, so_far, fine@, before, k as int);
        }
    }
    true
}

/// Looks up what a type refers to, and gives its names. Tells whether all of it is there.
fn name_by_type(layout: &Layout, slots: &Vec<Option<usize>>, fine: &mut Vec<bool>, i: usize) -> (
    linked: bool)
    requires
        layout@.whole(),
        leads(layout@, slots@),
        i < layout@.types.len(),
        told(layout@, old(fine)@, i as nat),
    ensures
        linked == layout@.type_linked(i as int),
        linked ==> told(layout@, final(fine)@, (i + 1) as nat),
{
    assert(layout@.types[i as int] == record_view(layout.types@[i as int]));
    let record = match &layout.types[i] {
        None => {
            return true;
        },
        Some(record) => record,
    };
    let names = match collect_names(layout, i) {
        None => {
            return false;
        },
        Some(names) => names,
    };
    let protos = name_by_protos(layout, slots, record, fine, i);
    if !protos {
        return false;
    }
    let bindings = name_by_bindings(layout, slots, record, &names, fine);
    proof {
        let up = names_upwards(layout@.types, i as int, layout@.types.len());
        assert(up->0 == names@);
    }
    bindings
}

/// Whether what the parts of a program refer to is there.
fn is_linked(layout: &Layout) -> (is: bool)
    requires
        layout@.whole(),
    ensures
        is == layout@.linked(),
{
    for i in 0..layout.functions.len()
        invariant
            forall|j: int| 0 <= j < i ==> layout@.numbered(#[trigger] layout@.functions[j]),
    {
        if !is_numbered(layout, layout.functions[i]) {
            assert(!layout@.numbered(layout@.functions[i as int]));
            return false;
        }
    }
    let natives = layout.natives.len() / 4;
    for i in 0..natives
        invariant
            layout@.whole(),
            natives == layout.natives.len() / 4,
            natives == layout@.native_count(),
            forall|j: int| 0 <= j < i ==> layout@.numbered(#[trigger] layout@.native_number(j)),
    {
        if !is_numbered(layout, layout.natives[4 * i + 3]) {
            assert(!layout@.numbered(layout@.native_number(i as int)));
            return false;
        }
    }
    let slots = find_slots(layout);
    let mut fine: Vec<bool> = Vec::new();
    for i in 0..layout.functions.len()
        invariant
            fine@.len() == i,
            forall|x: int| 0 <= x < i ==> #[trigger] fine@[x] == (layout@.texts > 0),
    {
        fine.push(layout.texts > 0);
    }
    for i in 0..layout.types.len()
        invariant
            layout@.whole(),
            leads(layout@, slots@),
            layout@.types.len() == layout.types@.len(),
            told(layout@, fine@, i as nat),
            forall|j: int| 0 <= j < i ==> #[trigger] layout@.type_linked(j),
    {
        if !name_by_type(layout, &slots, &mut fine, i) {
            return false;
        }
    }
    for x in 0..fine.len()
        invariant
            told(layout@, fine@, layout@.types.len()),
            forall|y: int| 0 <= y < x ==> #[trigger] layout@.name_found(y, layout@.types.len()),
    {
        if !fine[x] {
            assert(!layout@.name_found(x as int, layout@.types.len()));
            return false;
        }
    }
    is_numbered(layout, layout.entry)
}

/// Whether the bytes hang together, so that they can be handed to the reader.
pub fn is_sound(image: &[u8]) -> (is: bool)
    ensures
        is == sound(image@),
{
    match read_layout(image) {
        Ok(layout) => is_linked(&layout),
        Err(Flaw::Reported) => true,
        Err(Flaw::Fatal) => false,
    }
}

} // verus!
