//! Which programs hang together.

use vstd::prelude::*;
use crate::format::LayoutView;
use crate::links::{bound_field, bound_name, names_upwards, own_names, sound};
use crate::scan_types::RecordView;
use crate::written::stands_at;
use crate::written_image::{law_program_is_laid_out_as_written, ProgramText};

verus! {

/// How many fields an object of the `i`-th type has, where every class comes behind the one that it
/// extends.
pub open spec fn field_count(types: Seq<Option<RecordView>>, i: int) -> int
    decreases i,
{
    if i < 0 {
        0
    } else {
        match types[i] {
            None => 0,
            Some(record) => record.fields.len() as int / 2 + if 0 <= record.parent < i {
                field_count(types, record.parent as int)
            } else {
                0
            },
        }
    }
}

/// The number is one of those that the functions of the program can have.
pub open spec fn given_out(l: LayoutView, findex: i32) -> bool {
    0 <= findex < l.functions.len() + l.natives.len() as int / 4
}

/// The name is the place of a text in the pool.
pub open spec fn is_text(l: LayoutView, name: i32) -> bool {
    0 <= name < l.texts
}

/// All that a class refers to is there, and it comes behind the class that it extends.
pub open spec fn class_in_order(l: LayoutView, i: int) -> bool {
    l.types[i] matches Some(record) ==> {
        &&& record.whole()
        &&& record.parent < i
        &&& forall|k: int|
            0 <= k < record.fields.len() as int / 2 ==> is_text(l, #[trigger] record.fields[2 * k])
        &&& forall|k: int|
            0 <= k < record.protos.len() as int / 3 ==> is_text(l, #[trigger] record.protos[3 * k])
        &&& forall|k: int|
            0 <= k < record.protos.len() as int / 3 ==> given_out(
                l,
                #[trigger] record.protos[3 * k + 1],
            )
        &&& forall|k: int|
            0 <= k < record.bindings.len() as int / 2 ==> 0 <= #[trigger] record.bindings[2 * k]
                < field_count(l.types, i)
        &&& forall|k: int|
            0 <= k < record.bindings.len() as int / 2 ==> given_out(
                l,
                #[trigger] record.bindings[2 * k + 1],
            )
    }
}

/// The program is in order: it has functions and texts, the functions have numbers that are given out,
/// and all that its classes refer to is there.
pub open spec fn in_order(l: LayoutView) -> bool {
    &&& l.texts > 0
    &&& l.functions.len() > 0
    &&& given_out(l, l.entry)
    &&& forall|i: int| 0 <= i < l.functions.len() ==> given_out(l, #[trigger] l.functions[i])
    &&& forall|i: int|
        0 <= i < l.natives.len() as int / 4 ==> given_out(l, #[trigger] l.natives[4 * i + 3])
    &&& forall|i: int| 0 <= i < l.types.len() ==> #[trigger] class_in_order(l, i)
}

/// The names of the fields of a class that is in order.
proof fn lemma_names(l: LayoutView, i: int, limit: nat)
    requires
        in_order(l),
        0 <= i < l.types.len(),
        i <= limit,
    ensures
        ({
            let names = names_upwards(l.types, i, limit);
            &&& names is Some
            &&& names->0.len() == field_count(l.types, i)
            &&& forall|k: int| 0 <= k < names->0.len() ==> is_text(l, #[trigger] names->0[k])
        }),
    decreases i,
{
    assert(class_in_order(l, i));
    if let Some(record) = l.types[i] {
        let own = own_names(record);
        let n = record.fields.len() as int;
        assert forall|k: int| 0 <= k < own.len() implies is_text(l, #[trigger] own[k]) by {
            let j = n / 2 - 1 - k;
            assert(own[k] == record.fields[2 * j]);
        }
        if record.parent >= 0 {
            lemma_names(l, record.parent as int, (limit - 1) as nat);
            let above = names_upwards(l.types, record.parent as int, (limit - 1) as nat)->0;
            let all = own + above;
            assert forall|k: int| 0 <= k < all.len() implies is_text(l, #[trigger] all[k]) by {
                if k < own.len() {
                    assert(all[k] == own[k]);
                } else {
                    assert(all[k] == above[k - own.len()]);
                }
            }
        }
    }
}

/// A name that a method gives is a text.
proof fn lemma_proto_name(l: LayoutView, i: int, x: int, n: nat)
    requires
        in_order(l),
        0 <= i < l.types.len(),
        l.types[i] matches Some(record) && n <= record.protos.len() / 3,
    ensures
        l.proto_name(l.types[i]->0, x, n) matches Some(name) ==> is_text(l, name),
    decreases n,
{
    assert(class_in_order(l, i));
    if n > 0 {
        lemma_proto_name(l, i, x, (n - 1) as nat);
        let record = l.types[i]->0;
        let k = n - 1;
        assert(is_text(l, record.protos[3 * k]));
    }
}

/// Every function ends up with a name that is a text.
proof fn lemma_name_found(l: LayoutView, x: int, n: nat)
    requires
        in_order(l),
        n <= l.types.len(),
    ensures
        l.name_found(x, n),
    decreases n,
{
    if n > 0 {
        let i = n - 1;
        lemma_name_found(l, x, i as nat);
        assert(class_in_order(l, i));
        lemma_names(l, i, l.types.len());
        if let Some(record) = l.types[i] {
            lemma_proto_name(l, i, x, record.protos.len() / 3);
            let names = names_upwards(l.types, i, l.types.len())->0;
            assert forall|k: int| #[trigger] l.binds(record, x, k) implies l.in_pool(
                bound_name(record, names, k),
            ) by {
                assert(0 <= record.bindings[2 * k] < names.len());
                assert(is_text(l, names[names.len() - 1 - bound_field(record, k)]));
            }
        }
    }
}

/// A program that is in order hangs together.
pub proof fn law_program_in_order_hangs_together(l: LayoutView)
    requires
        in_order(l),
    ensures
        l.linked(),
{
    assert forall|i: int| 0 <= i < l.functions.len() implies l.numbered(
        #[trigger] l.functions[i],
    ) by {
        assert(given_out(l, l.functions[i]));
    }
    assert forall|i: int| 0 <= i < l.native_count() implies l.numbered(
        #[trigger] l.native_number(i),
    ) by {
        assert(given_out(l, l.natives[4 * i + 3]));
    }
    assert forall|i: int| 0 <= i < l.types.len() implies #[trigger] l.type_linked(i) by {
        assert(class_in_order(l, i));
        lemma_names(l, i, l.types.len());
        if let Some(record) = l.types[i] {
            let names = names_upwards(l.types, i, l.types.len())->0;
            assert forall|k: int| 0 <= k < record.protos.len() / 3 implies #[trigger] l.proto_linked(
                record,
                k,
            ) by {
                assert(given_out(l, record.protos[3 * k + 1]));
            }
            assert forall|k: int|
                0 <= k < record.bindings.len() / 2 implies #[trigger] l.binding_linked(
                record,
                names,
                k,
            ) by {
                assert(given_out(l, record.bindings[2 * k + 1]));
                assert(0 <= record.bindings[2 * k] < field_count(l.types, i));
            }
        }
    }
    assert forall|x: int| 0 <= x < l.functions.len() implies #[trigger] l.name_found(
        x,
        l.types.len(),
    ) by {
        lemma_name_found(l, x, l.types.len());
    }
}

/// The bytes of a program that is in order are sound, however large the program is and whatever comes
/// behind it: they are handed to the reader.
pub proof fn law_bytes_of_a_program_in_order_are_sound(image: Seq<u8>, p: ProgramText)
    requires
        p.writes(),
        in_order(p.layout()),
        stands_at(image, 0, p.bytes()),
    ensures
        sound(image),
{
    law_program_is_laid_out_as_written(image, p);
    law_program_in_order_hangs_together(p.layout());
}

/// A program that hangs together has what the reader takes for granted: the numbers of its functions,
/// of its natives and of the function that it starts with are given out, every class extends one that
/// is there, and every method is a function that is there.
pub proof fn law_program_that_hangs_together_refers_to_what_is_there(l: LayoutView)
    requires
        l.linked(),
    ensures
        given_out(l, l.entry),
        forall|i: int| 0 <= i < l.functions.len() ==> given_out(l, #[trigger] l.functions[i]),
        forall|i: int|
            0 <= i < l.natives.len() as int / 4 ==> given_out(l, #[trigger] l.natives[4 * i + 3]),
        l.functions.len() > 0 && l.types.len() == 0 ==> l.texts > 0,
        forall|i: int|
            0 <= i < l.types.len() && (#[trigger] l.types[i]) is Some ==> {
                let record = l.types[i]->0;
                &&& record.parent < l.types.len()
                &&& record.parent != i
                &&& forall|k: int|
                    0 <= k < record.protos.len() / 3 ==> given_out(
                        l,
                        #[trigger] record.protos[3 * k + 1],
                    )
            },
{
    assert forall|i: int| 0 <= i < l.functions.len() implies given_out(
        l,
        #[trigger] l.functions[i],
    ) by {
        assert(l.numbered(l.functions[i]));
    }
    assert forall|i: int| 0 <= i < l.natives.len() as int / 4 implies given_out(
        l,
        #[trigger] l.natives[4 * i + 3],
    ) by {
        assert(l.numbered(l.native_number(i)));
    }
    if l.functions.len() > 0 && l.types.len() == 0 {
        assert(l.name_found(0, 0));
    }
    assert forall|i: int| 0 <= i < l.types.len() && (#[trigger] l.types[i]) is Some implies {
        let record = l.types[i]->0;
        &&& record.parent < l.types.len()
        &&& record.parent != i
        &&& forall|k: int|
            0 <= k < record.protos.len() / 3 ==> given_out(l, #[trigger] record.protos[3 * k + 1])
    } by {
        let record = l.types[i]->0;
        assert(l.type_linked(i));
        if record.parent == i {
            lemma_own_parent(l.types, i, l.types.len());
        }
        assert forall|k: int| 0 <= k < record.protos.len() / 3 implies given_out(
            l,
            #[trigger] record.protos[3 * k + 1],
        ) by {
            assert(l.proto_linked(record, k));
        }
    }
}

/// A class that extends itself has no end of fields.
proof fn lemma_own_parent(types: Seq<Option<RecordView>>, i: int, limit: nat)
    requires
        0 <= i < types.len(),
        types[i] matches Some(record) && record.parent == i,
    ensures
        names_upwards(types, i, limit) is None,
    decreases limit,
{
    if limit > 0 {
        lemma_own_parent(types, i, (limit - 1) as nat);
    }
}

/// A binding of a program that hangs together is that of a field that objects of its class have and of
/// a function that is there, unless a later binding of the same field takes its place.
pub proof fn law_bindings_refer_to_what_is_there(l: LayoutView, i: int, k: int)
    requires
        l.linked(),
        0 <= i < l.types.len(),
        l.types[i] is Some,
        0 <= k < (l.types[i]->0).bindings.len() / 2,
        forall|j: int|
            k < j < (l.types[i]->0).bindings.len() / 2 ==> (#[trigger] (
            l.types[i]->0).bindings[2 * j]) != (l.types[i]->0).bindings[2 * k],
    ensures
        ({
            let record = l.types[i]->0;
            let names = names_upwards(l.types, i, l.types.len());
            &&& names is Some
            &&& 0 <= record.bindings[2 * k] < names->0.len()
            &&& given_out(l, record.bindings[2 * k + 1])
        }),
{
    let record = l.types[i]->0;
    assert(l.type_linked(i));
    let names = names_upwards(l.types, i, l.types.len())->0;
    assert(l.binding_linked(record, names, k));
    if l.overridden(record, k) {
        let j = choose|j: int|
            k < j < record.bindings.len() / 2 && #[trigger] bound_field(record, j) == bound_field(
                record,
                k,
            );
        assert(record.bindings[2 * j] == record.bindings[2 * k]);
    }
}

} // verus!
