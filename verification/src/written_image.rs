//! How types and whole programs are written as bytes, and that a program is laid out in its bytes as it
//! was written.

use vstd::prelude::*;
use hlbc::types::{EnumConstruct, ObjField, ObjProto, RefType, Type, TypeFun};
use crate::format::{
    all_constants, code_part, entries, file_names, has_header, layout, pools, raw_bytes, size_count,
    sizes_of, LayoutView, SizesView,
};
use crate::module::{ClassView, TypeView};
use crate::scan::{number, run, Flaw};
use crate::scan_types::{
    class, constructs, enumeration, one_type, signature, types_at, RecordView,
};
use crate::written::{
    all_write, law_block_is_passed_as_written, law_field_list_is_passed_as_written,
    law_numbers_are_read_as_written, law_texts_are_passed_as_written, lemma_byte, lemma_number,
    lemma_stands, none_below_zero, pair_list_bytes, pairs, pool_bytes, size_bytes, stands_at, texts_write, writes,
    written, written_all,
};
use crate::written_code::{
    constant_writes, constants_bytes, function_numbers, functions_bytes,
    law_constants_are_passed_as_written, law_functions_are_read_as_written, FunctionText,
};

verus! {

/// The numbers of types.
pub open spec fn type_numbers(list: Seq<RefType>) -> Seq<i32> {
    Seq::new(list.len(), |i: int| list[i].0 as i32)
}

/// The name and the type of each field.
pub open spec fn field_pairs(list: Seq<ObjField>) -> Seq<(i32, i32)> {
    Seq::new(list.len(), |i: int| (list[i].name.0 as i32, list[i].t.0 as i32))
}

/// The name, the function and the slot of each method.
pub open spec fn proto_numbers(list: Seq<ObjProto>) -> Seq<i32> {
    Seq::new(
        3 * list.len(),
        |i: int|
            if i % 3 == 0 {
                list[i / 3].name.0 as i32
            } else if i % 3 == 1 {
                list[i / 3].findex.0 as i32
            } else {
                list[i / 3].pindex
            },
    )
}

/// The class that a class extends, or a negative number.
pub open spec fn parent_number(c: ClassView) -> i32 {
    match c.super_ {
        Some(parent) => parent.0 as i32,
        None => (-1) as i32,
    }
}

/// A class as bytes. Its bindings come in the order `bindings`.
pub open spec fn class_bytes(c: ClassView, bindings: Seq<(i32, i32)>) -> Seq<u8> {
    written_all(class_head(c)) + (written_all(class_sizes(c, bindings)) + (written_all(
        pairs(field_pairs(c.own_fields)),
    ) + (written_all(proto_numbers(c.protos)) + written_all(pairs(bindings)))))
}

/// What a class begins with.
pub open spec fn class_head(c: ClassView) -> Seq<i32> {
    seq![c.name.0 as i32, parent_number(c), c.global.0 as i32]
}

/// The sizes of the lists of a class.
pub open spec fn class_sizes(c: ClassView, bindings: Seq<(i32, i32)>) -> Seq<i32> {
    seq![c.own_fields.len() as i32, c.protos.len() as i32, bindings.len() as i32]
}

/// The format can hold a class.
pub open spec fn class_writes(c: ClassView, bindings: Seq<(i32, i32)>) -> bool {
    &&& all_write(class_head(c))
    &&& c.own_fields.len() < 0x2000_0000 && c.protos.len() < 0x2000_0000 && bindings.len()
        < 0x2000_0000
    &&& all_write(pairs(field_pairs(c.own_fields)))
    &&& all_write(proto_numbers(c.protos))
    &&& all_write(pairs(bindings))
}

/// What a class refers to.
pub open spec fn class_record(c: ClassView, bindings: Seq<(i32, i32)>) -> RecordView {
    RecordView {
        parent: parent_number(c),
        fields: pairs(field_pairs(c.own_fields)),
        protos: proto_numbers(c.protos),
        bindings: pairs(bindings),
    }
}

/// What a class refers to is read as it was written.
pub proof fn law_class_is_read_as_written(
    image: Seq<u8>,
    at: int,
    c: ClassView,
    bindings: Seq<(i32, i32)>,
)
    requires
        class_writes(c, bindings),
        stands_at(image, at, class_bytes(c, bindings)),
    ensures
        class(image, at) == Ok::<(RecordView, int), Flaw>(
            (class_record(c, bindings), at + class_bytes(c, bindings).len()),
        ),
{
    let head = class_head(c);
    let sizes = class_sizes(c, bindings);
    let fields = pairs(field_pairs(c.own_fields));
    let protos = proto_numbers(c.protos);
    let bound = pairs(bindings);
    let d4 = written_all(protos) + written_all(bound);
    let d3 = written_all(fields) + d4;
    let d2 = written_all(sizes) + d3;
    lemma_stands(image, at, written_all(head), d2);
    law_numbers_are_read_as_written(image, at, head);
    let a = at + written_all(head).len();
    lemma_stands(image, a, written_all(sizes), d3);
    law_numbers_are_read_as_written(image, a, sizes);
    let b = a + written_all(sizes).len();
    lemma_stands(image, b, written_all(fields), d4);
    law_numbers_are_read_as_written(image, b, fields);
    let d = b + written_all(fields).len();
    lemma_stands(image, d, written_all(protos), written_all(bound));
    law_numbers_are_read_as_written(image, d, protos);
    law_numbers_are_read_as_written(image, d + written_all(protos).len(), bound);
}

/// The signature of a function as bytes.
pub open spec fn signature_bytes(fun: TypeFun) -> Seq<u8> {
    seq![fun.args@.len() as u8] + written_all(type_numbers(fun.args@).push(fun.ret.0 as i32))
}

/// The format can hold a signature.
pub open spec fn signature_writes(fun: TypeFun) -> bool {
    fun.args@.len() < 0x100 && all_write(type_numbers(fun.args@).push(fun.ret.0 as i32))
}

/// A construct of an enumeration as bytes.
pub open spec fn construct_bytes(c: EnumConstruct) -> Seq<u8> {
    written(c.name.0 as i32) + (written(c.params@.len() as i32) + written_all(
        type_numbers(c.params@),
    ))
}

/// The constructs of an enumeration as bytes.
pub open spec fn constructs_bytes(list: Seq<EnumConstruct>) -> Seq<u8>
    decreases list.len(),
{
    if list.len() == 0 {
        Seq::empty()
    } else {
        construct_bytes(list[0]) + constructs_bytes(list.drop_first())
    }
}

/// The format can hold a construct.
pub open spec fn construct_writes(c: EnumConstruct) -> bool {
    &&& writes(c.name.0 as i32)
    &&& c.params@.len() < 0x2000_0000
    &&& all_write(type_numbers(c.params@))
}

/// The constructs of an enumeration are passed as a whole.
proof fn lemma_constructs(image: Seq<u8>, at: int, list: Seq<EnumConstruct>)
    requires
        forall|i: int| 0 <= i < list.len() ==> construct_writes(#[trigger] list[i]),
        stands_at(image, at, constructs_bytes(list)),
    ensures
        constructs(image, at, list.len() as int) == Ok::<int, Flaw>(
            at + constructs_bytes(list).len(),
        ),
        constructs_bytes(list).len() >= list.len(),
    decreases list.len(),
{
    if list.len() > 0 {
        let rest = list.drop_first();
        let c = list[0];
        let name = c.name.0 as i32;
        let n = c.params@.len() as i32;
        let params = type_numbers(c.params@);
        lemma_stands(image, at, construct_bytes(c), constructs_bytes(rest));
        lemma_stands(image, at, written(name), written(n) + written_all(params));
        lemma_number(image, at, name);
        let a = at + written(name).len();
        lemma_stands(image, a, written(n), written_all(params));
        lemma_number(image, a, n);
        law_numbers_are_read_as_written(image, a + written(n).len(), params);
        assert forall|i: int| 0 <= i < rest.len() implies construct_writes(#[trigger] rest[i]) by {
            assert(rest[i] == list[i + 1]);
        }
        lemma_constructs(image, at + construct_bytes(c).len(), rest);
    }
}

/// The number of a kind of type.
pub open spec fn kind_number(t: TypeView) -> u8 {
    match t {
        TypeView::Class(_) => 11,
        TypeView::Struct(_) => 21,
        TypeView::Other(other) => match other {
            Type::Void => 0,
            Type::UI8 => 1,
            Type::UI16 => 2,
            Type::I32 => 3,
            Type::I64 => 4,
            Type::F32 => 5,
            Type::F64 => 6,
            Type::Bool => 7,
            Type::Bytes => 8,
            Type::Dyn => 9,
            Type::Fun(_) => 10,
            Type::Obj(_) => 11,
            Type::Array => 12,
            Type::Type => 13,
            Type::Ref(_) => 14,
            Type::Virtual { .. } => 15,
            Type::DynObj => 16,
            Type::Abstract { .. } => 17,
            Type::Enum { .. } => 18,
            Type::Null(_) => 19,
            Type::Method(_) => 20,
            Type::Struct(_) => 21,
            Type::Packed(_) => 22,
        },
    }
}

/// What follows the number of the kind of a type, as bytes. The bindings of a class come in the order
/// `bindings`.
pub open spec fn kind_bytes(t: TypeView, bindings: Seq<(i32, i32)>) -> Seq<u8> {
    match t {
        TypeView::Class(c) => class_bytes(c, bindings),
        TypeView::Struct(c) => class_bytes(c, bindings),
        TypeView::Other(other) => match other {
            Type::Fun(fun) | Type::Method(fun) => signature_bytes(fun),
            Type::Ref(inner) | Type::Null(inner) | Type::Packed(inner) => written(inner.0 as i32),
            Type::Abstract { name } => written(name.0 as i32),
            Type::Virtual { fields } => pair_list_bytes(field_pairs(fields@)),
            Type::Enum { name, global, constructs } => written_all(
                seq![name.0 as i32, global.0 as i32],
            ) + (written(constructs@.len() as i32) + constructs_bytes(constructs@)),
            _ => Seq::empty(),
        },
    }
}

/// The format can hold a type.
pub open spec fn type_writes(t: TypeView, bindings: Seq<(i32, i32)>) -> bool {
    match t {
        TypeView::Class(c) => class_writes(c, bindings),
        TypeView::Struct(c) => class_writes(c, bindings),
        TypeView::Other(other) => match other {
            Type::Obj(_) | Type::Struct(_) => false,
            Type::Fun(fun) | Type::Method(fun) => signature_writes(fun),
            Type::Ref(inner) | Type::Null(inner) | Type::Packed(inner) => writes(inner.0 as i32),
            Type::Abstract { name } => writes(name.0 as i32),
            Type::Virtual { fields } => fields@.len() < 0x2000_0000 && all_write(
                pairs(field_pairs(fields@)),
            ),
            Type::Enum { name, global, constructs } => {
                &&& writes(name.0 as i32) && writes(global.0 as i32)
                &&& constructs@.len() < 0x2000_0000
                &&& forall|i: int|
                    0 <= i < constructs@.len() ==> construct_writes(#[trigger] constructs@[i])
            },
            _ => true,
        },
    }
}

/// What a type refers to, where it is a class.
pub open spec fn type_record(t: TypeView, bindings: Seq<(i32, i32)>) -> Option<RecordView> {
    match t {
        TypeView::Class(c) => Some(class_record(c, bindings)),
        TypeView::Struct(c) => Some(class_record(c, bindings)),
        TypeView::Other(_) => None,
    }
}

/// A type as bytes.
pub open spec fn type_bytes(t: TypeView, bindings: Seq<(i32, i32)>) -> Seq<u8> {
    seq![kind_number(t)] + kind_bytes(t, bindings)
}

/// What a type refers to is read as it was written, and the type is passed as a whole, whichever it is.
pub proof fn law_type_is_read_as_written(
    image: Seq<u8>,
    at: int,
    t: TypeView,
    bindings: Seq<(i32, i32)>,
)
    requires
        type_writes(t, bindings),
        stands_at(image, at, type_bytes(t, bindings)),
    ensures
        one_type(image, at) == Ok::<(Option<RecordView>, int), Flaw>(
            (type_record(t, bindings), at + type_bytes(t, bindings).len()),
        ),
        type_bytes(t, bindings).len() >= 1,
{
    let head = seq![kind_number(t)];
    lemma_stands(image, at, head, kind_bytes(t, bindings));
    lemma_byte(image, at, head, 0);
    let a = at + 1;
    match t {
        TypeView::Class(c) => {
            law_class_is_read_as_written(image, a, c, bindings);
        },
        TypeView::Struct(c) => {
            law_class_is_read_as_written(image, a, c, bindings);
        },
        TypeView::Other(other) => match other {
            Type::Fun(fun) | Type::Method(fun) => {
                lemma_signature(image, a, fun);
            },
            Type::Ref(inner) | Type::Null(inner) | Type::Packed(inner) => {
                lemma_number(image, a, inner.0 as i32);
            },
            Type::Abstract { name } => {
                lemma_number(image, a, name.0 as i32);
            },
            Type::Virtual { fields } => {
                law_field_list_is_passed_as_written(image, a, field_pairs(fields@));
            },
            Type::Enum { name, global, constructs } => {
                let first = seq![name.0 as i32, global.0 as i32];
                let n = constructs@.len() as i32;
                let all = constructs_bytes(constructs@);
                lemma_stands(image, a, written_all(first), written(n) + all);
                law_numbers_are_read_as_written(image, a, first);
                let b = a + written_all(first).len();
                lemma_stands(image, b, written(n), all);
                lemma_number(image, b, n);
                lemma_constructs(image, b + written(n).len(), constructs@);
                assert(enumeration(image, a) == Ok::<int, Flaw>(
                    a + kind_bytes(t, bindings).len(),
                ));
            },
            _ => {},
        },
    }
}

/// A signature is passed as a whole.
proof fn lemma_signature(image: Seq<u8>, at: int, fun: TypeFun)
    requires
        signature_writes(fun),
        stands_at(image, at, signature_bytes(fun)),
    ensures
        signature(image, at) == Ok::<int, Flaw>(at + signature_bytes(fun).len()),
{
    let count = seq![fun.args@.len() as u8];
    let list = type_numbers(fun.args@).push(fun.ret.0 as i32);
    lemma_stands(image, at, count, written_all(list));
    lemma_byte(image, at, count, 0);
    law_numbers_are_read_as_written(image, at + 1, list);
}

/// A type and the order of its bindings, if it has any.
pub struct TypeText {
    pub t: TypeView,
    pub bindings: Seq<(i32, i32)>,
}

/// Types as bytes.
pub open spec fn types_bytes(list: Seq<TypeText>) -> Seq<u8>
    decreases list.len(),
{
    if list.len() == 0 {
        Seq::empty()
    } else {
        type_bytes(list[0].t, list[0].bindings) + types_bytes(list.drop_first())
    }
}

/// What types refer to.
pub open spec fn type_records(list: Seq<TypeText>) -> Seq<Option<RecordView>> {
    Seq::new(list.len(), |i: int| type_record(list[i].t, list[i].bindings))
}

/// The format can hold types.
pub open spec fn types_write(list: Seq<TypeText>) -> bool {
    forall|i: int|
        0 <= i < list.len() ==> type_writes((#[trigger] list[i]).t, list[i].bindings)
}

/// What types refer to is read as it was written, behind those that were read before.
pub proof fn law_types_are_read_as_written(
    image: Seq<u8>,
    at: int,
    list: Seq<TypeText>,
    got: Seq<Option<RecordView>>,
)
    requires
        types_write(list),
        stands_at(image, at, types_bytes(list)),
    ensures
        types_at(image, at, list.len() as int, got) == Ok::<(Seq<Option<RecordView>>, int), Flaw>(
            (got + type_records(list), at + types_bytes(list).len()),
        ),
        types_bytes(list).len() >= list.len(),
    decreases list.len(),
{
    if list.len() == 0 {
        assert(got + type_records(list) =~= got);
    } else {
        let rest = list.drop_first();
        let first = list[0];
        let bytes = type_bytes(first.t, first.bindings);
        let record = type_record(first.t, first.bindings);
        lemma_stands(image, at, bytes, types_bytes(rest));
        law_type_is_read_as_written(image, at, first.t, first.bindings);
        assert(types_write(rest)) by {
            assert forall|i: int| 0 <= i < rest.len() implies type_writes(
                (#[trigger] rest[i]).t,
                rest[i].bindings,
            ) by {
                assert(rest[i] == list[i + 1]);
            }
        }
        law_types_are_read_as_written(image, at + bytes.len(), rest, got.push(record));
        assert(got.push(record) + type_records(rest) =~= got + type_records(list));
    }
}

/// A program, as far as it is written.
pub struct ProgramText {
    pub version: u8,
    /// The lowest bit of these says whether there is something for debugging.
    pub flags: i32,
    /// The function that it starts with.
    pub entry: i32,
    /// The integer pool: four bytes for each.
    pub ints: Seq<u8>,
    /// The float pool: eight bytes for each.
    pub floats: Seq<u8>,
    pub texts: Seq<Seq<u8>>,
    /// The pool of raw bytes, and where its entries begin.
    pub raw: (Seq<u8>, Seq<i32>),
    /// The names of the source files, where there is something for debugging.
    pub files: Option<Seq<Seq<u8>>>,
    pub types: Seq<TypeText>,
    pub globals: Seq<i32>,
    /// The library, the name, the type and the number of each function that the runtime supplies.
    pub natives: Seq<i32>,
    pub functions: Seq<FunctionText>,
    pub constants: Seq<(i32, Seq<i32>)>,
}

impl ProgramText {
    /// The format can hold the program.
    pub open spec fn writes(self) -> bool {
        &&& writes(self.entry)
        &&& 0 <= self.flags && writes(self.flags)
        &&& self.flags % 2 == 1 <==> self.files is Some
        &&& self.ints.len() % 4 == 0 && self.ints.len() < 4 * 0x2000_0000
        &&& self.floats.len() % 8 == 0 && self.floats.len() < 8 * 0x2000_0000
        &&& texts_write(self.texts) && self.texts.len() < 0x2000_0000
        &&& self.raw.0.len() < 0x8000_0000 && self.raw.1.len() < 0x2000_0000
        &&& all_write(self.raw.1) && none_below_zero(self.raw.1)
        &&& self.files matches Some(files) ==> texts_write(files) && files.len() < 0x2000_0000
        &&& types_write(self.types) && self.types.len() < 0x2000_0000
        &&& all_write(self.globals) && self.globals.len() < 0x2000_0000
        &&& all_write(self.natives) && self.natives.len() % 4 == 0 && self.natives.len() < 4
            * 0x2000_0000
        &&& self.functions.len() < 0x2000_0000
        &&& forall|i: int|
            0 <= i < self.functions.len() ==> (#[trigger] self.functions[i]).writes(
                self.files is Some,
            )
        &&& self.constants.len() < 0x2000_0000
        &&& forall|i: int|
            0 <= i < self.constants.len() ==> constant_writes(#[trigger] self.constants[i])
    }

    /// The sizes that come first. There are raw bytes from the fifth version of the format on, and
    /// constants from the fourth on.
    #[verifier::opaque]
    pub open spec fn sizes(self) -> Seq<i32> {
        seq![
            self.flags,
            (self.ints.len() / 4) as i32,
            (self.floats.len() / 8) as i32,
            self.texts.len() as i32,
        ] + (if self.version >= 5 {
            seq![self.raw.1.len() as i32]
        } else {
            Seq::empty()
        }) + seq![
            self.types.len() as i32,
            self.globals.len() as i32,
            (self.natives.len() / 4) as i32,
            self.functions.len() as i32,
        ] + (if self.version >= 4 {
            seq![self.constants.len() as i32]
        } else {
            Seq::empty()
        })
    }

    /// The pool of raw bytes as it is written.
    pub open spec fn raw_part(self) -> Seq<u8> {
        if self.version >= 5 {
            size_bytes(self.raw.0.len() as int) + self.raw.0 + written_all(self.raw.1)
        } else {
            Seq::empty()
        }
    }

    /// The names of the source files as they are written.
    pub open spec fn file_part(self) -> Seq<u8> {
        match self.files {
            Some(files) => written(files.len() as i32) + pool_bytes(files),
            None => Seq::empty(),
        }
    }

    /// The pools as they are written.
    #[verifier::opaque]
    pub open spec fn pool_part(self) -> Seq<u8> {
        self.ints + (self.floats + (pool_bytes(self.texts) + (self.raw_part() + self.file_part())))
    }

    /// The constants as they are written.
    pub open spec fn constant_part(self) -> Seq<u8> {
        if self.version >= 4 {
            constants_bytes(self.constants)
        } else {
            Seq::empty()
        }
    }

    /// What comes behind the pools, as it is written.
    #[verifier::opaque]
    pub open spec fn rest_part(self) -> Seq<u8> {
        types_bytes(self.types) + (written_all(self.globals) + (written_all(self.natives) + (
        functions_bytes(self.functions, self.files is Some, self.version)
            + self.constant_part())))
    }

    /// The program as bytes.
    pub open spec fn bytes(self) -> Seq<u8> {
        seq![0x48u8, 0x4Cu8, 0x42u8, self.version] + (written_all(self.sizes()) + (written(
            self.entry,
        ) + (self.pool_part() + self.rest_part())))
    }

    /// What there is in the program that something can refer to.
    pub open spec fn layout(self) -> LayoutView {
        LayoutView {
            texts: self.texts.len() as i32,
            types: type_records(self.types),
            natives: self.natives,
            functions: function_numbers(self.functions),
            entry: self.entry,
        }
    }

    /// The sizes of the program.
    spec fn sizes_view(self) -> SizesView {
        SizesView {
            debug: self.files is Some,
            ints: (self.ints.len() / 4) as i32,
            floats: (self.floats.len() / 8) as i32,
            texts: self.texts.len() as i32,
            bytes: if self.version >= 5 {
                Some(self.raw.1.len() as i32)
            } else {
                None
            },
            types: self.types.len() as i32,
            globals: self.globals.len() as i32,
            natives: (self.natives.len() / 4) as i32,
            functions: self.functions.len() as i32,
            constants: if self.version >= 4 {
                Some(self.constants.len() as i32)
            } else {
                None
            },
        }
    }
}

/// The pools are passed as a whole.
proof fn lemma_pools(image: Seq<u8>, at: int, p: ProgramText)
    requires
        p.writes(),
        stands_at(image, at, p.pool_part()),
    ensures
        pools(image, at, p.sizes_view()) == Ok::<int, Flaw>(at + p.pool_part().len()),
{
    reveal(ProgramText::pool_part);
    let d4 = p.raw_part() + p.file_part();
    let d3 = pool_bytes(p.texts) + d4;
    let d2 = p.floats + d3;
    lemma_stands(image, at, p.ints, d2);
    let a = at + p.ints.len();
    lemma_stands(image, a, p.floats, d3);
    let b = a + p.floats.len();
    lemma_stands(image, b, pool_bytes(p.texts), d4);
    law_texts_are_passed_as_written(image, b, p.texts);
    let c = b + pool_bytes(p.texts).len();
    lemma_stands(image, c, p.raw_part(), p.file_part());
    assert(entries(image, at, p.sizes_view().ints as int, 4) == Ok::<int, Flaw>(a));
    assert(entries(image, a, p.sizes_view().floats as int, 8) == Ok::<int, Flaw>(b));
    lemma_raw(image, c, p);
    lemma_files(image, c + p.raw_part().len(), p);
}

/// The pool of raw bytes is passed as a whole.
proof fn lemma_raw(image: Seq<u8>, at: int, p: ProgramText)
    requires
        p.writes(),
        stands_at(image, at, p.raw_part()),
    ensures
        raw_bytes(image, at, p.sizes_view().bytes) == Ok::<int, Flaw>(at + p.raw_part().len()),
{
    if p.version >= 5 {
        let head = size_bytes(p.raw.0.len() as int) + p.raw.0;
        lemma_stands(image, at, head, written_all(p.raw.1));
        law_block_is_passed_as_written(image, at, p.raw.0);
        law_numbers_are_read_as_written(image, at + head.len(), p.raw.1);
        assert(head.len() == 4 + p.raw.0.len());
    }
}

/// The names of the source files are passed as a whole.
proof fn lemma_files(image: Seq<u8>, at: int, p: ProgramText)
    requires
        p.writes(),
        stands_at(image, at, p.file_part()),
    ensures
        file_names(image, at, p.sizes_view().debug) == Ok::<int, Flaw>(at + p.file_part().len()),
{
    if let Some(files) = p.files {
        let n = files.len() as i32;
        lemma_stands(image, at, written(n), pool_bytes(files));
        lemma_number(image, at, n);
        law_texts_are_passed_as_written(image, at + written(n).len(), files);
    }
}

/// What comes behind the pools is read as it was written.
proof fn lemma_rest(image: Seq<u8>, at: int, p: ProgramText)
    requires
        p.writes(),
        stands_at(image, at, p.rest_part()),
    ensures
        code_part(image, at, p.sizes_view(), p.version, p.entry) == Ok::<LayoutView, Flaw>(
            p.layout(),
        ),
{
    reveal(ProgramText::rest_part);
    let debug = p.files is Some;
    let all = functions_bytes(p.functions, debug, p.version);
    let d3 = all + p.constant_part();
    let d2 = written_all(p.natives) + d3;
    let d1 = written_all(p.globals) + d2;
    lemma_stands(image, at, types_bytes(p.types), d1);
    law_types_are_read_as_written(image, at, p.types, Seq::empty());
    assert(Seq::<Option<RecordView>>::empty() + type_records(p.types) =~= type_records(p.types));
    let a = at + types_bytes(p.types).len();
    lemma_stands(image, a, written_all(p.globals), d2);
    law_numbers_are_read_as_written(image, a, p.globals);
    let b = a + written_all(p.globals).len();
    lemma_stands(image, b, written_all(p.natives), d3);
    law_numbers_are_read_as_written(image, b, p.natives);
    assert(4 * p.sizes_view().natives == p.natives.len());
    let c = b + written_all(p.natives).len();
    lemma_stands(image, c, all, p.constant_part());
    law_functions_are_read_as_written(image, c, p.functions, debug, p.version, Seq::empty());
    assert(Seq::<i32>::empty() + function_numbers(p.functions) =~= function_numbers(p.functions));
    let d = c + all.len();
    if p.version >= 4 {
        law_constants_are_passed_as_written(image, d, p.constants);
    }
    assert(all_constants(image, d, p.sizes_view().constants) is Ok);
}

/// A program is laid out in its bytes as it was written, whatever comes behind them, however large it
/// is and whatever it holds.
pub proof fn law_program_is_laid_out_as_written(image: Seq<u8>, p: ProgramText)
    requires
        p.writes(),
        stands_at(image, 0, p.bytes()),
    ensures
        layout(image) == Ok::<LayoutView, Flaw>(p.layout()),
{
    lemma_sizes(p);
    let (a, b) = lemma_start(
        image,
        p.version,
        p.sizes(),
        p.entry,
        p.pool_part() + p.rest_part(),
    );
    lemma_stands(image, b, p.pool_part(), p.rest_part());
    lemma_pools(image, b, p);
    lemma_rest(image, b + p.pool_part().len(), p);
}

/// What a program begins with is read as it was written: the sizes end at the first position that is
/// returned, and the pools begin at the second.
proof fn lemma_start(
    image: Seq<u8>,
    version: u8,
    sizes: Seq<i32>,
    entry: i32,
    behind: Seq<u8>,
) -> (ends: (int, int))
    requires
        stands_at(
            image,
            0,
            seq![0x48u8, 0x4Cu8, 0x42u8, version] + (written_all(sizes) + (written(entry)
                + behind)),
        ),
        all_write(sizes),
        none_below_zero(sizes),
        writes(entry),
    ensures
        has_header(image),
        image[3] == version,
        run(image, 4, sizes.len() as int, true, Seq::empty()) == Ok::<(Seq<i32>, int), Flaw>(
            (sizes, ends.0),
        ),
        number(image, ends.0) == Ok::<(i32, int), Flaw>((entry, ends.1)),
        stands_at(image, ends.1, behind),
{
    let magic = seq![0x48u8, 0x4Cu8, 0x42u8, version];
    lemma_stands(image, 0, magic, written_all(sizes) + (written(entry) + behind));
    lemma_byte(image, 0, magic, 0);
    lemma_byte(image, 0, magic, 1);
    lemma_byte(image, 0, magic, 2);
    lemma_byte(image, 0, magic, 3);
    assert(image.take(3) =~= seq![0x48u8, 0x4Cu8, 0x42u8]);
    lemma_stands(image, 4, written_all(sizes), written(entry) + behind);
    law_numbers_are_read_as_written(image, 4, sizes);
    let a: int = 4 + written_all(sizes).len() as int;
    lemma_stands(image, a, written(entry), behind);
    lemma_number(image, a, entry);
    (a, a + written(entry).len())
}

/// The sizes of a program are taken for what they are.
proof fn lemma_sizes(p: ProgramText)
    requires
        p.writes(),
    ensures
        sizes_of(p.sizes(), p.version) == p.sizes_view(),
        p.sizes().len() == size_count(p.version),
        all_write(p.sizes()),
        none_below_zero(p.sizes()),
{
    reveal(ProgramText::sizes);
}

} // verus!
