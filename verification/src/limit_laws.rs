//! Which programs can be written.

use vstd::prelude::*;
use hlbc::opcodes::Opcode;
use hlbc::types::{ObjField, RefField, RefType, Reg, Type};
use crate::image::{clean, writable};
use crate::limits::{
    fits, function_fits, lines_fit, numbers_fit, offsets_fit, op_fits, regs_fit, run_length,
    type_fits,
};
use crate::module::{ClassView, Float, FunctionView, ModuleView, TypeView};

verus! {

/// The numbers of registers.
pub open spec fn register_numbers(regs: Seq<Reg>) -> Seq<int> {
    Seq::new(regs.len(), |i: int| regs[i].0 as int)
}

/// Numbers, as they are.
pub open spec fn whole_numbers(list: Seq<i32>) -> Seq<int> {
    Seq::new(list.len(), |i: int| list[i] as int)
}

/// All numbers of an instruction.
pub open spec fn op_numbers(op: Opcode) -> Seq<int> {
    match op {
        Opcode::Mov { dst, src } => seq![dst.0 as int, src.0 as int],
        Opcode::Int { dst, ptr } => seq![dst.0 as int, ptr.0 as int],
        Opcode::Float { dst, ptr } => seq![dst.0 as int, ptr.0 as int],
        Opcode::Bool { dst, .. } => seq![dst.0 as int],
        Opcode::Bytes { dst, ptr } => seq![dst.0 as int, ptr.0 as int],
        Opcode::String { dst, ptr } => seq![dst.0 as int, ptr.0 as int],
        Opcode::Null { dst } => seq![dst.0 as int],
        Opcode::Add { dst, a, b } => seq![dst.0 as int, a.0 as int, b.0 as int],
        Opcode::Sub { dst, a, b } => seq![dst.0 as int, a.0 as int, b.0 as int],
        Opcode::Mul { dst, a, b } => seq![dst.0 as int, a.0 as int, b.0 as int],
        Opcode::SDiv { dst, a, b } => seq![dst.0 as int, a.0 as int, b.0 as int],
        Opcode::UDiv { dst, a, b } => seq![dst.0 as int, a.0 as int, b.0 as int],
        Opcode::SMod { dst, a, b } => seq![dst.0 as int, a.0 as int, b.0 as int],
        Opcode::UMod { dst, a, b } => seq![dst.0 as int, a.0 as int, b.0 as int],
        Opcode::Shl { dst, a, b } => seq![dst.0 as int, a.0 as int, b.0 as int],
        Opcode::SShr { dst, a, b } => seq![dst.0 as int, a.0 as int, b.0 as int],
        Opcode::UShr { dst, a, b } => seq![dst.0 as int, a.0 as int, b.0 as int],
        Opcode::And { dst, a, b } => seq![dst.0 as int, a.0 as int, b.0 as int],
        Opcode::Or { dst, a, b } => seq![dst.0 as int, a.0 as int, b.0 as int],
        Opcode::Xor { dst, a, b } => seq![dst.0 as int, a.0 as int, b.0 as int],
        Opcode::Neg { dst, src } => seq![dst.0 as int, src.0 as int],
        Opcode::Not { dst, src } => seq![dst.0 as int, src.0 as int],
        Opcode::Incr { dst } => seq![dst.0 as int],
        Opcode::Decr { dst } => seq![dst.0 as int],
        Opcode::Call0 { dst, fun } => seq![dst.0 as int, fun.0 as int],
        Opcode::Call1 { dst, fun, arg0 } => seq![dst.0 as int, fun.0 as int, arg0.0 as int],
        Opcode::Call2 { dst, fun, arg0, arg1 } => seq![
            dst.0 as int,
            fun.0 as int,
            arg0.0 as int,
            arg1.0 as int,
        ],
        Opcode::Call3 { dst, fun, arg0, arg1, arg2 } => seq![
            dst.0 as int,
            fun.0 as int,
            arg0.0 as int,
            arg1.0 as int,
            arg2.0 as int,
        ],
        Opcode::Call4 { dst, fun, arg0, arg1, arg2, arg3 } => seq![
            dst.0 as int,
            fun.0 as int,
            arg0.0 as int,
            arg1.0 as int,
            arg2.0 as int,
            arg3.0 as int,
        ],
        Opcode::CallN { dst, fun, args } => seq![
            dst.0 as int,
            fun.0 as int,
        ] + register_numbers(args@),
        Opcode::CallMethod { dst, field, args } => seq![
            dst.0 as int,
            field.0 as int,
        ] + register_numbers(args@),
        Opcode::CallThis { dst, field, args } => seq![
            dst.0 as int,
            field.0 as int,
        ] + register_numbers(args@),
        Opcode::CallClosure { dst, fun, args } => seq![
            dst.0 as int,
            fun.0 as int,
        ] + register_numbers(args@),
        Opcode::StaticClosure { dst, fun } => seq![dst.0 as int, fun.0 as int],
        Opcode::InstanceClosure { dst, fun, obj } => seq![dst.0 as int, fun.0 as int, obj.0 as int],
        Opcode::VirtualClosure { dst, obj, field } => seq![
            dst.0 as int,
            obj.0 as int,
            field.0 as int,
        ],
        Opcode::GetGlobal { dst, global } => seq![dst.0 as int, global.0 as int],
        Opcode::SetGlobal { global, src } => seq![global.0 as int, src.0 as int],
        Opcode::Field { dst, obj, field } => seq![dst.0 as int, obj.0 as int, field.0 as int],
        Opcode::SetField { obj, field, src } => seq![obj.0 as int, field.0 as int, src.0 as int],
        Opcode::GetThis { dst, field } => seq![dst.0 as int, field.0 as int],
        Opcode::SetThis { field, src } => seq![field.0 as int, src.0 as int],
        Opcode::DynGet { dst, obj, field } => seq![dst.0 as int, obj.0 as int, field.0 as int],
        Opcode::DynSet { obj, field, src } => seq![obj.0 as int, field.0 as int, src.0 as int],
        Opcode::JTrue { cond, offset } => seq![cond.0 as int, offset as int],
        Opcode::JFalse { cond, offset } => seq![cond.0 as int, offset as int],
        Opcode::JNull { reg, offset } => seq![reg.0 as int, offset as int],
        Opcode::JNotNull { reg, offset } => seq![reg.0 as int, offset as int],
        Opcode::JSLt { a, b, offset } => seq![a.0 as int, b.0 as int, offset as int],
        Opcode::JSGte { a, b, offset } => seq![a.0 as int, b.0 as int, offset as int],
        Opcode::JSGt { a, b, offset } => seq![a.0 as int, b.0 as int, offset as int],
        Opcode::JSLte { a, b, offset } => seq![a.0 as int, b.0 as int, offset as int],
        Opcode::JULt { a, b, offset } => seq![a.0 as int, b.0 as int, offset as int],
        Opcode::JUGte { a, b, offset } => seq![a.0 as int, b.0 as int, offset as int],
        Opcode::JNotLt { a, b, offset } => seq![a.0 as int, b.0 as int, offset as int],
        Opcode::JNotGte { a, b, offset } => seq![a.0 as int, b.0 as int, offset as int],
        Opcode::JEq { a, b, offset } => seq![a.0 as int, b.0 as int, offset as int],
        Opcode::JNotEq { a, b, offset } => seq![a.0 as int, b.0 as int, offset as int],
        Opcode::JAlways { offset } => seq![offset as int],
        Opcode::ToDyn { dst, src } => seq![dst.0 as int, src.0 as int],
        Opcode::ToSFloat { dst, src } => seq![dst.0 as int, src.0 as int],
        Opcode::ToUFloat { dst, src } => seq![dst.0 as int, src.0 as int],
        Opcode::ToInt { dst, src } => seq![dst.0 as int, src.0 as int],
        Opcode::SafeCast { dst, src } => seq![dst.0 as int, src.0 as int],
        Opcode::UnsafeCast { dst, src } => seq![dst.0 as int, src.0 as int],
        Opcode::ToVirtual { dst, src } => seq![dst.0 as int, src.0 as int],
        Opcode::Label => seq![],
        Opcode::Ret { ret } => seq![ret.0 as int],
        Opcode::Throw { exc } => seq![exc.0 as int],
        Opcode::Rethrow { exc } => seq![exc.0 as int],
        Opcode::Switch { reg, offsets, end } => seq![
            reg.0 as int,
            end as int,
        ] + whole_numbers(offsets@),
        Opcode::NullCheck { reg } => seq![reg.0 as int],
        Opcode::Trap { exc, offset } => seq![exc.0 as int, offset as int],
        Opcode::EndTrap { exc } => seq![exc.0 as int],
        Opcode::GetI8 { dst, bytes, index } => seq![dst.0 as int, bytes.0 as int, index.0 as int],
        Opcode::GetI16 { dst, bytes, index } => seq![dst.0 as int, bytes.0 as int, index.0 as int],
        Opcode::GetMem { dst, bytes, index } => seq![dst.0 as int, bytes.0 as int, index.0 as int],
        Opcode::GetArray { dst, array, index } => seq![
            dst.0 as int,
            array.0 as int,
            index.0 as int,
        ],
        Opcode::SetI8 { bytes, index, src } => seq![bytes.0 as int, index.0 as int, src.0 as int],
        Opcode::SetI16 { bytes, index, src } => seq![bytes.0 as int, index.0 as int, src.0 as int],
        Opcode::SetMem { bytes, index, src } => seq![bytes.0 as int, index.0 as int, src.0 as int],
        Opcode::SetArray { array, index, src } => seq![
            array.0 as int,
            index.0 as int,
            src.0 as int,
        ],
        Opcode::New { dst } => seq![dst.0 as int],
        Opcode::ArraySize { dst, array } => seq![dst.0 as int, array.0 as int],
        Opcode::Type { dst, ty } => seq![dst.0 as int, ty.0 as int],
        Opcode::GetType { dst, src } => seq![dst.0 as int, src.0 as int],
        Opcode::GetTID { dst, src } => seq![dst.0 as int, src.0 as int],
        Opcode::Ref { dst, src } => seq![dst.0 as int, src.0 as int],
        Opcode::Unref { dst, src } => seq![dst.0 as int, src.0 as int],
        Opcode::Setref { dst, value } => seq![dst.0 as int, value.0 as int],
        Opcode::MakeEnum { dst, construct, args } => seq![
            dst.0 as int,
            construct.0 as int,
        ] + register_numbers(args@),
        Opcode::EnumAlloc { dst, construct } => seq![dst.0 as int, construct.0 as int],
        Opcode::EnumIndex { dst, value } => seq![dst.0 as int, value.0 as int],
        Opcode::EnumField { dst, value, construct, field } => seq![
            dst.0 as int,
            value.0 as int,
            construct.0 as int,
            field.0 as int,
        ],
        Opcode::SetEnumField { value, field, src } => seq![
            value.0 as int,
            field.0 as int,
            src.0 as int,
        ],
        Opcode::Assert => seq![],
        Opcode::RefData { dst, src } => seq![dst.0 as int, src.0 as int],
        Opcode::RefOffset { dst, reg, offset } => seq![dst.0 as int, reg.0 as int, offset.0 as int],
        Opcode::Nop => seq![],
    }
}

/// The number is one that 32 bits hold, and not the smallest of these.
pub open spec fn usual(n: int) -> bool {
    -0x8000_0000 < n < 0x8000_0000
}

/// The number, cut to 32 bits, is the smallest of those that they hold.
pub open spec fn smallest(n: int) -> bool {
    exists|k: int| n == #[trigger] (k * 0x1_0000_0000) + 0x8000_0000
}

/// What can be written of a number.
pub proof fn law_number_fits_unless_it_is_the_smallest(n: int)
    ensures
        fits(n) <==> !smallest(n),
        usual(n) ==> fits(n),
{
    if !fits(n) {
        let k = n / 0x1_0000_0000;
        assert(n == (k * 0x1_0000_0000) + 0x8000_0000);
    }
    if smallest(n) {
        let k = choose|k: int| n == #[trigger] (k * 0x1_0000_0000) + 0x8000_0000;
        assert(n % 0x1_0000_0000 == 0x8000_0000);
    }
}

/// An instruction can be written unless one of its numbers is the smallest, or the table that it jumps
/// through is too long.
pub proof fn law_instruction_fits_unless_a_number_is_the_smallest(op: Opcode)
    ensures
        op_fits(op) <==> {
            &&& forall|i: int| 0 <= i < op_numbers(op).len() ==> fits(#[trigger] op_numbers(op)[i])
            &&& op matches Opcode::Switch { offsets, .. } ==> offsets@.len() < 0x2000_0000
        },
{
    let all = op_numbers(op);
    match op {
        Opcode::Switch { reg, offsets, end } => {
            lemma_listed(seq![reg.0 as int, end as int], whole_numbers(offsets@), all);
            lemma_offsets(offsets@);
        },
        Opcode::CallN { dst, fun, args } => {
            lemma_listed(seq![dst.0 as int, fun.0 as int], register_numbers(args@), all);
            lemma_registers(args@);
        },
        Opcode::CallMethod { dst, field, args } => {
            lemma_listed(seq![dst.0 as int, field.0 as int], register_numbers(args@), all);
            lemma_registers(args@);
        },
        Opcode::CallThis { dst, field, args } => {
            lemma_listed(seq![dst.0 as int, field.0 as int], register_numbers(args@), all);
            lemma_registers(args@);
        },
        Opcode::CallClosure { dst, fun, args } => {
            lemma_listed(seq![dst.0 as int, fun.0 as int], register_numbers(args@), all);
            lemma_registers(args@);
        },
        Opcode::MakeEnum { dst, construct, args } => {
            lemma_listed(seq![dst.0 as int, construct.0 as int], register_numbers(args@), all);
            lemma_registers(args@);
        },
        _ => {
            lemma_few(all);
        },
    }
}

/// Whether registers can be written.
proof fn lemma_registers(regs: Seq<Reg>)
    ensures
        regs_fit(regs) <==> forall|i: int|
            0 <= i < register_numbers(regs).len() ==> fits(#[trigger] register_numbers(regs)[i]),
{
    let list = register_numbers(regs);
    if forall|i: int| 0 <= i < list.len() ==> fits(#[trigger] list[i]) {
        assert forall|i: int| 0 <= i < regs.len() implies fits((#[trigger] regs[i]).0 as int) by {
            assert(fits(list[i]));
        }
    }
}

/// Whether the jumps of a table can be written.
proof fn lemma_offsets(offsets: Seq<i32>)
    ensures
        offsets_fit(offsets) <==> offsets.len() < 0x2000_0000 && forall|i: int|
            0 <= i < whole_numbers(offsets).len() ==> fits(#[trigger] whole_numbers(offsets)[i]),
{
    let list = whole_numbers(offsets);
    if forall|i: int| 0 <= i < list.len() ==> fits(#[trigger] list[i]) {
        assert forall|i: int| 0 <= i < offsets.len() implies fits(#[trigger] offsets[i] as int) by {
            assert(fits(list[i]));
        }
    }
    if offsets_fit(offsets) {
        assert forall|i: int| 0 <= i < list.len() implies fits(#[trigger] list[i]) by {
            assert(fits(offsets[i] as int));
        }
    }
}

/// Whether a few numbers can all be written.
proof fn lemma_few(all: Seq<int>)
    requires
        all.len() <= 6,
    ensures
        (forall|i: int| 0 <= i < all.len() ==> fits(#[trigger] all[i])) <==> {
            &&& all.len() > 0 ==> fits(all[0])
            &&& all.len() > 1 ==> fits(all[1])
            &&& all.len() > 2 ==> fits(all[2])
            &&& all.len() > 3 ==> fits(all[3])
            &&& all.len() > 4 ==> fits(all[4])
            &&& all.len() > 5 ==> fits(all[5])
        },
{
}

/// Whether two numbers and those of a list can all be written.
proof fn lemma_listed(head: Seq<int>, list: Seq<int>, all: Seq<int>)
    requires
        head.len() == 2,
        all == head + list,
    ensures
        (forall|i: int| 0 <= i < all.len() ==> fits(#[trigger] all[i])) <==> fits(head[0]) && fits(
            head[1],
        ) && forall|i: int| 0 <= i < list.len() ==> fits(#[trigger] list[i]),
{
    if forall|i: int| 0 <= i < all.len() ==> fits(#[trigger] all[i]) {
        assert(fits(all[0]) && fits(all[1]));
        assert forall|i: int| 0 <= i < list.len() implies fits(#[trigger] list[i]) by {
            assert(all[i + 2] == list[i]);
        }
    }
    if fits(head[0]) && fits(head[1]) && forall|i: int|
        0 <= i < list.len() ==> fits(#[trigger] list[i]) {
        assert forall|i: int| 0 <= i < all.len() implies fits(#[trigger] all[i]) by {
            if i >= 2 {
                assert(all[i] == list[i - 2]);
            }
        }
    }
}

/// That many instructions in a row, the last one at `end - 1`, have the same source line.
pub open spec fn same_line(lines: Seq<(usize, usize)>, end: int, count: int) -> bool {
    &&& 0 <= end - count
    &&& end <= lines.len()
    &&& forall|i: int| end - count <= i < end ==> (#[trigger] lines[i]).1 == lines[end - 1].1
}

/// The instructions at the end that have the same source line, and that no more have it.
proof fn lemma_run(lines: Seq<(usize, usize)>, end: int)
    requires
        0 < end <= lines.len(),
    ensures
        ({
            let n = run_length(lines.take(end)) as int;
            &&& 1 <= n <= end
            &&& same_line(lines, end, n)
            &&& n < end ==> lines[end - 1 - n].1 != lines[end - 1].1
        }),
    decreases end,
{
    let so_far = lines.take(end);
    if end > 1 {
        assert(so_far.drop_last() =~= lines.take(end - 1));
        assert(so_far[end - 2] == lines[end - 2]);
        lemma_run(lines, end - 1);
    }
}

/// Source lines can be written unless one is too large, or more than 32768 instructions in a row have
/// the same one.
pub proof fn law_lines_fit_unless_a_run_is_too_long(lines: Seq<(usize, usize)>)
    ensures
        lines_fit(lines) <==> {
            &&& forall|i: int| 0 <= i < lines.len() ==> (#[trigger] lines[i]).1 < 0x8000_0000
            &&& forall|end: int| !#[trigger] same_line(lines, end, 0x8001)
        },
{
    if lines_fit(lines) {
        assert forall|end: int| !#[trigger] same_line(lines, end, 0x8001) by {
            if same_line(lines, end, 0x8001) {
                lemma_run(lines, end);
                let n = run_length(lines.take(end)) as int;
                assert(n <= 0x8000);
                assert(lines[end - 1 - n].1 == lines[end - 1].1);
            }
        }
    }
    if (forall|i: int| 0 <= i < lines.len() ==> (#[trigger] lines[i]).1 < 0x8000_0000) && (forall|
        end: int,
    |
        !#[trigger] same_line(lines, end, 0x8001)) {
        assert forall|i: int| 0 <= i <= lines.len() implies run_length(#[trigger] lines.take(i))
            <= 0x8000 by {
            if i > 0 {
                lemma_run(lines, i);
                let n = run_length(lines.take(i)) as int;
                if n > 0x8000 {
                    assert(same_line(lines, i, 0x8001));
                }
            }
        }
    }
}

/// A reference of the program, or a length: far from what 32 bits can hold.
pub open spec fn low(n: usize) -> bool {
    n < 0x2000_0000
}

/// What there is in a list of fields is low.
pub open spec fn fields_low(list: Seq<ObjField>) -> bool {
    list.len() < 0x2000_0000 && forall|i: int|
        0 <= i < list.len() ==> low((#[trigger] list[i]).name.0) && low(list[i].t.0)
}

/// What there is in a list of types is low.
pub open spec fn refs_low(list: Seq<RefType>) -> bool {
    list.len() < 0x2000_0000 && forall|i: int| 0 <= i < list.len() ==> low((#[trigger] list[i]).0)
}

/// What there is in a class is low.
pub open spec fn class_low(c: ClassView) -> bool {
    &&& low(c.name.0) && low(c.global.0)
    &&& c.super_ matches Some(parent) ==> low(parent.0)
    &&& fields_low(c.own_fields)
    &&& c.protos.len() < 0x2000_0000
    &&& forall|i: int|
        0 <= i < c.protos.len() ==> low((#[trigger] c.protos[i]).name.0) && low(
            c.protos[i].findex.0,
        ) && usual(c.protos[i].pindex as int)
    &&& c.bindings.dom().len() < 0x2000_0000
    &&& forall|field: RefField| #[trigger]
        c.bindings.dom().contains(field) ==> low(field.0) && low(c.bindings[field].0)
}

/// What there is in a type is low.
pub open spec fn type_low(t: TypeView) -> bool {
    match t {
        TypeView::Class(c) => class_low(c),
        TypeView::Struct(c) => class_low(c),
        TypeView::Other(other) => match other {
            Type::Fun(fun) | Type::Method(fun) => refs_low(fun.args@) && low(fun.ret.0),
            Type::Ref(inner) | Type::Null(inner) | Type::Packed(inner) => low(inner.0),
            Type::Virtual { fields } => fields_low(fields@),
            Type::Abstract { name } => low(name.0),
            Type::Enum { name, global, constructs } => {
                &&& low(name.0) && low(global.0)
                &&& constructs@.len() < 0x2000_0000
                &&& forall|i: int|
                    0 <= i < constructs@.len() ==> low((#[trigger] constructs@[i]).name.0)
                        && refs_low(constructs@[i].params@)
            },
            _ => true,
        },
    }
}

/// What there is in a function is low, and no run of instructions with the same source line is too
/// long.
pub open spec fn function_low(f: FunctionView) -> bool {
    &&& low(f.t.0) && low(f.findex.0)
    &&& refs_low(f.regs)
    &&& f.ops.len() < 0x2000_0000
    &&& forall|i: int, k: int|
        0 <= i < f.ops.len() && 0 <= k < op_numbers(f.ops[i]).len() ==> usual(
            #[trigger] op_numbers(f.ops[i])[k],
        )
    &&& forall|i: int|
        0 <= i < f.ops.len() ==> ((#[trigger] f.ops[i]) matches Opcode::Switch { offsets, .. }
            ==> offsets@.len() < 0x2000_0000)
    &&& f.debug_info matches Some(lines) ==> {
        &&& forall|i: int| 0 <= i < lines.len() ==> (#[trigger] lines[i]).1 < 0x8000_0000
        &&& forall|end: int| !#[trigger] same_line(lines, end, 0x8001)
    }
    &&& f.assigns matches Some(assigns) ==> {
        &&& assigns.len() < 0x2000_0000
        &&& forall|i: int|
            0 <= i < assigns.len() ==> low((#[trigger] assigns[i]).0.0) && low(assigns[i].1)
    }
}

/// The texts are short, few, and without zero characters.
pub open spec fn texts_plain(list: Seq<Seq<char>>) -> bool {
    list.len() < 0x2000_0000 && forall|i: int|
        0 <= i < list.len() ==> (#[trigger] list[i]).len() < 0x2000_0000 && !list[i].contains('\0')
}

/// A program of an ordinary size: all that it holds is low, and the floats that it was read with come
/// before those that were added.
pub open spec fn ordinary(p: ModuleView) -> bool {
    &&& p.ints.len() < 0x2000_0000 && p.floats.len() < 0x2000_0000
    &&& p.types.len() < 0x2000_0000 && p.natives.len() < 0x2000_0000 && p.functions.len()
        < 0x2000_0000
    &&& texts_plain(p.strings)
    &&& p.debug_files matches Some(files) ==> texts_plain(files)
    &&& forall|i: int| 0 <= i < p.types.len() ==> type_low(#[trigger] p.types[i])
    &&& forall|i: int|
        0 <= i < p.natives.len() ==> {
            let n = #[trigger] p.natives[i];
            low(n.lib.0) && low(n.name.0) && low(n.t.0) && low(n.findex.0)
        }
    &&& forall|i: int| 0 <= i < p.functions.len() ==> function_low(#[trigger] p.functions[i])
    &&& exists|k: int| #[trigger] added_from(p.floats, k)
}

/// The floats before `k` were read with the program, and those from there on were added.
pub open spec fn added_from(floats: Seq<Float>, k: int) -> bool {
    &&& 0 <= k <= floats.len()
    &&& forall|i: int| 0 <= i < k ==> (#[trigger] floats[i]) is Loaded
    &&& forall|i: int| k <= i < floats.len() ==> (#[trigger] floats[i]) is Whole
}

/// A type of an ordinary size can be written.
proof fn lemma_type_fits(t: TypeView)
    requires
        type_low(t),
    ensures
        type_fits(t),
{
    assert forall|n: int| #[trigger] usual(n) implies fits(n) by {
        law_number_fits_unless_it_is_the_smallest(n);
    }
}

/// A function of an ordinary size can be written.
proof fn lemma_function_fits(f: FunctionView)
    requires
        function_low(f),
    ensures
        function_fits(f),
{
    assert forall|n: int| #[trigger] usual(n) implies fits(n) by {
        law_number_fits_unless_it_is_the_smallest(n);
    }
    if let Some(lines) = f.debug_info {
        law_lines_fit_unless_a_run_is_too_long(lines);
    }
    assert forall|i: int| 0 <= i < f.ops.len() implies op_fits(#[trigger] f.ops[i]) by {
        law_instruction_fits_unless_a_number_is_the_smallest(f.ops[i]);
        assert forall|k: int| 0 <= k < op_numbers(f.ops[i]).len() implies fits(
            #[trigger] op_numbers(f.ops[i])[k],
        ) by {
            assert(usual(op_numbers(f.ops[i])[k]));
        }
    }
}

/// A program of an ordinary size can be written.
pub proof fn law_ordinary_program_can_be_written(p: ModuleView)
    requires
        ordinary(p),
    ensures
        writable(p),
{
    assert forall|i: int| 0 <= i < p.types.len() implies type_fits(#[trigger] p.types[i]) by {
        lemma_type_fits(p.types[i]);
    }
    assert forall|i: int| 0 <= i < p.functions.len() implies function_fits(
        #[trigger] p.functions[i],
    ) by {
        lemma_function_fits(p.functions[i]);
    }
    let k = choose|k: int| #[trigger] added_from(p.floats, k);
    assert(clean(p));
    assert(numbers_fit(p));
}

/// What can be written has no zero characters in its texts, and no float that was read behind one that
/// was added.
pub proof fn law_program_that_can_be_written_is_clean(p: ModuleView, i: int, j: int)
    requires
        writable(p),
    ensures
        0 <= i < p.strings.len() ==> !p.strings[i].contains('\0'),
        0 <= i < j < p.floats.len() && p.floats[j] is Loaded ==> p.floats[i] is Loaded,
        0 <= i < p.functions.len() && 0 <= j < p.functions[i].ops.len() ==> op_fits(
            p.functions[i].ops[j],
        ),
{
    if 0 <= i < p.functions.len() {
        assert(function_fits(p.functions[i]));
    }
}

} // verus!
