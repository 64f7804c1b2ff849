//! How functions and constants are written as bytes, and that they are passed as they were written.

use vstd::prelude::*;
use hlbc::opcodes::Opcode;
use hlbc::types::Reg;
use crate::scan::{number, numbers, run, Flaw};
use crate::scan_code::{
    constants, function, functions, instruction, instructions, listed_operands, operand_count,
    source_lines, table_operands,
};
use crate::written::{
    all_write, law_field_list_is_passed_as_written, law_numbers_are_read_as_written, lemma_byte,
    lemma_list_len, lemma_number, lemma_stands, none_below_zero, pair_list_bytes, pairs, stands_at,
    writes, written, written_all,
};

verus! {

/// What follows the number of an instruction.
pub enum Operands {
    /// These numbers.
    Fixed(Seq<i32>),
    /// Two numbers, and then a list with its length in a byte before it.
    Listed(Seq<i32>, Seq<i32>),
    /// A number, a list with its length before it, and one more number.
    Table(i32, Seq<i32>, i32),
}

/// A truth value as a number.
pub open spec fn flag(b: bool) -> i32 {
    if b {
        1
    } else {
        0
    }
}

/// The numbers of registers.
pub open spec fn registers(regs: Seq<Reg>) -> Seq<i32> {
    Seq::new(regs.len(), |i: int| regs[i].0 as i32)
}

/// The number of an instruction.
pub open spec fn op_number(op: Opcode) -> u8 {
    match op {
        Opcode::Mov { .. } => 0,
        Opcode::Int { .. } => 1,
        Opcode::Float { .. } => 2,
        Opcode::Bool { .. } => 3,
        Opcode::Bytes { .. } => 4,
        Opcode::String { .. } => 5,
        Opcode::Null { .. } => 6,
        Opcode::Add { .. } => 7,
        Opcode::Sub { .. } => 8,
        Opcode::Mul { .. } => 9,
        Opcode::SDiv { .. } => 10,
        Opcode::UDiv { .. } => 11,
        Opcode::SMod { .. } => 12,
        Opcode::UMod { .. } => 13,
        Opcode::Shl { .. } => 14,
        Opcode::SShr { .. } => 15,
        Opcode::UShr { .. } => 16,
        Opcode::And { .. } => 17,
        Opcode::Or { .. } => 18,
        Opcode::Xor { .. } => 19,
        Opcode::Neg { .. } => 20,
        Opcode::Not { .. } => 21,
        Opcode::Incr { .. } => 22,
        Opcode::Decr { .. } => 23,
        Opcode::Call0 { .. } => 24,
        Opcode::Call1 { .. } => 25,
        Opcode::Call2 { .. } => 26,
        Opcode::Call3 { .. } => 27,
        Opcode::Call4 { .. } => 28,
        Opcode::CallN { .. } => 29,
        Opcode::CallMethod { .. } => 30,
        Opcode::CallThis { .. } => 31,
        Opcode::CallClosure { .. } => 32,
        Opcode::StaticClosure { .. } => 33,
        Opcode::InstanceClosure { .. } => 34,
        Opcode::VirtualClosure { .. } => 35,
        Opcode::GetGlobal { .. } => 36,
        Opcode::SetGlobal { .. } => 37,
        Opcode::Field { .. } => 38,
        Opcode::SetField { .. } => 39,
        Opcode::GetThis { .. } => 40,
        Opcode::SetThis { .. } => 41,
        Opcode::DynGet { .. } => 42,
        Opcode::DynSet { .. } => 43,
        Opcode::JTrue { .. } => 44,
        Opcode::JFalse { .. } => 45,
        Opcode::JNull { .. } => 46,
        Opcode::JNotNull { .. } => 47,
        Opcode::JSLt { .. } => 48,
        Opcode::JSGte { .. } => 49,
        Opcode::JSGt { .. } => 50,
        Opcode::JSLte { .. } => 51,
        Opcode::JULt { .. } => 52,
        Opcode::JUGte { .. } => 53,
        Opcode::JNotLt { .. } => 54,
        Opcode::JNotGte { .. } => 55,
        Opcode::JEq { .. } => 56,
        Opcode::JNotEq { .. } => 57,
        Opcode::JAlways { .. } => 58,
        Opcode::ToDyn { .. } => 59,
        Opcode::ToSFloat { .. } => 60,
        Opcode::ToUFloat { .. } => 61,
        Opcode::ToInt { .. } => 62,
        Opcode::SafeCast { .. } => 63,
        Opcode::UnsafeCast { .. } => 64,
        Opcode::ToVirtual { .. } => 65,
        Opcode::Label => 66,
        Opcode::Ret { .. } => 67,
        Opcode::Throw { .. } => 68,
        Opcode::Rethrow { .. } => 69,
        Opcode::Switch { .. } => 70,
        Opcode::NullCheck { .. } => 71,
        Opcode::Trap { .. } => 72,
        Opcode::EndTrap { .. } => 73,
        Opcode::GetI8 { .. } => 74,
        Opcode::GetI16 { .. } => 75,
        Opcode::GetMem { .. } => 76,
        Opcode::GetArray { .. } => 77,
        Opcode::SetI8 { .. } => 78,
        Opcode::SetI16 { .. } => 79,
        Opcode::SetMem { .. } => 80,
        Opcode::SetArray { .. } => 81,
        Opcode::New { .. } => 82,
        Opcode::ArraySize { .. } => 83,
        Opcode::Type { .. } => 84,
        Opcode::GetType { .. } => 85,
        Opcode::GetTID { .. } => 86,
        Opcode::Ref { .. } => 87,
        Opcode::Unref { .. } => 88,
        Opcode::Setref { .. } => 89,
        Opcode::MakeEnum { .. } => 90,
        Opcode::EnumAlloc { .. } => 91,
        Opcode::EnumIndex { .. } => 92,
        Opcode::EnumField { .. } => 93,
        Opcode::SetEnumField { .. } => 94,
        Opcode::Assert => 95,
        Opcode::RefData { .. } => 96,
        Opcode::RefOffset { .. } => 97,
        Opcode::Nop => 98,
    }
}

/// What follows the number of an instruction.
pub open spec fn operands(op: Opcode) -> Operands {
    match op {
        Opcode::Mov { dst, src } => Operands::Fixed(seq![dst.0 as i32, src.0 as i32]),
        Opcode::Int { dst, ptr } => Operands::Fixed(seq![dst.0 as i32, ptr.0 as i32]),
        Opcode::Float { dst, ptr } => Operands::Fixed(seq![dst.0 as i32, ptr.0 as i32]),
        Opcode::Bool { dst, value } => Operands::Fixed(seq![dst.0 as i32, flag(value.0)]),
        Opcode::Bytes { dst, ptr } => Operands::Fixed(seq![dst.0 as i32, ptr.0 as i32]),
        Opcode::String { dst, ptr } => Operands::Fixed(seq![dst.0 as i32, ptr.0 as i32]),
        Opcode::Null { dst } => Operands::Fixed(seq![dst.0 as i32]),
        Opcode::Add { dst, a, b } => Operands::Fixed(seq![dst.0 as i32, a.0 as i32, b.0 as i32]),
        Opcode::Sub { dst, a, b } => Operands::Fixed(seq![dst.0 as i32, a.0 as i32, b.0 as i32]),
        Opcode::Mul { dst, a, b } => Operands::Fixed(seq![dst.0 as i32, a.0 as i32, b.0 as i32]),
        Opcode::SDiv { dst, a, b } => Operands::Fixed(seq![dst.0 as i32, a.0 as i32, b.0 as i32]),
        Opcode::UDiv { dst, a, b } => Operands::Fixed(seq![dst.0 as i32, a.0 as i32, b.0 as i32]),
        Opcode::SMod { dst, a, b } => Operands::Fixed(seq![dst.0 as i32, a.0 as i32, b.0 as i32]),
        Opcode::UMod { dst, a, b } => Operands::Fixed(seq![dst.0 as i32, a.0 as i32, b.0 as i32]),
        Opcode::Shl { dst, a, b } => Operands::Fixed(seq![dst.0 as i32, a.0 as i32, b.0 as i32]),
        Opcode::SShr { dst, a, b } => Operands::Fixed(seq![dst.0 as i32, a.0 as i32, b.0 as i32]),
        Opcode::UShr { dst, a, b } => Operands::Fixed(seq![dst.0 as i32, a.0 as i32, b.0 as i32]),
        Opcode::And { dst, a, b } => Operands::Fixed(seq![dst.0 as i32, a.0 as i32, b.0 as i32]),
        Opcode::Or { dst, a, b } => Operands::Fixed(seq![dst.0 as i32, a.0 as i32, b.0 as i32]),
        Opcode::Xor { dst, a, b } => Operands::Fixed(seq![dst.0 as i32, a.0 as i32, b.0 as i32]),
        Opcode::Neg { dst, src } => Operands::Fixed(seq![dst.0 as i32, src.0 as i32]),
        Opcode::Not { dst, src } => Operands::Fixed(seq![dst.0 as i32, src.0 as i32]),
        Opcode::Incr { dst } => Operands::Fixed(seq![dst.0 as i32]),
        Opcode::Decr { dst } => Operands::Fixed(seq![dst.0 as i32]),
        Opcode::Call0 { dst, fun } => Operands::Fixed(seq![dst.0 as i32, fun.0 as i32]),
        Opcode::Call1 { dst, fun, arg0 } => Operands::Fixed(seq![dst.0 as i32, fun.0 as i32, arg0.0 as i32]),
        Opcode::Call2 { dst, fun, arg0, arg1 } => Operands::Fixed(seq![dst.0 as i32, fun.0 as i32, arg0.0 as i32, arg1.0 as i32]),
        Opcode::Call3 { dst, fun, arg0, arg1, arg2 } => Operands::Fixed(seq![dst.0 as i32, fun.0 as i32, arg0.0 as i32, arg1.0 as i32, arg2.0 as i32]),
        Opcode::Call4 { dst, fun, arg0, arg1, arg2, arg3 } => Operands::Fixed(seq![dst.0 as i32, fun.0 as i32, arg0.0 as i32, arg1.0 as i32, arg2.0 as i32, arg3.0 as i32]),
        Opcode::StaticClosure { dst, fun } => Operands::Fixed(seq![dst.0 as i32, fun.0 as i32]),
        Opcode::InstanceClosure { dst, fun, obj } => Operands::Fixed(seq![dst.0 as i32, fun.0 as i32, obj.0 as i32]),
        Opcode::VirtualClosure { dst, obj, field } => Operands::Fixed(seq![dst.0 as i32, obj.0 as i32, field.0 as i32]),
        Opcode::GetGlobal { dst, global } => Operands::Fixed(seq![dst.0 as i32, global.0 as i32]),
        Opcode::SetGlobal { global, src } => Operands::Fixed(seq![global.0 as i32, src.0 as i32]),
        Opcode::Field { dst, obj, field } => Operands::Fixed(seq![dst.0 as i32, obj.0 as i32, field.0 as i32]),
        Opcode::SetField { obj, field, src } => Operands::Fixed(seq![obj.0 as i32, field.0 as i32, src.0 as i32]),
        Opcode::GetThis { dst, field } => Operands::Fixed(seq![dst.0 as i32, field.0 as i32]),
        Opcode::SetThis { field, src } => Operands::Fixed(seq![field.0 as i32, src.0 as i32]),
        Opcode::DynGet { dst, obj, field } => Operands::Fixed(seq![dst.0 as i32, obj.0 as i32, field.0 as i32]),
        Opcode::DynSet { obj, field, src } => Operands::Fixed(seq![obj.0 as i32, field.0 as i32, src.0 as i32]),
        Opcode::JTrue { cond, offset } => Operands::Fixed(seq![cond.0 as i32, offset]),
        Opcode::JFalse { cond, offset } => Operands::Fixed(seq![cond.0 as i32, offset]),
        Opcode::JNull { reg, offset } => Operands::Fixed(seq![reg.0 as i32, offset]),
        Opcode::JNotNull { reg, offset } => Operands::Fixed(seq![reg.0 as i32, offset]),
        Opcode::JSLt { a, b, offset } => Operands::Fixed(seq![a.0 as i32, b.0 as i32, offset]),
        Opcode::JSGte { a, b, offset } => Operands::Fixed(seq![a.0 as i32, b.0 as i32, offset]),
        Opcode::JSGt { a, b, offset } => Operands::Fixed(seq![a.0 as i32, b.0 as i32, offset]),
        Opcode::JSLte { a, b, offset } => Operands::Fixed(seq![a.0 as i32, b.0 as i32, offset]),
        Opcode::JULt { a, b, offset } => Operands::Fixed(seq![a.0 as i32, b.0 as i32, offset]),
        Opcode::JUGte { a, b, offset } => Operands::Fixed(seq![a.0 as i32, b.0 as i32, offset]),
        Opcode::JNotLt { a, b, offset } => Operands::Fixed(seq![a.0 as i32, b.0 as i32, offset]),
        Opcode::JNotGte { a, b, offset } => Operands::Fixed(seq![a.0 as i32, b.0 as i32, offset]),
        Opcode::JEq { a, b, offset } => Operands::Fixed(seq![a.0 as i32, b.0 as i32, offset]),
        Opcode::JNotEq { a, b, offset } => Operands::Fixed(seq![a.0 as i32, b.0 as i32, offset]),
        Opcode::JAlways { offset } => Operands::Fixed(seq![offset]),
        Opcode::ToDyn { dst, src } => Operands::Fixed(seq![dst.0 as i32, src.0 as i32]),
        Opcode::ToSFloat { dst, src } => Operands::Fixed(seq![dst.0 as i32, src.0 as i32]),
        Opcode::ToUFloat { dst, src } => Operands::Fixed(seq![dst.0 as i32, src.0 as i32]),
        Opcode::ToInt { dst, src } => Operands::Fixed(seq![dst.0 as i32, src.0 as i32]),
        Opcode::SafeCast { dst, src } => Operands::Fixed(seq![dst.0 as i32, src.0 as i32]),
        Opcode::UnsafeCast { dst, src } => Operands::Fixed(seq![dst.0 as i32, src.0 as i32]),
        Opcode::ToVirtual { dst, src } => Operands::Fixed(seq![dst.0 as i32, src.0 as i32]),
        Opcode::Label => Operands::Fixed(seq![]),
        Opcode::Ret { ret } => Operands::Fixed(seq![ret.0 as i32]),
        Opcode::Throw { exc } => Operands::Fixed(seq![exc.0 as i32]),
        Opcode::Rethrow { exc } => Operands::Fixed(seq![exc.0 as i32]),
        Opcode::NullCheck { reg } => Operands::Fixed(seq![reg.0 as i32]),
        Opcode::Trap { exc, offset } => Operands::Fixed(seq![exc.0 as i32, offset]),
        Opcode::EndTrap { exc } => Operands::Fixed(seq![exc.0 as i32]),
        Opcode::GetI8 { dst, bytes, index } => Operands::Fixed(seq![dst.0 as i32, bytes.0 as i32, index.0 as i32]),
        Opcode::GetI16 { dst, bytes, index } => Operands::Fixed(seq![dst.0 as i32, bytes.0 as i32, index.0 as i32]),
        Opcode::GetMem { dst, bytes, index } => Operands::Fixed(seq![dst.0 as i32, bytes.0 as i32, index.0 as i32]),
        Opcode::GetArray { dst, array, index } => Operands::Fixed(seq![dst.0 as i32, array.0 as i32, index.0 as i32]),
        Opcode::SetI8 { bytes, index, src } => Operands::Fixed(seq![bytes.0 as i32, index.0 as i32, src.0 as i32]),
        Opcode::SetI16 { bytes, index, src } => Operands::Fixed(seq![bytes.0 as i32, index.0 as i32, src.0 as i32]),
        Opcode::SetMem { bytes, index, src } => Operands::Fixed(seq![bytes.0 as i32, index.0 as i32, src.0 as i32]),
        Opcode::SetArray { array, index, src } => Operands::Fixed(seq![array.0 as i32, index.0 as i32, src.0 as i32]),
        Opcode::New { dst } => Operands::Fixed(seq![dst.0 as i32]),
        Opcode::ArraySize { dst, array } => Operands::Fixed(seq![dst.0 as i32, array.0 as i32]),
        Opcode::Type { dst, ty } => Operands::Fixed(seq![dst.0 as i32, ty.0 as i32]),
        Opcode::GetType { dst, src } => Operands::Fixed(seq![dst.0 as i32, src.0 as i32]),
        Opcode::GetTID { dst, src } => Operands::Fixed(seq![dst.0 as i32, src.0 as i32]),
        Opcode::Ref { dst, src } => Operands::Fixed(seq![dst.0 as i32, src.0 as i32]),
        Opcode::Unref { dst, src } => Operands::Fixed(seq![dst.0 as i32, src.0 as i32]),
        Opcode::Setref { dst, value } => Operands::Fixed(seq![dst.0 as i32, value.0 as i32]),
        Opcode::EnumAlloc { dst, construct } => Operands::Fixed(seq![dst.0 as i32, construct.0 as i32]),
        Opcode::EnumIndex { dst, value } => Operands::Fixed(seq![dst.0 as i32, value.0 as i32]),
        Opcode::EnumField { dst, value, construct, field } => Operands::Fixed(seq![dst.0 as i32, value.0 as i32, construct.0 as i32, field.0 as i32]),
        Opcode::SetEnumField { value, field, src } => Operands::Fixed(seq![value.0 as i32, field.0 as i32, src.0 as i32]),
        Opcode::Assert => Operands::Fixed(seq![]),
        Opcode::RefData { dst, src } => Operands::Fixed(seq![dst.0 as i32, src.0 as i32]),
        Opcode::RefOffset { dst, reg, offset } => Operands::Fixed(seq![dst.0 as i32, reg.0 as i32, offset.0 as i32]),
        Opcode::Nop => Operands::Fixed(seq![]),
        Opcode::CallN { dst, fun, args } => Operands::Listed(seq![dst.0 as i32, fun.0 as i32], registers(args@)),
        Opcode::CallMethod { dst, field, args } => Operands::Listed(seq![dst.0 as i32, field.0 as i32], registers(args@)),
        Opcode::CallThis { dst, field, args } => Operands::Listed(seq![dst.0 as i32, field.0 as i32], registers(args@)),
        Opcode::CallClosure { dst, fun, args } => Operands::Listed(seq![dst.0 as i32, fun.0 as i32], registers(args@)),
        Opcode::MakeEnum { dst, construct, args } => Operands::Listed(seq![dst.0 as i32, construct.0 as i32], registers(args@)),
        Opcode::Switch { reg, offsets, end } => Operands::Table(reg.0 as i32, offsets@, end),
    }
}

/// An instruction as bytes.
pub open spec fn op_bytes(op: Opcode) -> Seq<u8> {
    seq![op_number(op)] + operand_bytes(operands(op))
}

/// What follows the number of an instruction, as bytes.
pub open spec fn operand_bytes(o: Operands) -> Seq<u8> {
    match o {
        Operands::Fixed(vs) => written_all(vs),
        Operands::Listed(head, list) => written_all(head) + (seq![list.len() as u8] + written_all(
            list,
        )),
        Operands::Table(first, list, last) => written(first) + (written(list.len() as i32) + (
        written_all(list) + written(last))),
    }
}

/// The format can hold an instruction. The offsets of a table may not be negative.
pub open spec fn op_writes(op: Opcode) -> bool {
    match operands(op) {
        Operands::Fixed(vs) => all_write(vs),
        Operands::Listed(head, list) => all_write(head) && all_write(list) && list.len() < 0x100,
        Operands::Table(first, list, last) => writes(first) && all_write(list) && none_below_zero(
            list,
        ) && list.len() < 0x2000_0000 && writes(last),
    }
}

/// Every instruction has the operands that the format knows it with.
proof fn lemma_operands(op: Opcode)
    ensures
        match operands(op) {
            Operands::Fixed(vs) => operand_count(op_number(op)) == Some(vs.len() as int) && !(29
                <= op_number(op) <= 32 || op_number(op) == 90 || op_number(op) == 70),
            Operands::Listed(head, _) => (29 <= op_number(op) <= 32 || op_number(op) == 90)
                && head.len() == 2,
            Operands::Table(_, _, _) => op_number(op) == 70,
        },
{
}

/// An instruction is passed as a whole, whichever it is.
pub proof fn law_instruction_is_passed_as_written(image: Seq<u8>, at: int, op: Opcode)
    requires
        op_writes(op),
        stands_at(image, at, op_bytes(op)),
    ensures
        instruction(image, at) == Ok::<int, Flaw>(at + op_bytes(op).len()),
        op_bytes(op).len() >= 1,
{
    lemma_operands(op);
    let head = seq![op_number(op)];
    lemma_stands(image, at, head, operand_bytes(operands(op)));
    lemma_byte(image, at, head, 0);
    lemma_operands_passed(image, at + 1, operands(op));
}

/// What follows the number of an instruction is passed as a whole.
proof fn lemma_operands_passed(image: Seq<u8>, at: int, o: Operands)
    requires
        stands_at(image, at, operand_bytes(o)),
        match o {
            Operands::Fixed(vs) => all_write(vs),
            Operands::Listed(head, list) => all_write(head) && all_write(list) && list.len()
                < 0x100 && head.len() == 2,
            Operands::Table(first, list, last) => writes(first) && all_write(list)
                && none_below_zero(list) && list.len() < 0x2000_0000 && writes(last),
        },
    ensures
        match o {
            Operands::Fixed(vs) => run(image, at, vs.len() as int, false, Seq::empty()) == Ok::<
                (Seq<i32>, int),
                Flaw,
            >((vs, at + operand_bytes(o).len())),
            Operands::Listed(_, _) => listed_operands(image, at) == Ok::<int, Flaw>(
                at + operand_bytes(o).len(),
            ),
            Operands::Table(_, _, _) => table_operands(image, at) == Ok::<int, Flaw>(
                at + operand_bytes(o).len(),
            ),
        },
{
    match o {
        Operands::Fixed(vs) => {
            law_numbers_are_read_as_written(image, at, vs);
        },
        Operands::Listed(head, list) => {
            let count = seq![list.len() as u8];
            lemma_stands(image, at, written_all(head), count + written_all(list));
            law_numbers_are_read_as_written(image, at, head);
            let a = at + written_all(head).len();
            lemma_stands(image, a, count, written_all(list));
            lemma_byte(image, a, count, 0);
            law_numbers_are_read_as_written(image, a + 1, list);
        },
        Operands::Table(first, list, last) => {
            let n = list.len() as i32;
            let behind = written_all(list) + written(last);
            lemma_stands(image, at, written(first), written(n) + behind);
            lemma_number(image, at, first);
            let a = at + written(first).len();
            lemma_stands(image, a, written(n), behind);
            lemma_number(image, a, n);
            let b = a + written(n).len();
            lemma_stands(image, b, written_all(list), written(last));
            law_numbers_are_read_as_written(image, b, list);
            lemma_number(image, b + written_all(list).len(), last);
        },
    }
}

/// Instructions as bytes.
pub open spec fn ops_bytes(ops: Seq<Opcode>) -> Seq<u8>
    decreases ops.len(),
{
    if ops.len() == 0 {
        Seq::empty()
    } else {
        op_bytes(ops[0]) + ops_bytes(ops.drop_first())
    }
}

/// The format can hold instructions.
pub open spec fn ops_write(ops: Seq<Opcode>) -> bool {
    forall|i: int| 0 <= i < ops.len() ==> op_writes(#[trigger] ops[i])
}

/// Instructions are passed as a whole.
pub proof fn law_instructions_are_passed_as_written(image: Seq<u8>, at: int, ops: Seq<Opcode>)
    requires
        ops_write(ops),
        stands_at(image, at, ops_bytes(ops)),
    ensures
        instructions(image, at, ops.len() as int) == Ok::<int, Flaw>(at + ops_bytes(ops).len()),
        ops_bytes(ops).len() >= ops.len(),
    decreases ops.len(),
{
    if ops.len() > 0 {
        let rest = ops.drop_first();
        lemma_stands(image, at, op_bytes(ops[0]), ops_bytes(rest));
        law_instruction_is_passed_as_written(image, at, ops[0]);
        assert(ops_write(rest)) by {
            assert forall|i: int| 0 <= i < rest.len() implies op_writes(#[trigger] rest[i]) by {
                assert(rest[i] == ops[i + 1]);
            }
        }
        law_instructions_are_passed_as_written(image, at + op_bytes(ops[0]).len(), rest);
    }
}

/// An entry in the source lines of a function.
pub enum LineEntry {
    /// The instructions from here on are from this source file.
    File(int),
    /// That many instructions are from the line, and the next ones from a line so many further on.
    Same(int, int),
    /// The line is so many further on, and one instruction is from it.
    On(int),
    /// One instruction is from this line.
    Line(int),
}

impl LineEntry {
    /// The format can hold the entry.
    pub open spec fn writes(self) -> bool {
        match self {
            LineEntry::File(file) => 0 <= file < 0x8000,
            LineEntry::Same(count, delta) => 1 <= count < 16 && 0 <= delta < 4,
            LineEntry::On(delta) => 0 <= delta < 32,
            LineEntry::Line(line) => 0 <= line < 0x20_0000,
        }
    }

    /// The entry as bytes.
    pub open spec fn bytes(self) -> Seq<u8> {
        match self {
            LineEntry::File(file) => seq![
                (1 + 2 * ((file / 0x100) % 0x80)) as u8,
                (file % 0x100) as u8,
            ],
            LineEntry::Same(count, delta) => seq![(delta * 64 + count * 4 + 2) as u8],
            LineEntry::On(delta) => seq![(delta * 8 + 4) as u8],
            LineEntry::Line(line) => seq![
                ((line % 0x20) * 8) as u8,
                ((line / 0x20) % 0x100) as u8,
                (line / 0x2000) as u8,
            ],
        }
    }

    /// How many instructions the entry is for.
    pub open spec fn count(self) -> int {
        match self {
            LineEntry::File(_) => 0,
            LineEntry::Same(count, _) => count,
            LineEntry::On(_) => 1,
            LineEntry::Line(_) => 1,
        }
    }

    /// The line that the next entry counts from, where this one counts from `line`.
    pub open spec fn line(self, line: int) -> int {
        match self {
            LineEntry::File(_) => line,
            LineEntry::Same(_, delta) => line + delta,
            LineEntry::On(delta) => line + delta,
            LineEntry::Line(there) => there,
        }
    }
}

/// Source lines as bytes.
pub open spec fn lines_bytes(entries: Seq<LineEntry>) -> Seq<u8>
    decreases entries.len(),
{
    if entries.len() == 0 {
        Seq::empty()
    } else {
        entries[0].bytes() + lines_bytes(entries.drop_first())
    }
}

/// The entries are for `n` instructions, the last of them for the last instruction, and no line that
/// they come to is larger than a number can be.
pub open spec fn lines_write(entries: Seq<LineEntry>, n: int, line: int) -> bool
    decreases entries.len(),
{
    if entries.len() == 0 {
        n == 0
    } else {
        &&& n > 0
        &&& entries[0].writes()
        &&& entries[0].line(line) <= i32::MAX
        &&& lines_write(entries.drop_first(), n - entries[0].count(), entries[0].line(line))
    }
}

/// The source lines of a function are passed as a whole.
pub proof fn law_source_lines_are_passed_as_written(
    image: Seq<u8>,
    at: int,
    entries: Seq<LineEntry>,
    n: int,
    line: int,
)
    requires
        0 <= line,
        lines_write(entries, n, line),
        stands_at(image, at, lines_bytes(entries)),
    ensures
        source_lines(image, at, n, line) == Ok::<int, Flaw>(at + lines_bytes(entries).len()),
    decreases entries.len(),
{
    if entries.len() > 0 {
        let entry = entries[0];
        let rest = entries.drop_first();
        lemma_stands(image, at, entry.bytes(), lines_bytes(rest));
        lemma_byte(image, at, entry.bytes(), 0);
        let next = at + entry.bytes().len();
        law_source_lines_are_passed_as_written(
            image,
            next,
            rest,
            n - entry.count(),
            entry.line(line),
        );
        let c = image[at] as int;
        match entry {
            LineEntry::File(_) => {
                assert(c % 2 == 1);
            },
            LineEntry::Same(count, delta) => {
                assert(c == delta * 64 + count * 4 + 2);
                assert(c % 2 == 0 && (c / 2) % 2 == 1);
                assert((c / 4) % 16 == count && c / 64 == delta);
            },
            LineEntry::On(delta) => {
                assert(c == delta * 8 + 4);
                assert(c % 2 == 0 && (c / 2) % 2 == 0 && (c / 4) % 2 == 1 && c / 8 == delta);
            },
            LineEntry::Line(there) => {
                lemma_byte(image, at, entry.bytes(), 1);
                lemma_byte(image, at, entry.bytes(), 2);
                assert(c == (there % 0x20) * 8);
                assert(c % 2 == 0 && (c / 2) % 2 == 0 && (c / 4) % 2 == 0);
                assert(c / 8 == there % 0x20);
                assert(there / 0x20 / 0x100 == there / 0x2000);
                assert(there == c / 8 + image[at + 1] * 0x20 + image[at + 2] * 0x2000);
            },
        }
    }
}

/// A function, as far as it is written.
pub struct FunctionText {
    pub t: i32,
    pub findex: i32,
    pub regs: Seq<i32>,
    pub ops: Seq<Opcode>,
    /// Its source lines, and which registers are assigned to which names.
    pub lines: Seq<LineEntry>,
    pub assigns: Seq<(i32, i32)>,
}

impl FunctionText {
    /// The format can hold the function.
    pub open spec fn writes(self, debug: bool) -> bool {
        &&& writes(self.t) && writes(self.findex)
        &&& all_write(self.regs) && self.regs.len() < 0x2000_0000
        &&& ops_write(self.ops) && self.ops.len() < 0x2000_0000
        &&& debug ==> lines_write(self.lines, self.ops.len() as int, 0)
        &&& debug ==> self.assigns.len() < 0x2000_0000 && all_write(pairs(self.assigns))
    }

    /// The function as bytes. Names are assigned from the third version of the format on.
    pub open spec fn bytes(self, debug: bool, version: u8) -> Seq<u8> {
        written_all(seq![self.t, self.findex]) + (written_all(
            seq![self.regs.len() as i32, self.ops.len() as i32],
        ) + (written_all(self.regs) + (ops_bytes(self.ops) + self.debug_bytes(debug, version))))
    }

    /// What there is for debugging, as bytes.
    pub open spec fn debug_bytes(self, debug: bool, version: u8) -> Seq<u8> {
        if !debug {
            Seq::empty()
        } else if version < 3 {
            lines_bytes(self.lines)
        } else {
            lines_bytes(self.lines) + pair_list_bytes(self.assigns)
        }
    }
}

/// The number of a function is read as it was written, and the function is passed as a whole.
pub proof fn law_function_is_read_as_written(
    image: Seq<u8>,
    at: int,
    f: FunctionText,
    debug: bool,
    version: u8,
)
    requires
        f.writes(debug),
        stands_at(image, at, f.bytes(debug, version)),
    ensures
        function(image, at, debug, version) == Ok::<(i32, int), Flaw>(
            (f.findex, at + f.bytes(debug, version).len()),
        ),
        f.bytes(debug, version).len() >= 1,
{
    let head = seq![f.t, f.findex];
    let sizes = seq![f.regs.len() as i32, f.ops.len() as i32];
    let d4 = f.debug_bytes(debug, version);
    let d3 = ops_bytes(f.ops) + d4;
    let d2 = written_all(f.regs) + d3;
    let d1 = written_all(sizes) + d2;
    lemma_stands(image, at, written_all(head), d1);
    law_numbers_are_read_as_written(image, at, head);
    lemma_list_len(head);
    let a = at + written_all(head).len();
    lemma_stands(image, a, written_all(sizes), d2);
    law_numbers_are_read_as_written(image, a, sizes);
    let b = a + written_all(sizes).len();
    lemma_stands(image, b, written_all(f.regs), d3);
    law_numbers_are_read_as_written(image, b, f.regs);
    let c = b + written_all(f.regs).len();
    lemma_stands(image, c, ops_bytes(f.ops), d4);
    law_instructions_are_passed_as_written(image, c, f.ops);
    let d = c + ops_bytes(f.ops).len();
    if debug {
        if version >= 3 {
            lemma_stands(image, d, lines_bytes(f.lines), pair_list_bytes(f.assigns));
            law_field_list_is_passed_as_written(
                image,
                d + lines_bytes(f.lines).len(),
                f.assigns,
            );
        }
        law_source_lines_are_passed_as_written(image, d, f.lines, f.ops.len() as int, 0);
    }
}

/// Functions as bytes.
pub open spec fn functions_bytes(list: Seq<FunctionText>, debug: bool, version: u8) -> Seq<u8>
    decreases list.len(),
{
    if list.len() == 0 {
        Seq::empty()
    } else {
        list[0].bytes(debug, version) + functions_bytes(list.drop_first(), debug, version)
    }
}

/// The numbers of functions.
pub open spec fn function_numbers(list: Seq<FunctionText>) -> Seq<i32> {
    Seq::new(list.len(), |i: int| list[i].findex)
}

/// The numbers of functions are read as they were written, behind those that were read before.
pub proof fn law_functions_are_read_as_written(
    image: Seq<u8>,
    at: int,
    list: Seq<FunctionText>,
    debug: bool,
    version: u8,
    got: Seq<i32>,
)
    requires
        forall|i: int| 0 <= i < list.len() ==> (#[trigger] list[i]).writes(debug),
        stands_at(image, at, functions_bytes(list, debug, version)),
    ensures
        functions(image, at, list.len() as int, debug, version, got) == Ok::<
            (Seq<i32>, int),
            Flaw,
        >((got + function_numbers(list), at + functions_bytes(list, debug, version).len())),
        functions_bytes(list, debug, version).len() >= list.len(),
    decreases list.len(),
{
    if list.len() == 0 {
        assert(got + function_numbers(list) =~= got);
    } else {
        let rest = list.drop_first();
        let f = list[0];
        lemma_stands(image, at, f.bytes(debug, version), functions_bytes(rest, debug, version));
        law_function_is_read_as_written(image, at, f, debug, version);
        assert forall|i: int| 0 <= i < rest.len() implies (#[trigger] rest[i]).writes(debug) by {
            assert(rest[i] == list[i + 1]);
        }
        law_functions_are_read_as_written(
            image,
            at + f.bytes(debug, version).len(),
            rest,
            debug,
            version,
            got.push(f.findex),
        );
        assert(got.push(f.findex) + function_numbers(rest) =~= got + function_numbers(list));
    }
}

/// Constants as bytes: for each the global it is in, and the values of its fields.
pub open spec fn constants_bytes(list: Seq<(i32, Seq<i32>)>) -> Seq<u8>
    decreases list.len(),
{
    if list.len() == 0 {
        Seq::empty()
    } else {
        constant_bytes(list[0]) + constants_bytes(list.drop_first())
    }
}

/// A constant as bytes.
pub open spec fn constant_bytes(c: (i32, Seq<i32>)) -> Seq<u8> {
    written(c.0) + (written(c.1.len() as i32) + written_all(c.1))
}

/// The format can hold a constant.
pub open spec fn constant_writes(c: (i32, Seq<i32>)) -> bool {
    writes(c.0) && all_write(c.1) && none_below_zero(c.1) && c.1.len() < 0x2000_0000
}

/// Constants are passed as a whole.
pub proof fn law_constants_are_passed_as_written(
    image: Seq<u8>,
    at: int,
    list: Seq<(i32, Seq<i32>)>,
)
    requires
        forall|i: int| 0 <= i < list.len() ==> constant_writes(#[trigger] list[i]),
        stands_at(image, at, constants_bytes(list)),
    ensures
        constants(image, at, list.len() as int) == Ok::<int, Flaw>(
            at + constants_bytes(list).len(),
        ),
        constants_bytes(list).len() >= list.len(),
    decreases list.len(),
{
    if list.len() > 0 {
        let rest = list.drop_first();
        let c = list[0];
        let n = c.1.len() as i32;
        lemma_stands(image, at, constant_bytes(c), constants_bytes(rest));
        lemma_stands(image, at, written(c.0), written(n) + written_all(c.1));
        lemma_number(image, at, c.0);
        let a = at + written(c.0).len();
        lemma_stands(image, a, written(n), written_all(c.1));
        lemma_number(image, a, n);
        law_numbers_are_read_as_written(image, a + written(n).len(), c.1);
        assert forall|i: int| 0 <= i < rest.len() implies constant_writes(#[trigger] rest[i]) by {
            assert(rest[i] == list[i + 1]);
        }
        law_constants_are_passed_as_written(image, at + constant_bytes(c).len(), rest);
    }
}

} // verus!
