//! The numbers that the format of `hlboot.dat` can hold.
//!
//! The writer of `hlbc` cuts every number to 32 bits, and then takes it apart by its sign. One that
//! comes out as the smallest of all has no counterpart without its sign, and cannot be taken apart.

use vstd::prelude::*;
use hlbc::opcodes::Opcode;
use hlbc::types::{
    EnumConstruct, Function, Native, ObjField, ObjProto, RefField, RefFun, RefString, RefType, Reg,
    Type, TypeFun, TypeObj,
};
use std::collections::HashMap;
use crate::module::{
    class_view, function_view, texts_view, type_view, ClassView, FunctionView, Module, ModuleView,
    TypeView,
};
use crate::text::chars_of;

verus! {

/// The number, cut to 32 bits, is not the smallest one.
pub open spec fn fits(n: int) -> bool {
    n % 0x1_0000_0000 != 0x8000_0000
}

/// The length of a list or a text that the format can hold. A character takes at most four bytes.
pub open spec fn short(len: nat) -> bool {
    len < 0x2000_0000
}

/// The longest run of instructions that may have the same source line. The writer of `hlbc` goes
/// one call deeper for every fifteen of them.
pub const LONGEST_RUN: usize = 0x8000;

/// The number of instructions at the end of a list that have the same source line.
pub open spec fn run_length(lines: Seq<(usize, usize)>) -> nat
    decreases lines.len(),
{
    if lines.len() == 0 {
        0
    } else if lines.len() == 1 || lines[lines.len() - 2].1 != lines.last().1 {
        1
    } else {
        run_length(lines.drop_last()) + 1
    }
}

/// The source lines are such that their distances can be taken, and no run of equal ones is too
/// long.
pub open spec fn lines_fit(lines: Seq<(usize, usize)>) -> bool {
    &&& forall|i: int| 0 <= i < lines.len() ==> (#[trigger] lines[i]).1 <= i32::MAX
    &&& forall|i: int| 0 <= i <= lines.len() ==> run_length(#[trigger] lines.take(i)) <= LONGEST_RUN
}

/// The registers can be written.
pub open spec fn regs_fit(regs: Seq<Reg>) -> bool {
    forall|i: int| 0 <= i < regs.len() ==> fits((#[trigger] regs[i]).0 as int)
}

/// The jumps of a table can be written.
pub open spec fn offsets_fit(offsets: Seq<i32>) -> bool {
    short(offsets.len()) && forall|i: int|
        0 <= i < offsets.len() ==> fits(#[trigger] offsets[i] as int)
}

/// The operands of an instruction can be written.
pub open spec fn op_fits(op: Opcode) -> bool {
    match op {
        Opcode::Mov { dst: a, src: b }
        | Opcode::Neg { dst: a, src: b }
        | Opcode::Not { dst: a, src: b }
        | Opcode::ToDyn { dst: a, src: b }
        | Opcode::ToSFloat { dst: a, src: b }
        | Opcode::ToUFloat { dst: a, src: b }
        | Opcode::ToInt { dst: a, src: b }
        | Opcode::SafeCast { dst: a, src: b }
        | Opcode::UnsafeCast { dst: a, src: b }
        | Opcode::ToVirtual { dst: a, src: b }
        | Opcode::ArraySize { dst: a, array: b }
        | Opcode::GetType { dst: a, src: b }
        | Opcode::GetTID { dst: a, src: b }
        | Opcode::Ref { dst: a, src: b }
        | Opcode::Unref { dst: a, src: b }
        | Opcode::Setref { dst: a, value: b }
        | Opcode::EnumIndex { dst: a, value: b }
        | Opcode::RefData { dst: a, src: b } => fits(a.0 as int) && fits(b.0 as int),
        Opcode::Int { dst: a, ptr: b } => fits(a.0 as int) && fits(b.0 as int),
        Opcode::Float { dst: a, ptr: b } => fits(a.0 as int) && fits(b.0 as int),
        Opcode::Bool { dst: a, value: _ } => fits(a.0 as int),
        Opcode::Bytes { dst: a, ptr: b } => fits(a.0 as int) && fits(b.0 as int),
        Opcode::String { dst: a, ptr: b } => fits(a.0 as int) && fits(b.0 as int),
        Opcode::Null { dst: a }
        | Opcode::Incr { dst: a }
        | Opcode::Decr { dst: a }
        | Opcode::Ret { ret: a }
        | Opcode::Throw { exc: a }
        | Opcode::Rethrow { exc: a }
        | Opcode::NullCheck { reg: a }
        | Opcode::EndTrap { exc: a }
        | Opcode::New { dst: a } => fits(a.0 as int),
        Opcode::Add { dst: a, a: b, b: c }
        | Opcode::Sub { dst: a, a: b, b: c }
        | Opcode::Mul { dst: a, a: b, b: c }
        | Opcode::SDiv { dst: a, a: b, b: c }
        | Opcode::UDiv { dst: a, a: b, b: c }
        | Opcode::SMod { dst: a, a: b, b: c }
        | Opcode::UMod { dst: a, a: b, b: c }
        | Opcode::Shl { dst: a, a: b, b: c }
        | Opcode::SShr { dst: a, a: b, b: c }
        | Opcode::UShr { dst: a, a: b, b: c }
        | Opcode::And { dst: a, a: b, b: c }
        | Opcode::Or { dst: a, a: b, b: c }
        | Opcode::Xor { dst: a, a: b, b: c }
        | Opcode::VirtualClosure { dst: a, obj: b, field: c }
        | Opcode::GetI8 { dst: a, bytes: b, index: c }
        | Opcode::GetI16 { dst: a, bytes: b, index: c }
        | Opcode::GetMem { dst: a, bytes: b, index: c }
        | Opcode::GetArray { dst: a, array: b, index: c }
        | Opcode::SetI8 { bytes: a, index: b, src: c }
        | Opcode::SetI16 { bytes: a, index: b, src: c }
        | Opcode::SetMem { bytes: a, index: b, src: c }
        | Opcode::SetArray { array: a, index: b, src: c }
        | Opcode::RefOffset { dst: a, reg: b, offset: c } => fits(a.0 as int) && fits(b.0 as int) && fits(c.0 as int),
        Opcode::Call0 { dst: a, fun: b }
        | Opcode::StaticClosure { dst: a, fun: b } => fits(a.0 as int) && fits(b.0 as int),
        Opcode::Call1 { dst: a, fun: b, arg0: c }
        | Opcode::InstanceClosure { dst: a, fun: b, obj: c } => fits(a.0 as int) && fits(b.0 as int) && fits(c.0 as int),
        Opcode::Call2 { dst: a, fun: b, arg0: c, arg1: d } => fits(a.0 as int) && fits(b.0 as int) && fits(c.0 as int) && fits(d.0 as int),
        Opcode::Call3 { dst: a, fun: b, arg0: c, arg1: d, arg2: e } => fits(a.0 as int) && fits(b.0 as int) && fits(c.0 as int) && fits(d.0 as int) && fits(e.0 as int),
        Opcode::Call4 { dst: a, fun: b, arg0: c, arg1: d, arg2: e, arg3: f } => fits(a.0 as int) && fits(b.0 as int) && fits(c.0 as int) && fits(d.0 as int) && fits(e.0 as int) && fits(f.0 as int),
        Opcode::CallN { dst: a, fun: b, args: c } => fits(a.0 as int) && fits(b.0 as int) && regs_fit(c@),
        Opcode::CallMethod { dst: a, field: b, args: c }
        | Opcode::CallThis { dst: a, field: b, args: c } => fits(a.0 as int) && fits(b.0 as int) && regs_fit(c@),
        Opcode::CallClosure { dst: a, fun: b, args: c } => fits(a.0 as int) && fits(b.0 as int) && regs_fit(c@),
        Opcode::GetGlobal { dst: a, global: b } => fits(a.0 as int) && fits(b.0 as int),
        Opcode::SetGlobal { global: a, src: b } => fits(a.0 as int) && fits(b.0 as int),
        Opcode::Field { dst: a, obj: b, field: c } => fits(a.0 as int) && fits(b.0 as int) && fits(c.0 as int),
        Opcode::SetField { obj: a, field: b, src: c }
        | Opcode::SetEnumField { value: a, field: b, src: c } => fits(a.0 as int) && fits(b.0 as int) && fits(c.0 as int),
        Opcode::GetThis { dst: a, field: b } => fits(a.0 as int) && fits(b.0 as int),
        Opcode::SetThis { field: a, src: b } => fits(a.0 as int) && fits(b.0 as int),
        Opcode::DynGet { dst: a, obj: b, field: c } => fits(a.0 as int) && fits(b.0 as int) && fits(c.0 as int),
        Opcode::DynSet { obj: a, field: b, src: c } => fits(a.0 as int) && fits(b.0 as int) && fits(c.0 as int),
        Opcode::JTrue { cond: a, offset: b }
        | Opcode::JFalse { cond: a, offset: b }
        | Opcode::JNull { reg: a, offset: b }
        | Opcode::JNotNull { reg: a, offset: b }
        | Opcode::Trap { exc: a, offset: b } => fits(a.0 as int) && fits(b as int),
        Opcode::JSLt { a, b, offset: c }
        | Opcode::JSGte { a, b, offset: c }
        | Opcode::JSGt { a, b, offset: c }
        | Opcode::JSLte { a, b, offset: c }
        | Opcode::JULt { a, b, offset: c }
        | Opcode::JUGte { a, b, offset: c }
        | Opcode::JNotLt { a, b, offset: c }
        | Opcode::JNotGte { a, b, offset: c }
        | Opcode::JEq { a, b, offset: c }
        | Opcode::JNotEq { a, b, offset: c } => fits(a.0 as int) && fits(b.0 as int) && fits(c as int),
        Opcode::JAlways { offset: a } => fits(a as int),
        Opcode::Label
        | Opcode::Assert
        | Opcode::Nop => true,
        Opcode::Switch { reg: a, offsets: b, end: c } => fits(a.0 as int) && offsets_fit(b@) && fits(c as int),
        Opcode::Type { dst: a, ty: b } => fits(a.0 as int) && fits(b.0 as int),
        Opcode::MakeEnum { dst: a, construct: b, args: c } => fits(a.0 as int) && fits(b.0 as int) && regs_fit(c@),
        Opcode::EnumAlloc { dst: a, construct: b } => fits(a.0 as int) && fits(b.0 as int),
        Opcode::EnumField { dst: a, value: b, construct: c, field: d } => fits(a.0 as int) && fits(b.0 as int) && fits(c.0 as int) && fits(d.0 as int),
    }
}

/// Whether a number can be written.
fn index_fits(n: usize) -> (fine: bool)
    ensures
        fine == fits(n as int),
{
    n as u64 % 0x1_0000_0000 != 0x8000_0000
}

/// Whether a register can be written.
fn reg_fits(reg: Reg) -> (fine: bool)
    ensures
        fine == fits(reg.0 as int),
{
    reg.0 != 0x8000_0000
}

/// Whether a jump can be written.
fn offset_fits(offset: i32) -> (fine: bool)
    ensures
        fine == fits(offset as int),
{
    offset != i32::MIN
}

/// Whether registers can be written.
fn all_regs_fit(regs: &Vec<Reg>) -> (fine: bool)
    ensures
        fine == regs_fit(regs@),
{
    for i in 0..regs.len()
        invariant
            forall|j: int| 0 <= j < i ==> fits((#[trigger] regs@[j]).0 as int),
    {
        if !reg_fits(regs[i]) {
            return false;
        }
    }
    true
}

/// Whether the jumps of a table can be written.
fn all_offsets_fit(offsets: &Vec<i32>) -> (fine: bool)
    ensures
        fine == offsets_fit(offsets@),
{
    if offsets.len() >= 0x2000_0000 {
        return false;
    }
    for i in 0..offsets.len()
        invariant
            forall|j: int| 0 <= j < i ==> fits(#[trigger] offsets@[j] as int),
    {
        if !offset_fits(offsets[i]) {
            return false;
        }
    }
    true
}

/// Whether the operands of an instruction can be written.
fn operands_fit(op: &Opcode) -> (fine: bool)
    ensures
        fine == op_fits(*op),
{
    match op {
        Opcode::Mov { dst: a, src: b }
        | Opcode::Neg { dst: a, src: b }
        | Opcode::Not { dst: a, src: b }
        | Opcode::ToDyn { dst: a, src: b }
        | Opcode::ToSFloat { dst: a, src: b }
        | Opcode::ToUFloat { dst: a, src: b }
        | Opcode::ToInt { dst: a, src: b }
        | Opcode::SafeCast { dst: a, src: b }
        | Opcode::UnsafeCast { dst: a, src: b }
        | Opcode::ToVirtual { dst: a, src: b }
        | Opcode::ArraySize { dst: a, array: b }
        | Opcode::GetType { dst: a, src: b }
        | Opcode::GetTID { dst: a, src: b }
        | Opcode::Ref { dst: a, src: b }
        | Opcode::Unref { dst: a, src: b }
        | Opcode::Setref { dst: a, value: b }
        | Opcode::EnumIndex { dst: a, value: b }
        | Opcode::RefData { dst: a, src: b } => reg_fits(*a) && reg_fits(*b),
        Opcode::Int { dst: a, ptr: b } => reg_fits(*a) && index_fits(b.0),
        Opcode::Float { dst: a, ptr: b } => reg_fits(*a) && index_fits(b.0),
        Opcode::Bool { dst: a, value: _ } => reg_fits(*a),
        Opcode::Bytes { dst: a, ptr: b } => reg_fits(*a) && index_fits(b.0),
        Opcode::String { dst: a, ptr: b } => reg_fits(*a) && index_fits(b.0),
        Opcode::Null { dst: a }
        | Opcode::Incr { dst: a }
        | Opcode::Decr { dst: a }
        | Opcode::Ret { ret: a }
        | Opcode::Throw { exc: a }
        | Opcode::Rethrow { exc: a }
        | Opcode::NullCheck { reg: a }
        | Opcode::EndTrap { exc: a }
        | Opcode::New { dst: a } => reg_fits(*a),
        Opcode::Add { dst: a, a: b, b: c }
        | Opcode::Sub { dst: a, a: b, b: c }
        | Opcode::Mul { dst: a, a: b, b: c }
        | Opcode::SDiv { dst: a, a: b, b: c }
        | Opcode::UDiv { dst: a, a: b, b: c }
        | Opcode::SMod { dst: a, a: b, b: c }
        | Opcode::UMod { dst: a, a: b, b: c }
        | Opcode::Shl { dst: a, a: b, b: c }
        | Opcode::SShr { dst: a, a: b, b: c }
        | Opcode::UShr { dst: a, a: b, b: c }
        | Opcode::And { dst: a, a: b, b: c }
        | Opcode::Or { dst: a, a: b, b: c }
        | Opcode::Xor { dst: a, a: b, b: c }
        | Opcode::VirtualClosure { dst: a, obj: b, field: c }
        | Opcode::GetI8 { dst: a, bytes: b, index: c }
        | Opcode::GetI16 { dst: a, bytes: b, index: c }
        | Opcode::GetMem { dst: a, bytes: b, index: c }
        | Opcode::GetArray { dst: a, array: b, index: c }
        | Opcode::SetI8 { bytes: a, index: b, src: c }
        | Opcode::SetI16 { bytes: a, index: b, src: c }
        | Opcode::SetMem { bytes: a, index: b, src: c }
        | Opcode::SetArray { array: a, index: b, src: c }
        | Opcode::RefOffset { dst: a, reg: b, offset: c } => reg_fits(*a) && reg_fits(*b) && reg_fits(*c),
        Opcode::Call0 { dst: a, fun: b }
        | Opcode::StaticClosure { dst: a, fun: b } => reg_fits(*a) && index_fits(b.0),
        Opcode::Call1 { dst: a, fun: b, arg0: c }
        | Opcode::InstanceClosure { dst: a, fun: b, obj: c } => reg_fits(*a) && index_fits(b.0) && reg_fits(*c),
        Opcode::Call2 { dst: a, fun: b, arg0: c, arg1: d } => reg_fits(*a) && index_fits(b.0) && reg_fits(*c) && reg_fits(*d),
        Opcode::Call3 { dst: a, fun: b, arg0: c, arg1: d, arg2: e } => reg_fits(*a) && index_fits(b.0) && reg_fits(*c) && reg_fits(*d) && reg_fits(*e),
        Opcode::Call4 { dst: a, fun: b, arg0: c, arg1: d, arg2: e, arg3: f } => reg_fits(*a) && index_fits(b.0) && reg_fits(*c) && reg_fits(*d) && reg_fits(*e) && reg_fits(*f),
        Opcode::CallN { dst: a, fun: b, args: c } => reg_fits(*a) && index_fits(b.0) && all_regs_fit(c),
        Opcode::CallMethod { dst: a, field: b, args: c }
        | Opcode::CallThis { dst: a, field: b, args: c } => reg_fits(*a) && index_fits(b.0) && all_regs_fit(c),
        Opcode::CallClosure { dst: a, fun: b, args: c } => reg_fits(*a) && reg_fits(*b) && all_regs_fit(c),
        Opcode::GetGlobal { dst: a, global: b } => reg_fits(*a) && index_fits(b.0),
        Opcode::SetGlobal { global: a, src: b } => index_fits(a.0) && reg_fits(*b),
        Opcode::Field { dst: a, obj: b, field: c } => reg_fits(*a) && reg_fits(*b) && index_fits(c.0),
        Opcode::SetField { obj: a, field: b, src: c }
        | Opcode::SetEnumField { value: a, field: b, src: c } => reg_fits(*a) && index_fits(b.0) && reg_fits(*c),
        Opcode::GetThis { dst: a, field: b } => reg_fits(*a) && index_fits(b.0),
        Opcode::SetThis { field: a, src: b } => index_fits(a.0) && reg_fits(*b),
        Opcode::DynGet { dst: a, obj: b, field: c } => reg_fits(*a) && reg_fits(*b) && index_fits(c.0),
        Opcode::DynSet { obj: a, field: b, src: c } => reg_fits(*a) && index_fits(b.0) && reg_fits(*c),
        Opcode::JTrue { cond: a, offset: b }
        | Opcode::JFalse { cond: a, offset: b }
        | Opcode::JNull { reg: a, offset: b }
        | Opcode::JNotNull { reg: a, offset: b }
        | Opcode::Trap { exc: a, offset: b } => reg_fits(*a) && offset_fits(*b),
        Opcode::JSLt { a, b, offset: c }
        | Opcode::JSGte { a, b, offset: c }
        | Opcode::JSGt { a, b, offset: c }
        | Opcode::JSLte { a, b, offset: c }
        | Opcode::JULt { a, b, offset: c }
        | Opcode::JUGte { a, b, offset: c }
        | Opcode::JNotLt { a, b, offset: c }
        | Opcode::JNotGte { a, b, offset: c }
        | Opcode::JEq { a, b, offset: c }
        | Opcode::JNotEq { a, b, offset: c } => reg_fits(*a) && reg_fits(*b) && offset_fits(*c),
        Opcode::JAlways { offset: a } => offset_fits(*a),
        Opcode::Label
        | Opcode::Assert
        | Opcode::Nop => true,
        Opcode::Switch { reg: a, offsets: b, end: c } => reg_fits(*a) && all_offsets_fit(b) && offset_fits(*c),
        Opcode::Type { dst: a, ty: b } => reg_fits(*a) && index_fits(b.0),
        Opcode::MakeEnum { dst: a, construct: b, args: c } => reg_fits(*a) && index_fits(b.0) && all_regs_fit(c),
        Opcode::EnumAlloc { dst: a, construct: b } => reg_fits(*a) && index_fits(b.0),
        Opcode::EnumField { dst: a, value: b, construct: c, field: d } => reg_fits(*a) && reg_fits(*b) && index_fits(c.0) && index_fits(d.0),
    }
}

/// References to types can be written.
pub open spec fn refs_fit(refs: Seq<RefType>) -> bool {
    short(refs.len()) && forall|i: int| 0 <= i < refs.len() ==> fits((#[trigger] refs[i]).0 as int)
}

/// Whether references to types can be written.
fn all_refs_fit(refs: &Vec<RefType>) -> (fine: bool)
    ensures
        fine == refs_fit(refs@),
{
    if refs.len() >= 0x2000_0000 {
        return false;
    }
    for i in 0..refs.len()
        invariant
            forall|j: int| 0 <= j < i ==> fits((#[trigger] refs@[j]).0 as int),
    {
        if !index_fits(refs[i].0) {
            return false;
        }
    }
    true
}

/// Fields can be written.
pub open spec fn fields_fit(fields: Seq<ObjField>) -> bool {
    short(fields.len()) && forall|i: int|
        0 <= i < fields.len() ==> fits((#[trigger] fields[i]).name.0 as int) && fits(
            fields[i].t.0 as int,
        )
}

/// Whether fields can be written.
fn all_fields_fit(fields: &Vec<ObjField>) -> (fine: bool)
    ensures
        fine == fields_fit(fields@),
{
    if fields.len() >= 0x2000_0000 {
        return false;
    }
    for i in 0..fields.len()
        invariant
            forall|j: int|
                0 <= j < i ==> fits((#[trigger] fields@[j]).name.0 as int) && fits(
                    fields@[j].t.0 as int,
                ),
    {
        if !index_fits(fields[i].name.0) || !index_fits(fields[i].t.0) {
            return false;
        }
    }
    true
}

/// A method of a class can be written.
pub open spec fn proto_fits(proto: ObjProto) -> bool {
    fits(proto.name.0 as int) && fits(proto.findex.0 as int) && fits(proto.pindex as int)
}

/// The methods of a class can be written.
pub open spec fn protos_fit(protos: Seq<ObjProto>) -> bool {
    short(protos.len()) && forall|i: int|
        0 <= i < protos.len() ==> proto_fits(#[trigger] protos[i])
}

/// Whether the methods of a class can be written.
fn all_protos_fit(protos: &Vec<ObjProto>) -> (fine: bool)
    ensures
        fine == protos_fit(protos@),
{
    if protos.len() >= 0x2000_0000 {
        return false;
    }
    for i in 0..protos.len()
        invariant
            forall|j: int| 0 <= j < i ==> proto_fits(#[trigger] protos@[j]),
    {
        let proto = &protos[i];
        if !index_fits(proto.name.0) || !index_fits(proto.findex.0) || !offset_fits(proto.pindex) {
            assert(!proto_fits(protos@[i as int]));
            return false;
        }
    }
    true
}

/// The bindings of a class can be written.
pub open spec fn bindings_fit(bindings: Map<RefField, RefFun>) -> bool {
    short(bindings.dom().len()) && forall|field: RefField| #[trigger]
        bindings.dom().contains(field) ==> fits(field.0 as int) && fits(bindings[field].0 as int)
}

/// `HashMap::iter`, with the entries in a list.
///
/// Claimed is that the list holds the entries of the map, each once. In which order they come is
/// not said: it may differ from run to run.
#[verifier::external_body]
pub(crate) fn list_bindings(bindings: &HashMap<RefField, RefFun>) -> (list: Vec<
    (RefField, RefFun),
>)
    ensures
        list@.len() == bindings@.dom().len(),
        list@.no_duplicates(),
        forall|i: int|
            0 <= i < list@.len() ==> bindings@.contains_pair(
                (#[trigger] list@[i]).0,
                list@[i].1,
            ),
        forall|field: RefField| #[trigger]
            bindings@.dom().contains(field) ==> list@.contains((field, bindings@[field])),
{
    bindings.iter().map(|(field, fun)| (*field, *fun)).collect()
}

/// Whether the bindings of a class can be written.
fn all_bindings_fit(bindings: &HashMap<RefField, RefFun>) -> (fine: bool)
    ensures
        fine == bindings_fit(bindings@),
{
    let list = list_bindings(bindings);
    if list.len() >= 0x2000_0000 {
        return false;
    }
    for i in 0..list.len()
        invariant
            forall|j: int|
                0 <= j < list@.len() ==> bindings@.contains_pair(
                    (#[trigger] list@[j]).0,
                    list@[j].1,
                ),
            forall|j: int|
                0 <= j < i ==> fits((#[trigger] list@[j]).0.0 as int) && fits(list@[j].1.0 as int),
    {
        if !index_fits(list[i].0.0) || !index_fits(list[i].1.0) {
            proof {
                let (field, fun) = list@[i as int];
                assert(bindings@.contains_pair(field, fun));
                assert(bindings@.dom().contains(field));
            }
            return false;
        }
    }
    proof {
        assert forall|field: RefField| #[trigger] bindings@.dom().contains(field) implies fits(
            field.0 as int,
        ) && fits(bindings@[field].0 as int) by {
            let pair = (field, bindings@[field]);
            assert(list@.contains(pair));
            let j = choose|j: int| 0 <= j < list@.len() && list@[j] == pair;
            assert(fits(list@[j].0.0 as int));
        }
    }
    true
}

/// A class can be written.
pub open spec fn class_fits(class: ClassView) -> bool {
    &&& fits(class.name.0 as int)
    &&& class.super_ matches Some(parent) ==> fits(parent.0 as int)
    &&& fits(class.global.0 as int)
    &&& fields_fit(class.own_fields)
    &&& protos_fit(class.protos)
    &&& bindings_fit(class.bindings)
}

/// Whether a class can be written.
fn is_class_fit(obj: &TypeObj) -> (fine: bool)
    ensures
        fine == class_fits(class_view(*obj)),
{
    let parent = match &obj.super_ {
        Some(parent) => index_fits(parent.0),
        None => true,
    };
    parent && index_fits(obj.name.0) && index_fits(obj.global.0) && all_fields_fit(&obj.own_fields)
        && all_protos_fit(&obj.protos) && all_bindings_fit(&obj.bindings)
}

/// A construct of an enumeration can be written.
pub open spec fn construct_fits(construct: EnumConstruct) -> bool {
    fits(construct.name.0 as int) && refs_fit(construct.params@)
}

/// The constructs of an enumeration can be written.
pub open spec fn constructs_fit(constructs: Seq<EnumConstruct>) -> bool {
    short(constructs.len()) && forall|i: int|
        0 <= i < constructs.len() ==> construct_fits(#[trigger] constructs[i])
}

/// Whether the constructs of an enumeration can be written.
fn all_constructs_fit(constructs: &Vec<EnumConstruct>) -> (fine: bool)
    ensures
        fine == constructs_fit(constructs@),
{
    if constructs.len() >= 0x2000_0000 {
        return false;
    }
    for i in 0..constructs.len()
        invariant
            forall|j: int| 0 <= j < i ==> construct_fits(#[trigger] constructs@[j]),
    {
        if !index_fits(constructs[i].name.0) || !all_refs_fit(&constructs[i].params) {
            assert(!construct_fits(constructs@[i as int]));
            return false;
        }
    }
    true
}

/// A type can be written.
pub open spec fn type_fits(t: TypeView) -> bool {
    match t {
        TypeView::Class(class) => class_fits(class),
        TypeView::Struct(class) => class_fits(class),
        TypeView::Other(Type::Fun(fun)) => refs_fit(fun.args@) && fits(fun.ret.0 as int),
        TypeView::Other(Type::Method(fun)) => refs_fit(fun.args@) && fits(fun.ret.0 as int),
        TypeView::Other(Type::Ref(inner)) => fits(inner.0 as int),
        TypeView::Other(Type::Null(inner)) => fits(inner.0 as int),
        TypeView::Other(Type::Packed(inner)) => fits(inner.0 as int),
        TypeView::Other(Type::Virtual { fields }) => fields_fit(fields@),
        TypeView::Other(Type::Abstract { name }) => fits(name.0 as int),
        TypeView::Other(Type::Enum { name, global, constructs }) => fits(name.0 as int) && fits(
            global.0 as int,
        ) && constructs_fit(constructs@),
        TypeView::Other(_) => true,
    }
}

/// Whether a function signature can be written.
fn is_signature_fit(fun: &TypeFun) -> (fine: bool)
    ensures
        fine == (refs_fit(fun.args@) && fits(fun.ret.0 as int)),
{
    all_refs_fit(&fun.args) && index_fits(fun.ret.0)
}

/// Whether a type can be written.
fn is_type_fit(t: &Type) -> (fine: bool)
    ensures
        fine == type_fits(type_view(*t)),
{
    match t {
        Type::Obj(obj) => is_class_fit(obj),
        Type::Struct(obj) => is_class_fit(obj),
        Type::Fun(fun) => is_signature_fit(fun),
        Type::Method(fun) => is_signature_fit(fun),
        Type::Ref(inner) => index_fits(inner.0),
        Type::Null(inner) => index_fits(inner.0),
        Type::Packed(inner) => index_fits(inner.0),
        Type::Virtual { fields } => all_fields_fit(fields),
        Type::Abstract { name } => index_fits(name.0),
        Type::Enum { name, global, constructs } => index_fits(name.0) && index_fits(global.0)
            && all_constructs_fit(constructs),
        _ => true,
    }
}

/// A function that the runtime supplies can be written.
pub open spec fn native_fits(native: Native) -> bool {
    &&& fits(native.lib.0 as int)
    &&& fits(native.name.0 as int)
    &&& fits(native.t.0 as int)
    &&& fits(native.findex.0 as int)
}

/// Whether a function that the runtime supplies can be written.
fn is_native_fit(native: &Native) -> (fine: bool)
    ensures
        fine == native_fits(*native),
{
    index_fits(native.lib.0) && index_fits(native.name.0) && index_fits(native.t.0) && index_fits(
        native.findex.0,
    )
}

/// The names that a function gives its registers can be written.
pub open spec fn assigns_fit(assigns: Seq<(RefString, usize)>) -> bool {
    short(assigns.len()) && forall|i: int|
        0 <= i < assigns.len() ==> fits((#[trigger] assigns[i]).0.0 as int) && fits(
            assigns[i].1 as int,
        )
}

/// Whether the names that a function gives its registers can be written.
fn all_assigns_fit(assigns: &Vec<(RefString, usize)>) -> (fine: bool)
    ensures
        fine == assigns_fit(assigns@),
{
    if assigns.len() >= 0x2000_0000 {
        return false;
    }
    for i in 0..assigns.len()
        invariant
            forall|j: int|
                0 <= j < i ==> fits((#[trigger] assigns@[j]).0.0 as int) && fits(
                    assigns@[j].1 as int,
                ),
    {
        if !index_fits(assigns[i].0.0) || !index_fits(assigns[i].1) {
            return false;
        }
    }
    true
}

/// Whether source lines can be written.
fn all_lines_fit(lines: &Vec<(usize, usize)>) -> (fine: bool)
    ensures
        fine == lines_fit(lines@),
{
    let mut run: usize = 0;
    assert(lines@.take(0) =~= Seq::empty());
    for i in 0..lines.len()
        invariant
            forall|j: int| 0 <= j < i ==> (#[trigger] lines@[j]).1 <= i32::MAX,
            forall|j: int| 0 <= j <= i ==> run_length(#[trigger] lines@.take(j)) <= LONGEST_RUN,
            run == run_length(lines@.take(i as int)),
            run <= LONGEST_RUN,
    {
        if lines[i].1 as u64 > i32::MAX as u64 {
            return false;
        }
        let ghost so_far = lines@.take(i + 1);
        assert(so_far.drop_last() =~= lines@.take(i as int));
        if i > 0 && lines[i - 1].1 == lines[i].1 {
            run = run + 1;
        } else {
            run = 1;
        }
        assert(run == run_length(so_far));
        if run > LONGEST_RUN {
            return false;
        }
    }
    true
}

/// A function can be written.
pub open spec fn function_fits(f: FunctionView) -> bool {
    &&& fits(f.t.0 as int)
    &&& fits(f.findex.0 as int)
    &&& refs_fit(f.regs)
    &&& short(f.ops.len())
    &&& forall|i: int| 0 <= i < f.ops.len() ==> op_fits(#[trigger] f.ops[i])
    &&& f.debug_info matches Some(lines) ==> lines_fit(lines)
    &&& f.assigns matches Some(assigns) ==> assigns_fit(assigns)
}

/// Whether a function can be written.
fn is_function_fit(f: &Function) -> (fine: bool)
    ensures
        fine == function_fits(function_view(*f)),
{
    if !index_fits(f.t.0) || !index_fits(f.findex.0) || !all_refs_fit(&f.regs) || f.ops.len()
        >= 0x2000_0000 {
        return false;
    }
    for i in 0..f.ops.len()
        invariant
            forall|j: int| 0 <= j < i ==> op_fits(#[trigger] f.ops@[j]),
    {
        if !operands_fit(&f.ops[i]) {
            return false;
        }
    }
    let lines = match &f.debug_info {
        Some(lines) => all_lines_fit(lines),
        None => true,
    };
    let assigns = match &f.assigns {
        Some(assigns) => all_assigns_fit(assigns),
        None => true,
    };
    lines && assigns
}

/// The texts are not too long, and not too many.
pub open spec fn texts_short(texts: Seq<Seq<char>>) -> bool {
    short(texts.len()) && forall|i: int| 0 <= i < texts.len() ==> short((#[trigger] texts[i]).len())
}

/// The numbers of the program can be written, and its lists are not too long.
pub open spec fn numbers_fit(program: ModuleView) -> bool {
    &&& short(program.ints.len())
    &&& short(program.floats.len())
    &&& texts_short(program.strings)
    &&& program.debug_files matches Some(files) ==> texts_short(files)
    &&& short(program.types.len())
    &&& forall|i: int| 0 <= i < program.types.len() ==> type_fits(#[trigger] program.types[i])
    &&& short(program.natives.len())
    &&& forall|i: int| 0 <= i < program.natives.len() ==> native_fits(#[trigger] program.natives[i])
    &&& short(program.functions.len())
    &&& forall|i: int|
        0 <= i < program.functions.len() ==> function_fits(#[trigger] program.functions[i])
}

/// Whether texts are not too long, and not too many.
fn are_texts_short(texts: &Vec<String>) -> (fine: bool)
    ensures
        fine == texts_short(texts_view(texts@)),
{
    if texts.len() >= 0x2000_0000 {
        return false;
    }
    for i in 0..texts.len()
        invariant
            forall|j: int| 0 <= j < i ==> short((#[trigger] texts_view(texts@)[j]).len()),
    {
        let chars = chars_of(texts[i].as_str());
        if chars.len() >= 0x2000_0000 {
            assert(!short(texts_view(texts@)[i as int].len()));
            return false;
        }
    }
    true
}

/// Whether the numbers of a program can be written, and its lists are not too long.
pub fn do_numbers_fit(program: &Module) -> (fine: bool)
    ensures
        fine == numbers_fit(program@),
{
    if program.ints.len() >= 0x2000_0000 || program.floats.len() >= 0x2000_0000
        || program.types.len() >= 0x2000_0000 || program.natives.len() >= 0x2000_0000
        || program.functions.len() >= 0x2000_0000 || !are_texts_short(&program.strings) {
        return false;
    }
    if let Some(files) = &program.debug_files {
        if !are_texts_short(files) {
            return false;
        }
    }
    for i in 0..program.types.len()
        invariant
            forall|j: int| 0 <= j < i ==> type_fits(#[trigger] program@.types[j]),
    {
        if !is_type_fit(&program.types[i]) {
            assert(!type_fits(program@.types[i as int]));
            return false;
        }
    }
    for i in 0..program.natives.len()
        invariant
            forall|j: int| 0 <= j < i ==> native_fits(#[trigger] program@.natives[j]),
    {
        if !is_native_fit(&program.natives[i]) {
            assert(!native_fits(program@.natives[i as int]));
            return false;
        }
    }
    for i in 0..program.functions.len()
        invariant
            forall|j: int| 0 <= j < i ==> function_fits(#[trigger] program@.functions[j]),
    {
        if !is_function_fit(&program.functions[i]) {
            assert(!function_fits(program@.functions[i as int]));
            return false;
        }
    }
    true
}

} // verus!
