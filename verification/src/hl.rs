//! The HashLink bytecode types that the patches work on, as `hlbc` defines them.
//!
//! Every type but the last two is declared with its fields, so Verus reads the definition in
//! `hlbc` itself: a pattern match or a constructor in verified code means what it means to the
//! compiler, and nothing is taken on trust. `hlbc::Bytecode` has private tables, and
//! `hlbc::Error` holds an I/O error, so those two are opaque.

use vstd::prelude::*;

verus! {

/// `hlbc::types::Reg`, a register of a function.
#[verifier::external_type_specification]
pub struct ExReg(hlbc::types::Reg);

/// `hlbc::types::RefInt`, an index into the integer pool.
#[verifier::external_type_specification]
pub struct ExRefInt(hlbc::types::RefInt);

/// `hlbc::types::RefFloat`, an index into the float pool.
#[verifier::external_type_specification]
pub struct ExRefFloat(hlbc::types::RefFloat);

/// `hlbc::types::RefBytes`, an index into the byte-array pool.
#[verifier::external_type_specification]
pub struct ExRefBytes(hlbc::types::RefBytes);

/// `hlbc::types::RefString`, an index into the string pool.
#[verifier::external_type_specification]
pub struct ExRefString(hlbc::types::RefString);

/// `hlbc::types::ValBool`, an inline boolean.
#[verifier::external_type_specification]
pub struct ExValBool(hlbc::types::ValBool);

/// `hlbc::types::RefGlobal`, an index into the globals.
#[verifier::external_type_specification]
pub struct ExRefGlobal(hlbc::types::RefGlobal);

/// `hlbc::types::RefField`, an index into the flattened field list of a class.
#[verifier::external_type_specification]
pub struct ExRefField(hlbc::types::RefField);

/// `hlbc::types::RefFun`, the number (findex) of a function or native.
#[verifier::external_type_specification]
pub struct ExRefFun(hlbc::types::RefFun);

/// `hlbc::types::RefType`, an index into the types.
#[verifier::external_type_specification]
pub struct ExRefType(hlbc::types::RefType);

/// `hlbc::types::RefEnumConstruct`, an index into the constructors of an enum.
#[verifier::external_type_specification]
pub struct ExRefEnumConstruct(hlbc::types::RefEnumConstruct);

/// `hlbc::opcodes::Opcode`, one instruction.
#[verifier::external_type_specification]
pub struct ExOpcode(hlbc::opcodes::Opcode);

/// `hlbc::types::Function`, a function with its registers and instructions.
#[verifier::external_type_specification]
pub struct ExFunction(hlbc::types::Function);

/// `hlbc::types::Native`, a function that the runtime supplies.
#[verifier::external_type_specification]
pub struct ExNative(hlbc::types::Native);

/// `hlbc::types::ObjField`, a field of a class.
#[verifier::external_type_specification]
pub struct ExObjField(hlbc::types::ObjField);

/// `hlbc::types::ObjProto`, a method of a class.
#[verifier::external_type_specification]
pub struct ExObjProto(hlbc::types::ObjProto);

/// `hlbc::types::EnumConstruct`, a constructor of an enum.
#[verifier::external_type_specification]
pub struct ExEnumConstruct(hlbc::types::EnumConstruct);

/// `hlbc::types::TypeFun`, a function signature.
#[verifier::external_type_specification]
pub struct ExTypeFun(hlbc::types::TypeFun);

/// `hlbc::types::TypeObj`, a class.
#[verifier::external_type_specification]
pub struct ExTypeObj(hlbc::types::TypeObj);

/// `hlbc::types::Type`, a type of the program.
#[verifier::external_type_specification]
pub struct ExType(hlbc::types::Type);

/// `hlbc::Bytecode`, a whole program as the reader of `hlbc` returns it.
#[verifier::external_type_specification]
#[verifier::external_body]
pub struct ExBytecode(hlbc::Bytecode);

/// `hlbc::Error`, why a program could not be read or written.
#[verifier::external_type_specification]
#[verifier::external_body]
pub struct ExError(hlbc::Error);

} // verus!
