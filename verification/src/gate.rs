//! The check that locks the nodes of the map.
//!
//! `Conquest.getBattleState` decides whether a node shows as locked, unlocked or done. The patch
//! makes it ask for a marker file of the node besides the game's own question, whether the node's
//! column is reachable. Where the file of the non-linear mode exists, the game's own question is
//! left out.

use vstd::prelude::*;
use hlbc::opcodes::Opcode;
use hlbc::types::{RefField, RefFun, RefInt, RefString, RefType, Reg};
use crate::module::{function_view, FunctionView, Module, ModuleView};
use crate::sites::{
    function_at, method_findex, native_findex, outcome, Failure, Method, NativeFn, PatchError,
};

verus! {

/// How a string object is laid out.
///
/// The opcode `String` only loads a raw pointer to the characters. A function that expects a
/// string reads the fields of an object, so new code has to make that object itself.
#[derive(Clone, Copy, Debug)]
pub struct StringShape {
    /// The field that holds the characters.
    pub bytes: RefField,
    /// The field that holds their number.
    pub length: RefField,
    /// The type of a string object.
    pub string_ty: RefType,
    /// The type of a raw pointer to characters.
    pub bytes_ty: RefType,
    /// The type of an integer.
    pub int_ty: RefType,
}

impl ModuleView {
    /// How string objects are laid out, as the code of `String.__add__` (number `add`) shows it.
    pub open spec fn string_shape(self, add: usize) -> Result<StringShape, Failure> {
        match self.function(add, Method::StringAdd) {
            Err(e) => Err(e),
            Ok(i) => {
                let f = self.functions[i];
                if f.ops.len() <= 27 || f.regs.len() <= 8 {
                    Err(Failure::Shape(Method::StringAdd, f.ops.len(), f.regs.len()))
                } else {
                    match (f.ops[7], f.ops[27]) {
                        (
                            Opcode::Field { field: length, .. },
                            Opcode::Field { field: bytes, .. },
                        ) => Ok(
                            StringShape {
                                bytes,
                                length,
                                string_ty: f.regs[0],
                                bytes_ty: f.regs[8],
                                int_ty: f.regs[4],
                            },
                        ),
                        (Opcode::Field { .. }, _) => Err(Failure::Op(Method::StringAdd, 27)),
                        (_, _) => Err(Failure::Op(Method::StringAdd, 7)),
                    }
                }
            },
        }
    }
}

/// Reads off how string objects are laid out.
pub fn string_shape(code: &Module, add: usize) -> (shape: Result<StringShape, PatchError>)
    ensures
        outcome(shape) == code@.string_shape(add),
{
    let at = match function_at(code, add, Method::StringAdd) {
        Ok(i) => i,
        Err(error) => return Err(error),
    };
    let f = &code.functions[at];
    if f.ops.len() <= 27 || f.regs.len() <= 8 {
        return Err(PatchError::Shape(Method::StringAdd, f.ops.len(), f.regs.len()));
    }
    let length = match &f.ops[7] {
        Opcode::Field { field, .. } => *field,
        _ => return Err(PatchError::Op(Method::StringAdd, 7)),
    };
    let bytes = match &f.ops[27] {
        Opcode::Field { field, .. } => *field,
        _ => return Err(PatchError::Op(Method::StringAdd, 27)),
    };
    Ok(
        StringShape {
            bytes,
            length,
            string_ty: f.regs[0],
            bytes_ty: f.regs[8],
            int_ty: f.regs[4],
        },
    )
}

/// The numbers of the functions that the check calls.
#[derive(Clone, Copy, Debug)]
pub struct GateCalls {
    /// `String.__add__`.
    pub add: usize,
    /// `Sys.getPath`.
    pub get_path: usize,
    /// `sys_exists`.
    pub exists: usize,
}

/// The positions of the texts of the check in the pools.
#[derive(Clone, Copy, Debug)]
pub struct GateTexts {
    /// The prefix of the marker paths.
    pub prefix: usize,
    /// The path of the file of the non-linear mode.
    pub flag: usize,
    /// The length of the prefix.
    pub prefix_len: usize,
    /// The length of the path.
    pub flag_len: usize,
}

/// The instructions of the check. They take the place of the jump that followed the game's own
/// question, whose answer is in register 5; the identifier of the node is in register 1. The
/// first instruction after them is the one that unlocks the node, the third the one that locks
/// it.
pub open spec fn gate_ops(shape: StringShape, calls: GateCalls, texts: GateTexts) -> Seq<Opcode> {
    seq![
        Opcode::String { dst: Reg(8), ptr: RefString(texts.flag) },
        Opcode::Int { dst: Reg(9), ptr: RefInt(texts.flag_len) },
        Opcode::New { dst: Reg(10) },
        Opcode::SetField { obj: Reg(10), field: shape.bytes, src: Reg(8) },
        Opcode::SetField { obj: Reg(10), field: shape.length, src: Reg(9) },
        Opcode::Call1 { dst: Reg(11), fun: RefFun(calls.get_path), arg0: Reg(10) },
        Opcode::Call1 { dst: Reg(12), fun: RefFun(calls.exists), arg0: Reg(11) },
        Opcode::JTrue { cond: Reg(12), offset: 1 },
        Opcode::JFalse { cond: Reg(5), offset: 11 },
        Opcode::String { dst: Reg(13), ptr: RefString(texts.prefix) },
        Opcode::Int { dst: Reg(14), ptr: RefInt(texts.prefix_len) },
        Opcode::New { dst: Reg(15) },
        Opcode::SetField { obj: Reg(15), field: shape.bytes, src: Reg(13) },
        Opcode::SetField { obj: Reg(15), field: shape.length, src: Reg(14) },
        Opcode::Call2 { dst: Reg(16), fun: RefFun(calls.add), arg0: Reg(15), arg1: Reg(1) },
        Opcode::Call1 { dst: Reg(17), fun: RefFun(calls.get_path), arg0: Reg(16) },
        Opcode::Call1 { dst: Reg(18), fun: RefFun(calls.exists), arg0: Reg(17) },
        Opcode::JFalse { cond: Reg(18), offset: 2 },
    ]
}

/// The types of the registers that the check adds, from register 8 on. `bool_ty` is the type of
/// a boolean.
pub open spec fn gate_regs(shape: StringShape, bool_ty: RefType) -> Seq<RefType> {
    seq![
        shape.bytes_ty,
        shape.int_ty,
        shape.string_ty,
        shape.bytes_ty,
        bool_ty,
        shape.bytes_ty,
        shape.int_ty,
        shape.string_ty,
        shape.string_ty,
        shape.bytes_ty,
        bool_ty,
    ]
}

/// The source position of the instruction `i` of a function: where none was recorded, zero.
pub open spec fn source_at(lines: Seq<(usize, usize)>, i: int) -> (usize, usize) {
    if i < lines.len() {
        lines[i]
    } else {
        (0, 0)
    }
}

/// The source positions of the patched function: the check has that of the jump it replaces.
pub open spec fn gate_lines(lines: Seq<(usize, usize)>) -> Seq<(usize, usize)> {
    Seq::new(
        31,
        |i: int|
            source_at(
                lines,
                if i < 9 {
                    i
                } else if i < 27 {
                    9
                } else {
                    i - 17
                },
            ),
    )
}

/// `Conquest.getBattleState` with the check in it.
pub open spec fn gated(
    f: FunctionView,
    shape: StringShape,
    calls: GateCalls,
    texts: GateTexts,
) -> FunctionView {
    FunctionView {
        regs: f.regs + gate_regs(shape, f.regs[5]),
        ops: f.ops.take(9).update(1, Opcode::JNull { reg: Reg(2), offset: 2 }) + gate_ops(
            shape,
            calls,
            texts,
        ) + f.ops.subrange(10, 14),
        debug_info: match f.debug_info {
            Some(lines) => Some(gate_lines(lines)),
            None => None,
        },
        assigns: Some(Seq::empty()),
        ..f
    }
}

/// The number of bytes of a text, as the game's code holds it.
pub open spec fn byte_len(text: Seq<char>) -> i32 {
    (vstd::utf8::encode_utf8(text).len() as usize) as i32
}

impl ModuleView {
    /// The number of the global that the function `f` loads in the instruction that unlocks a
    /// node.
    pub open spec fn unlocked_global(f: FunctionView) -> Result<usize, Failure> {
        if f.ops.len() != 14 || f.regs.len() != 8 {
            Err(Failure::Shape(Method::GetBattleState, f.ops.len(), f.regs.len()))
        } else {
            match f.ops[10] {
                Opcode::GetGlobal { global, .. } => Ok(global.0),
                _ => Err(Failure::Op(Method::GetBattleState, 10)),
            }
        }
    }

    /// The numbers of the functions that the check calls.
    pub open spec fn gate_calls(self) -> Result<GateCalls, Failure> {
        match self.method(Method::StringAdd) {
            Err(e) => Err(e),
            Ok(add) => match self.method(Method::SysGetPath) {
                Err(e) => Err(e),
                Ok(get_path) => match self.native(NativeFn::SysExists) {
                    Err(e) => Err(e),
                    Ok(exists) => Ok(GateCalls { add, get_path, exists }),
                },
            },
        }
    }

    /// The program after the patch of `Conquest.getBattleState` (number `gate`), and the number
    /// of the global that stands for an unlocked node. Texts and integers that were added before
    /// an error was found stay in their pools.
    pub open spec fn patch_gate(self, gate: usize, prefix: Seq<char>, flag: Seq<char>) -> (
        ModuleView,
        Result<usize, Failure>,
    ) {
        match self.gate_calls() {
            Err(e) => (self, Err(e)),
            Ok(calls) => {
                let with_texts = self.with_string(prefix).with_string(flag);
                match with_texts.string_shape(calls.add) {
                    Err(e) => (with_texts, Err(e)),
                    Ok(shape) => {
                        let with_lens = with_texts.with_int(byte_len(prefix)).with_int(
                            byte_len(flag),
                        );
                        let texts = GateTexts {
                            prefix: self.strings.len() as usize,
                            flag: (self.strings.len() + 1) as usize,
                            prefix_len: self.ints.len() as usize,
                            flag_len: (self.ints.len() + 1) as usize,
                        };
                        match with_lens.function(gate, Method::GetBattleState) {
                            Err(e) => (with_lens, Err(e)),
                            Ok(i) => {
                                let f = with_lens.functions[i];
                                match ModuleView::unlocked_global(f) {
                                    Err(e) => (with_lens, Err(e)),
                                    Ok(global) => (
                                        with_lens.with_function(i, gated(f, shape, calls, texts)),
                                        Ok(global),
                                    ),
                                }
                            },
                        }
                    },
                }
            },
        }
    }
}

/// The source position of an instruction, or zero.
fn source_of(lines: &Vec<(usize, usize)>, i: usize) -> (at: (usize, usize))
    ensures
        at == source_at(lines@, i as int),
{
    if i < lines.len() {
        lines[i]
    } else {
        (0, 0)
    }
}

/// The source positions of the patched function.
fn gate_sources(lines: &Vec<(usize, usize)>) -> (new_lines: Vec<(usize, usize)>)
    ensures
        new_lines@ == gate_lines(lines@),
{
    let mut new_lines: Vec<(usize, usize)> = Vec::new();
    for i in 0..31
        invariant
            new_lines@ == gate_lines(lines@).take(i as int),
    {
        let k: usize = if i < 9 {
            i
        } else if i < 27 {
            9
        } else {
            i - 17
        };
        new_lines.push(source_of(lines, k));
        assert(gate_lines(lines@).take(i + 1) =~= gate_lines(lines@).take(i as int).push(
            gate_lines(lines@)[i as int],
        ));
    }
    assert(gate_lines(lines@).take(31) =~= gate_lines(lines@));
    new_lines
}

/// The instructions of the check.
fn gate_code(shape: StringShape, calls: GateCalls, texts: GateTexts) -> (ops: Vec<Opcode>)
    ensures
        ops@ == gate_ops(shape, calls, texts),
{
    vec![
        Opcode::String { dst: Reg(8), ptr: RefString(texts.flag) },
        Opcode::Int { dst: Reg(9), ptr: RefInt(texts.flag_len) },
        Opcode::New { dst: Reg(10) },
        Opcode::SetField { obj: Reg(10), field: shape.bytes, src: Reg(8) },
        Opcode::SetField { obj: Reg(10), field: shape.length, src: Reg(9) },
        Opcode::Call1 { dst: Reg(11), fun: RefFun(calls.get_path), arg0: Reg(10) },
        Opcode::Call1 { dst: Reg(12), fun: RefFun(calls.exists), arg0: Reg(11) },
        Opcode::JTrue { cond: Reg(12), offset: 1 },
        Opcode::JFalse { cond: Reg(5), offset: 11 },
        Opcode::String { dst: Reg(13), ptr: RefString(texts.prefix) },
        Opcode::Int { dst: Reg(14), ptr: RefInt(texts.prefix_len) },
        Opcode::New { dst: Reg(15) },
        Opcode::SetField { obj: Reg(15), field: shape.bytes, src: Reg(13) },
        Opcode::SetField { obj: Reg(15), field: shape.length, src: Reg(14) },
        Opcode::Call2 { dst: Reg(16), fun: RefFun(calls.add), arg0: Reg(15), arg1: Reg(1) },
        Opcode::Call1 { dst: Reg(17), fun: RefFun(calls.get_path), arg0: Reg(16) },
        Opcode::Call1 { dst: Reg(18), fun: RefFun(calls.exists), arg0: Reg(17) },
        Opcode::JFalse { cond: Reg(18), offset: 2 },
    ]
}

/// Makes `Conquest.getBattleState` (number `gate_findex`) ask for a marker file.
///
/// A marker path is `marker_prefix` with the identifier of the node behind it. Where a file
/// `non_linear_flag_path` exists, the game's own question is left out. Returns the number of the
/// global that stands for an unlocked node.
pub fn patch_get_battle_state(
    code: &mut Module,
    gate_findex: usize,
    marker_prefix: &str,
    non_linear_flag_path: &str,
) -> (unlocked: Result<usize, PatchError>)
    ensures
        (final(code)@, outcome(unlocked)) == old(code)@.patch_gate(
            gate_findex,
            marker_prefix@,
            non_linear_flag_path@,
        ),
{
    let add = match method_findex(code, Method::StringAdd) {
        Ok(findex) => findex,
        Err(error) => return Err(error),
    };
    let get_path = match method_findex(code, Method::SysGetPath) {
        Ok(findex) => findex,
        Err(error) => return Err(error),
    };
    let exists = match native_findex(code, NativeFn::SysExists) {
        Ok(findex) => findex,
        Err(error) => return Err(error),
    };
    let calls = GateCalls { add, get_path, exists };

    let prefix = code.push_string(marker_prefix);
    let flag = code.push_string(non_linear_flag_path);
    let shape = match string_shape(code, add) {
        Ok(shape) => shape,
        Err(error) => return Err(error),
    };
    let prefix_len = code.push_int(marker_prefix.len() as i32);
    let flag_len = code.push_int(non_linear_flag_path.len() as i32);
    let texts = GateTexts { prefix, flag, prefix_len, flag_len };

    let at = match function_at(code, gate_findex, Method::GetBattleState) {
        Ok(i) => i,
        Err(error) => return Err(error),
    };
    let ghost before = code@;
    let f = &mut code.functions[at];
    let ghost orig = function_view(*f);
    if f.ops.len() != 14 || f.regs.len() != 8 {
        return Err(PatchError::Shape(Method::GetBattleState, f.ops.len(), f.regs.len()));
    }
    let unlocked = match &f.ops[10] {
        Opcode::GetGlobal { global, .. } => global.0,
        _ => return Err(PatchError::Op(Method::GetBattleState, 10)),
    };

    let bool_ty = f.regs[5];
    let mut regs: Vec<RefType> = vec![
        shape.bytes_ty,
        shape.int_ty,
        shape.string_ty,
        shape.bytes_ty,
        bool_ty,
        shape.bytes_ty,
        shape.int_ty,
        shape.string_ty,
        shape.string_ty,
        shape.bytes_ty,
        bool_ty,
    ];
    f.regs.append(&mut regs);

    let mut tail = f.ops.split_off(10);
    f.ops.pop();
    f.ops[1] = Opcode::JNull { reg: Reg(2), offset: 2 };
    let mut check = gate_code(shape, calls, texts);
    f.ops.append(&mut check);
    f.ops.append(&mut tail);

    if let Some(lines) = &f.debug_info {
        let new_lines = gate_sources(lines);
        f.debug_info = Some(new_lines);
    }
    f.assigns = Some(Vec::new());
    proof {
        let new = gated(orig, shape, calls, texts);
        assert(function_view(*f).ops =~= new.ops);
        assert(function_view(*f).regs =~= new.regs);
        assert(function_view(*f) =~= new);
        assert(before.with_function(at as int, new).functions =~= code@.functions);
    }
    Ok(unlocked)
}

} // verus!
