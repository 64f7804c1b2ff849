//! A bytecode program as the patches see it.

use vstd::prelude::*;
use hlbc::opcodes::Opcode;
use hlbc::types::{
    Function, Native, ObjField, ObjProto, RefField, RefFun, RefGlobal, RefString, RefType, Type,
    TypeObj,
};

verus! {

/// A constant of the float pool. No patch reads a float, so a loaded one is only counted here:
/// its value stays in [`Module::rest`].
#[derive(Clone, Copy, Debug, PartialEq, Eq, Structural)]
pub enum Float {
    /// A constant that was there when the program was read.
    Loaded,
    /// A whole number that a patch added.
    Whole(u32),
}

/// A bytecode program, with the parts that the patches read or change laid open.
#[derive(Debug)]
pub struct Module {
    /// The integer pool.
    pub ints: Vec<i32>,
    /// The float pool.
    pub floats: Vec<Float>,
    /// The string pool.
    pub strings: Vec<String>,
    /// The names of the source files, where the program has debug information.
    pub debug_files: Option<Vec<String>>,
    /// The types.
    pub types: Vec<Type>,
    /// The functions that the runtime supplies.
    pub natives: Vec<Native>,
    /// The functions with their code.
    pub functions: Vec<Function>,
    /// Everything else that the program holds, and the values of the floats that it was read with.
    pub rest: Rest,
}

/// What a program holds that no patch looks at. Only reading a program makes one, so every number
/// in it is one that the format can hold.
#[derive(Debug)]
pub struct Rest {
    pub(crate) bytecode: hlbc::Bytecode,
}

/// What a [`Function`] holds.
#[verifier::ext_equal]
pub struct FunctionView {
    pub name: RefString,
    pub t: RefType,
    pub findex: RefFun,
    pub regs: Seq<RefType>,
    pub ops: Seq<Opcode>,
    pub debug_info: Option<Seq<(usize, usize)>>,
    pub assigns: Option<Seq<(RefString, usize)>>,
    pub parent: Option<RefType>,
}

/// What a class ([`TypeObj`]) holds.
#[verifier::ext_equal]
pub struct ClassView {
    pub name: RefString,
    pub super_: Option<RefType>,
    pub global: RefGlobal,
    pub own_fields: Seq<ObjField>,
    pub protos: Seq<ObjProto>,
    pub bindings: Map<RefField, RefFun>,
    pub fields: Seq<ObjField>,
}

/// What a [`Type`] holds, as far as the patches look into it.
#[verifier::ext_equal]
pub enum TypeView {
    /// A class.
    Class(ClassView),
    /// A class whose objects are held in place.
    Struct(ClassView),
    /// Any other type.
    Other(Type),
}

/// What a [`Module`] holds. Two programs that hold the same are the same here, whatever order their
/// maps are walked in.
#[verifier::ext_equal]
pub struct ModuleView {
    pub ints: Seq<i32>,
    pub floats: Seq<Float>,
    pub strings: Seq<Seq<char>>,
    pub debug_files: Option<Seq<Seq<char>>>,
    pub types: Seq<TypeView>,
    pub natives: Seq<Native>,
    pub functions: Seq<FunctionView>,
    pub rest: Rest,
}

/// The contents of an optional list.
pub open spec fn optional_view<T>(v: Option<Vec<T>>) -> Option<Seq<T>> {
    match v {
        Some(items) => Some(items@),
        None => None,
    }
}

/// The contents of a list of texts.
pub open spec fn texts_view(texts: Seq<String>) -> Seq<Seq<char>> {
    Seq::new(texts.len(), |i: int| texts[i]@)
}

/// The contents of a function.
pub open spec fn function_view(f: Function) -> FunctionView {
    FunctionView {
        name: f.name,
        t: f.t,
        findex: f.findex,
        regs: f.regs@,
        ops: f.ops@,
        debug_info: optional_view(f.debug_info),
        assigns: optional_view(f.assigns),
        parent: f.parent,
    }
}

/// The contents of a class.
pub open spec fn class_view(obj: TypeObj) -> ClassView {
    ClassView {
        name: obj.name,
        super_: obj.super_,
        global: obj.global,
        own_fields: obj.own_fields@,
        protos: obj.protos@,
        bindings: obj.bindings@,
        fields: obj.fields@,
    }
}

/// The contents of a type.
pub open spec fn type_view(t: Type) -> TypeView {
    match t {
        Type::Obj(obj) => TypeView::Class(class_view(obj)),
        Type::Struct(obj) => TypeView::Struct(class_view(obj)),
        _ => TypeView::Other(t),
    }
}

/// The contents of a list of functions.
pub open spec fn functions_view(functions: Seq<Function>) -> Seq<FunctionView> {
    Seq::new(functions.len(), |i: int| function_view(functions[i]))
}

/// The contents of a list of types.
pub open spec fn types_view(types: Seq<Type>) -> Seq<TypeView> {
    Seq::new(types.len(), |i: int| type_view(types[i]))
}

impl View for Module {
    type V = ModuleView;

    open spec fn view(&self) -> ModuleView {
        ModuleView {
            ints: self.ints@,
            floats: self.floats@,
            strings: texts_view(self.strings@),
            debug_files: match self.debug_files {
                Some(files) => Some(texts_view(files@)),
                None => None,
            },
            types: types_view(self.types@),
            natives: self.natives@,
            functions: functions_view(self.functions@),
            rest: self.rest,
        }
    }
}

impl ModuleView {
    /// The program with one more integer in its pool.
    pub open spec fn with_int(self, value: i32) -> ModuleView {
        ModuleView { ints: self.ints.push(value), ..self }
    }

    /// The program with one more text in its pool.
    pub open spec fn with_string(self, text: Seq<char>) -> ModuleView {
        ModuleView { strings: self.strings.push(text), ..self }
    }

    /// The program with one more whole number in its float pool.
    pub open spec fn with_float(self, value: u32) -> ModuleView {
        ModuleView { floats: self.floats.push(Float::Whole(value)), ..self }
    }

    /// The program with its `i`-th function replaced.
    pub open spec fn with_function(self, i: int, f: FunctionView) -> ModuleView {
        ModuleView { functions: self.functions.update(i, f), ..self }
    }

    /// The program with its `i`-th type replaced.
    pub open spec fn with_type(self, i: int, t: TypeView) -> ModuleView {
        ModuleView { types: self.types.update(i, t), ..self }
    }
}

impl Module {
    /// Adds an integer to the pool.
    pub fn push_int(&mut self, value: i32) -> (at: usize)
        ensures
            at == old(self)@.ints.len(),
            final(self)@ == old(self)@.with_int(value),
    {
        let at = self.ints.len();
        self.ints.push(value);
        at
    }

    /// Adds a text to the pool.
    pub fn push_string(&mut self, text: &str) -> (at: usize)
        ensures
            at == old(self)@.strings.len(),
            final(self)@ == old(self)@.with_string(text@),
    {
        let at = self.strings.len();
        self.strings.push(text.to_owned());
        proof {
            assert(self@.strings =~= old(self)@.strings.push(text@));
        }
        at
    }

    /// Adds a whole number to the float pool.
    pub fn push_float(&mut self, value: u32) -> (at: usize)
        ensures
            at == old(self)@.floats.len(),
            final(self)@ == old(self)@.with_float(value),
    {
        let at = self.floats.len();
        self.floats.push(Float::Whole(value));
        at
    }
}

} // verus!
