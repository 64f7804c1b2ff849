//! The parts of the game that the patches touch, and what can be wrong with them.

use vstd::prelude::*;
use hlbc::types::RefType;
use crate::lookup::{find_function, find_method_findex, find_native_findex, FieldError, LookupError};
use crate::module::{Module, ModuleView};

verus! {

/// The name of the class of a player in a battle.
pub const PLAYER_CLASS: &'static str = "ent.Player";

/// The name of the class that holds the resources of a player.
pub const RESOURCES_CLASS: &'static str = "ent.player.ResourcesComponent";

/// A method of the game that a patch changes, calls or takes types from.
#[derive(Clone, Copy, Debug, PartialEq, Eq, Structural)]
pub enum Method {
    /// Decides whether a node of the map shows as locked, unlocked or done.
    GetBattleState,
    /// Records a won battle in the save.
    OnBattleCompleted,
    /// Concatenates two strings; its code shows how a string object is laid out.
    StringAdd,
    /// Turns a string into the bytes of a native path.
    SysGetPath,
    /// Runs on every frame while the map is open.
    MapUpdate,
    /// Has registers of the types that the map update needs.
    HasNextToUnlock,
    /// Reveals the next column after a battle.
    AnimateNewBattlePlots,
    /// Draws the path to the last clicked node, then calls back.
    AnimateLastPath,
    /// Redraws a node whose state has changed.
    ChangeState,
    /// Has registers of the types of the button arrays.
    GetButton,
    /// Has registers of the types of a battle and its data.
    GetButtonById,
    /// Runs on every tick for every player of a battle.
    PlayerUpdate,
    /// Adds to one of a player's resources.
    AddResource,
}

impl Method {
    /// The class that the method belongs to.
    pub open spec fn class(self) -> Seq<char> {
        match self {
            Method::GetBattleState => "gamesys.conquest.Conquest"@,
            Method::OnBattleCompleted => "gamesys.conquest.Conquest"@,
            Method::StringAdd => "$String"@,
            Method::SysGetPath => "$Sys"@,
            Method::MapUpdate => "ui.menus.conquest.ConquestMapContent"@,
            Method::HasNextToUnlock => "ui.menus.conquest.ConquestMapContent"@,
            Method::AnimateNewBattlePlots => "ui.menus.conquest.ConquestMapContent"@,
            Method::AnimateLastPath => "ui.menus.conquest.ConquestMapContent"@,
            Method::ChangeState => "ui.menus.conquest.MapButton"@,
            Method::GetButton => "ui.menus.conquest.MapContainer"@,
            Method::GetButtonById => "ui.menus.conquest.MapContainer"@,
            Method::PlayerUpdate => "ent.Player"@,
            Method::AddResource => "ent.player.ResourcesComponent"@,
        }
    }

    /// The name of the method in its class.
    pub open spec fn name(self) -> Seq<char> {
        match self {
            Method::GetBattleState => "getBattleState"@,
            Method::OnBattleCompleted => "onBattleCompleted"@,
            Method::StringAdd => "__add__"@,
            Method::SysGetPath => "getPath"@,
            Method::MapUpdate => "update"@,
            Method::HasNextToUnlock => "hasNextToUnlock"@,
            Method::AnimateNewBattlePlots => "animateNewBattlePlots"@,
            Method::AnimateLastPath => "animateLastPath"@,
            Method::ChangeState => "changeState"@,
            Method::GetButton => "getButton"@,
            Method::GetButtonById => "getButtonById"@,
            Method::PlayerUpdate => "update"@,
            Method::AddResource => "addResource"@,
        }
    }

    /// The class that the method belongs to.
    pub fn class_name(&self) -> (class: &'static str)
        ensures
            class@ == self.class(),
    {
        match self {
            Method::GetBattleState => "gamesys.conquest.Conquest",
            Method::OnBattleCompleted => "gamesys.conquest.Conquest",
            Method::StringAdd => "$String",
            Method::SysGetPath => "$Sys",
            Method::MapUpdate => "ui.menus.conquest.ConquestMapContent",
            Method::HasNextToUnlock => "ui.menus.conquest.ConquestMapContent",
            Method::AnimateNewBattlePlots => "ui.menus.conquest.ConquestMapContent",
            Method::AnimateLastPath => "ui.menus.conquest.ConquestMapContent",
            Method::ChangeState => "ui.menus.conquest.MapButton",
            Method::GetButton => "ui.menus.conquest.MapContainer",
            Method::GetButtonById => "ui.menus.conquest.MapContainer",
            Method::PlayerUpdate => "ent.Player",
            Method::AddResource => "ent.player.ResourcesComponent",
        }
    }

    /// The name of the method in its class.
    pub fn method_name(&self) -> (name: &'static str)
        ensures
            name@ == self.name(),
    {
        match self {
            Method::GetBattleState => "getBattleState",
            Method::OnBattleCompleted => "onBattleCompleted",
            Method::StringAdd => "__add__",
            Method::SysGetPath => "getPath",
            Method::MapUpdate => "update",
            Method::HasNextToUnlock => "hasNextToUnlock",
            Method::AnimateNewBattlePlots => "animateNewBattlePlots",
            Method::AnimateLastPath => "animateLastPath",
            Method::ChangeState => "changeState",
            Method::GetButton => "getButton",
            Method::GetButtonById => "getButtonById",
            Method::PlayerUpdate => "update",
            Method::AddResource => "addResource",
        }
    }
}

/// A function of the runtime's standard library that the patched game calls.
#[derive(Clone, Copy, Debug, PartialEq, Eq, Structural)]
pub enum NativeFn {
    /// Whether a file exists.
    SysExists,
    /// Deletes a file.
    SysDelete,
}

impl NativeFn {
    /// The name of the native in the library `std`.
    pub open spec fn name(self) -> Seq<char> {
        match self {
            NativeFn::SysExists => "sys_exists"@,
            NativeFn::SysDelete => "sys_delete"@,
        }
    }

    /// The name of the native in the library `std`.
    pub fn native_name(&self) -> (name: &'static str)
        ensures
            name@ == self.name(),
    {
        match self {
            NativeFn::SysExists => "sys_exists",
            NativeFn::SysDelete => "sys_delete",
        }
    }
}

/// Why a program could not be patched. In every case the build of the game is not one that the
/// patches were designed for.
#[derive(Debug)]
pub enum PatchError {
    /// A method could not be found by name.
    Method(Method, LookupError),
    /// A native could not be found by name.
    Native(NativeFn),
    /// A native does not have the type of a function.
    NativeSignature(NativeFn),
    /// The player has no field for its resources.
    ResourcesField(FieldError),
    /// There is no class for the resources of a player.
    ResourcesClass,
    /// No function has the number that the method should have.
    Function(Method),
    /// The method has other numbers of instructions and registers than expected: these.
    Shape(Method, usize, usize),
    /// The instruction at this position of the method is not the expected one.
    Op(Method, usize),
    /// The method ends before this position.
    Short(Method, usize),
    /// The method has no register of this number.
    Register(Method, usize),
}

/// What a [`PatchError`] says.
#[verifier::ext_equal]
pub enum Failure {
    /// Not exactly one function is the method: these are.
    Method(Method, Seq<usize>),
    Native(NativeFn),
    NativeSignature(NativeFn),
    ResourcesField(FieldError),
    ResourcesClass,
    Function(Method),
    Shape(Method, nat, nat),
    Op(Method, int),
    Short(Method, int),
    Register(Method, int),
}

impl View for PatchError {
    type V = Failure;

    open spec fn view(&self) -> Failure {
        match *self {
            PatchError::Method(method, LookupError::NotFound) => Failure::Method(
                method,
                Seq::empty(),
            ),
            PatchError::Method(method, LookupError::Ambiguous(many)) => Failure::Method(
                method,
                many@,
            ),
            PatchError::Native(native) => Failure::Native(native),
            PatchError::NativeSignature(native) => Failure::NativeSignature(native),
            PatchError::ResourcesField(error) => Failure::ResourcesField(error),
            PatchError::ResourcesClass => Failure::ResourcesClass,
            PatchError::Function(method) => Failure::Function(method),
            PatchError::Shape(method, ops, regs) => Failure::Shape(method, ops as nat, regs as nat),
            PatchError::Op(method, at) => Failure::Op(method, at as int),
            PatchError::Short(method, at) => Failure::Short(method, at as int),
            PatchError::Register(method, reg) => Failure::Register(method, reg as int),
        }
    }
}

/// The outcome of a patch, with its error taken by its view.
pub open spec fn outcome<T>(r: Result<T, PatchError>) -> Result<T, Failure> {
    match r {
        Ok(value) => Ok(value),
        Err(error) => Err(error@),
    }
}

impl ModuleView {
    /// The number of a method of the game.
    pub open spec fn method(self, method: Method) -> Result<usize, Failure> {
        let found = self.methods(method.class(), method.name());
        if found.len() == 1 {
            Ok(found[0])
        } else {
            Err(Failure::Method(method, found))
        }
    }

    /// The number of a native.
    pub open spec fn native(self, native: NativeFn) -> Result<usize, Failure> {
        match self.native_index("std"@, native.name()) {
            Some(i) => Ok(self.natives[i].findex.0),
            None => Err(Failure::Native(native)),
        }
    }

    /// The position of the function that has the number `findex`, which should be that of
    /// `method`.
    pub open spec fn function(self, findex: usize, method: Method) -> Result<int, Failure> {
        match self.function_index(findex) {
            Some(i) => Ok(i),
            None => Err(Failure::Function(method)),
        }
    }

    /// The type of the register `reg` of the function that has the number `findex`.
    pub open spec fn reg_type(self, findex: usize, reg: int, method: Method) -> Result<
        RefType,
        Failure,
    > {
        match self.function(findex, method) {
            Ok(i) => if reg < self.functions[i].regs.len() {
                Ok(self.functions[i].regs[reg])
            } else {
                Err(Failure::Register(method, reg))
            },
            Err(e) => Err(e),
        }
    }
}

/// Finds the number of a method of the game.
pub fn method_findex(code: &Module, method: Method) -> (found: Result<usize, PatchError>)
    ensures
        outcome(found) == code@.method(method),
{
    match find_method_findex(code, method.class_name(), method.method_name()) {
        Ok(findex) => Ok(findex),
        Err(error) => {
            proof {
                if error is NotFound {
                    assert(code@.methods(method.class(), method.name()) =~= Seq::empty());
                }
            }
            Err(PatchError::Method(method, error))
        },
    }
}

/// Finds the number of a native.
pub fn native_findex(code: &Module, native: NativeFn) -> (found: Result<usize, PatchError>)
    ensures
        outcome(found) == code@.native(native),
{
    match find_native_findex(code, "std", native.native_name()) {
        Some(findex) => Ok(findex),
        None => Err(PatchError::Native(native)),
    }
}

/// Finds the position of the function that has the number `findex`.
pub fn function_at(code: &Module, findex: usize, method: Method) -> (found: Result<
    usize,
    PatchError,
>)
    ensures
        match found {
            Ok(i) => code@.function(findex, method) == Ok::<int, Failure>(i as int) && i
                < code.functions@.len(),
            Err(e) => code@.function(findex, method) == Err::<int, Failure>(e@),
        },
{
    match find_function(code, findex) {
        Some(i) => Ok(i),
        None => Err(PatchError::Function(method)),
    }
}

/// The type of a register of a function that the game came with: new code takes the types of
/// its registers from there.
pub fn reg_type(code: &Module, findex: usize, reg: usize, method: Method) -> (found: Result<
    RefType,
    PatchError,
>)
    ensures
        outcome(found) == code@.reg_type(findex, reg as int, method),
{
    let i = match function_at(code, findex, method) {
        Ok(i) => i,
        Err(error) => return Err(error),
    };
    if reg < code.functions[i].regs.len() {
        Ok(code.functions[i].regs[reg])
    } else {
        Err(PatchError::Register(method, reg))
    }
}

} // verus!
