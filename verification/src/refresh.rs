//! Keeping the open map up to date.
//!
//! The map works out the state of its nodes once, when it opens. The patch puts a walk over all
//! nodes before `ConquestMapContent.update`, which runs on every frame: each node is handed its
//! present state. `MapButton.changeState` does nothing where that is the state it already shows.

use vstd::prelude::*;
use hlbc::opcodes::Opcode;
use hlbc::types::{RefField, RefFun, RefInt, RefType, Reg};
use crate::module::{function_view, FunctionView, Module, ModuleView};
use crate::prepend::{
    method_findexes, nth_above, prepend, prepended, reg_above, register_types, TypeSource,
};
use crate::sites::{function_at, outcome, Failure, Method, PatchError};

verus! {

/// The field `ConquestMapContent.conquest`.
pub const CMC_CONQUEST: usize = 19;

/// The field `ConquestMapContent.container`.
pub const CMC_CONTAINER: usize = 13;

/// The field `MapContainer.buttons`, an array of columns of buttons.
pub const MAPCONTAINER_BUTTONS: usize = 79;

/// The field `ArrayObj.length`.
pub const ARRAYOBJ_LENGTH: usize = 0;

/// The field `ArrayObj.array`, the raw array behind it.
pub const ARRAYOBJ_ARRAY: usize = 1;

/// The field `MapButton.data`, the battle of the button.
pub const MAPBUTTON_DATA: usize = 108;

/// The field `Battle.data`.
pub const BATTLE_DATA: usize = 0;

/// The field `infId` of the data of a battle, its identifier.
pub const BATTLEDATA_INFID: usize = 1;

/// The registers of the walk.
#[derive(Clone, Copy, Debug)]
pub struct WalkRegs {
    /// Holds this.conquest.
    pub conquest: Reg,
    /// Holds this.container.
    pub container: Reg,
    /// Holds the columns of buttons.
    pub columns: Reg,
    /// Holds the number of the column.
    pub i: Reg,
    /// Holds the number of columns.
    pub len1: Reg,
    /// Holds the buttons of the column.
    pub column: Reg,
    /// Holds an element of an array.
    pub item: Reg,
    /// Holds the raw array of columns.
    pub raw1: Reg,
    /// Holds the button.
    pub button: Reg,
    /// Holds the number of the button.
    pub j: Reg,
    /// Holds the number of buttons in the column.
    pub len2: Reg,
    /// Holds the raw array of buttons.
    pub raw2: Reg,
    /// Holds the battle of the button.
    pub battle: Reg,
    /// Holds the data of the battle.
    pub battle_data: Reg,
    /// Holds the identifier of the battle.
    pub inf_id: Reg,
    /// Holds the state of the node.
    pub new_state: Reg,
    /// Holds no callback.
    pub no_callback: Reg,
}

/// The registers of the walk behind the first `base` ones.
pub open spec fn walk_regs(base: u32) -> WalkRegs {
    WalkRegs {
        conquest: reg_above(base, 0),
        container: reg_above(base, 1),
        columns: reg_above(base, 2),
        i: reg_above(base, 3),
        len1: reg_above(base, 4),
        column: reg_above(base, 5),
        item: reg_above(base, 6),
        raw1: reg_above(base, 7),
        button: reg_above(base, 8),
        j: reg_above(base, 9),
        len2: reg_above(base, 10),
        raw2: reg_above(base, 11),
        battle: reg_above(base, 12),
        battle_data: reg_above(base, 13),
        inf_id: reg_above(base, 14),
        new_state: reg_above(base, 15),
        no_callback: reg_above(base, 16),
    }
}

/// The registers of the walk behind the first `base` ones.
fn walk_registers(base: u32) -> (regs: WalkRegs)
    ensures
        regs == walk_regs(base),
{
    WalkRegs {
        conquest: nth_above(base, 0),
        container: nth_above(base, 1),
        columns: nth_above(base, 2),
        i: nth_above(base, 3),
        len1: nth_above(base, 4),
        column: nth_above(base, 5),
        item: nth_above(base, 6),
        raw1: nth_above(base, 7),
        button: nth_above(base, 8),
        j: nth_above(base, 9),
        len2: nth_above(base, 10),
        raw2: nth_above(base, 11),
        battle: nth_above(base, 12),
        battle_data: nth_above(base, 13),
        inf_id: nth_above(base, 14),
        new_state: nth_above(base, 15),
        no_callback: nth_above(base, 16),
    }
}

/// The instructions of the walk: two nested loops, over the columns and over the buttons of a
/// column. `gate` is the number of `Conquest.getBattleState`. Register 3 of the update is one
/// that its own code uses for results that nobody reads.
pub open spec fn walk_ops(r: WalkRegs, gate: usize, change_state: usize) -> Seq<Opcode> {
    seq![
        Opcode::GetThis { dst: r.conquest, field: RefField(CMC_CONQUEST) },
        Opcode::GetThis { dst: r.container, field: RefField(CMC_CONTAINER) },
        Opcode::NullCheck { reg: r.container },
        Opcode::Field { dst: r.columns, obj: r.container, field: RefField(MAPCONTAINER_BUTTONS) },
        Opcode::Int { dst: r.i, ptr: RefInt(0) },
        Opcode::Label,
        Opcode::NullCheck { reg: r.columns },
        Opcode::Field { dst: r.len1, obj: r.columns, field: RefField(ARRAYOBJ_LENGTH) },
        Opcode::JSGte { a: r.i, b: r.len1, offset: 31 },
        Opcode::Field { dst: r.len1, obj: r.columns, field: RefField(ARRAYOBJ_LENGTH) },
        Opcode::JULt { a: r.i, b: r.len1, offset: 2 },
        Opcode::Null { dst: r.column },
        Opcode::JAlways { offset: 3 },
        Opcode::Field { dst: r.raw1, obj: r.columns, field: RefField(ARRAYOBJ_ARRAY) },
        Opcode::GetArray { dst: r.item, array: r.raw1, index: r.i },
        Opcode::SafeCast { dst: r.column, src: r.item },
        Opcode::Incr { dst: r.i },
        Opcode::Int { dst: r.j, ptr: RefInt(0) },
        Opcode::Label,
        Opcode::NullCheck { reg: r.column },
        Opcode::Field { dst: r.len2, obj: r.column, field: RefField(ARRAYOBJ_LENGTH) },
        Opcode::JSGte { a: r.j, b: r.len2, offset: (-17) as i32 },
        Opcode::Field { dst: r.len2, obj: r.column, field: RefField(ARRAYOBJ_LENGTH) },
        Opcode::JULt { a: r.j, b: r.len2, offset: 2 },
        Opcode::Null { dst: r.button },
        Opcode::JAlways { offset: 3 },
        Opcode::Field { dst: r.raw2, obj: r.column, field: RefField(ARRAYOBJ_ARRAY) },
        Opcode::GetArray { dst: r.item, array: r.raw2, index: r.j },
        Opcode::UnsafeCast { dst: r.button, src: r.item },
        Opcode::Incr { dst: r.j },
        Opcode::NullCheck { reg: r.button },
        Opcode::Field { dst: r.battle, obj: r.button, field: RefField(MAPBUTTON_DATA) },
        Opcode::NullCheck { reg: r.battle },
        Opcode::Field { dst: r.battle_data, obj: r.battle, field: RefField(BATTLE_DATA) },
        Opcode::NullCheck { reg: r.battle_data },
        Opcode::Field { dst: r.inf_id, obj: r.battle_data, field: RefField(BATTLEDATA_INFID) },
        Opcode::Call2 { dst: r.new_state, fun: RefFun(gate), arg0: r.conquest, arg1: r.inf_id },
        Opcode::Null { dst: r.no_callback },
        Opcode::Call3 { dst: Reg(3), fun: RefFun(change_state), arg0: r.button, arg1: r.new_state, arg2: r.no_callback },
        Opcode::JAlways { offset: (-22) as i32 },
    ]
}

/// The instructions of the walk.
fn walk_code(r: WalkRegs, gate: usize, change_state: usize) -> (ops: Vec<Opcode>)
    ensures
        ops@ == walk_ops(r, gate, change_state),
{
    vec![
        Opcode::GetThis { dst: r.conquest, field: RefField(CMC_CONQUEST) },
        Opcode::GetThis { dst: r.container, field: RefField(CMC_CONTAINER) },
        Opcode::NullCheck { reg: r.container },
        Opcode::Field { dst: r.columns, obj: r.container, field: RefField(MAPCONTAINER_BUTTONS) },
        Opcode::Int { dst: r.i, ptr: RefInt(0) },
        Opcode::Label,
        Opcode::NullCheck { reg: r.columns },
        Opcode::Field { dst: r.len1, obj: r.columns, field: RefField(ARRAYOBJ_LENGTH) },
        Opcode::JSGte { a: r.i, b: r.len1, offset: 31 },
        Opcode::Field { dst: r.len1, obj: r.columns, field: RefField(ARRAYOBJ_LENGTH) },
        Opcode::JULt { a: r.i, b: r.len1, offset: 2 },
        Opcode::Null { dst: r.column },
        Opcode::JAlways { offset: 3 },
        Opcode::Field { dst: r.raw1, obj: r.columns, field: RefField(ARRAYOBJ_ARRAY) },
        Opcode::GetArray { dst: r.item, array: r.raw1, index: r.i },
        Opcode::SafeCast { dst: r.column, src: r.item },
        Opcode::Incr { dst: r.i },
        Opcode::Int { dst: r.j, ptr: RefInt(0) },
        Opcode::Label,
        Opcode::NullCheck { reg: r.column },
        Opcode::Field { dst: r.len2, obj: r.column, field: RefField(ARRAYOBJ_LENGTH) },
        Opcode::JSGte { a: r.j, b: r.len2, offset: -17 },
        Opcode::Field { dst: r.len2, obj: r.column, field: RefField(ARRAYOBJ_LENGTH) },
        Opcode::JULt { a: r.j, b: r.len2, offset: 2 },
        Opcode::Null { dst: r.button },
        Opcode::JAlways { offset: 3 },
        Opcode::Field { dst: r.raw2, obj: r.column, field: RefField(ARRAYOBJ_ARRAY) },
        Opcode::GetArray { dst: r.item, array: r.raw2, index: r.j },
        Opcode::UnsafeCast { dst: r.button, src: r.item },
        Opcode::Incr { dst: r.j },
        Opcode::NullCheck { reg: r.button },
        Opcode::Field { dst: r.battle, obj: r.button, field: RefField(MAPBUTTON_DATA) },
        Opcode::NullCheck { reg: r.battle },
        Opcode::Field { dst: r.battle_data, obj: r.battle, field: RefField(BATTLE_DATA) },
        Opcode::NullCheck { reg: r.battle_data },
        Opcode::Field { dst: r.inf_id, obj: r.battle_data, field: RefField(BATTLEDATA_INFID) },
        Opcode::Call2 { dst: r.new_state, fun: RefFun(gate), arg0: r.conquest, arg1: r.inf_id },
        Opcode::Null { dst: r.no_callback },
        Opcode::Call3 { dst: Reg(3), fun: RefFun(change_state), arg0: r.button, arg1: r.new_state, arg2: r.no_callback },
        Opcode::JAlways { offset: -22 },
    ]
}

/// The methods that the patch needs: the one it changes, the one it calls, and those it takes
/// types from.
pub open spec fn refresh_methods() -> Seq<Method> {
    seq![
        Method::MapUpdate,
        Method::ChangeState,
        Method::HasNextToUnlock,
        Method::GetButton,
        Method::GetButtonById,
    ]
}

/// The registers that the types come from, given the numbers of the methods.
pub open spec fn refresh_sources(found: Seq<usize>) -> Seq<TypeSource> {
    seq![
        TypeSource { method: Method::HasNextToUnlock, findex: found[2], reg: 3 },
        TypeSource { method: Method::HasNextToUnlock, findex: found[2], reg: 14 },
        TypeSource { method: Method::HasNextToUnlock, findex: found[2], reg: 15 },
        TypeSource { method: Method::GetButton, findex: found[3], reg: 4 },
        TypeSource { method: Method::GetButton, findex: found[3], reg: 8 },
        TypeSource { method: Method::GetButton, findex: found[3], reg: 9 },
        TypeSource { method: Method::GetButton, findex: found[3], reg: 11 },
        TypeSource { method: Method::GetButtonById, findex: found[4], reg: 14 },
        TypeSource { method: Method::GetButtonById, findex: found[4], reg: 13 },
        TypeSource { method: Method::GetButtonById, findex: found[4], reg: 1 },
        TypeSource { method: Method::ChangeState, findex: found[1], reg: 2 },
    ]
}

/// The types of the registers of the walk: `types` are those of [`refresh_sources`], `int_ty` is
/// that of an integer.
pub open spec fn walk_types(types: Seq<RefType>, int_ty: RefType) -> Seq<RefType> {
    seq![
        types[0],
        types[1],
        types[3],
        int_ty,
        int_ty,
        types[3],
        types[4],
        types[5],
        types[6],
        int_ty,
        int_ty,
        types[5],
        types[7],
        types[8],
        types[9],
        types[2],
        types[10],
    ]
}

/// `ConquestMapContent.update` with the walk before it.
pub open spec fn refreshing(
    f: FunctionView,
    types: Seq<RefType>,
    gate: usize,
    change_state: usize,
) -> FunctionView {
    prepended(
        f,
        walk_types(types, f.regs[10]),
        walk_ops(walk_regs(f.regs.len() as usize as u32), gate, change_state),
    )
}

impl ModuleView {
    /// The program after the patch of `ConquestMapContent.update`.
    pub open spec fn patch_refresh(self, gate: usize) -> (ModuleView, Result<(), Failure>) {
        match self.method_list(refresh_methods()) {
            Err(e) => (self, Err(e)),
            Ok(found) => match self.type_list(refresh_sources(found)) {
                Err(e) => (self, Err(e)),
                Ok(types) => match self.function(found[0], Method::MapUpdate) {
                    Err(e) => (self, Err(e)),
                    Ok(i) => {
                        let f = self.functions[i];
                        if f.regs.len() <= 10 {
                            (self, Err(Failure::Register(Method::MapUpdate, 10)))
                        } else {
                            (self.with_function(i, refreshing(f, types, gate, found[1])), Ok(()))
                        }
                    },
                },
            },
        }
    }
}

/// Makes the open map hand every node its present state on every frame. `gate_findex` is the
/// number of `Conquest.getBattleState`.
pub fn patch_map_auto_refresh(code: &mut Module, gate_findex: usize) -> (patched: Result<
    (),
    PatchError,
>)
    ensures
        (final(code)@, outcome(patched)) == old(code)@.patch_refresh(gate_findex),
{
    let wanted: Vec<Method> = vec![
        Method::MapUpdate,
        Method::ChangeState,
        Method::HasNextToUnlock,
        Method::GetButton,
        Method::GetButtonById,
    ];
    assert(wanted@ =~= refresh_methods());
    let found = match method_findexes(code, &wanted) {
        Ok(found) => found,
        Err(error) => return Err(error),
    };
    let sources: Vec<TypeSource> = vec![
        TypeSource { method: Method::HasNextToUnlock, findex: found[2], reg: 3 },
        TypeSource { method: Method::HasNextToUnlock, findex: found[2], reg: 14 },
        TypeSource { method: Method::HasNextToUnlock, findex: found[2], reg: 15 },
        TypeSource { method: Method::GetButton, findex: found[3], reg: 4 },
        TypeSource { method: Method::GetButton, findex: found[3], reg: 8 },
        TypeSource { method: Method::GetButton, findex: found[3], reg: 9 },
        TypeSource { method: Method::GetButton, findex: found[3], reg: 11 },
        TypeSource { method: Method::GetButtonById, findex: found[4], reg: 14 },
        TypeSource { method: Method::GetButtonById, findex: found[4], reg: 13 },
        TypeSource { method: Method::GetButtonById, findex: found[4], reg: 1 },
        TypeSource { method: Method::ChangeState, findex: found[1], reg: 2 },
    ];
    assert(sources@ =~= refresh_sources(found@));
    let types = match register_types(code, &sources) {
        Ok(types) => types,
        Err(error) => return Err(error),
    };

    let at = match function_at(code, found[0], Method::MapUpdate) {
        Ok(i) => i,
        Err(error) => return Err(error),
    };
    let ghost before = code@;
    let f = &mut code.functions[at];
    let ghost orig = function_view(*f);
    if f.regs.len() <= 10 {
        return Err(PatchError::Register(Method::MapUpdate, 10));
    }
    let int_ty = f.regs[10];
    let regs: Vec<RefType> = vec![
        types[0],
        types[1],
        types[3],
        int_ty,
        int_ty,
        types[3],
        types[4],
        types[5],
        types[6],
        int_ty,
        int_ty,
        types[5],
        types[7],
        types[8],
        types[9],
        types[2],
        types[10],
    ];
    assert(regs@ =~= walk_types(types@, int_ty));
    let ops = walk_code(walk_registers(f.regs.len() as u32), gate_findex, found[1]);
    prepend(f, regs, ops);
    proof {
        let new = refreshing(orig, types@, gate_findex, found@[1]);
        assert(function_view(*f) == new);
        assert(before.with_function(at as int, new).functions =~= code@.functions);
    }
    Ok(())
}

} // verus!
