//! The patches, on a small program with the parts of the game that they touch.

use hlbc::opcodes::Opcode;
use hlbc::types::{
    EnumConstruct, Function, Native, ObjField, ObjProto, RefField, RefFloat, RefFun, RefGlobal, RefInt, RefString,
    RefType, Reg, Type, TypeFun, TypeObj, ValBool,
};
use patch_northgard::apply::{
    begin_apply, patch_program, plan_apply, ApplyError, ApplyPlan, Applying,
    NON_LINEAR_FLAG_NAME, PENDING_RESOURCES_SUBDIR, UNLOCK_SUBDIR,
};
use patch_northgard::fields::add_bool_field;
use patch_northgard::fixes::{
    patch_animate_last_path_invokes_callback_when_skipped, patch_path_dedup_by_column,
    patch_reveal_uses_real_state,
};
use patch_northgard::gate::{patch_get_battle_state, string_shape};
use patch_northgard::grants::{
    patch_player_update_grants_resources, GrantKind, ResourceGrant,
};
use patch_northgard::image::{is_writable, load, reported, store, ImageError};
use patch_northgard::lookup::{
    class_is, find_field_by_name, find_function, find_method_findex, find_native_findex,
    find_type_index_by_name, name_is, FieldError, LookupError,
};
use patch_northgard::module::{Float, Module};
use patch_northgard::refresh::patch_map_auto_refresh;
use patch_northgard::resources::{resource_configs, resource_grants};
use patch_northgard::sites::{method_findex, reg_type, Method, NativeFn, PatchError};
use patch_northgard::status::{classify_battle_state, exit_code, status_of, PatchState, Status};
use patch_northgard::survival::{has_room, is_lasting};
use patch_northgard::valid::is_valid;
use std::collections::HashMap;

const VOID: RefType = RefType(0);
const INT: RefType = RefType(1);
const NUMBER: RefType = RefType(2);
const BOOL: RefType = RefType(3);
const BYTES: RefType = RefType(4);
const DYNAMIC: RefType = RefType(5);
const PREDICATE: RefType = RefType(6);

const DONE: usize = 0;
const UNLOCKED: usize = 1;
const LOCKED: usize = 2;

const SYS_EXISTS: usize = 0;
const SYS_DELETE: usize = 1;

/// The bytes of a program with hardly anything in it.
fn small_image() -> Vec<u8> {
    let mut out = hlbc::Bytecode::default();
    out.floats = vec![1.5];
    out.bytes = Some((Vec::new(), Vec::new()));
    out.natives =
        vec![Native { lib: RefString(0), name: RefString(0), t: VOID, findex: RefFun(0) }];
    out.constants = Some(Vec::new());
    let mut image = Vec::new();
    out.serialize(&mut image).unwrap();
    image
}

/// Builds a program, class by class.
struct Builder {
    code: Module,
    next: usize,
}

impl Builder {
    fn new() -> Builder {
        let mut code = load(&small_image()).unwrap();
        code.natives.clear();
        code.ints = vec![0];
        code.strings = vec![String::new()];
        code.debug_files = Some(vec!["Conquest.hx".to_string()]);
        code.types =
            vec![Type::Void, Type::I32, Type::F64, Type::Bool, Type::Bytes, Type::Dyn];
        code.types.push(Type::Fun(TypeFun { args: vec![BYTES], ret: BOOL }));
        Builder { code, next: 2 }
    }

    fn text(&mut self, text: &str) -> RefString {
        self.code.strings.push(text.to_string());
        RefString(self.code.strings.len() - 1)
    }

    fn native(&mut self, findex: usize, name: &str) {
        let lib = self.text("std");
        let name = self.text(name);
        self.code.natives.push(Native { lib, name, t: PREDICATE, findex: RefFun(findex) });
    }

    fn class(&mut self, name: &str, fields: &[(&str, RefType)]) -> RefType {
        let name = self.text(name);
        let fields: Vec<ObjField> =
            fields.iter().map(|(n, t)| ObjField { name: self.text(n), t: *t }).collect();
        self.code.types.push(Type::Obj(TypeObj {
            name,
            super_: None,
            global: RefGlobal(0),
            own_fields: fields.clone(),
            protos: Vec::new(),
            bindings: HashMap::new(),
            fields,
        }));
        RefType(self.code.types.len() - 1)
    }

    fn method(&mut self, class: RefType, name: &str, regs: Vec<RefType>, ops: Vec<Opcode>) -> usize {
        let findex = self.next;
        self.next += 1;
        let name = self.text(name);
        if let Type::Obj(obj) = &mut self.code.types[class.0] {
            obj.protos.push(ObjProto { name, findex: RefFun(findex), pindex: -1 });
        }
        let lines = (0..ops.len()).map(|i| (0, 100 + i)).collect();
        self.code.functions.push(Function {
            name,
            t: PREDICATE,
            findex: RefFun(findex),
            regs,
            ops,
            debug_info: Some(lines),
            assigns: Some(vec![(RefString(0), 0)]),
            parent: Some(class),
        });
        findex
    }
}

/// The number of every method of the game.
struct Numbers {
    gate: usize,
    get_progress: usize,
    get_battle: usize,
    is_reachable: usize,
    string_add: usize,
    get_path: usize,
    change_state: usize,
    reveal: usize,
    recorded: usize,
    callback: usize,
    map_update: usize,
    player_update: usize,
    add_resource: usize,
}

fn labels(n: usize) -> Vec<Opcode> {
    vec![Opcode::Label; n]
}

/// The game's own check of a node.
fn own_check(get_progress: usize, get_battle: usize, is_reachable: usize) -> Vec<Opcode> {
    vec![
        Opcode::Call2 { dst: Reg(2), fun: RefFun(get_progress), arg0: Reg(0), arg1: Reg(1) },
        Opcode::JNull { reg: Reg(2), offset: 2 },
        Opcode::GetGlobal { dst: Reg(3), global: RefGlobal(DONE) },
        Opcode::Ret { ret: Reg(3) },
        Opcode::Call2 { dst: Reg(4), fun: RefFun(get_battle), arg0: Reg(0), arg1: Reg(1) },
        Opcode::NullCheck { reg: Reg(4) },
        Opcode::Field { dst: Reg(6), obj: Reg(4), field: RefField(5) },
        Opcode::SafeCast { dst: Reg(7), src: Reg(6) },
        Opcode::Call2 { dst: Reg(5), fun: RefFun(is_reachable), arg0: Reg(0), arg1: Reg(7) },
        Opcode::JFalse { cond: Reg(5), offset: 2 },
        Opcode::GetGlobal { dst: Reg(3), global: RefGlobal(UNLOCKED) },
        Opcode::Ret { ret: Reg(3) },
        Opcode::GetGlobal { dst: Reg(3), global: RefGlobal(LOCKED) },
        Opcode::Ret { ret: Reg(3) },
    ]
}

/// A program with everything that the patches look for.
fn game() -> (Module, Numbers) {
    let mut b = Builder::new();
    b.native(SYS_EXISTS, "sys_exists");
    b.native(SYS_DELETE, "sys_delete");

    let conquest = b.class("gamesys.conquest.Conquest", &[]);
    let get_progress = b.method(conquest, "getProgress", vec![VOID], labels(1));
    let get_battle = b.method(conquest, "getBattle", vec![VOID], labels(1));
    let is_reachable = b.method(conquest, "isColumnUnlocked", vec![VOID], labels(1));
    let check = own_check(get_progress, get_battle, is_reachable);
    let check_regs =
        vec![conquest, DYNAMIC, DYNAMIC, DYNAMIC, DYNAMIC, BOOL, DYNAMIC, DYNAMIC];
    let gate = b.method(conquest, "getBattleState", check_regs, check);
    let mut completed = labels(60);
    completed[55] = Opcode::JTrue { cond: Reg(4), offset: 7 };
    let recorded = b.method(conquest, "onBattleCompleted", vec![VOID; 5], completed);

    let string = b.class("$String", &[]);
    let mut add = labels(28);
    add[7] = Opcode::Field { dst: Reg(4), obj: Reg(0), field: RefField(1) };
    add[27] = Opcode::Field { dst: Reg(8), obj: Reg(0), field: RefField(0) };
    let mut add_regs = vec![VOID; 9];
    add_regs[0] = string;
    add_regs[4] = INT;
    add_regs[8] = BYTES;
    let string_add = b.method(string, "__add__", add_regs, add);

    let sys = b.class("$Sys", &[]);
    let get_path = b.method(sys, "getPath", vec![string], labels(1));

    let content = b.class("ui.menus.conquest.ConquestMapContent", &[]);
    let mut update_regs = vec![VOID; 11];
    update_regs[10] = INT;
    let update = vec![
        Opcode::Bool { dst: Reg(2), value: ValBool(true) },
        Opcode::Ret { ret: Reg(2) },
    ];
    let map_update = b.method(content, "update", update_regs, update);
    let mut next_regs = vec![VOID; 16];
    next_regs[3] = RefType(31);
    next_regs[14] = RefType(32);
    next_regs[15] = RefType(33);
    b.method(content, "hasNextToUnlock", next_regs, labels(1));
    let mut plots = labels(50);
    plots[46] = Opcode::GetGlobal { dst: Reg(9), global: RefGlobal(UNLOCKED) };
    let reveal = b.method(content, "animateNewBattlePlots", vec![VOID; 10], plots);
    let mut path = labels(19);
    path[0] = Opcode::GetThis { dst: Reg(3), field: RefField(2) };
    path[1] = Opcode::JNull { reg: Reg(3), offset: 16 };
    path[18] = Opcode::Ret { ret: Reg(2) };
    let callback = b.method(content, "animateLastPath", vec![VOID; 4], path);

    let button = b.class("ui.menus.conquest.MapButton", &[]);
    let change_state =
        b.method(button, "changeState", vec![VOID, VOID, RefType(34)], labels(1));

    let container = b.class("ui.menus.conquest.MapContainer", &[]);
    let mut button_regs = vec![VOID; 12];
    button_regs[4] = RefType(35);
    button_regs[8] = RefType(36);
    button_regs[9] = RefType(37);
    button_regs[11] = RefType(38);
    b.method(container, "getButton", button_regs, labels(1));
    let mut by_id_regs = vec![VOID; 15];
    by_id_regs[1] = RefType(39);
    by_id_regs[13] = RefType(40);
    by_id_regs[14] = RefType(41);
    b.method(container, "getButtonById", by_id_regs, labels(1));

    let resources = b.class("ent.player.ResourcesComponent", &[("money", NUMBER)]);
    let add_resource = b.method(
        resources,
        "addResource",
        vec![resources, string, NUMBER, DYNAMIC],
        labels(1),
    );
    let player = b.class("ent.Player", &[("name", DYNAMIC), ("aiJob", DYNAMIC), ("res", resources)]);
    let mut tick = labels(10);
    tick[2] = Opcode::GetThis { dst: Reg(3), field: RefField(1) };
    tick[3] = Opcode::JNull { reg: Reg(3), offset: 5 };
    tick[9] = Opcode::Ret { ret: Reg(4) };
    let player_update =
        b.method(player, "update", vec![player, NUMBER, VOID, RefType(42), VOID], tick);

    let numbers = Numbers {
        gate,
        get_progress,
        get_battle,
        is_reachable,
        string_add,
        get_path,
        change_state,
        reveal,
        recorded,
        callback,
        map_update,
        player_update,
        add_resource,
    };
    (b.code, numbers)
}

fn function(code: &Module, findex: usize) -> &Function {
    &code.functions[find_function(code, findex).unwrap()]
}

fn function_mut(code: &mut Module, findex: usize) -> &mut Function {
    let at = find_function(code, findex).unwrap();
    &mut code.functions[at]
}

fn patched_game() -> (Module, Numbers) {
    let (mut code, n) = game();
    patch_program(&mut code, "C:\\cfg\\unlocked", "C:\\cfg\\nl.flag", "C:\\cfg\\pending").unwrap();
    (code, n)
}

fn shows(ops: &[Opcode]) -> Vec<String> {
    ops.iter().map(|op| format!("{op:?}")).collect()
}

// ---------------------------------------------------------------------------------------------
// Lookups
// ---------------------------------------------------------------------------------------------

#[test]
fn methods_are_found_by_class_and_name() {
    let (code, n) = game();
    assert_eq!(
        find_method_findex(&code, "gamesys.conquest.Conquest", "getBattleState").unwrap(),
        n.gate
    );
    assert_eq!(find_method_findex(&code, "ent.Player", "update").unwrap(), n.player_update);
    assert_eq!(
        find_method_findex(&code, "ui.menus.conquest.ConquestMapContent", "update").unwrap(),
        n.map_update
    );
}

#[test]
fn missing_method_is_reported() {
    let (code, _) = game();
    assert!(matches!(
        find_method_findex(&code, "ent.Player", "getBattleState"),
        Err(LookupError::NotFound)
    ));
}

#[test]
fn ambiguous_method_is_reported_with_all_numbers() {
    let (mut code, n) = game();
    let copy = function(&code, n.gate).clone();
    code.functions.push(Function { findex: RefFun(99), ..copy });
    match find_method_findex(&code, "gamesys.conquest.Conquest", "getBattleState") {
        Err(LookupError::Ambiguous(many)) => assert_eq!(many, vec![n.gate, 99]),
        other => panic!("{other:?}"),
    }
}

#[test]
fn function_without_class_is_no_method() {
    let (mut code, n) = game();
    function_mut(&mut code, n.gate).parent = None;
    assert!(find_method_findex(&code, "gamesys.conquest.Conquest", "getBattleState").is_err());
}

#[test]
fn natives_are_found_by_library_and_name() {
    let (code, _) = game();
    assert_eq!(find_native_findex(&code, "std", "sys_exists"), Some(SYS_EXISTS));
    assert_eq!(find_native_findex(&code, "std", "sys_delete"), Some(SYS_DELETE));
    assert_eq!(find_native_findex(&code, "fmt", "sys_delete"), None);
}

#[test]
fn fields_are_found_by_class_and_name() {
    let (code, _) = game();
    let resources = find_type_index_by_name(&code, "ent.player.ResourcesComponent").unwrap();
    assert_eq!(
        find_field_by_name(&code, "ent.Player", "res"),
        Ok((RefField(2), RefType(resources)))
    );
    assert_eq!(find_field_by_name(&code, "ent.Player", "food"), Err(FieldError::NoField));
    assert_eq!(find_field_by_name(&code, "ent.Gamer", "res"), Err(FieldError::NoClass));
}

#[test]
fn name_zero_reads_none() {
    let (code, _) = game();
    assert!(name_is(&code, RefString(0), "<none>"));
    assert!(!name_is(&code, RefString(0), ""));
    assert!(!name_is(&code, RefString(100_000), "<none>"));
    assert!(!class_is(&code, RefType(100_000), "ent.Player"));
}

#[test]
fn register_types_come_from_the_game() {
    let (code, n) = game();
    assert_eq!(reg_type(&code, n.string_add, 8, Method::StringAdd).unwrap(), BYTES);
    assert!(matches!(
        reg_type(&code, n.string_add, 9, Method::StringAdd),
        Err(PatchError::Register(Method::StringAdd, 9))
    ));
    assert!(matches!(
        reg_type(&code, 1000, 0, Method::GetButton),
        Err(PatchError::Function(Method::GetButton))
    ));
    assert_eq!(method_findex(&code, Method::AddResource).unwrap(), n.add_resource);
}

#[test]
fn string_shape_is_read_off_the_code() {
    let (code, n) = game();
    let shape = string_shape(&code, n.string_add).unwrap();
    assert_eq!(shape.bytes, RefField(0));
    assert_eq!(shape.length, RefField(1));
    assert_eq!(shape.bytes_ty, BYTES);
    assert_eq!(shape.int_ty, INT);
}

// ---------------------------------------------------------------------------------------------
// The check of a node
// ---------------------------------------------------------------------------------------------

#[test]
fn check_has_the_expected_instructions() {
    let (mut code, n) = game();
    let strings = code.strings.len();
    let ints = code.ints.len();
    let unlocked =
        patch_get_battle_state(&mut code, n.gate, "C:\\cfg\\unlocked\\", "C:\\cfg\\nl.flag").unwrap();
    assert_eq!(unlocked, UNLOCKED);
    assert_eq!(code.strings[strings], "C:\\cfg\\unlocked\\");
    assert_eq!(code.strings[strings + 1], "C:\\cfg\\nl.flag");
    assert_eq!(code.ints[ints..], [16, 14]);
    let f = function(&code, n.gate);
    assert_eq!(f.ops.len(), 31);
    assert_eq!(f.regs.len(), 19);
    assert_eq!(f.regs[12], BOOL);
    assert_eq!(f.regs[18], BOOL);
    assert_eq!(
        shows(&f.ops[9..18]),
        shows(&[
            Opcode::String { dst: Reg(8), ptr: RefString(strings + 1) },
            Opcode::Int { dst: Reg(9), ptr: RefInt(ints + 1) },
            Opcode::New { dst: Reg(10) },
            Opcode::SetField { obj: Reg(10), field: RefField(0), src: Reg(8) },
            Opcode::SetField { obj: Reg(10), field: RefField(1), src: Reg(9) },
            Opcode::Call1 { dst: Reg(11), fun: RefFun(n.get_path), arg0: Reg(10) },
            Opcode::Call1 { dst: Reg(12), fun: RefFun(SYS_EXISTS), arg0: Reg(11) },
            Opcode::JTrue { cond: Reg(12), offset: 1 },
            Opcode::JFalse { cond: Reg(5), offset: 11 },
        ])
    );
    assert_eq!(
        shows(&f.ops[23..27]),
        shows(&[
            Opcode::Call2 {
                dst: Reg(16),
                fun: RefFun(n.string_add),
                arg0: Reg(15),
                arg1: Reg(1)
            },
            Opcode::Call1 { dst: Reg(17), fun: RefFun(n.get_path), arg0: Reg(16) },
            Opcode::Call1 { dst: Reg(18), fun: RefFun(SYS_EXISTS), arg0: Reg(17) },
            Opcode::JFalse { cond: Reg(18), offset: 2 },
        ])
    );
    let lines = f.debug_info.as_ref().unwrap();
    assert_eq!(lines.len(), 31);
    assert_eq!(lines[8], (0, 108));
    assert_eq!(lines[9..27], [(0, 109); 18]);
    assert_eq!(lines[27..], [(0, 110), (0, 111), (0, 112), (0, 113)]);
    assert_eq!(f.assigns, Some(Vec::new()));
}

#[test]
fn check_takes_missing_positions_for_zero() {
    let (mut code, n) = game();
    function_mut(&mut code, n.gate).debug_info = Some(vec![(3, 4)]);
    patch_get_battle_state(&mut code, n.gate, "p", "f").unwrap();
    let lines = function(&code, n.gate).debug_info.clone().unwrap();
    assert_eq!(lines[0], (3, 4));
    assert_eq!(lines[1..], [(0, 0); 30]);
}

#[test]
fn check_needs_the_expected_shape() {
    let (mut code, n) = game();
    function_mut(&mut code, n.gate).ops.push(Opcode::Label);
    assert!(matches!(
        patch_get_battle_state(&mut code, n.gate, "p", "f"),
        Err(PatchError::Shape(Method::GetBattleState, 15, 8))
    ));
    let (mut code, n) = game();
    function_mut(&mut code, n.gate).regs.pop();
    assert!(matches!(
        patch_get_battle_state(&mut code, n.gate, "p", "f"),
        Err(PatchError::Shape(Method::GetBattleState, 14, 7))
    ));
    let (mut code, n) = game();
    function_mut(&mut code, n.gate).ops[10] = Opcode::Label;
    assert!(matches!(
        patch_get_battle_state(&mut code, n.gate, "p", "f"),
        Err(PatchError::Op(Method::GetBattleState, 10))
    ));
    let (mut code, _) = game();
    assert!(matches!(
        patch_get_battle_state(&mut code, 1000, "p", "f"),
        Err(PatchError::Function(Method::GetBattleState))
    ));
}

#[test]
fn check_needs_the_functions_that_it_calls() {
    let (mut code, n) = game();
    function_mut(&mut code, n.string_add).parent = None;
    assert!(matches!(
        patch_get_battle_state(&mut code, n.gate, "p", "f"),
        Err(PatchError::Method(Method::StringAdd, LookupError::NotFound))
    ));
    let (mut code, n) = game();
    function_mut(&mut code, n.get_path).parent = None;
    assert!(matches!(
        patch_get_battle_state(&mut code, n.gate, "p", "f"),
        Err(PatchError::Method(Method::SysGetPath, LookupError::NotFound))
    ));
    let (mut code, n) = game();
    code.natives.remove(0);
    assert!(matches!(
        patch_get_battle_state(&mut code, n.gate, "p", "f"),
        Err(PatchError::Native(NativeFn::SysExists))
    ));
}

#[test]
fn check_needs_the_layout_of_strings() {
    let (mut code, n) = game();
    function_mut(&mut code, n.string_add).ops.pop();
    assert!(matches!(
        patch_get_battle_state(&mut code, n.gate, "p", "f"),
        Err(PatchError::Shape(Method::StringAdd, 27, 9))
    ));
    let (mut code, n) = game();
    function_mut(&mut code, n.string_add).ops[7] = Opcode::Label;
    assert!(matches!(
        patch_get_battle_state(&mut code, n.gate, "p", "f"),
        Err(PatchError::Op(Method::StringAdd, 7))
    ));
    let (mut code, n) = game();
    function_mut(&mut code, n.string_add).ops[27] = Opcode::Label;
    assert!(matches!(
        patch_get_battle_state(&mut code, n.gate, "p", "f"),
        Err(PatchError::Op(Method::StringAdd, 27))
    ));
}

// ---------------------------------------------------------------------------------------------
// The walk, the corrections
// ---------------------------------------------------------------------------------------------

#[test]
fn walk_comes_before_the_update() {
    let (mut code, n) = game();
    patch_map_auto_refresh(&mut code, n.gate).unwrap();
    let f = function(&code, n.map_update);
    assert_eq!(f.ops.len(), 42);
    assert_eq!(f.regs.len(), 28);
    assert_eq!(
        f.regs[11..],
        [
            RefType(31),
            RefType(32),
            RefType(35),
            INT,
            INT,
            RefType(35),
            RefType(36),
            RefType(37),
            RefType(38),
            INT,
            INT,
            RefType(37),
            RefType(41),
            RefType(40),
            RefType(39),
            RefType(33),
            RefType(34),
        ]
    );
    assert_eq!(
        shows(&f.ops[36..]),
        shows(&[
            Opcode::Call2 { dst: Reg(26), fun: RefFun(n.gate), arg0: Reg(11), arg1: Reg(25) },
            Opcode::Null { dst: Reg(27) },
            Opcode::Call3 {
                dst: Reg(3),
                fun: RefFun(n.change_state),
                arg0: Reg(19),
                arg1: Reg(26),
                arg2: Reg(27)
            },
            Opcode::JAlways { offset: -22 },
            Opcode::Bool { dst: Reg(2), value: ValBool(true) },
            Opcode::Ret { ret: Reg(2) },
        ])
    );
    let lines = f.debug_info.as_ref().unwrap();
    assert_eq!(lines[..41], [(0, 100); 41]);
    assert_eq!(lines[41], (0, 101));
}

#[test]
fn walk_needs_the_registers_that_it_takes_types_from() {
    let (mut code, n) = game();
    function_mut(&mut code, n.map_update).regs.pop();
    assert!(matches!(
        patch_map_auto_refresh(&mut code, n.gate),
        Err(PatchError::Register(Method::MapUpdate, 10))
    ));
    let (mut code, n) = game();
    function_mut(&mut code, n.change_state).regs.pop();
    assert!(matches!(
        patch_map_auto_refresh(&mut code, n.gate),
        Err(PatchError::Register(Method::ChangeState, 2))
    ));
    let (mut code, n) = game();
    function_mut(&mut code, n.change_state).parent = None;
    assert!(matches!(
        patch_map_auto_refresh(&mut code, n.gate),
        Err(PatchError::Method(Method::ChangeState, LookupError::NotFound))
    ));
}

#[test]
fn reveal_asks_for_the_state() {
    let (mut code, n) = game();
    patch_reveal_uses_real_state(&mut code, n.gate, UNLOCKED).unwrap();
    let f = function(&code, n.reveal);
    assert_eq!(f.ops.len(), 50);
    assert_eq!(
        shows(&f.ops[46..47]),
        shows(&[Opcode::Call2 {
            dst: Reg(9),
            fun: RefFun(n.gate),
            arg0: Reg(6),
            arg1: Reg(4)
        }])
    );
}

#[test]
fn reveal_needs_the_constant_of_an_unlocked_node() {
    let (mut code, n) = game();
    assert!(matches!(
        patch_reveal_uses_real_state(&mut code, n.gate, LOCKED),
        Err(PatchError::Op(Method::AnimateNewBattlePlots, 46))
    ));
    function_mut(&mut code, n.reveal).ops[46] = Opcode::Label;
    assert!(matches!(
        patch_reveal_uses_real_state(&mut code, n.gate, UNLOCKED),
        Err(PatchError::Op(Method::AnimateNewBattlePlots, 46))
    ));
    function_mut(&mut code, n.reveal).ops.truncate(46);
    assert!(matches!(
        patch_reveal_uses_real_state(&mut code, n.gate, UNLOCKED),
        Err(PatchError::Short(Method::AnimateNewBattlePlots, 46))
    ));
}

#[test]
fn won_battle_is_never_left_out() {
    let (mut code, n) = game();
    patch_path_dedup_by_column(&mut code).unwrap();
    let f = function(&code, n.recorded);
    assert_eq!(shows(&f.ops[55..56]), shows(&[Opcode::JAlways { offset: 0 }]));
    assert_eq!(f.ops.len(), 60);
}

#[test]
fn recording_needs_the_jump_that_leaves_out() {
    let (mut code, n) = game();
    function_mut(&mut code, n.recorded).ops[55] = Opcode::JTrue { cond: Reg(4), offset: 8 };
    assert!(matches!(
        patch_path_dedup_by_column(&mut code),
        Err(PatchError::Op(Method::OnBattleCompleted, 55))
    ));
    function_mut(&mut code, n.recorded).ops[55] = Opcode::JFalse { cond: Reg(4), offset: 7 };
    assert!(matches!(
        patch_path_dedup_by_column(&mut code),
        Err(PatchError::Op(Method::OnBattleCompleted, 55))
    ));
    function_mut(&mut code, n.recorded).ops.truncate(55);
    assert!(matches!(
        patch_path_dedup_by_column(&mut code),
        Err(PatchError::Short(Method::OnBattleCompleted, 55))
    ));
}

#[test]
fn callback_is_called_at_the_end() {
    let (mut code, n) = game();
    patch_animate_last_path_invokes_callback_when_skipped(&mut code).unwrap();
    let f = function(&code, n.callback);
    assert_eq!(f.ops.len(), 21);
    assert_eq!(
        shows(&[f.ops[1].clone(), f.ops[19].clone(), f.ops[20].clone()]),
        shows(&[
            Opcode::JNull { reg: Reg(3), offset: 17 },
            Opcode::CallClosure { dst: Reg(2), fun: Reg(1), args: vec![] },
            Opcode::Ret { ret: Reg(2) },
        ])
    );
    let lines = f.debug_info.as_ref().unwrap();
    assert_eq!(lines.len(), 21);
    assert_eq!(lines[18..], [(0, 118); 3]);
}

#[test]
fn callback_needs_the_expected_shape() {
    let (mut code, n) = game();
    function_mut(&mut code, n.callback).ops[1] = Opcode::JNull { reg: Reg(3), offset: 15 };
    assert!(matches!(
        patch_animate_last_path_invokes_callback_when_skipped(&mut code),
        Err(PatchError::Op(Method::AnimateLastPath, 1))
    ));
    function_mut(&mut code, n.callback).ops.pop();
    assert!(matches!(
        patch_animate_last_path_invokes_callback_when_skipped(&mut code),
        Err(PatchError::Shape(Method::AnimateLastPath, 18, 4))
    ));
}

// ---------------------------------------------------------------------------------------------
// Grants
// ---------------------------------------------------------------------------------------------

#[test]
fn new_field_goes_last() {
    let (mut code, _) = game();
    let strings = code.strings.len();
    let field = add_bool_field(&mut code, "ent.Player", "apFlag", BOOL).unwrap();
    assert_eq!(field, RefField(3));
    assert_eq!(code.strings[strings], "apFlag");
    assert_eq!(find_field_by_name(&code, "ent.Player", "apFlag"), Ok((RefField(3), BOOL)));
    assert!(find_field_by_name(&code, "ent.Player", "res").is_ok());
    let at = find_type_index_by_name(&code, "ent.Player").unwrap();
    match &code.types[at] {
        Type::Obj(obj) => assert_eq!(obj.own_fields, obj.fields),
        _ => unreachable!(),
    }
    assert_eq!(add_bool_field(&mut code, "ent.Gamer", "x", BOOL), Err(FieldError::NoClass));
    assert_eq!(code.strings.len(), strings + 1);
}

fn two_grants() -> Vec<ResourceGrant> {
    vec![
        ResourceGrant {
            kind: GrantKind::Filler,
            key: "lore",
            marker_path: "f".to_string(),
            resource_ids: vec!["Lore", "Faith"],
            amount: 200,
        },
        ResourceGrant {
            kind: GrantKind::Useful,
            key: "food",
            marker_path: "uu".to_string(),
            resource_ids: vec!["Food"],
            amount: 50,
        },
    ]
}

#[test]
fn grants_come_before_the_update() {
    let (mut code, n) = game();
    let strings = code.strings.len();
    let ints = code.ints.len();
    patch_player_update_grants_resources(&mut code, &two_grants()).unwrap();
    assert_eq!(
        code.strings[strings..],
        ["apUsefulApplied_food", "uu", "Food", "f", "Lore", "Faith"]
    );
    assert_eq!(code.ints[ints..], [2, 4, 1, 4, 5]);
    assert_eq!(
        code.floats,
        vec![Float::Loaded, Float::Whole(50), Float::Whole(200), Float::Whole(200)]
    );
    let f = function(&code, n.player_update);
    assert_eq!(f.regs.len(), 21);
    assert_eq!(f.regs[5], RefType(42));
    assert_eq!(f.ops.len(), 2 + 24 + 28 + 10);
    let sentinel = RefField(1);
    assert_eq!(
        shows(&f.ops[..6]),
        shows(&[
            Opcode::GetThis { dst: Reg(5), field: RefField(1) },
            Opcode::JNotNull { reg: Reg(5), offset: 52 },
            Opcode::GetThis { dst: Reg(16), field: RefField(2) },
            Opcode::Field { dst: Reg(19), obj: Reg(16), field: sentinel },
            Opcode::JTrue { cond: Reg(19), offset: 21 },
            Opcode::String { dst: Reg(6), ptr: RefString(strings + 1) },
        ])
    );
    assert_eq!(
        shows(&f.ops[12..27]),
        shows(&[
            Opcode::JFalse { cond: Reg(10), offset: 13 },
            Opcode::GetThis { dst: Reg(16), field: RefField(2) },
            Opcode::String { dst: Reg(11), ptr: RefString(strings + 2) },
            Opcode::Int { dst: Reg(12), ptr: RefInt(ints + 1) },
            Opcode::New { dst: Reg(13) },
            Opcode::SetField { obj: Reg(13), field: RefField(0), src: Reg(11) },
            Opcode::SetField { obj: Reg(13), field: RefField(1), src: Reg(12) },
            Opcode::Float { dst: Reg(14), ptr: RefFloat(1) },
            Opcode::Null { dst: Reg(15) },
            Opcode::NullCheck { reg: Reg(16) },
            Opcode::Call4 {
                dst: Reg(17),
                fun: RefFun(n.add_resource),
                arg0: Reg(16),
                arg1: Reg(13),
                arg2: Reg(14),
                arg3: Reg(15)
            },
            Opcode::GetThis { dst: Reg(16), field: RefField(2) },
            Opcode::Bool { dst: Reg(20), value: ValBool(true) },
            Opcode::SetField { obj: Reg(16), field: sentinel, src: Reg(20) },
            Opcode::String { dst: Reg(6), ptr: RefString(strings + 3) },
        ])
    );
    assert_eq!(
        shows(&f.ops[33..34]),
        shows(&[Opcode::JFalse { cond: Reg(10), offset: 20 }])
    );
    assert_eq!(
        shows(&f.ops[53..54]),
        shows(&[Opcode::Call1 { dst: Reg(18), fun: RefFun(SYS_DELETE), arg0: Reg(9) }])
    );
    assert_eq!(f.debug_info.as_ref().unwrap().len(), f.ops.len());
}

#[test]
fn grants_need_what_they_refer_to() {
    let (mut code, _) = game();
    code.natives.remove(1);
    assert!(matches!(
        patch_player_update_grants_resources(&mut code, &two_grants()),
        Err(PatchError::Native(NativeFn::SysDelete))
    ));
    let (mut code, _) = game();
    code.natives[0].t = VOID;
    assert!(matches!(
        patch_player_update_grants_resources(&mut code, &two_grants()),
        Err(PatchError::NativeSignature(NativeFn::SysExists))
    ));
    let (mut code, _) = game();
    let player = find_type_index_by_name(&code, "ent.Player").unwrap();
    if let Type::Obj(obj) = &mut code.types[player] {
        obj.fields.pop();
    }
    assert!(matches!(
        patch_player_update_grants_resources(&mut code, &two_grants()),
        Err(PatchError::ResourcesField(FieldError::NoField))
    ));
    let (mut code, n) = game();
    function_mut(&mut code, n.add_resource).regs.pop();
    assert!(matches!(
        patch_player_update_grants_resources(&mut code, &two_grants()),
        Err(PatchError::Shape(Method::AddResource, 1, 3))
    ));
    let (mut code, n) = game();
    function_mut(&mut code, n.player_update).ops.pop();
    assert!(matches!(
        patch_player_update_grants_resources(&mut code, &two_grants()),
        Err(PatchError::Shape(Method::PlayerUpdate, 9, 5))
    ));
    let (mut code, n) = game();
    function_mut(&mut code, n.player_update).ops[2] = Opcode::Label;
    assert!(matches!(
        patch_player_update_grants_resources(&mut code, &two_grants()),
        Err(PatchError::Op(Method::PlayerUpdate, 2))
    ));
    let (mut code, n) = game();
    function_mut(&mut code, n.player_update).ops[3] = Opcode::Label;
    assert!(matches!(
        patch_player_update_grants_resources(&mut code, &two_grants()),
        Err(PatchError::Op(Method::PlayerUpdate, 3))
    ));
}

#[test]
fn grants_need_a_class_for_their_fields() {
    let (mut code, n) = game();
    let at = find_type_index_by_name(&code, "ent.player.ResourcesComponent").unwrap();
    if let Type::Obj(obj) = code.types[at].clone() {
        code.types[at] = Type::Struct(obj);
    }
    assert_eq!(method_findex(&code, Method::AddResource).unwrap(), n.add_resource);
    assert!(matches!(
        patch_player_update_grants_resources(&mut code, &two_grants()),
        Err(PatchError::ResourcesClass)
    ));
}

#[test]
fn resources_have_two_grants_each() {
    let grants = resource_grants(&resource_configs(), "C:\\p");
    assert_eq!(grants.len(), 14);
    assert_eq!(grants[0].kind, GrantKind::Useful);
    assert_eq!(grants[0].marker_path, "C:\\p\\useful_money.flag");
    assert_eq!(grants[0].amount, 50);
    assert_eq!(grants[1].kind, GrantKind::Filler);
    assert_eq!(grants[1].marker_path, "C:\\p\\filler_money.flag");
    assert_eq!(grants[1].amount, 100);
    assert_eq!(grants[6].resource_ids, ["Lore", "Faith"]);
    assert_eq!(grants[6].amount, 40);
    assert_eq!(grants[7].amount, 200);
    assert_eq!(grants[12].key, "military_xp");
    assert_eq!(grants[12].resource_ids, ["MilitaryXP", "HuntTrophy"]);
    assert_eq!((grants[12].amount, grants[13].amount), (25, 200));
    assert_eq!((grants[8].amount, grants[9].amount), (5, 10));
    let mut paths: Vec<&String> = grants.iter().map(|g| &g.marker_path).collect();
    paths.sort();
    paths.dedup();
    assert_eq!(paths.len(), 14);
}

// ---------------------------------------------------------------------------------------------
// The whole
// ---------------------------------------------------------------------------------------------

#[test]
fn patched_program_is_reported_as_patched() {
    let (code, _) = game();
    assert!(matches!(classify_battle_state(&code), PatchState::Vanilla));
    let (code, _) = patched_game();
    assert!(matches!(classify_battle_state(&code), PatchState::Patched));
}

#[test]
fn patched_program_is_not_patched_again() {
    let (mut code, _) = patched_game();
    assert!(matches!(
        patch_program(&mut code, "u", "f", "p"),
        Err(PatchError::Shape(Method::GetBattleState, 31, 19))
    ));
}

#[test]
fn unfamiliar_program_is_told_from_both() {
    let (mut code, n) = game();
    function_mut(&mut code, n.gate).ops.push(Opcode::Label);
    assert!(matches!(classify_battle_state(&code), PatchState::Unfamiliar(15)));
    function_mut(&mut code, n.gate).parent = None;
    assert!(matches!(
        classify_battle_state(&code),
        PatchState::Missing(LookupError::NotFound)
    ));
    assert!(matches!(
        patch_program(&mut code, "u", "f", "p"),
        Err(PatchError::Method(Method::GetBattleState, LookupError::NotFound))
    ));
}

#[test]
fn other_functions_stay_as_they_are() {
    let (before, n) = game();
    let (after, _) = patched_game();
    let changed =
        [n.gate, n.map_update, n.reveal, n.recorded, n.callback, n.player_update];
    assert_eq!(before.functions.len(), after.functions.len());
    for (a, b) in before.functions.iter().zip(&after.functions) {
        assert_eq!(a.findex, b.findex);
        assert_eq!(a.name, b.name);
        assert_eq!(a.parent, b.parent);
        assert_eq!(changed.contains(&a.findex.0), shows(&a.ops) != shows(&b.ops));
        assert_eq!(b.debug_info.as_ref().unwrap().len(), b.ops.len());
    }
    assert_eq!(before.strings[..], after.strings[..before.strings.len()]);
    assert_eq!(before.ints[..], after.ints[..before.ints.len()]);
    assert_eq!(before.floats[..], after.floats[..before.floats.len()]);
}

#[test]
fn each_useful_grant_has_a_field_of_its_own() {
    let (code, _) = patched_game();
    let names = ["money", "food", "wood", "lore", "stone", "iron", "military_xp"];
    for (i, key) in names.iter().enumerate() {
        let name = format!("apUsefulApplied_{key}");
        assert_eq!(
            find_field_by_name(&code, "ent.player.ResourcesComponent", &name),
            Ok((RefField(1 + i), BOOL))
        );
    }
}

#[test]
fn directories_have_their_names() {
    assert_eq!(UNLOCK_SUBDIR, "unlocked");
    assert_eq!(NON_LINEAR_FLAG_NAME, "non_linear_mode.flag");
    assert_eq!(PENDING_RESOURCES_SUBDIR, "pending_resources");
    let (code, _) = patched_game();
    assert!(code.strings.iter().any(|s| s == "C:\\cfg\\unlocked\\"));
    assert!(code.strings.iter().any(|s| s == "C:\\cfg\\pending\\filler_iron.flag"));
}

#[test]
fn plans_follow_the_state_of_the_game() {
    let (own, _) = game();
    let (patched, _) = patched_game();
    let plan = |write_backup: bool, patch_live: bool| ApplyPlan {
        refuse: false,
        write_backup,
        patch_live,
    };
    let plan_for = |code: &Module, backup_exists: bool| {
        plan_apply(&Some(classify_battle_state(code)), backup_exists)
    };
    assert_eq!(plan_for(&own, false), plan(true, true));
    assert_eq!(plan_for(&own, true), plan(true, true));
    assert_eq!(plan_for(&patched, true), plan(false, false));
    assert_eq!(plan_for(&patched, false), plan(true, false));
    assert_eq!(plan_apply(&None, true), plan(false, false));
    assert_eq!(plan_apply(&None, false), plan(true, false));
    let refused = ApplyPlan { refuse: true, write_backup: false, patch_live: false };
    let (mut longer, n) = game();
    function_mut(&mut longer, n.gate).ops.push(Opcode::Nop);
    assert_eq!(plan_for(&longer, true), refused);
    assert_eq!(plan_for(&longer, false), plan(true, false));
    let (mut nameless, n) = game();
    function_mut(&mut nameless, n.gate).parent = None;
    assert_eq!(plan_for(&nameless, true), refused);
    assert_eq!(plan_for(&nameless, false), plan(true, false));
}

#[test]
fn release_of_an_unknown_shape_is_left_alone() {
    let (mut longer, n) = game();
    function_mut(&mut longer, n.gate).ops.push(Opcode::Nop);
    let step = begin_apply(Some(longer), true);
    assert!(matches!(step, Applying::Refused(PatchState::Unfamiliar(15))));
    let step = step.on_kept().on_copy_read(game().0).on_installed();
    let step = step.on_unlock_dir("C:\\u", "C:\\f").unwrap();
    let step = step.on_pending_dir("C:\\p").unwrap();
    assert!(matches!(step, Applying::Refused(PatchState::Unfamiliar(15))));
    let (mut nameless, n) = game();
    function_mut(&mut nameless, n.gate).parent = None;
    let step = begin_apply(Some(nameless), true);
    assert!(matches!(step, Applying::Refused(PatchState::Missing(LookupError::NotFound))));
}

#[test]
fn release_of_an_unknown_shape_is_kept_where_there_is_no_copy() {
    let longer = || {
        let (mut code, n) = game();
        function_mut(&mut code, n.gate).ops.push(Opcode::Nop);
        code
    };
    let step = begin_apply(Some(longer()), false);
    assert!(matches!(step, Applying::Keep(None)));
    let step = step.on_kept();
    assert!(matches!(step, Applying::ReadCopy));
    assert!(matches!(
        step.on_copy_read(longer()).on_unlock_dir("C:\\u", "C:\\f"),
        Err(ApplyError::Patch(PatchError::Shape(Method::GetBattleState, 15, 8), _))
    ));
}

#[test]
fn status_has_an_exit_code() {
    let code_of = |exists: bool, state: Option<PatchState>| {
        let status = status_of(exists, &state);
        (status, exit_code(status))
    };
    assert_eq!(code_of(true, Some(PatchState::Patched)), (Status::Patched, 0));
    assert_eq!(code_of(true, Some(PatchState::Vanilla)), (Status::NotPatched, 1));
    assert_eq!(code_of(true, Some(PatchState::Unfamiliar(3))), (Status::Unknown, 2));
    assert_eq!(
        code_of(true, Some(PatchState::Missing(LookupError::NotFound))),
        (Status::Unknown, 2)
    );
    assert_eq!(code_of(true, None), (Status::Unreadable, 2));
    assert_eq!(code_of(false, None), (Status::NoFile, 2));
}

// ---------------------------------------------------------------------------------------------
// Bytes
// ---------------------------------------------------------------------------------------------

/// The bytes of the program that [`game`] makes.
fn game_image() -> Vec<u8> {
    image_with(|_| ())
}

/// The bytes of the program that [`game`] makes, once it has been changed.
fn image_with(change: impl Fn(&mut hlbc::Bytecode)) -> Vec<u8> {
    let (code, _) = game();
    let mut out = hlbc::Bytecode::default();
    out.ints = code.ints;
    out.floats = vec![1.5];
    out.strings = code.strings.iter().map(|s| s.as_str().into()).collect();
    out.bytes = Some((Vec::new(), Vec::new()));
    out.debug_files =
        code.debug_files.map(|files| files.iter().map(|s| s.as_str().into()).collect());
    out.types = code.types;
    while out.types.len() < 50 {
        out.types.push(Type::Void);
    }
    out.globals = vec![DYNAMIC; 3];
    out.natives = code.natives;
    out.functions = code.functions;
    out.constants = Some(Vec::new());
    out.entrypoint = RefFun(2);
    change(&mut out);
    let mut image = Vec::new();
    out.serialize(&mut image).unwrap();
    image
}

#[test]
fn program_is_read_from_its_bytes() {
    let code = load(&game_image()).unwrap();
    let (_, n) = game();
    assert_eq!(code.floats, vec![Float::Loaded]);
    assert_eq!(code.ints, vec![0]);
    assert_eq!(code.debug_files, Some(vec!["Conquest.hx".to_string()]));
    assert_eq!(code.natives.len(), 2);
    assert_eq!(method_findex(&code, Method::GetBattleState).unwrap(), n.gate);
    assert!(matches!(classify_battle_state(&code), PatchState::Vanilla));
}

#[test]
fn other_bytes_are_no_program() {
    assert!(load(b"HLC\x05").is_err());
    assert!(load(b"HL").is_err());
    assert!(load(&[]).is_err());
    let image = game_image();
    assert!(load(&image[..image.len() / 2]).is_err());
}

/// The first class of a program.
fn first_class(out: &mut hlbc::Bytecode) -> &mut TypeObj {
    for t in out.types.iter_mut() {
        if let Type::Obj(obj) = t {
            return obj;
        }
    }
    panic!("no class");
}

fn assert_unsound(image: &[u8]) {
    assert!(matches!(load(image), Err(ImageError::Unsound)));
}

#[test]
fn references_that_lead_nowhere_are_refused() {
    let far: usize = 0x100_0000;
    assert_unsound(&image_with(|out| out.functions[0].findex = RefFun(far)));
    assert_unsound(&image_with(|out| out.functions[0].findex = RefFun(usize::MAX)));
    assert_unsound(&image_with(|out| out.natives[1].findex = RefFun(far)));
    assert_unsound(&image_with(|out| out.entrypoint = RefFun(far)));
    assert_unsound(&image_with(|out| first_class(out).super_ = Some(RefType(far))));
    assert_unsound(&image_with(|out| {
        first_class(out).protos.push(ObjProto { name: RefString(0), findex: RefFun(far), pindex: 0 })
    }));
    assert_unsound(&image_with(|out| {
        first_class(out).protos.push(ObjProto { name: RefString(far), findex: RefFun(2), pindex: 0 })
    }));
    assert_unsound(&image_with(|out| {
        first_class(out).bindings.insert(RefField(far), RefFun(2));
    }));
    assert_unsound(&image_with(|out| {
        first_class(out).own_fields = vec![ObjField { name: RefString(0), t: INT }];
        first_class(out).bindings.insert(RefField(0), RefFun(far));
    }));
    assert_unsound(&image_with(|out| {
        first_class(out).own_fields = vec![ObjField { name: RefString(far), t: INT }];
        first_class(out).bindings.insert(RefField(0), RefFun(2));
    }));
    assert_unsound(&image_with(|out| out.strings.clear()));
}

#[test]
fn names_of_natives_are_not_looked_at() {
    let far: usize = 0x100_0000;
    assert!(load(&image_with(|out| {
        first_class(out).protos.push(ObjProto { name: RefString(far), findex: RefFun(0), pindex: 0 })
    }))
    .is_ok());
}

#[test]
fn methods_are_found_in_another_order_and_under_other_numbers() {
    let (mut code, n) = game();
    code.functions.reverse();
    for f in code.functions.iter_mut() {
        f.findex = RefFun(1000 - f.findex.0);
    }
    assert_eq!(
        find_method_findex(&code, "gamesys.conquest.Conquest", "getBattleState").unwrap(),
        1000 - n.gate
    );
    assert_eq!(
        find_method_findex(&code, "ent.Player", "update").unwrap(),
        1000 - n.player_update
    );
    assert!(find_method_findex(&code, "ent.Player", "getBattleState").is_err());
}

#[test]
fn only_the_last_name_of_a_function_is_looked_at() {
    let at = game().0.types.len();
    let proto =
        |name: usize| ObjProto { name: RefString(name), findex: RefFun(2), pindex: 0 };
    let far: usize = 0x100_0000;
    // Two methods of one class.
    let twice = |first: usize, then: usize| {
        image_with(|out| {
            let class = first_class(out);
            class.protos.push(proto(first));
            class.protos.push(proto(then));
        })
    };
    assert!(load(&twice(far, 0)).is_ok());
    assert_unsound(&twice(0, far));
    // Methods of two classes.
    let in_turn = |first: usize, then: usize| {
        image_with(|out| {
            let mut later = first_class(out).clone();
            first_class(out).protos.push(proto(first));
            later.protos = vec![proto(then)];
            out.types[at] = Type::Obj(later);
        })
    };
    assert!(load(&in_turn(far, 0)).is_ok());
    assert_unsound(&in_turn(0, far));
    // A method and a binding of one class.
    let both = |method: usize, field: usize| {
        image_with(|out| {
            let class = first_class(out);
            class.protos.push(proto(method));
            class.own_fields = vec![ObjField { name: RefString(field), t: INT }];
            class.bindings.insert(RefField(0), RefFun(2));
        })
    };
    assert!(load(&both(far, 0)).is_ok());
    assert_unsound(&both(0, far));
}

#[test]
fn inherited_fields_can_be_bound() {
    let (code, n) = game();
    let at = code.types.len();
    let bound = |field: usize| {
        image_with(|out| {
            let base = first_class(out);
            base.own_fields = vec![ObjField { name: RefString(1), t: INT }];
            let mut child = base.clone();
            child.protos.clear();
            child.super_ = Some(RefType(7));
            child.own_fields = vec![ObjField { name: RefString(2), t: INT }];
            child.bindings.insert(RefField(field), RefFun(n.gate));
            assert!(matches!(out.types[7], Type::Obj(_)));
            out.types[at] = Type::Obj(child);
        })
    };
    for field in [0, 1] {
        let code = load(&bound(field)).unwrap();
        let f = &code.functions[find_function(&code, n.gate).unwrap()];
        assert_eq!((f.name, f.parent), (RefString(1 + field), Some(RefType(at))));
    }
    assert_unsound(&bound(2));
}

#[test]
fn classes_that_extend_themselves_are_refused() {
    assert_unsound(&image_with(|out| {
        assert!(matches!(out.types[7], Type::Obj(_)));
        first_class(out).super_ = Some(RefType(7));
    }));
    assert_unsound(&image_with(|out| {
        let mut other = first_class(out).clone();
        other.super_ = Some(RefType(7));
        first_class(out).super_ = Some(RefType(49));
        out.types[49] = Type::Obj(other);
    }));
}

#[test]
fn sizes_that_are_too_large_are_refused() {
    // The pools start behind the header, the version, eleven sizes and the entry point.
    let header = b"HLB\x05".to_vec();
    let with = |sizes: [u8; 10], rest: &[u8]| {
        let mut image = header.clone();
        image.extend_from_slice(&sizes);
        image.push(0);
        image.extend_from_slice(rest);
        image
    };
    // No text, but a block of texts of a negative size, or of one that is not there.
    assert_unsound(&with([0; 10], &[0xFF, 0xFF, 0xFF, 0xFF]));
    assert_unsound(&with([0; 10], &[1, 0, 0, 0]));
    // One text that is longer than the block of texts.
    assert_unsound(&with([0, 0, 0, 1, 0, 0, 0, 0, 0, 0], &[1, 0, 0, 0, 0, 2]));
    // More integers than bytes.
    assert_unsound(&with([0, 0x7F, 0, 0, 0, 0, 0, 0, 0, 0], &[0, 0, 0, 0]));
    // Raw bytes of a negative size.
    assert_unsound(&with([0; 10], &[0, 0, 0, 0, 0, 0, 0, 0x80]));
    // Nothing at all: the entry point is not there.
    assert_unsound(&with([0; 10], &[0; 8]));
    // A kind of type that is not known: the reader says so.
    assert!(matches!(
        load(&with([0, 0, 0, 0, 0, 1, 0, 0, 0, 0], &[0, 0, 0, 0, 0, 0, 0, 0, 23])),
        Err(ImageError::Reported(hlbc::Error::MalformedBytecode(_)))
    ));
    // Text that is none.
    assert!(matches!(
        load(&with([0, 0, 0, 1, 0, 0, 0, 1, 0, 0], &[2, 0, 0, 0, 0xFF, 0, 1, 0, 0, 0, 0, 0, 0, 0, 0])),
        Err(ImageError::Reported(hlbc::Error::Utf8Error(_)))
    ));
}

#[test]
fn every_instruction_is_gone_through() {
    let all = every_instruction();
    assert_eq!(all.len(), 99);
    let count = all.len();
    let code = load(&image_with(|out| {
        out.functions[0].ops = all.clone();
        out.functions[0].debug_info = Some(vec![(0, 7); count]);
    }))
    .unwrap();
    assert_eq!(format!("{:?}", code.functions[0].ops), format!("{all:?}"));
}

/// One of every instruction.
fn every_instruction() -> Vec<Opcode> {
    let mut all = Vec::new();
    for op in 0..=98u8 {
        let mut bytes = vec![op];
        bytes.extend_from_slice(&[1, 2, 3, 4, 5, 6, 7]);
        all.push(Opcode::read(&mut bytes.as_slice()).unwrap());
    }
    all
}

#[test]
fn every_kind_of_type_is_gone_through() {
    let types = vec![
        Type::UI8,
        Type::UI16,
        Type::I64,
        Type::F32,
        Type::Array,
        Type::Type,
        Type::DynObj,
        Type::Ref(INT),
        Type::Null(INT),
        Type::Packed(INT),
        Type::Virtual { fields: vec![ObjField { name: RefString(1), t: INT }] },
        Type::Abstract { name: RefString(1) },
        Type::Method(TypeFun { args: vec![INT, BOOL], ret: VOID }),
        Type::Struct(TypeObj {
            name: RefString(1),
            super_: None,
            global: RefGlobal(0),
            own_fields: vec![ObjField { name: RefString(1), t: INT }],
            protos: Vec::new(),
            bindings: HashMap::new(),
            fields: Vec::new(),
        }),
        Type::Enum {
            name: RefString(1),
            global: RefGlobal(0),
            constructs: vec![EnumConstruct { name: RefString(1), params: vec![INT, BOOL] }],
        },
    ];
    let first = game().0.types.len();
    let code = load(&image_with(|out| {
        for (i, t) in types.iter().enumerate() {
            out.types[first + i] = t.clone();
        }
    }))
    .unwrap();
    assert_eq!(format!("{:?}", code.types[first + 12]), format!("{:?}", types[12]));
    assert_eq!(format!("{:?}", code.types[first + 14]), format!("{:?}", types[14]));
    assert!(is_writable(&code));
}

#[test]
fn source_lines_are_gone_through() {
    let (_, n) = game();
    let lines = vec![
        (0, 1), (0, 1), (0, 3), (0, 30), (0, 5000), (1, 5000), (1, 5001), (300, 5001), (300, 0),
        (300, 100_000), (0, 0), (0, 2), (0, 2), (0, 2),
    ];
    let code = load(&image_with(|out| {
        out.debug_files = Some(vec!["a".into(), "b".into()]);
        for f in out.functions.iter_mut() {
            if f.findex.0 == n.gate {
                f.debug_info = Some(lines.clone());
            }
        }
    }))
    .unwrap();
    let f = &code.functions[find_function(&code, n.gate).unwrap()];
    assert_eq!(f.debug_info, Some(lines));
}

#[test]
fn programs_without_debug_information_are_read() {
    let image = image_with(|out| {
        out.debug_files = None;
        for f in out.functions.iter_mut() {
            f.debug_info = None;
            f.assigns = None;
        }
    });
    let code = load(&image).unwrap();
    assert!(code.debug_files.is_none());
    assert!(code.functions.iter().all(|f| f.debug_info.is_none() && f.assigns.is_none()));
    let older = image_with(|out| {
        out.version = 4;
        out.bytes = None;
    });
    assert_eq!(load(&older).unwrap().functions.len(), code.functions.len());
}

#[test]
fn numbers_that_cannot_be_taken_apart_are_not_written() {
    let refused = |change: &dyn Fn(&mut Module)| {
        let mut code = load(&game_image()).unwrap();
        assert!(is_writable(&code));
        change(&mut code);
        assert!(!is_writable(&code));
    };
    let far: usize = 0x8000_0000;
    refused(&|code| code.functions[0].ops[0] = Opcode::JAlways { offset: i32::MIN });
    refused(&|code| code.functions[0].ops[0] = Opcode::Ret { ret: Reg(0x8000_0000) });
    refused(&|code| code.functions[0].ops[0] = Opcode::Call0 { dst: Reg(0), fun: RefFun(far) });
    refused(&|code| {
        code.functions[0].ops[0] =
            Opcode::CallN { dst: Reg(0), fun: RefFun(0), args: vec![Reg(1), Reg(0x8000_0000)] }
    });
    refused(&|code| {
        code.functions[0].ops[0] =
            Opcode::Switch { reg: Reg(0), offsets: vec![0, i32::MIN], end: 0 }
    });
    refused(&|code| code.functions[0].t = RefType(far));
    refused(&|code| code.functions[0].regs[0] = RefType(far));
    refused(&|code| code.functions[0].assigns = Some(vec![(RefString(far), 0)]));
    refused(&|code| code.functions[0].debug_info = Some(vec![(0, far)]));
    refused(&|code| code.functions[0].debug_info = Some(vec![(0, 1); 0x8001]));
    refused(&|code| code.natives[0].name = RefString(far));
    refused(&|code| code.types[0] = Type::Ref(RefType(far)));
    refused(&|code| code.types[0] = Type::Virtual {
        fields: vec![ObjField { name: RefString(0), t: RefType(far) }],
    });
    refused(&|code| code.types[0] = Type::Enum {
        name: RefString(0),
        global: RefGlobal(0),
        constructs: vec![EnumConstruct { name: RefString(0), params: vec![RefType(far)] }],
    });
    refused(&|code| match &mut code.types[7] {
        Type::Obj(obj) => {
            obj.bindings.insert(RefField(0), RefFun(far));
        }
        other => panic!("{other:?}"),
    });
    refused(&|code| match &mut code.types[7] {
        Type::Obj(obj) => obj.super_ = Some(RefType(far)),
        other => panic!("{other:?}"),
    });
    let mut code = load(&game_image()).unwrap();
    code.functions[0].debug_info = Some(vec![(0, 1); 0x8000]);
    assert!(is_writable(&code));
    assert!(store(code).is_ok());
    let mut code = load(&game_image()).unwrap();
    match &mut code.types[7] {
        Type::Obj(obj) => {
            obj.bindings.insert(RefField(0), RefFun(1));
        }
        other => panic!("{other:?}"),
    }
    assert!(is_writable(&code));
}

#[test]
fn reason_is_what_the_reader_says() {
    for _ in 0..2 {
        assert!(load(&game_image()).is_ok());
        let error = load(b"HLC\x05").unwrap_err();
        assert!(matches!(error, ImageError::Reported(hlbc::Error::MalformedBytecode(_))));
        let error = load(b"HLB").unwrap_err();
        assert!(matches!(error, ImageError::Reported(hlbc::Error::IoError(_))));
    }
}

#[test]
fn reason_is_what_the_writer_says() {
    for _ in 0..2 {
        let mut code = load(&game_image()).unwrap();
        code.natives[0].findex = RefFun(0x1FFF_FFFF);
        assert!(store(code).is_ok());
        let mut code = load(&game_image()).unwrap();
        code.natives[0].findex = RefFun(0x2000_0000);
        let error = store(code).unwrap_err();
        assert!(matches!(
            error,
            ImageError::Reported(hlbc::Error::ValueOutOfBounds { value: 0x2000_0000, .. })
        ));
    }
}

#[test]
fn outcomes_are_reported_as_they_are() {
    assert_eq!(reported(Ok::<u32, hlbc::Error>(7)).unwrap(), 7);
    let cause = hlbc::Error::MalformedBytecode("x".to_string());
    let error = reported(Err::<u32, hlbc::Error>(cause)).unwrap_err();
    match error {
        ImageError::Reported(hlbc::Error::MalformedBytecode(text)) => assert_eq!(text, "x"),
        other => panic!("{other:?}"),
    }
}

#[test]
fn program_is_written_as_it_was_read() {
    let image = game_image();
    let written = store(load(&image).unwrap()).unwrap();
    assert_eq!(written, image);
}

/// The bytes that the tool writes where this program is in the copy.
fn patch_to_image(
    code: Module,
    unlock_dir: &str,
    flag: &str,
    pending_dir: &str,
) -> Result<Vec<u8>, ApplyError> {
    let step = begin_apply(None, true).on_copy_read(code);
    match step.on_unlock_dir(unlock_dir, flag)?.on_pending_dir(pending_dir)? {
        Applying::Install(image) => Ok(image),
        other => panic!("{other:?}"),
    }
}

#[test]
fn patched_image_is_that_of_a_patched_program() {
    let image = patch_to_image(load(&game_image()).unwrap(), "C:\\u", "C:\\f", "C:\\p").unwrap();
    assert_ne!(image, game_image());
    let code = load(&image).unwrap();
    let (_, n) = game();
    assert!(matches!(classify_battle_state(&code), PatchState::Patched));
    assert_eq!(code.floats.len(), 1 + 2 * 9);
    assert_eq!(function(&code, n.callback).ops.len(), 21);
    assert!(find_field_by_name(&code, "ent.player.ResourcesComponent", "apUsefulApplied_iron").is_ok());
    let raw = hlbc::Bytecode::deserialize(&mut image.as_slice()).unwrap();
    assert_eq!(raw.floats[..4], [1.5, 50.0, 50.0, 50.0]);
    assert_eq!(raw.floats[4..6], [40.0, 40.0]);
    assert_eq!(raw.floats[10..12], [100.0, 100.0]);
    assert_eq!(raw.floats[18], 200.0);
}

#[test]
fn patching_from_the_copy_gives_the_same_again() {
    let first = patch_to_image(load(&game_image()).unwrap(), "C:\\u", "C:\\f", "C:\\p").unwrap();
    let live = load(&first).unwrap();
    assert!(matches!(begin_apply(Some(live), true), Applying::ReadCopy));
    let again = patch_to_image(load(&game_image()).unwrap(), "C:\\u", "C:\\f", "C:\\p").unwrap();
    assert_eq!(first, again);
}

#[test]
fn own_program_is_kept_and_patched() {
    for backup_exists in [false, true] {
        let step = begin_apply(Some(load(&game_image()).unwrap()), backup_exists);
        assert!(matches!(step, Applying::Keep(Some(_))));
        let step = step.on_kept();
        assert!(matches!(step, Applying::PatchMap(_)));
        let step = step.on_unlock_dir("C:\\u", "C:\\f").unwrap();
        assert!(matches!(step, Applying::AddGrants(_)));
        let step = step.on_pending_dir("C:\\p").unwrap();
        match &step {
            Applying::Install(image) => {
                let code = load(image).unwrap();
                assert!(matches!(classify_battle_state(&code), PatchState::Patched));
            }
            other => panic!("{other:?}"),
        }
        assert!(matches!(step.on_installed(), Applying::Done));
    }
}

#[test]
fn patched_program_is_made_anew_from_the_copy() {
    let image = patch_to_image(load(&game_image()).unwrap(), "C:\\u", "C:\\f", "C:\\p").unwrap();
    let step = begin_apply(Some(load(&image).unwrap()), true);
    assert!(matches!(step, Applying::ReadCopy));
    let step = step.on_kept().on_installed().on_copy_read(load(&game_image()).unwrap());
    let step = step.on_unlock_dir("C:\\u", "C:\\f").unwrap();
    match step.on_pending_dir("C:\\p").unwrap() {
        Applying::Install(again) => assert_eq!(again, image),
        other => panic!("{other:?}"),
    }
}

#[test]
fn unreadable_file_is_kept_only_without_a_copy() {
    assert!(matches!(begin_apply(None, true), Applying::ReadCopy));
    let step = begin_apply(None, false);
    assert!(matches!(step, Applying::Keep(None)));
    assert!(matches!(step.on_kept(), Applying::ReadCopy));
}

#[test]
fn program_of_another_release_is_refused() {
    let mut code = load(&game_image()).unwrap();
    let (_, n) = game();
    function_mut(&mut code, n.callback).ops.pop();
    let step = begin_apply(None, true).on_copy_read(code);
    assert!(matches!(
        step.on_unlock_dir("C:\\u", "C:\\f"),
        Err(ApplyError::Patch(PatchError::Shape(Method::AnimateLastPath, 18, 4), _))
    ));
}

#[test]
fn patched_image_cannot_be_patched() {
    let image = patch_to_image(load(&game_image()).unwrap(), "C:\\u", "C:\\f", "C:\\p").unwrap();
    assert!(matches!(
        patch_to_image(load(&image).unwrap(), "C:\\u", "C:\\f", "C:\\p"),
        Err(ApplyError::Patch(PatchError::Shape(Method::GetBattleState, 31, 19), _))
    ));
}

#[test]
fn zero_characters_cannot_be_written() {
    let mut code = load(&game_image()).unwrap();
    assert!(is_writable(&code));
    assert!(matches!(
        patch_to_image(load(&game_image()).unwrap(), "C:\\u\0", "C:\\f", "C:\\p"),
        Err(ApplyError::Unwritable)
    ));
    code.debug_files = Some(vec!["a\0b".to_string()]);
    assert!(!is_writable(&code));
}

#[test]
fn floats_out_of_order_cannot_be_written() {
    let mut code = load(&game_image()).unwrap();
    code.push_float(3);
    assert!(is_writable(&code));
    code.floats.push(Float::Loaded);
    assert!(!is_writable(&code));
}

#[test]
fn numbers_too_large_for_the_format_are_not_written() {
    let mut code = load(&game_image()).unwrap();
    code.natives[0].findex = RefFun(0x2000_0000);
    assert!(store(code).is_err());
    let mut code = load(&game_image()).unwrap();
    code.natives[0].t = RefType(0x2000_0000);
    assert!(matches!(
        patch_to_image(code, "C:\\u", "C:\\f", "C:\\p"),
        Err(ApplyError::Patch(PatchError::NativeSignature(NativeFn::SysExists), _))
    ));
    let mut code = load(&game_image()).unwrap();
    code.natives[1].t = RefType(0x2000_0000);
    assert!(matches!(
        patch_to_image(code, "C:\\u", "C:\\f", "C:\\p"),
        Err(ApplyError::Write(_))
    ));
}

// ---------------------------------------------------------------------------------------------
// What the new code does
// ---------------------------------------------------------------------------------------------

#[derive(Clone, Debug, PartialEq)]
enum Value {
    Null,
    Bool(bool),
    Int(i32),
    Text(String),
    Number(Float),
    Object(usize),
}

/// A game around a function that is run: its objects, its files, and what is called.
struct World {
    objects: Vec<HashMap<usize, Value>>,
    arrays: Vec<Vec<Value>>,
    files: Vec<String>,
    calls: Vec<(usize, Vec<Value>)>,
    invoked: usize,
    progress: bool,
    reachable: bool,
    numbers: Numbers,
}

impl World {
    fn new(numbers: Numbers) -> World {
        World {
            objects: vec![HashMap::new()],
            arrays: Vec::new(),
            files: Vec::new(),
            calls: Vec::new(),
            invoked: 0,
            progress: false,
            reachable: false,
            numbers,
        }
    }

    fn object(&mut self, fields: &[(usize, Value)]) -> Value {
        self.objects.push(fields.iter().cloned().collect());
        Value::Object(self.objects.len() - 1)
    }

    fn array(&mut self, items: Vec<Value>) -> Value {
        let length = items.len() as i32;
        self.arrays.push(items);
        let raw = Value::Int(self.arrays.len() as i32 - 1);
        self.object(&[(0, Value::Int(length)), (1, raw)])
    }

    fn get(&self, object: &Value, field: usize) -> Value {
        match object {
            Value::Object(i) => self.objects[*i].get(&field).cloned().unwrap_or(Value::Bool(false)),
            other => panic!("no object: {other:?}"),
        }
    }

    fn string(&self, value: &Value) -> String {
        match (self.get(value, 0), self.get(value, 1)) {
            (Value::Text(text), Value::Int(n)) => {
                assert_eq!(text.len() as i32, n);
                text
            }
            other => panic!("no string: {other:?}"),
        }
    }

    fn call(&mut self, fun: usize, args: Vec<Value>) -> Value {
        self.calls.push((fun, args.clone()));
        let n = &self.numbers;
        if fun == n.get_progress {
            return if self.progress { Value::Int(1) } else { Value::Null };
        }
        if fun == n.get_battle {
            return self.object(&[(5, Value::Int(3))]);
        }
        if fun == n.is_reachable {
            assert_eq!(args[1], Value::Int(3));
            return Value::Bool(self.reachable);
        }
        if fun == n.string_add {
            let text = self.string(&args[0]) + &self.string(&args[1]);
            let length = text.len() as i32;
            return self.object(&[(0, Value::Text(text)), (1, Value::Int(length))]);
        }
        if fun == n.get_path {
            return Value::Text(format!("native:{}", self.string(&args[0])));
        }
        if fun == SYS_EXISTS {
            return match &args[0] {
                Value::Text(path) => Value::Bool(self.files.contains(path)),
                other => panic!("no path: {other:?}"),
            };
        }
        if fun == SYS_DELETE {
            match &args[0] {
                Value::Text(path) => self.files.retain(|file| file != path),
                other => panic!("no path: {other:?}"),
            }
        }
        if fun == n.gate {
            return Value::Text(format!("state of {}", self.string(&args[1])));
        }
        Value::Bool(true)
    }

    /// Runs a function to its end, and returns its value.
    fn run(&mut self, code: &Module, findex: usize, args: &[Value]) -> Value {
        let ops = function(code, findex).ops.clone();
        let mut regs: HashMap<u32, Value> =
            args.iter().enumerate().map(|(i, v)| (i as u32, v.clone())).collect();
        let mut pc: i64 = 0;
        loop {
            let get = |r: Reg| regs.get(&r.0).cloned().unwrap_or(Value::Null);
            let mut jump: i64 = 0;
            let mut set: Option<(Reg, Value)> = None;
            match ops[pc as usize].clone() {
                Opcode::Label => {}
                Opcode::Null { dst } => set = Some((dst, Value::Null)),
                Opcode::Bool { dst, value } => set = Some((dst, Value::Bool(value.0))),
                Opcode::Int { dst, ptr } => set = Some((dst, Value::Int(code.ints[ptr.0]))),
                Opcode::Float { dst, ptr } => set = Some((dst, Value::Number(code.floats[ptr.0]))),
                Opcode::String { dst, ptr } => {
                    set = Some((dst, Value::Text(code.strings[ptr.0].clone())))
                }
                Opcode::New { dst } => set = Some((dst, self.object(&[]))),
                Opcode::GetGlobal { dst, global } => {
                    set = Some((dst, Value::Int(global.0 as i32)))
                }
                Opcode::GetThis { dst, field } => set = Some((dst, self.get(&get(Reg(0)), field.0))),
                Opcode::Field { dst, obj, field } => set = Some((dst, self.get(&get(obj), field.0))),
                Opcode::SetField { obj, field, src } => match get(obj) {
                    Value::Object(i) => {
                        let value = get(src);
                        self.objects[i].insert(field.0, value);
                    }
                    other => panic!("no object: {other:?}"),
                },
                Opcode::GetArray { dst, array, index } => match (get(array), get(index)) {
                    (Value::Int(a), Value::Int(i)) => {
                        set = Some((dst, self.arrays[a as usize][i as usize].clone()))
                    }
                    other => panic!("no element: {other:?}"),
                },
                Opcode::SafeCast { dst, src } | Opcode::UnsafeCast { dst, src } => {
                    set = Some((dst, get(src)))
                }
                Opcode::Incr { dst } => match get(dst) {
                    Value::Int(i) => set = Some((dst, Value::Int(i + 1))),
                    other => panic!("no number: {other:?}"),
                },
                Opcode::NullCheck { reg } => assert_ne!(get(reg), Value::Null),
                Opcode::JAlways { offset } => jump = offset as i64,
                Opcode::JTrue { cond, offset } => {
                    if get(cond) == Value::Bool(true) {
                        jump = offset as i64;
                    }
                }
                Opcode::JFalse { cond, offset } => {
                    if get(cond) != Value::Bool(true) {
                        jump = offset as i64;
                    }
                }
                Opcode::JNull { reg, offset } => {
                    if get(reg) == Value::Null {
                        jump = offset as i64;
                    }
                }
                Opcode::JNotNull { reg, offset } => {
                    if get(reg) != Value::Null {
                        jump = offset as i64;
                    }
                }
                Opcode::JSGte { a, b, offset } => match (get(a), get(b)) {
                    (Value::Int(x), Value::Int(y)) => {
                        if x >= y {
                            jump = offset as i64;
                        }
                    }
                    other => panic!("no numbers: {other:?}"),
                },
                Opcode::JULt { a, b, offset } => match (get(a), get(b)) {
                    (Value::Int(x), Value::Int(y)) => {
                        if (x as u32) < (y as u32) {
                            jump = offset as i64;
                        }
                    }
                    other => panic!("no numbers: {other:?}"),
                },
                Opcode::Call1 { dst, fun, arg0 } => {
                    let args = vec![get(arg0)];
                    set = Some((dst, self.call(fun.0, args)));
                }
                Opcode::Call2 { dst, fun, arg0, arg1 } => {
                    let args = vec![get(arg0), get(arg1)];
                    set = Some((dst, self.call(fun.0, args)));
                }
                Opcode::Call3 { dst, fun, arg0, arg1, arg2 } => {
                    let args = vec![get(arg0), get(arg1), get(arg2)];
                    set = Some((dst, self.call(fun.0, args)));
                }
                Opcode::Call4 { dst, fun, arg0, arg1, arg2, arg3 } => {
                    let args = vec![get(arg0), get(arg1), get(arg2), get(arg3)];
                    set = Some((dst, self.call(fun.0, args)));
                }
                Opcode::CallClosure { dst, args, .. } => {
                    assert!(args.is_empty());
                    self.invoked += 1;
                    set = Some((dst, Value::Null));
                }
                Opcode::Ret { ret } => return get(ret),
                other => panic!("{other:?}"),
            }
            if let Some((dst, value)) = set {
                regs.insert(dst.0, value);
            }
            pc += 1 + jump;
        }
    }
}

fn node_id(world: &mut World, id: &str) -> Value {
    world.object(&[(0, Value::Text(id.to_string())), (1, Value::Int(id.len() as i32))])
}

/// What the patched game says of a node.
fn verdict(progress: bool, reachable: bool, flag: bool, marker: bool) -> usize {
    let (code, n) = patched_game();
    let gate = n.gate;
    let mut world = World::new(n);
    world.progress = progress;
    world.reachable = reachable;
    if flag {
        world.files.push("native:C:\\cfg\\nl.flag".to_string());
    }
    if marker {
        world.files.push("native:C:\\cfg\\unlocked\\KeepSimple".to_string());
    }
    let conquest = world.object(&[]);
    let id = node_id(&mut world, "KeepSimple");
    match world.run(&code, gate, &[conquest, id]) {
        Value::Int(state) => state as usize,
        other => panic!("{other:?}"),
    }
}

#[test]
fn node_is_unlocked_only_with_its_marker() {
    for reachable in [false, true] {
        for flag in [false, true] {
            assert_eq!(verdict(false, reachable, flag, false), LOCKED);
            let unlocked = if reachable || flag { UNLOCKED } else { LOCKED };
            assert_eq!(verdict(false, reachable, flag, true), unlocked);
            assert_eq!(verdict(true, reachable, flag, false), DONE);
        }
    }
}

#[test]
fn own_check_goes_by_reachability_alone() {
    for reachable in [false, true] {
        let (code, n) = game();
        let gate = n.gate;
        let mut world = World::new(n);
        world.reachable = reachable;
        let conquest = world.object(&[]);
        let id = node_id(&mut world, "KeepSimple");
        let state = if reachable { UNLOCKED } else { LOCKED };
        assert_eq!(world.run(&code, gate, &[conquest, id]), Value::Int(state as i32));
    }
}

#[test]
fn every_node_of_the_map_is_shown() {
    let (code, n) = patched_game();
    let (update, change_state) = (n.map_update, n.change_state);
    let mut world = World::new(n);
    let mut columns = Vec::new();
    let mut expected = Vec::new();
    for ids in [vec!["a", "b"], vec![], vec!["c"]] {
        let mut buttons = Vec::new();
        for id in ids {
            let inf_id = node_id(&mut world, id);
            let data = world.object(&[(1, inf_id)]);
            let battle = world.object(&[(0, data)]);
            let button = world.object(&[(108, battle)]);
            expected.push((button.clone(), format!("state of {id}")));
            buttons.push(button);
        }
        columns.push(world.array(buttons));
    }
    let columns = world.array(columns);
    let container = world.object(&[(79, columns)]);
    let conquest = world.object(&[]);
    let this = world.object(&[(13, container), (19, conquest)]);
    assert_eq!(world.run(&code, update, &[this]), Value::Bool(true));
    let shown: Vec<(Value, String)> = world
        .calls
        .iter()
        .filter(|(fun, _)| *fun == change_state)
        .map(|(_, args)| match &args[1] {
            Value::Text(state) => {
                assert_eq!(args[2], Value::Null);
                (args[0].clone(), state.clone())
            }
            other => panic!("{other:?}"),
        })
        .collect();
    assert_eq!(shown, expected);
}

#[test]
fn callback_is_called_where_nothing_is_drawn() {
    let (code, n) = patched_game();
    let callback = n.callback;
    let mut world = World::new(n);
    let this = world.object(&[(2, Value::Null)]);
    world.run(&code, callback, &[this, Value::Int(7)]);
    assert_eq!(world.invoked, 1);
    let this = world.object(&[(2, Value::Int(4))]);
    world.run(&code, callback, &[this, Value::Int(7)]);
    assert_eq!(world.invoked, 1);
}

/// A player with resources, and what controls it.
fn player(world: &mut World, ai_job: Value) -> Value {
    let resources = world.object(&[]);
    world.object(&[(1, ai_job), (2, resources)])
}

/// The resources that were added, with their amounts.
fn added(world: &World, add_resource: usize) -> Vec<(String, u32)> {
    world
        .calls
        .iter()
        .filter(|(fun, _)| *fun == add_resource)
        .map(|(_, args)| match &args[2] {
            Value::Number(Float::Whole(n)) => (world.string(&args[1]), *n),
            other => panic!("{other:?}"),
        })
        .collect()
}

#[test]
fn useful_grant_is_applied_once_in_a_battle() {
    let (code, n) = patched_game();
    let (update, add) = (n.player_update, n.add_resource);
    let mut world = World::new(n);
    let marker = "native:C:\\cfg\\pending\\useful_lore.flag".to_string();
    let human = player(&mut world, Value::Null);
    world.run(&code, update, &[human.clone()]);
    assert_eq!(added(&world, add), []);
    world.files.push(marker.clone());
    world.run(&code, update, &[human.clone()]);
    let expected = vec![("Lore".to_string(), 40), ("Faith".to_string(), 40)];
    assert_eq!(added(&world, add), expected);
    world.run(&code, update, &[human.clone()]);
    assert_eq!(added(&world, add), expected);
    assert_eq!(world.files, vec![marker]);
    // Another one that arrives in the same battle is applied at once.
    world.files.push("native:C:\\cfg\\pending\\useful_money.flag".to_string());
    world.run(&code, update, &[human]);
    assert_eq!(added(&world, add)[2..], [("Money".to_string(), 50)]);
    // A new battle begins with new resources.
    let human = player(&mut world, Value::Null);
    world.run(&code, update, &[human]);
    assert_eq!(added(&world, add).len(), 6);
}

#[test]
fn filler_grant_is_applied_once_for_each_marker() {
    let (code, n) = patched_game();
    let (update, add) = (n.player_update, n.add_resource);
    let mut world = World::new(n);
    let human = player(&mut world, Value::Null);
    for round in 1..4 {
        world.files.push("native:C:\\cfg\\pending\\filler_stone.flag".to_string());
        world.run(&code, update, &[human.clone()]);
        world.run(&code, update, &[human.clone()]);
        assert_eq!(added(&world, add), vec![("Stone".to_string(), 10); round]);
        assert!(world.files.is_empty());
    }
}

#[test]
fn computer_gets_no_grants() {
    let (code, n) = patched_game();
    let (update, add) = (n.player_update, n.add_resource);
    let mut world = World::new(n);
    world.files.push("native:C:\\cfg\\pending\\filler_stone.flag".to_string());
    world.files.push("native:C:\\cfg\\pending\\useful_stone.flag".to_string());
    let computer = player(&mut world, Value::Int(1));
    world.run(&code, update, &[computer]);
    assert_eq!(added(&world, add), []);
    assert_eq!(world.files.len(), 2);
    assert!(world.calls.is_empty());
}

#[test]
fn references_in_order_are_told() {
    let (code, n) = game();
    assert!(is_valid(&code));
    let (mut code, _) = game();
    code.functions[0].name = RefString(code.strings.len());
    assert!(!is_valid(&code));
    let (mut code, _) = game();
    code.functions[1].findex = code.functions[0].findex;
    assert!(!is_valid(&code));
    let (mut code, _) = game();
    code.natives[0].lib = RefString(0x1000);
    assert!(!is_valid(&code));
    let (mut code, _) = game();
    if let Type::Obj(obj) = &mut code.types[7] {
        obj.name = RefString(0x1000);
    }
    assert!(!is_valid(&code));
    assert!(is_valid(&load(&game_image()).unwrap()));
    assert_eq!(find_function(&patched_game().0, n.gate), find_function(&game().0, n.gate));
    assert!(is_valid(&patched_game().0));
}

#[test]
fn added_field_is_found_and_moves_no_other() {
    let (mut code, _) = game();
    let class = "ent.player.ResourcesComponent";
    assert!(matches!(find_field_by_name(&code, class, "fresh"), Err(FieldError::NoField)));
    let names: Vec<String> = match &code.types[find_type_index_by_name(&code, class).unwrap()] {
        Type::Obj(obj) => obj.fields.iter().map(|f| code.strings[f.name.0].clone()).collect(),
        other => panic!("{other:?}"),
    };
    let before: Vec<_> = names.iter().map(|n| find_field_by_name(&code, class, n).unwrap()).collect();
    let at = add_bool_field(&mut code, class, "fresh", BOOL).unwrap();
    assert_eq!(find_field_by_name(&code, class, "fresh").unwrap(), (at, BOOL));
    let after: Vec<_> = names.iter().map(|n| find_field_by_name(&code, class, n).unwrap()).collect();
    assert_eq!(before, after);
    assert!(matches!(find_field_by_name(&code, class, "stale"), Err(FieldError::NoField)));
}

#[test]
fn lasting_programs_are_told() {
    let (_, n) = game();
    let lasting = |change: &dyn Fn(&mut Module)| {
        let mut code = load(&game_image()).unwrap();
        change(&mut code);
        is_lasting(&code)
    };
    assert!(lasting(&|_| ()));
    assert!(!lasting(&|code| code.debug_files = None));
    assert!(!lasting(&|code| code.functions[3].assigns = None));
    assert!(!lasting(&|code| code.functions[3].ops.push(Opcode::Nop)));
    assert!(!lasting(&|code| code.functions[3].name = RefString(0x1000)));
    assert!(!lasting(&|code| {
        code.functions[3].ops[0] =
            Opcode::CallN { dst: Reg(0), fun: RefFun(2), args: vec![Reg(0); 256] }
    }));
    assert!(lasting(&|code| {
        code.functions[3].ops[0] =
            Opcode::CallN { dst: Reg(0), fun: RefFun(2), args: vec![Reg(0); 255] }
    }));
    assert!(!lasting(&|code| {
        code.functions[3].ops[0] = Opcode::Switch { reg: Reg(0), offsets: vec![1, -1], end: 0 }
    }));
    let bind = |code: &mut Module, fields: &[(usize, usize)]| match &mut code.types[7] {
        Type::Obj(obj) => {
            for (field, fun) in fields {
                obj.bindings.insert(RefField(*field), RefFun(*fun));
            }
        }
        other => panic!("{other:?}"),
    };
    assert!(lasting(&|code| bind(code, &[(0, n.gate), (1, n.callback)])));
    assert!(!lasting(&|code| bind(code, &[(0, n.gate), (1, n.gate)])));
    assert!(!lasting(&|code| bind(code, &[(0, 0x1000)])));
    assert!(!lasting(&|code| {
        let at = find_type_index_by_name(code, "ent.player.ResourcesComponent").unwrap();
        match &mut code.types[7] {
            Type::Obj(obj) => obj.super_ = Some(RefType(at)),
            other => panic!("{other:?}"),
        }
    }));
}

#[test]
fn written_program_comes_back() {
    let code = load(&game_image()).unwrap();
    let mut code = code;
    patch_program(&mut code, "C:\\u", "C:\\f", "C:\\p").unwrap();
    let names: Vec<_> =
        code.functions.iter().map(|f| (f.name, f.parent, f.findex, f.t, f.ops.len())).collect();
    let strings = code.strings.clone();
    let back = load(&store(code).unwrap()).unwrap();
    let again: Vec<_> =
        back.functions.iter().map(|f| (f.name, f.parent, f.findex, f.t, f.ops.len())).collect();
    assert_eq!(names, again);
    assert_eq!(strings, back.strings);
    assert!(matches!(classify_battle_state(&back), PatchState::Patched));
    assert_eq!(exit_code(status_of(true, &Some(classify_battle_state(&back)))), 0);
    assert!(is_lasting(&back));
    assert!(has_room(&back));
}

#[test]
fn refused_program_can_be_looked_at() {
    let mut code = load(&game_image()).unwrap();
    let (_, n) = game();
    function_mut(&mut code, n.gate).ops[10] = Opcode::Nop;
    match patch_to_image(code, "C:\\u", "C:\\f", "C:\\p") {
        Err(ApplyError::Patch(PatchError::Op(Method::GetBattleState, at), found)) => {
            assert_eq!(format!("{:?}", function(&found, n.gate).ops[at]), "Nop")
        }
        other => panic!("{other:?}"),
    }
}

#[test]
fn changed_bytes_are_read_or_refused() {
    let image = image_with(|out| {
        let base = first_class(out);
        base.own_fields = vec![ObjField { name: RefString(1), t: INT }];
        base.bindings.insert(RefField(0), RefFun(3));
        let mut child = base.clone();
        child.super_ = Some(RefType(7));
        out.types[49] = Type::Obj(child);
    });
    let mut read = 0;
    let mut refused = 0;
    for i in 0..image.len() {
        for value in [0, 1, 0x7F, 0x80, 0xA0, 0xC1, 0xE0, 0xFF, image[i] ^ 1, image[i] ^ 2] {
            let mut changed = image.clone();
            changed[i] = value;
            match load(&changed) {
                Ok(code) => {
                    read += 1;
                    if i % 16 == 0 && is_writable(&code) {
                        let _ = store(code);
                    }
                }
                Err(_) => refused += 1,
            }
        }
        assert!(load(&image[..i]).is_err());
    }
    assert!(read > 0 && refused > 0);
}

/// The files of an installation.
#[derive(Clone, PartialEq, Debug)]
struct Files {
    live: Vec<u8>,
    backup: Option<Vec<u8>>,
}

/// Runs the tool on the files, and tells whether it succeeded.
fn run(files: &mut Files) -> bool {
    let live = files.live.clone();
    let mut step = begin_apply(load(&live).ok(), files.backup.is_some());
    loop {
        step = match &step {
            Applying::Refused(_) => return false,
            Applying::Keep(_) => {
                files.backup = Some(live.clone());
                step.on_kept()
            }
            Applying::ReadCopy => match load(files.backup.as_ref().unwrap()) {
                Ok(code) => step.on_copy_read(code),
                Err(_) => return false,
            },
            Applying::PatchMap(_) => match step.on_unlock_dir("C:\\u", "C:\\f") {
                Ok(next) => next,
                Err(_) => return false,
            },
            Applying::AddGrants(_) => match step.on_pending_dir("C:\\p") {
                Ok(next) => next,
                Err(_) => return false,
            },
            Applying::Install(image) => {
                files.live = image.clone();
                step.on_installed()
            }
            Applying::Done => return true,
        };
    }
}

#[test]
fn restoring_undoes_any_number_of_runs() {
    let own = game_image();
    let older = image_with(|out| out.ints.push(77));
    for backup in [None, Some(older)] {
        let mut files = Files { live: own.clone(), backup };
        assert!(run(&mut files));
        let first = files.clone();
        assert!(matches!(classify_battle_state(&load(&first.live).unwrap()), PatchState::Patched));
        for _ in 0..3 {
            assert!(run(&mut files));
            assert_eq!(files, first);
        }
        assert_eq!(files.backup, Some(own.clone()));
    }
}

#[test]
fn updated_game_is_not_replaced_by_an_older_one() {
    let (_, n) = game();
    let newer = image_with(|out| {
        for f in out.functions.iter_mut() {
            if f.findex.0 == n.gate {
                f.ops.push(Opcode::Nop);
                f.debug_info.as_mut().unwrap().push((0, 1));
            }
        }
    });
    let mut files = Files { live: newer.clone(), backup: Some(game_image()) };
    let before = files.clone();
    assert!(!run(&mut files));
    assert_eq!(files, before);
    let mut files = Files { live: newer.clone(), backup: None };
    assert!(!run(&mut files));
    assert_eq!(files, Files { live: newer.clone(), backup: Some(newer) });
}

#[test]
fn unreadable_file_is_made_anew_from_the_copy() {
    let mut files = Files { live: b"HLB".to_vec(), backup: Some(game_image()) };
    assert!(run(&mut files));
    assert_eq!(files.backup, Some(game_image()));
    let mut files = Files { live: b"HLB".to_vec(), backup: None };
    assert!(!run(&mut files));
    assert_eq!(files.live, b"HLB");
}
