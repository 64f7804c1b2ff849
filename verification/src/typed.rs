//! That the new code is put together rightly: it calls the functions that it is meant to call, and every
//! register that it uses has the type that its use asks for.
//!
//! The runtime takes the type of a register at its word. A register of a wrong type, such as a raw
//! pointer where an object is expected, makes the game crash.

use vstd::prelude::*;
use hlbc::opcodes::Opcode;
use hlbc::types::{
    Native, ObjField, RefField, RefFun, RefString, RefType, Reg, Type, ValBool,
};
use crate::gate::{byte_len, gate_ops, gated, GateCalls, GateTexts, StringShape};
use crate::grants::{
    alias_ops, aliases_ops, grant_ops, has_key, in_order, lemma_sentinel_keys,
    lemma_with_grants_keeps, marker_ops, of_kind, sentinel_of, slot_ops, slots_ops, GrantKind,
    GrantSite, GrantView, Sentinels,
};
use crate::laws::lemma_sentinels_extend;
use crate::lookup::{first_where, lemma_first_where, FieldError};
use crate::module::{FunctionView, ModuleView, TypeView};
use crate::prepend::TypeSource;
use crate::refresh::{
    refresh_methods, refresh_sources, walk_ops, walk_regs, walk_types, WalkRegs,
};
use crate::sites::{Failure, Method};

verus! {

/// The types that instructions ask for.
pub struct Types {
    /// A raw pointer to characters, which the opcode `String` loads.
    pub text: RefType,
    pub integer: RefType,
    pub float: RefType,
    pub boolean: RefType,
    /// The class of the objects that the code makes.
    pub made: RefType,
    /// A raw array, and what is in it.
    pub array: RefType,
    pub element: RefType,
    /// A field of an object of a class has a type.
    pub field: spec_fn(RefType, usize, RefType) -> bool,
    /// The function of a number takes arguments of some types, and returns a value of a type.
    pub call: spec_fn(usize, Seq<RefType>, RefType) -> bool,
}

/// The register is there, and has this type.
pub open spec fn is_of(regs: Seq<RefType>, r: Reg, t: RefType) -> bool {
    r.0 < regs.len() && regs[r.0 as int] == t
}

/// The register is there.
pub open spec fn is_there(regs: Seq<RefType>, r: Reg) -> bool {
    r.0 < regs.len()
}

/// The registers that an instruction uses have the types that it asks for.
pub open spec fn typed(op: Opcode, regs: Seq<RefType>, t: Types) -> bool {
    match op {
        Opcode::Label | Opcode::JAlways { .. } => true,
        Opcode::String { dst, .. } => is_of(regs, dst, t.text),
        Opcode::Int { dst, .. } => is_of(regs, dst, t.integer),
        Opcode::Float { dst, .. } => is_of(regs, dst, t.float),
        Opcode::Bool { dst, .. } => is_of(regs, dst, t.boolean),
        Opcode::Null { dst } => is_there(regs, dst),
        Opcode::New { dst } => is_of(regs, dst, t.made),
        Opcode::GetThis { dst, field } => {
            &&& is_there(regs, Reg(0)) && is_there(regs, dst)
            &&& (t.field)(regs[0], field.0, regs[dst.0 as int])
        },
        Opcode::Field { dst, obj, field } => {
            &&& is_there(regs, obj) && is_there(regs, dst)
            &&& (t.field)(regs[obj.0 as int], field.0, regs[dst.0 as int])
        },
        Opcode::SetField { obj, field, src } => {
            &&& is_there(regs, obj) && is_there(regs, src)
            &&& (t.field)(regs[obj.0 as int], field.0, regs[src.0 as int])
        },
        Opcode::GetArray { dst, array, index } => {
            &&& is_of(regs, array, t.array)
            &&& is_of(regs, index, t.integer)
            &&& is_of(regs, dst, t.element)
        },
        Opcode::SafeCast { dst, src } => is_there(regs, dst) && is_of(regs, src, t.element),
        Opcode::UnsafeCast { dst, src } => is_there(regs, dst) && is_of(regs, src, t.element),
        Opcode::Incr { dst } => is_of(regs, dst, t.integer),
        Opcode::NullCheck { reg } => is_there(regs, reg),
        Opcode::JTrue { cond, .. } => is_of(regs, cond, t.boolean),
        Opcode::JFalse { cond, .. } => is_of(regs, cond, t.boolean),
        Opcode::JNull { reg, .. } => is_there(regs, reg),
        Opcode::JNotNull { reg, .. } => is_there(regs, reg),
        Opcode::JSGte { a, b, .. } => is_of(regs, a, t.integer) && is_of(regs, b, t.integer),
        Opcode::JULt { a, b, .. } => is_of(regs, a, t.integer) && is_of(regs, b, t.integer),
        Opcode::Call1 { dst, fun, arg0 } => {
            &&& is_there(regs, dst) && is_there(regs, arg0)
            &&& (t.call)(fun.0, seq![regs[arg0.0 as int]], regs[dst.0 as int])
        },
        Opcode::Call2 { dst, fun, arg0, arg1 } => {
            &&& is_there(regs, dst) && is_there(regs, arg0) && is_there(regs, arg1)
            &&& (t.call)(
                fun.0,
                seq![regs[arg0.0 as int], regs[arg1.0 as int]],
                regs[dst.0 as int],
            )
        },
        Opcode::Call3 { dst, fun, arg0, arg1, arg2 } => {
            &&& is_there(regs, dst) && is_there(regs, arg0) && is_there(regs, arg1)
            &&& is_there(regs, arg2)
            &&& (t.call)(
                fun.0,
                seq![regs[arg0.0 as int], regs[arg1.0 as int], regs[arg2.0 as int]],
                regs[dst.0 as int],
            )
        },
        Opcode::Call4 { dst, fun, arg0, arg1, arg2, arg3 } => {
            &&& is_there(regs, dst) && is_there(regs, arg0) && is_there(regs, arg1)
            &&& is_there(regs, arg2) && is_there(regs, arg3)
            &&& (t.call)(
                fun.0,
                seq![
                    regs[arg0.0 as int],
                    regs[arg1.0 as int],
                    regs[arg2.0 as int],
                    regs[arg3.0 as int],
                ],
                regs[dst.0 as int],
            )
        },
        _ => false,
    }
}

/// All instructions find registers of the types that they ask for.
pub open spec fn all_typed(ops: Seq<Opcode>, regs: Seq<RefType>, t: Types) -> bool {
    forall|i: int| 0 <= i < ops.len() ==> typed(#[trigger] ops[i], regs, t)
}

/// `at` is the place of the one function that is of that class and has that name.
pub open spec fn is_at(
    code: ModuleView,
    class: Seq<char>,
    name: Seq<char>,
    findex: usize,
    at: int,
) -> bool {
    &&& code.methods(class, name) == seq![findex]
    &&& has_number(code, findex, at)
}

/// `at` is the place of the first function that has that number.
pub open spec fn has_number(code: ModuleView, findex: usize, at: int) -> bool {
    &&& 0 <= at < code.functions.len()
    &&& code.functions[at].findex.0 == findex
    &&& forall|j: int| 0 <= j < at ==> (#[trigger] code.functions[j]).findex.0 != findex
}

/// The place of a function that was found by its number.
proof fn lemma_has_number(code: ModuleView, findex: usize)
    requires
        code.function_index(findex) is Some,
    ensures
        has_number(code, findex, code.function_index(findex)->0),
{
    let p = |f: FunctionView| f.findex.0 == findex;
    lemma_first_where(code.functions, p);
    let at = code.function_index(findex)->0;
    assert forall|j: int| 0 <= j < at implies (#[trigger] code.functions[j]).findex.0
        != findex by {
        assert(!p(code.functions[j]));
    }
}

/// The number of the first native of that name in the library `std`.
pub open spec fn native_is(code: ModuleView, name: Seq<char>, findex: usize) -> bool {
    code.native_index("std"@, name) matches Some(i) && code.natives[i].findex.0 == findex
}

/// What the code of `String.__add__` shows of strings.
pub struct Strings {
    /// Its number and its place.
    pub add: usize,
    pub at: int,
    /// The field for the length, and the field for the characters.
    pub length: usize,
    pub bytes: usize,
}

impl Strings {
    /// The program has a `String.__add__` that shows this: it reads the length of its first argument
    /// in its eighth instruction, and the characters of its second one in its twenty-eighth.
    pub open spec fn shown(self, code: ModuleView) -> bool {
        let f = code.functions[self.at];
        &&& is_at(code, "$String"@, "__add__"@, self.add, self.at)
        &&& f.ops.len() > 27
        &&& f.regs.len() > 8
        &&& reads_field(f.ops[7], self.length)
        &&& reads_field(f.ops[27], self.bytes)
    }

    /// The type of a string object: that of the first argument.
    pub open spec fn string(self, code: ModuleView) -> RefType {
        code.functions[self.at].regs[0]
    }

    /// The type of a raw pointer to characters.
    pub open spec fn text(self, code: ModuleView) -> RefType {
        code.functions[self.at].regs[8]
    }

    /// The type of a length.
    pub open spec fn integer(self, code: ModuleView) -> RefType {
        code.functions[self.at].regs[4]
    }
}

/// The instruction reads that field.
pub open spec fn reads_field(op: Opcode, place: usize) -> bool {
    op matches Opcode::Field { field, .. } && field.0 == place
}

/// What new code takes from `String.__add__` is what its code shows.
proof fn lemma_strings(code: ModuleView, add: usize) -> (st: Strings)
    requires
        code.methods("$String"@, "__add__"@) == seq![add],
        code.string_shape(add) is Ok,
    ensures
        st.shown(code),
        st.add == add,
        code.string_shape(add)->Ok_0 == (StringShape {
            bytes: RefField(st.bytes),
            length: RefField(st.length),
            string_ty: st.string(code),
            bytes_ty: st.text(code),
            int_ty: st.integer(code),
        }),
{
    let shape = code.string_shape(add)->Ok_0;
    lemma_has_number(code, add);
    Strings {
        add,
        at: code.function_index(add)->0,
        length: shape.length.0,
        bytes: shape.bytes.0,
    }
}

/// What the check for markers refers to.
pub struct CheckSite {
    /// The place of `Conquest.getBattleState`.
    pub at: int,
    pub strings: Strings,
    /// The numbers of `Sys.getPath` and `sys_exists`.
    pub get_path: usize,
    pub exists: usize,
    /// Where its texts are.
    pub texts: GateTexts,
}

impl CheckSite {
    /// The program has what the check refers to.
    pub open spec fn found(self, code: ModuleView, gate: usize) -> bool {
        &&& has_number(code, gate, self.at)
        &&& self.strings.shown(code)
        &&& code.methods("$Sys"@, "getPath"@) == seq![self.get_path]
        &&& native_is(code, "sys_exists"@, self.exists)
    }

    /// The layout of strings, as the code of the check has it.
    pub open spec fn shape(self, code: ModuleView) -> StringShape {
        StringShape {
            bytes: RefField(self.strings.bytes),
            length: RefField(self.strings.length),
            string_ty: self.strings.string(code),
            bytes_ty: self.strings.text(code),
            int_ty: self.strings.integer(code),
        }
    }

    /// The functions that the check calls.
    pub open spec fn calls(self) -> GateCalls {
        GateCalls { add: self.strings.add, get_path: self.get_path, exists: self.exists }
    }

    /// The types that the instructions of the check ask for: the answer to the game's own question,
    /// in register 5, is a truth value, and so is the answer whether a file exists. Only a string
    /// object has the two fields, and only such an object is put together or turned into a path.
    pub open spec fn types(self, code: ModuleView) -> Types {
        let string = self.strings.string(code);
        let text = self.strings.text(code);
        let whole = self.strings.integer(code);
        let own = code.functions[self.at].regs;
        Types {
            text,
            integer: whole,
            float: whole,
            boolean: own[5],
            made: string,
            array: string,
            element: string,
            field: |of: RefType, place: usize, t: RefType|
                {
                    ||| of == string && place == self.strings.bytes && t == text
                    ||| of == string && place == self.strings.length && t == whole
                },
            call: |fun: usize, args: Seq<RefType>, ret: RefType|
                {
                    ||| fun == self.strings.add && args == seq![string, own[1]] && ret == string
                    ||| fun == self.get_path && args == seq![string] && ret == text
                    ||| fun == self.exists && args == seq![text] && ret == own[5]
                },
        }
    }
}

/// Every register of the check has the type that its use asks for, and the registers of the game's own
/// code keep theirs. The check calls `String.__add__`, `Sys.getPath` and `sys_exists`, and finds its
/// texts and their lengths in the pools.
pub proof fn law_registers_of_the_check_fit_their_use(
    code: ModuleView,
    gate: usize,
    prefix: Seq<char>,
    flag: Seq<char>,
) -> (site: CheckSite)
    requires
        code.patch_gate(gate, prefix, flag).1 is Ok,
        code.strings.len() + 1 < usize::MAX,
        code.ints.len() + 1 < usize::MAX,
    ensures
        site.found(code, gate),
        ({
            let after = code.patch_gate(gate, prefix, flag).0;
            let own = code.functions[site.at];
            let new = after.functions[site.at];
            &&& all_typed(new.ops.subrange(9, 27), new.regs, site.types(code))
            &&& new.regs.len() == 19
            &&& new.regs.take(8) == own.regs
            &&& new.ops == gated(own, site.shape(code), site.calls(), site.texts).ops
            &&& after.strings[site.texts.prefix as int] == prefix
            &&& after.strings[site.texts.flag as int] == flag
            &&& after.ints[site.texts.prefix_len as int] == byte_len(prefix)
            &&& after.ints[site.texts.flag_len as int] == byte_len(flag)
            &&& code.patch_gate(gate, prefix, flag).1 matches Ok(global)
            &&& own.ops[10] matches Opcode::GetGlobal { global: loaded, .. }
            &&& loaded.0 == global
        }),
{
    let calls = code.gate_calls()->Ok_0;
    assert(code.methods("$String"@, "__add__"@) =~= seq![calls.add]);
    assert(code.methods("$Sys"@, "getPath"@) =~= seq![calls.get_path]);
    let with_texts = code.with_string(prefix).with_string(flag);
    assert(with_texts.function_index(calls.add) == code.function_index(calls.add));
    assert(with_texts.string_shape(calls.add) == code.string_shape(calls.add));
    let strings = lemma_strings(code, calls.add);
    let with_lens = with_texts.with_int(byte_len(prefix)).with_int(byte_len(flag));
    assert(with_lens.function_index(gate) == code.function_index(gate));
    lemma_has_number(code, gate);
    let texts = GateTexts {
        prefix: code.strings.len() as usize,
        flag: (code.strings.len() + 1) as usize,
        prefix_len: code.ints.len() as usize,
        flag_len: (code.ints.len() + 1) as usize,
    };
    let site = CheckSite {
        at: code.function_index(gate)->0,
        strings,
        get_path: calls.get_path,
        exists: calls.exists,
        texts,
    };
    let after = code.patch_gate(gate, prefix, flag).0;
    let own = code.functions[site.at];
    let new = after.functions[site.at];
    assert(site.shape(code) == code.string_shape(calls.add)->Ok_0);
    assert(site.calls() == calls);
    assert(new == gated(own, site.shape(code), calls, texts));
    let part = new.ops.subrange(9, 27);
    assert(part =~= gate_ops(site.shape(code), calls, texts));
    let t = site.types(code);
    let r = new.regs;
    assert(seq![r[10]] =~= seq![site.strings.string(code)]);
    assert(seq![r[11]] =~= seq![site.strings.text(code)]);
    assert(seq![r[16]] =~= seq![site.strings.string(code)]);
    assert(seq![r[17]] =~= seq![site.strings.text(code)]);
    assert(seq![r[15], r[1]] =~= seq![site.strings.string(code), own.regs[1]]);
    assert forall|i: int| 0 <= i < part.len() implies typed(#[trigger] part[i], r, t) by {
        assert(part[i] == gate_ops(site.shape(code), calls, texts)[i]);
    }
    assert(r.take(8) =~= own.regs);
    site
}

/// What the walk over the map refers to: the places of methods of the game, and the number of the one
/// that it calls.
pub struct WalkSite {
    /// The place of `ConquestMapContent.update`.
    pub at: int,
    pub update: usize,
    /// `MapButton.changeState`.
    pub change: usize,
    pub change_at: int,
    /// `ConquestMapContent.hasNextToUnlock`.
    pub next: usize,
    pub next_at: int,
    /// `MapContainer.getButton`.
    pub button: usize,
    pub button_at: int,
    /// `MapContainer.getButtonById`.
    pub by_id: usize,
    pub by_id_at: int,
}

impl WalkSite {
    /// The program has what the walk refers to.
    pub open spec fn found(self, code: ModuleView) -> bool {
        let content = "ui.menus.conquest.ConquestMapContent"@;
        let container = "ui.menus.conquest.MapContainer"@;
        &&& is_at(code, content, "update"@, self.update, self.at)
        &&& is_at(
            code,
            "ui.menus.conquest.MapButton"@,
            "changeState"@,
            self.change,
            self.change_at,
        )
        &&& is_at(code, content, "hasNextToUnlock"@, self.next, self.next_at)
        &&& is_at(code, container, "getButton"@, self.button, self.button_at)
        &&& is_at(code, container, "getButtonById"@, self.by_id, self.by_id_at)
        &&& code.functions[self.at].regs.len() > 10
        &&& code.functions[self.change_at].regs.len() > 2
        &&& code.functions[self.next_at].regs.len() > 15
        &&& code.functions[self.button_at].regs.len() > 11
        &&& code.functions[self.by_id_at].regs.len() > 14
    }

    /// The types that the instructions of the walk ask for. The map has its conquest in field 19 and
    /// its container in field 13, the container its columns in field 79, a button its battle in field
    /// 108, a battle its data in field 0, and the data of a battle its identifier in field 1. An array
    /// has its length in field 0 and what it holds in field 1.
    pub open spec fn types(self, code: ModuleView, gate: usize) -> Types {
        let own = code.functions[self.at].regs;
        let next = code.functions[self.next_at].regs;
        let button = code.functions[self.button_at].regs;
        let by_id = code.functions[self.by_id_at].regs;
        let change = code.functions[self.change_at].regs;
        let conquest = next[3];
        let container = next[14];
        let state = next[15];
        let list = button[4];
        let map_button = button[11];
        let battle = by_id[14];
        let data = by_id[13];
        let id = by_id[1];
        Types {
            text: own[10],
            integer: own[10],
            float: own[10],
            boolean: own[10],
            made: own[10],
            array: button[9],
            element: button[8],
            field: |of: RefType, place: usize, t: RefType|
                {
                    ||| of == own[0] && place == 19 && t == conquest
                    ||| of == own[0] && place == 13 && t == container
                    ||| of == container && place == 79 && t == list
                    ||| of == list && place == 0 && t == own[10]
                    ||| of == list && place == 1 && t == button[9]
                    ||| of == map_button && place == 108 && t == battle
                    ||| of == battle && place == 0 && t == data
                    ||| of == data && place == 1 && t == id
                },
            call: |fun: usize, args: Seq<RefType>, ret: RefType|
                {
                    ||| fun == gate && args == seq![conquest, id] && ret == state
                    ||| fun == self.change && args == seq![map_button, state, change[2]] && ret
                        == own[3]
                },
        }
    }

    /// The registers of the walk, with their types: they come behind those of the game's own code.
    pub open spec fn roles(self, code: ModuleView, r: WalkRegs, regs: Seq<RefType>) -> bool {
        let button = code.functions[self.button_at].regs;
        let by_id = code.functions[self.by_id_at].regs;
        &&& is_of(regs, r.column, button[4])
        &&& is_of(regs, r.button, button[11])
        &&& is_of(regs, r.no_callback, code.functions[self.change_at].regs[2])
        &&& is_of(regs, r.battle, by_id[14])
        &&& is_of(regs, r.inf_id, by_id[1])
    }
}

/// A method that is among those that were all found.
proof fn lemma_listed_method(code: ModuleView, wanted: Seq<Method>, i: int)
    requires
        code.method_list(wanted) is Ok,
        0 <= i < wanted.len(),
    ensures
        code.methods(wanted[i].class(), wanted[i].name()) == seq![code.method_list(wanted)->Ok_0[i]],
        code.method_list(wanted)->Ok_0.len() == wanted.len(),
{
    let results = Seq::new(wanted.len(), |k: int| code.method(wanted[k]));
    let failed = |r: Result<usize, Failure>| r is Err;
    lemma_first_where(results, failed);
    assert(!failed(results[i]));
    assert(code.methods(wanted[i].class(), wanted[i].name()) =~= seq![results[i]->Ok_0]);
}

/// A type that is among those that were all found.
proof fn lemma_listed_type(code: ModuleView, sources: Seq<TypeSource>, i: int)
    requires
        code.type_list(sources) is Ok,
        0 <= i < sources.len(),
    ensures
        code.function_index(sources[i].findex) is Some,
        has_number(code, sources[i].findex, code.function_index(sources[i].findex)->0),
        ({
            let regs = code.functions[code.function_index(sources[i].findex)->0].regs;
            sources[i].reg < regs.len() && code.type_list(sources)->Ok_0[i]
                == regs[sources[i].reg as int]
        }),
        code.type_list(sources)->Ok_0.len() == sources.len(),
{
    let results = Seq::new(
        sources.len(),
        |k: int| code.reg_type(sources[k].findex, sources[k].reg as int, sources[k].method),
    );
    let failed = |r: Result<RefType, Failure>| r is Err;
    lemma_first_where(results, failed);
    assert(!failed(results[i]));
    lemma_has_number(code, sources[i].findex);
}

/// Every register of the walk over the map has the type that its use asks for, and the registers of the
/// game's own code keep theirs. The walk reads the fields that hold what it goes through, and calls
/// `Conquest.getBattleState` and `MapButton.changeState`.
pub proof fn law_registers_of_the_walk_fit_their_use(code: ModuleView, gate: usize) -> (site:
    WalkSite)
    requires
        code.patch_refresh(gate).1 is Ok,
        forall|i: int|
            0 <= i < code.functions.len() ==> (#[trigger] code.functions[i]).regs.len() + 17
                <= u32::MAX,
    ensures
        site.found(code),
        ({
            let own = code.functions[site.at];
            let new = code.patch_refresh(gate).0.functions[site.at];
            let r = walk_regs(own.regs.len() as u32);
            &&& all_typed(new.ops.take(40), new.regs, site.types(code, gate))
            &&& site.roles(code, r, new.regs)
            &&& new.ops == walk_ops(r, gate, site.change) + own.ops
            &&& new.regs.len() == own.regs.len() + 17
            &&& new.regs.take(own.regs.len() as int) == own.regs
        }),
{
    let wanted = refresh_methods();
    lemma_listed_method(code, wanted, 0);
    lemma_listed_method(code, wanted, 1);
    lemma_listed_method(code, wanted, 2);
    lemma_listed_method(code, wanted, 3);
    lemma_listed_method(code, wanted, 4);
    let found = code.method_list(wanted)->Ok_0;
    let sources = refresh_sources(found);
    let types = code.type_list(sources)->Ok_0;
    lemma_listed_type(code, sources, 0);
    lemma_listed_type(code, sources, 1);
    lemma_listed_type(code, sources, 2);
    lemma_listed_type(code, sources, 3);
    lemma_listed_type(code, sources, 4);
    lemma_listed_type(code, sources, 5);
    lemma_listed_type(code, sources, 6);
    lemma_listed_type(code, sources, 7);
    lemma_listed_type(code, sources, 8);
    lemma_listed_type(code, sources, 9);
    lemma_listed_type(code, sources, 10);
    lemma_has_number(code, found[0]);
    let site = WalkSite {
        at: code.function_index(found[0])->0,
        update: found[0],
        change: found[1],
        change_at: code.function_index(found[1])->0,
        next: found[2],
        next_at: code.function_index(found[2])->0,
        button: found[3],
        button_at: code.function_index(found[3])->0,
        by_id: found[4],
        by_id_at: code.function_index(found[4])->0,
    };
    let own = code.functions[site.at];
    let new = code.patch_refresh(gate).0.functions[site.at];
    let base = own.regs.len() as u32;
    let r = walk_regs(base);
    let ops = walk_ops(r, gate, site.change);
    assert(new.ops == ops + own.ops);
    assert(new.ops.take(40) =~= ops);
    let regs = new.regs;
    assert(regs == own.regs + walk_types(types, own.regs[10]));
    assert(regs.take(own.regs.len() as int) =~= own.regs);
    let t = site.types(code, gate);
    let n = own.regs.len() as int;
    assert(regs[n] == types[0] && regs[n + 14] == types[9] && regs[n + 15] == types[2]);
    assert(regs[n + 8] == types[6] && regs[n + 16] == types[10]);
    assert(seq![regs[n], regs[n + 14]] =~= seq![types[0], types[9]]);
    assert(seq![regs[n + 8], regs[n + 15], regs[n + 16]] =~= seq![types[6], types[2], types[10]]);
    assert forall|i: int| 0 <= i < ops.len() implies typed(#[trigger] ops[i], regs, t) by {}
    site
}

/// What the code of the grants refers to, besides what a [`GrantSite`] holds.
pub struct GrantPlaces {
    /// The place of `ent.Player.update`.
    pub at: int,
    /// The place of `ResourcesComponent.addResource`.
    pub add_at: int,
    pub strings: Strings,
    /// The place of `sys_exists` among the natives.
    pub exists_at: int,
    /// The program with a field for each useful grant, and these fields.
    pub before: ModuleView,
    pub sentinels: Sentinels,
    /// The field that says what controls a player.
    pub ai_job: usize,
}

impl GrantPlaces {
    /// The program has what the code of the grants refers to: the methods and natives of these names,
    /// the player's field for resources with its type, the types of the arguments of `addResource` in
    /// its first registers, and the type of a truth value as what `sys_exists` returns.
    pub open spec fn found(self, code: ModuleView, site: GrantSite) -> bool {
        let add = code.functions[self.add_at].regs;
        let own = code.functions[self.at];
        &&& is_at(code, "ent.Player"@, "update"@, site.update, self.at)
        &&& is_at(
            code,
            "ent.player.ResourcesComponent"@,
            "addResource"@,
            site.add_resource,
            self.add_at,
        )
        &&& code.methods("$Sys"@, "getPath"@) == seq![site.get_path]
        &&& native_is(code, "sys_exists"@, site.exists)
        &&& native_is(code, "sys_delete"@, site.delete)
        &&& code.field("ent.Player"@, "res"@) == Ok::<(RefField, RefType), FieldError>(
            (site.res, site.res_ty),
        )
        &&& add.len() >= 4
        &&& site.id_ty == add[1]
        &&& site.amount_ty == add[2]
        &&& site.reason_ty == add[3]
        &&& self.strings.shown(code)
        &&& site.shape.bytes.0 == self.strings.bytes
        &&& site.shape.length.0 == self.strings.length
        &&& 0 <= self.exists_at < code.natives.len()
        &&& code.natives[self.exists_at].findex.0 == site.exists
        &&& gives_back(code, code.natives[self.exists_at].t, site.bool_ty)
        &&& own.ops.len() == 10 && own.regs.len() == 5
        &&& own.ops[2] matches Opcode::GetThis { field, .. }
        &&& field.0 == self.ai_job
    }

    /// The types that the instructions of the grants ask for. Only an identifier of a resource, which
    /// is a string object, has the two fields of one; what remembers a grant is a truth value in the
    /// player's resources.
    pub open spec fn types(self, code: ModuleView, site: GrantSite) -> Types {
        let text = self.strings.text(code);
        let whole = self.strings.integer(code);
        let own = code.functions[self.at].regs;
        Types {
            text,
            integer: whole,
            float: site.amount_ty,
            boolean: site.bool_ty,
            made: site.id_ty,
            array: whole,
            element: whole,
            field: |of: RefType, place: usize, t: RefType|
                {
                    ||| of == site.id_ty && place == self.strings.bytes && t == text
                    ||| of == site.id_ty && place == self.strings.length && t == whole
                    ||| of == own[0] && place == site.res.0 && t == site.res_ty
                    ||| of == own[0] && place == self.ai_job && t == own[3]
                    ||| of == site.res_ty && t == site.bool_ty && remembers(self.sentinels, place)
                },
            call: |fun: usize, args: Seq<RefType>, ret: RefType|
                {
                    ||| fun == site.get_path && args == seq![site.id_ty] && ret == text
                    ||| fun == site.exists && args == seq![text] && ret == site.bool_ty
                    ||| fun == site.delete && args == seq![text] && ret == site.bool_ty
                    ||| fun == site.add_resource && args == seq![
                        site.res_ty,
                        site.id_ty,
                        site.amount_ty,
                        site.reason_ty,
                    ] && ret == site.bool_ty
                },
        }
    }
}

/// The type is that of a function, or of a method, which returns a value of the type `ret`.
pub open spec fn gives_back(code: ModuleView, t: RefType, ret: RefType) -> bool {
    &&& t.0 < code.types.len()
    &&& match code.types[t.0 as int] {
        TypeView::Other(Type::Fun(fun)) => fun.ret == ret,
        TypeView::Other(Type::Method(fun)) => fun.ret == ret,
        _ => false,
    }
}

/// The field remembers a grant.
pub open spec fn remembers(sentinels: Sentinels, place: usize) -> bool {
    exists|k: int| 0 <= k < sentinels.len() && (#[trigger] sentinels[k]).1.0 == place
}

/// Each useful grant of a list has a field that remembers it.
pub open spec fn all_remembered(sentinels: Sentinels, grants: Seq<GrantView>) -> bool {
    forall|i: int|
        0 <= i < grants.len() && (#[trigger] grants[i]).kind is Useful ==> exists|k: int|
            0 <= k < sentinels.len() && (#[trigger] sentinels[k]).0 == grants[i].key
}

/// Instructions one after the other find registers of the right types where each of them do.
proof fn lemma_typed_add(a: Seq<Opcode>, b: Seq<Opcode>, regs: Seq<RefType>, t: Types)
    requires
        all_typed(a, regs, t),
        all_typed(b, regs, t),
    ensures
        all_typed(a + b, regs, t),
{
    assert forall|i: int| 0 <= i < (a + b).len() implies typed(#[trigger] (a + b)[i], regs, t) by {
        if i < a.len() {
            assert((a + b)[i] == a[i]);
        } else {
            assert((a + b)[i] == b[i - a.len()]);
        }
    }
}

/// The registers of the grants, behind the five of the game's own code.
spec fn grant_registers(
    code: ModuleView,
    site: GrantSite,
    places: GrantPlaces,
    regs: Seq<RefType>,
) -> bool {
    let text = places.strings.text(code);
    let whole = places.strings.integer(code);
    &&& regs.len() == 21
    &&& regs.take(5) == code.functions[places.at].regs
    &&& regs[5] == regs[3]
    &&& regs[6] == text && regs[7] == whole && regs[8] == site.id_ty && regs[9] == text
    &&& regs[10] == site.bool_ty
    &&& regs[11] == text && regs[12] == whole && regs[13] == site.id_ty
    &&& regs[14] == site.amount_ty && regs[15] == site.reason_ty && regs[16] == site.res_ty
    &&& regs[17] == site.bool_ty && regs[18] == site.bool_ty && regs[19] == site.bool_ty && regs[20]
        == site.bool_ty
}

/// The code of one identifier finds registers of the right types.
proof fn lemma_alias_typed(
    code: ModuleView,
    site: GrantSite,
    places: GrantPlaces,
    regs: Seq<RefType>,
    text_at: int,
    len_at: int,
    amount_at: int,
)
    requires
        places.found(code, site),
        grant_registers(code, site, places, regs),
    ensures
        all_typed(
            alias_ops(site, text_at, len_at, amount_at),
            regs,
            places.types(code, site),
        ),
{
    let t = places.types(code, site);
    let ops = alias_ops(site, text_at, len_at, amount_at);
    assert(seq![regs[16], regs[13], regs[14], regs[15]] =~= seq![
        site.res_ty,
        site.id_ty,
        site.amount_ty,
        site.reason_ty,
    ]);
    assert forall|i: int| 0 <= i < ops.len() implies typed(#[trigger] ops[i], regs, t) by {}
}

/// The code of some identifiers finds registers of the right types.
proof fn lemma_aliases_typed(
    code: ModuleView,
    site: GrantSite,
    places: GrantPlaces,
    regs: Seq<RefType>,
    text_at: int,
    len_at: int,
    amount_at: int,
    n: nat,
)
    requires
        places.found(code, site),
        grant_registers(code, site, places, regs),
    ensures
        all_typed(
            aliases_ops(site, text_at, len_at, amount_at, n),
            regs,
            places.types(code, site),
        ),
    decreases n,
{
    if n > 0 {
        let t = places.types(code, site);
        let m = (n - 1) as nat;
        lemma_aliases_typed(code, site, places, regs, text_at, len_at, amount_at, m);
        lemma_alias_typed(code, site, places, regs, text_at + m, len_at + m, amount_at + m);
        lemma_typed_add(
            aliases_ops(site, text_at, len_at, amount_at, m),
            alias_ops(site, text_at + n - 1, len_at + n - 1, amount_at + n - 1),
            regs,
            t,
        );
    }
}

/// The code that asks for a marker finds registers of the right types.
proof fn lemma_marker_typed(
    code: ModuleView,
    site: GrantSite,
    places: GrantPlaces,
    regs: Seq<RefType>,
    text_at: int,
    len_at: int,
)
    requires
        places.found(code, site),
        grant_registers(code, site, places, regs),
    ensures
        all_typed(marker_ops(site, text_at, len_at), regs, places.types(code, site)),
{
    let t = places.types(code, site);
    let ops = marker_ops(site, text_at, len_at);
    assert(seq![regs[8]] =~= seq![site.id_ty]);
    assert(seq![regs[9]] =~= seq![places.strings.text(code)]);
    assert forall|i: int| 0 <= i < ops.len() implies typed(#[trigger] ops[i], regs, t) by {}
}

/// The code of a grant finds registers of the right types.
proof fn lemma_slot_typed(
    code: ModuleView,
    site: GrantSite,
    places: GrantPlaces,
    regs: Seq<RefType>,
    so_far: ModuleView,
    grant: GrantView,
)
    requires
        places.found(code, site),
        grant_registers(code, site, places, regs),
        grant.kind is Useful ==> exists|k: int|
            0 <= k < places.sentinels.len() && (#[trigger] places.sentinels[k]).0 == grant.key,
    ensures
        all_typed(
            slot_ops(so_far, site, places.sentinels, grant),
            regs,
            places.types(code, site),
        ),
{
    let t = places.types(code, site);
    let text_at = so_far.strings.len() as int;
    let len_at = so_far.ints.len() as int;
    let amount_at = so_far.floats.len() as int;
    let n = grant.resource_ids.len();
    let marker = marker_ops(site, text_at, len_at);
    let aliases = aliases_ops(site, text_at + 1, len_at + 1, amount_at, n);
    lemma_marker_typed(code, site, places, regs, text_at, len_at);
    lemma_aliases_typed(code, site, places, regs, text_at + 1, len_at + 1, amount_at, n);
    assert(regs[0] == code.functions[places.at].regs[0]) by {
        assert(regs.take(5)[0] == regs[0]);
    }
    assert(seq![regs[9]] =~= seq![places.strings.text(code)]);
    match grant.kind {
        GrantKind::Useful => {
            let sentinel = sentinel_of(places.sentinels, grant.key);
            lemma_sentinel(places.sentinels, grant.key);
            let a = seq![
                Opcode::GetThis { dst: Reg(16), field: site.res },
                Opcode::Field { dst: Reg(19), obj: Reg(16), field: sentinel },
                Opcode::JTrue { cond: Reg(19), offset: (aliases.len() + 12) as usize as i32 },
            ];
            let b = seq![
                Opcode::JFalse { cond: Reg(10), offset: (aliases.len() + 4) as usize as i32 },
                Opcode::GetThis { dst: Reg(16), field: site.res },
            ];
            let c = seq![
                Opcode::GetThis { dst: Reg(16), field: site.res },
                Opcode::Bool { dst: Reg(20), value: ValBool(true) },
                Opcode::SetField { obj: Reg(16), field: sentinel, src: Reg(20) },
            ];
            assert(all_typed(a, regs, t));
            assert(all_typed(b, regs, t));
            assert(all_typed(c, regs, t));
            lemma_typed_add(a, marker, regs, t);
            lemma_typed_add(a + marker, b, regs, t);
            lemma_typed_add(a + marker + b, aliases, regs, t);
            lemma_typed_add(a + marker + b + aliases, c, regs, t);
        },
        GrantKind::Filler => {
            let b = seq![
                Opcode::JFalse { cond: Reg(10), offset: (aliases.len() + 2) as usize as i32 },
                Opcode::GetThis { dst: Reg(16), field: site.res },
            ];
            let c = seq![
                Opcode::Call1 { dst: Reg(18), fun: RefFun(site.delete), arg0: Reg(9) },
            ];
            assert(all_typed(b, regs, t));
            assert(all_typed(c, regs, t));
            lemma_typed_add(marker, b, regs, t);
            lemma_typed_add(marker + b, aliases, regs, t);
            lemma_typed_add(marker + b + aliases, c, regs, t);
        },
    }
}

/// The field that remembers a grant is one of those that were added.
proof fn lemma_sentinel(sentinels: Sentinels, key: Seq<char>)
    requires
        exists|k: int| 0 <= k < sentinels.len() && (#[trigger] sentinels[k]).0 == key,
    ensures
        remembers(sentinels, sentinel_of(sentinels, key).0),
{
    let p = has_key(key);
    lemma_first_where(sentinels, p);
    let k = choose|k: int| 0 <= k < sentinels.len() && (#[trigger] sentinels[k]).0 == key;
    assert(p(sentinels[k]));
}

/// The code of grants finds registers of the right types.
proof fn lemma_slots_typed(
    code: ModuleView,
    site: GrantSite,
    places: GrantPlaces,
    regs: Seq<RefType>,
    grants: Seq<GrantView>,
)
    requires
        places.found(code, site),
        grant_registers(code, site, places, regs),
        all_remembered(places.sentinels, grants),
    ensures
        all_typed(
            slots_ops(places.before, site, places.sentinels, grants),
            regs,
            places.types(code, site),
        ),
    decreases grants.len(),
{
    if grants.len() > 0 {
        let fewer = grants.drop_last();
        assert(all_remembered(places.sentinels, fewer)) by {
            assert forall|i: int|
                0 <= i < fewer.len() && (#[trigger] fewer[i]).kind is Useful implies exists|k: int|
                0 <= k < places.sentinels.len() && (#[trigger] places.sentinels[k]).0
                    == fewer[i].key by {
                assert(fewer[i] == grants[i]);
            }
        }
        assert(grants[grants.len() - 1] == grants.last());
        lemma_slots_typed(code, site, places, regs, fewer);
        let so_far = places.before.with_grants(fewer);
        lemma_slot_typed(code, site, places, regs, so_far, grants.last());
        lemma_typed_add(
            slots_ops(places.before, site, places.sentinels, fewer),
            slot_ops(so_far, site, places.sentinels, grants.last()),
            regs,
            places.types(code, site),
        );
    }
}

/// Each useful grant gets a field to remember it.
proof fn lemma_remembered(code: ModuleView, grants: Seq<GrantView>, bool_ty: RefType)
    requires
        code.add_sentinels(of_kind(grants, GrantKind::Useful), bool_ty).1 is Ok,
    ensures
        all_remembered(
            code.add_sentinels(of_kind(grants, GrantKind::Useful), bool_ty).1->Ok_0,
            in_order(grants),
        ),
{
    let useful = of_kind(grants, GrantKind::Useful);
    let filler = of_kind(grants, GrantKind::Filler);
    let sentinels = code.add_sentinels(useful, bool_ty).1->Ok_0;
    let all = in_order(grants);
    lemma_sentinel_keys(code, useful, bool_ty);
    assert forall|i: int| 0 <= i < all.len() && (#[trigger] all[i]).kind is Useful implies exists|
        k: int,
    |
        0 <= k < sentinels.len() && (#[trigger] sentinels[k]).0 == all[i].key by {
        if i < useful.len() {
            assert(all[i] == useful[i]);
            assert(sentinels[i].0 == useful[i].key);
        } else {
            let p = |g: GrantView| g.kind == GrantKind::Filler;
            grants.lemma_filter_pred(p, i - useful.len());
            assert(all[i] == filler[i - useful.len()]);
        }
    }
}

/// Every register of the code of the grants has the type that its use asks for, and the registers of
/// the game's own code keep theirs. The code calls `Sys.getPath`, `sys_exists`, `sys_delete` and
/// `ResourcesComponent.addResource`, and goes by the fields of the player that hold its resources and
/// what controls it.
pub proof fn law_registers_of_the_grants_fit_their_use(
    code: ModuleView,
    grants: Seq<GrantView>,
) -> (r: (GrantSite, GrantPlaces))
    requires
        code.patch_grants(grants).1 is Ok,
    ensures
        ({
            let (site, places) = r;
            let after = code.patch_grants(grants).0;
            let own = code.functions[places.at];
            let new = after.functions[places.at];
            let ops = grant_ops(
                places.before,
                site,
                RefField(places.ai_job),
                places.sentinels,
                in_order(grants),
            );
            &&& places.found(code, site)
            &&& (places.before, Ok::<Sentinels, Failure>(places.sentinels)) == code.add_sentinels(
                of_kind(grants, GrantKind::Useful),
                site.bool_ty,
            )
            &&& new.ops == ops + own.ops
            &&& all_typed(ops, new.regs, places.types(code, site))
            &&& new.regs.len() == 21
            &&& new.regs.take(5) == own.regs
        }),
{
    let site = code.grant_site()->Ok_0;
    assert(code.methods("ent.Player"@, "update"@) =~= seq![site.update]);
    assert(code.methods("$Sys"@, "getPath"@) =~= seq![site.get_path]);
    assert(code.methods("ent.player.ResourcesComponent"@, "addResource"@) =~= seq![
        site.add_resource,
    ]);
    let add = code.method(Method::StringAdd)->Ok_0;
    assert(code.methods("$String"@, "__add__"@) =~= seq![add]);
    let strings = lemma_strings(code, add);
    lemma_has_number(code, site.add_resource);
    let useful = of_kind(grants, GrantKind::Useful);
    let (before, added) = code.add_sentinels(useful, site.bool_ty);
    let sentinels = added->Ok_0;
    lemma_sentinels_extend(code, useful, site.bool_ty);
    assert(before.functions == code.functions);
    lemma_has_number(code, site.update);
    let at = code.function_index(site.update)->0;
    assert(before.function_index(site.update) == code.function_index(site.update));
    let by_number = |n: Native| n.findex.0 == site.exists;
    lemma_first_where(code.natives, by_number);
    let exists_at = first_where(code.natives, by_number)->0;
    let ai_job = crate::grants::ai_job_field(code.functions[at])->Ok_0;
    let places = GrantPlaces {
        at,
        add_at: code.function_index(site.add_resource)->0,
        strings,
        exists_at,
        before,
        sentinels,
        ai_job: ai_job.0,
    };
    assert(by_number(code.natives[exists_at]));
    assert(ai_job == RefField(ai_job.0));
    assert(places.found(code, site));
    let all = in_order(grants);
    lemma_with_grants_keeps(before, all);
    let after = code.patch_grants(grants).0;
    let own = code.functions[at];
    let new = after.functions[at];
    let regs = new.regs;
    assert(regs == own.regs + crate::grants::grant_regs(site, own.regs[3]));
    assert(regs.take(5) =~= own.regs);
    assert(regs[3] == own.regs[3]);
    lemma_remembered(code, grants, site.bool_ty);
    lemma_slots_typed(code, site, places, regs, all);
    let slots = slots_ops(before, site, sentinels, all);
    let head = seq![
        Opcode::GetThis { dst: Reg(5), field: ai_job },
        Opcode::JNotNull { reg: Reg(5), offset: slots.len() as usize as i32 },
    ];
    let t = places.types(code, site);
    assert(regs[0] == own.regs[0]);
    assert(all_typed(head, regs, t));
    lemma_typed_add(head, slots, regs, t);
    (site, places)
}

/// A new field is added to the class itself, and to all fields that its objects have: it is the last
/// one of both. The place that is returned is where its objects have it.
pub proof fn law_new_field_is_one_of_the_class(
    code: ModuleView,
    class: Seq<char>,
    field: Seq<char>,
    t: RefType,
)
    requires
        code.add_field(class, field, t).1 is Ok,
        code.strings.len() <= usize::MAX,
    ensures
        ({
            let (after, place) = code.add_field(class, field, t);
            let at = code.class_index(class)->0;
            let new = ObjField { name: RefString(code.strings.len() as usize), t };
            &&& code.class_index(class) is Some
            &&& code.types[at] matches TypeView::Class(own)
            &&& after.types[at] matches TypeView::Class(now)
            &&& now.own_fields == own.own_fields.push(new)
            &&& now.fields == own.fields.push(new)
            &&& now.name == own.name && now.super_ == own.super_ && now.protos == own.protos
            &&& now.bindings == own.bindings && now.global == own.global
            &&& place == Ok::<RefField, FieldError>(RefField(own.fields.len() as usize))
            &&& after.strings == code.strings.push(field)
        }),
{
    lemma_first_where(code.types, |x: TypeView| code.is_class(x, class));
}

} // verus!
