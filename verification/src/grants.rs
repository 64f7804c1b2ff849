//! Resources that the game hands to the player.
//!
//! A marker file stands for resources that the player has been given. The patch puts a check of
//! every marker before `ent.Player.update`, which runs on every tick for every player of a
//! battle; players that the computer controls skip it. A useful grant is applied once in each
//! battle and keeps its marker. A filler grant is applied once and deletes its marker.

use vstd::prelude::*;
use hlbc::opcodes::Opcode;
use hlbc::types::{
    Native, RefField, RefFloat, RefFun, RefInt, RefString, RefType, Reg, Type, ValBool,
};
use crate::gate::{byte_len, string_shape, StringShape};
use crate::lookup::{find_field_by_name, first_where, lemma_first_where_is, lemma_first_where_none};
use crate::module::{function_view, Float, FunctionView, Module, ModuleView};
use crate::fields::add_bool_field;
use crate::prepend::{prepend, prepended};
use crate::sites::{
    function_at, method_findex, native_findex, outcome, Failure, Method, NativeFn, PatchError,
    PLAYER_CLASS, RESOURCES_CLASS,
};
use crate::text::{joined, same_text};

verus! {

/// How long a grant lasts.
#[derive(Clone, Copy, Debug, PartialEq, Eq, Structural)]
pub enum GrantKind {
    /// Applied once in each battle. The marker stays, since the player keeps the grant for good.
    /// A field of its own in the player's resources remembers that it has been applied.
    Useful,
    /// Applied once for each marker, which is deleted with that.
    Filler,
}

/// A grant: while there is a file `marker_path`, the player is due `amount` of each of
/// `resource_ids`. There is more than one identifier where clans have names of their own for the
/// resource: the game ignores those of other clans.
#[derive(Debug)]
pub struct ResourceGrant {
    pub kind: GrantKind,
    /// Names the field that remembers a useful grant.
    pub key: &'static str,
    pub marker_path: String,
    pub resource_ids: Vec<&'static str>,
    pub amount: u32,
}

/// What a [`ResourceGrant`] holds.
#[verifier::ext_equal]
pub struct GrantView {
    pub kind: GrantKind,
    pub key: Seq<char>,
    pub marker_path: Seq<char>,
    pub resource_ids: Seq<Seq<char>>,
    pub amount: u32,
}

/// The contents of a list of identifiers.
pub open spec fn ids_view(ids: Seq<&'static str>) -> Seq<Seq<char>> {
    Seq::new(ids.len(), |i: int| ids[i]@)
}

impl View for ResourceGrant {
    type V = GrantView;

    open spec fn view(&self) -> GrantView {
        GrantView {
            kind: self.kind,
            key: self.key@,
            marker_path: self.marker_path@,
            resource_ids: ids_view(self.resource_ids@),
            amount: self.amount,
        }
    }
}

/// The contents of a list of grants.
pub open spec fn grants_view(grants: Seq<ResourceGrant>) -> Seq<GrantView> {
    Seq::new(grants.len(), |i: int| grants[i]@)
}

/// The grants of one kind.
pub open spec fn of_kind(grants: Seq<GrantView>, kind: GrantKind) -> Seq<GrantView> {
    grants.filter(|g: GrantView| g.kind == kind)
}

/// The register that holds what controls the player: null for a human.
pub const AI_JOB: u32 = 5;

/// The register that holds the characters of a marker path.
pub const MARKER_BYTES: u32 = 6;

/// The register that holds the length of a marker path.
pub const MARKER_LEN: u32 = 7;

/// The register that holds a marker path as a string.
pub const MARKER_STR: u32 = 8;

/// The register that holds a marker path as a native path.
pub const MARKER_PATH: u32 = 9;

/// The register that holds whether the marker exists.
pub const EXISTS: u32 = 10;

/// The register that holds the characters of a resource identifier.
pub const NAME_BYTES: u32 = 11;

/// The register that holds the length of a resource identifier.
pub const NAME_LEN: u32 = 12;

/// The register that holds a resource identifier as a string.
pub const NAME_STR: u32 = 13;

/// The register that holds the amount.
pub const AMOUNT: u32 = 14;

/// The register that holds the reason of a change, which is always null.
pub const REASON: u32 = 15;

/// The register that holds the player's resources.
pub const RES: u32 = 16;

/// The register that holds what adding a resource returned.
pub const ADDED: u32 = 17;

/// The register that holds what deleting a marker returned.
pub const DELETED: u32 = 18;

/// The register that holds whether a useful grant has been applied.
pub const APPLIED: u32 = 19;

/// The register that holds the value true.
pub const TRUE: u32 = 20;

/// What the code of the grants refers to.
#[derive(Clone, Copy, Debug)]
pub struct GrantSite {
    /// The number of `ent.Player.update`.
    pub update: usize,
    /// The number of `Sys.getPath`.
    pub get_path: usize,
    /// The number of `sys_exists`.
    pub exists: usize,
    /// The number of `sys_delete`.
    pub delete: usize,
    /// The number of `ResourcesComponent.addResource`.
    pub add_resource: usize,
    /// The field of the player that holds the resources.
    pub res: RefField,
    /// The type of that field.
    pub res_ty: RefType,
    /// The type of the identifier that `addResource` takes.
    pub id_ty: RefType,
    /// The type of the amount that `addResource` takes.
    pub amount_ty: RefType,
    /// The type of the reason that `addResource` takes.
    pub reason_ty: RefType,
    /// How a string object is laid out.
    pub shape: StringShape,
    /// The type of a boolean.
    pub bool_ty: RefType,
}

impl ModuleView {
    /// The type that the first native of the number `findex` returns.
    pub open spec fn native_result(self, findex: usize) -> Result<RefType, Failure> {
        match first_where(self.natives, |n: Native| n.findex.0 == findex) {
            None => Err(Failure::Native(NativeFn::SysExists)),
            Some(i) => match self.signature(self.natives[i].t) {
                Some(fun) => Ok(fun.ret),
                None => Err(Failure::NativeSignature(NativeFn::SysExists)),
            },
        }
    }

    /// The numbers of what the grants call, as update, path, exists, delete and add.
    pub open spec fn grant_calls(self) -> Result<(usize, usize, usize, usize, usize), Failure> {
        match self.method(Method::PlayerUpdate) {
            Err(e) => Err(e),
            Ok(update) => match self.method(Method::SysGetPath) {
                Err(e) => Err(e),
                Ok(get_path) => match self.native(NativeFn::SysExists) {
                    Err(e) => Err(e),
                    Ok(exists) => match self.native(NativeFn::SysDelete) {
                        Err(e) => Err(e),
                        Ok(delete) => match self.method(Method::AddResource) {
                            Err(e) => Err(e),
                            Ok(add_resource) => Ok((update, get_path, exists, delete, add_resource)),
                        },
                    },
                },
            },
        }
    }

    /// The types of the arguments of `addResource` (number `add_resource`) behind the object.
    pub open spec fn resource_args(self, add_resource: usize) -> Result<
        (RefType, RefType, RefType),
        Failure,
    > {
        match self.function(add_resource, Method::AddResource) {
            Err(e) => Err(e),
            Ok(i) => {
                let f = self.functions[i];
                if f.regs.len() < 4 {
                    Err(Failure::Shape(Method::AddResource, f.ops.len(), f.regs.len()))
                } else {
                    Ok((f.regs[1], f.regs[2], f.regs[3]))
                }
            },
        }
    }

    /// What the code of the grants refers to.
    pub open spec fn grant_site(self) -> Result<GrantSite, Failure> {
        match self.grant_calls() {
            Err(e) => Err(e),
            Ok((update, get_path, exists, delete, add_resource)) => match self.field(
                PLAYER_CLASS@,
                "res"@,
            ) {
                Err(e) => Err(Failure::ResourcesField(e)),
                Ok((res, res_ty)) => match self.resource_args(add_resource) {
                    Err(e) => Err(e),
                    Ok((id_ty, amount_ty, reason_ty)) => match self.method(Method::StringAdd) {
                        Err(e) => Err(e),
                        Ok(add) => match self.string_shape(add) {
                            Err(e) => Err(e),
                            Ok(shape) => match self.native_result(exists) {
                                Err(e) => Err(e),
                                Ok(bool_ty) => Ok(
                                    GrantSite {
                                        update,
                                        get_path,
                                        exists,
                                        delete,
                                        add_resource,
                                        res,
                                        res_ty,
                                        id_ty,
                                        amount_ty,
                                        reason_ty,
                                        shape,
                                        bool_ty,
                                    },
                                ),
                            },
                        },
                    },
                },
            },
        }
    }
}

/// Finds the type that the first native of the number `findex` returns.
fn native_result(code: &Module, findex: usize) -> (found: Result<RefType, PatchError>)
    ensures
        outcome(found) == code@.native_result(findex),
{
    let ghost p = |n: Native| n.findex.0 == findex;
    for i in 0..code.natives.len()
        invariant
            p == (|n: Native| n.findex.0 == findex),
            forall|j: int| 0 <= j < i ==> !p(#[trigger] code@.natives[j]),
    {
        let n = &code.natives[i];
        if n.findex.0 == findex {
            proof {
                lemma_first_where_is(code@.natives, p, i as int);
            }
            if n.t.0 < code.types.len() {
                match &code.types[n.t.0] {
                    Type::Fun(fun) => return Ok(fun.ret),
                    Type::Method(fun) => return Ok(fun.ret),
                    _ => {},
                }
            }
            return Err(PatchError::NativeSignature(NativeFn::SysExists));
        }
    }
    proof {
        lemma_first_where_none(code@.natives, p);
    }
    Err(PatchError::Native(NativeFn::SysExists))
}

/// Finds what the code of the grants refers to.
fn grant_site(code: &Module) -> (found: Result<GrantSite, PatchError>)
    ensures
        outcome(found) == code@.grant_site(),
{
    let update = match method_findex(code, Method::PlayerUpdate) {
        Ok(findex) => findex,
        Err(error) => return Err(error),
    };
    let get_path = match method_findex(code, Method::SysGetPath) {
        Ok(findex) => findex,
        Err(error) => return Err(error),
    };
    let exists = match native_findex(code, NativeFn::SysExists) {
        Ok(findex) => findex,
        Err(error) => return Err(error),
    };
    let delete = match native_findex(code, NativeFn::SysDelete) {
        Ok(findex) => findex,
        Err(error) => return Err(error),
    };
    let add_resource = match method_findex(code, Method::AddResource) {
        Ok(findex) => findex,
        Err(error) => return Err(error),
    };
    let (res, res_ty) = match find_field_by_name(code, PLAYER_CLASS, "res") {
        Ok(field) => field,
        Err(error) => return Err(PatchError::ResourcesField(error)),
    };
    let at = match function_at(code, add_resource, Method::AddResource) {
        Ok(i) => i,
        Err(error) => return Err(error),
    };
    let f = &code.functions[at];
    if f.regs.len() < 4 {
        return Err(PatchError::Shape(Method::AddResource, f.ops.len(), f.regs.len()));
    }
    let add = match method_findex(code, Method::StringAdd) {
        Ok(findex) => findex,
        Err(error) => return Err(error),
    };
    let shape = match string_shape(code, add) {
        Ok(shape) => shape,
        Err(error) => return Err(error),
    };
    let bool_ty = match native_result(code, exists) {
        Ok(t) => t,
        Err(error) => return Err(error),
    };
    Ok(
        GrantSite {
            update,
            get_path,
            exists,
            delete,
            add_resource,
            res,
            res_ty,
            id_ty: f.regs[1],
            amount_ty: f.regs[2],
            reason_ty: f.regs[3],
            shape,
            bool_ty,
        },
    )
}

/// The field that remembers each useful grant, by the key of the grant.
pub type Sentinels = Seq<(Seq<char>, RefField)>;

/// The name of the field that remembers the grant `key`.
pub open spec fn sentinel_name(key: Seq<char>) -> Seq<char> {
    "apUsefulApplied_"@ + key
}

/// Remembering the grant `key`.
pub open spec fn has_key(key: Seq<char>) -> spec_fn((Seq<char>, RefField)) -> bool {
    |s: (Seq<char>, RefField)| s.0 == key
}

/// The field that remembers the grant `key`.
pub open spec fn sentinel_of(sentinels: Sentinels, key: Seq<char>) -> RefField {
    match first_where(sentinels, has_key(key)) {
        Some(i) => sentinels[i].1,
        None => arbitrary(),
    }
}

impl ModuleView {
    /// The program after a field for each of `grants` has been added to the player's resources,
    /// and those fields.
    pub open spec fn add_sentinels(self, grants: Seq<GrantView>, bool_ty: RefType) -> (
        ModuleView,
        Result<Sentinels, Failure>,
    )
        decreases grants.len(),
    {
        if grants.len() == 0 {
            (self, Ok(Seq::empty()))
        } else {
            let key = grants.last().key;
            match self.add_sentinels(grants.drop_last(), bool_ty) {
                (before, Err(e)) => (before, Err(e)),
                (before, Ok(sentinels)) => match before.add_field(
                    RESOURCES_CLASS@,
                    sentinel_name(key),
                    bool_ty,
                ) {
                    (after, Err(_)) => (after, Err(Failure::ResourcesClass)),
                    (after, Ok(field)) => (after, Ok(sentinels.push((key, field)))),
                },
            }
        }
    }

    /// The program with the constants of the identifiers `ids` in its pools: each with its length
    /// and the amount.
    pub open spec fn with_aliases(self, ids: Seq<Seq<char>>, amount: u32) -> ModuleView {
        ModuleView {
            strings: self.strings + ids,
            ints: self.ints + Seq::new(ids.len(), |i: int| byte_len(ids[i])),
            floats: self.floats + Seq::new(ids.len(), |i: int| Float::Whole(amount)),
            ..self
        }
    }

    /// The program with the constants of a grant in its pools: the path of the marker and its
    /// length, then those of the identifiers.
    pub open spec fn with_grant(self, grant: GrantView) -> ModuleView {
        self.with_string(grant.marker_path).with_int(byte_len(grant.marker_path)).with_aliases(
            grant.resource_ids,
            grant.amount,
        )
    }

    /// The program with the constants of several grants in its pools.
    pub open spec fn with_grants(self, grants: Seq<GrantView>) -> ModuleView
        decreases grants.len(),
    {
        if grants.len() == 0 {
            self
        } else {
            self.with_grants(grants.drop_last()).with_grant(grants.last())
        }
    }
}

/// The instructions that ask whether the marker exists whose path is the text `text_at`, with its
/// length the integer `len_at`.
pub open spec fn marker_ops(site: GrantSite, text_at: int, len_at: int) -> Seq<Opcode> {
    seq![
        Opcode::String { dst: Reg(MARKER_BYTES), ptr: RefString(text_at as usize) },
        Opcode::Int { dst: Reg(MARKER_LEN), ptr: RefInt(len_at as usize) },
        Opcode::New { dst: Reg(MARKER_STR) },
        Opcode::SetField {
            obj: Reg(MARKER_STR),
            field: site.shape.bytes,
            src: Reg(MARKER_BYTES),
        },
        Opcode::SetField { obj: Reg(MARKER_STR), field: site.shape.length, src: Reg(MARKER_LEN) },
        Opcode::Call1 {
            dst: Reg(MARKER_PATH),
            fun: RefFun(site.get_path),
            arg0: Reg(MARKER_STR),
        },
        Opcode::Call1 { dst: Reg(EXISTS), fun: RefFun(site.exists), arg0: Reg(MARKER_PATH) },
    ]
}

/// The instructions that add the amount `amount_at` of the resource whose identifier is the text
/// `text_at`, with its length the integer `len_at`.
pub open spec fn alias_ops(site: GrantSite, text_at: int, len_at: int, amount_at: int) -> Seq<Opcode> {
    seq![
        Opcode::String { dst: Reg(NAME_BYTES), ptr: RefString(text_at as usize) },
        Opcode::Int { dst: Reg(NAME_LEN), ptr: RefInt(len_at as usize) },
        Opcode::New { dst: Reg(NAME_STR) },
        Opcode::SetField { obj: Reg(NAME_STR), field: site.shape.bytes, src: Reg(NAME_BYTES) },
        Opcode::SetField { obj: Reg(NAME_STR), field: site.shape.length, src: Reg(NAME_LEN) },
        Opcode::Float { dst: Reg(AMOUNT), ptr: RefFloat(amount_at as usize) },
        Opcode::Null { dst: Reg(REASON) },
        Opcode::NullCheck { reg: Reg(RES) },
        Opcode::Call4 {
            dst: Reg(ADDED),
            fun: RefFun(site.add_resource),
            arg0: Reg(RES),
            arg1: Reg(NAME_STR),
            arg2: Reg(AMOUNT),
            arg3: Reg(REASON),
        },
    ]
}

/// The instructions that add the amounts of the `n` identifiers whose constants start at
/// `text_at`, `len_at` and `amount_at`.
pub open spec fn aliases_ops(
    site: GrantSite,
    text_at: int,
    len_at: int,
    amount_at: int,
    n: nat,
) -> Seq<Opcode>
    decreases n,
{
    if n == 0 {
        Seq::empty()
    } else {
        aliases_ops(site, text_at, len_at, amount_at, (n - 1) as nat) + alias_ops(
            site,
            text_at + n - 1,
            len_at + n - 1,
            amount_at + n - 1,
        )
    }
}

/// The instructions of a grant whose constants come next in the pools of `code`. Those of a
/// useful grant first ask whether it has been applied, and remember in the end that it has.
pub open spec fn slot_ops(
    code: ModuleView,
    site: GrantSite,
    sentinels: Sentinels,
    grant: GrantView,
) -> Seq<Opcode> {
    let text_at = code.strings.len() as int;
    let len_at = code.ints.len() as int;
    let amount_at = code.floats.len() as int;
    let n = grant.resource_ids.len();
    let marker = marker_ops(site, text_at, len_at);
    let aliases = aliases_ops(site, text_at + 1, len_at + 1, amount_at, n);
    match grant.kind {
        GrantKind::Useful => {
            let sentinel = sentinel_of(sentinels, grant.key);
            seq![
                Opcode::GetThis { dst: Reg(RES), field: site.res },
                Opcode::Field { dst: Reg(APPLIED), obj: Reg(RES), field: sentinel },
                Opcode::JTrue { cond: Reg(APPLIED), offset: (aliases.len() + 12) as usize as i32 },
            ] + marker + seq![
                Opcode::JFalse { cond: Reg(EXISTS), offset: (aliases.len() + 4) as usize as i32 },
                Opcode::GetThis { dst: Reg(RES), field: site.res },
            ] + aliases + seq![
                Opcode::GetThis { dst: Reg(RES), field: site.res },
                Opcode::Bool { dst: Reg(TRUE), value: ValBool(true) },
                Opcode::SetField { obj: Reg(RES), field: sentinel, src: Reg(TRUE) },
            ]
        },
        GrantKind::Filler => marker + seq![
            Opcode::JFalse { cond: Reg(EXISTS), offset: (aliases.len() + 2) as usize as i32 },
            Opcode::GetThis { dst: Reg(RES), field: site.res },
        ] + aliases + seq![
            Opcode::Call1 { dst: Reg(DELETED), fun: RefFun(site.delete), arg0: Reg(MARKER_PATH) },
        ],
    }
}

/// The instructions of several grants, one after the other.
pub open spec fn slots_ops(
    code: ModuleView,
    site: GrantSite,
    sentinels: Sentinels,
    grants: Seq<GrantView>,
) -> Seq<Opcode>
    decreases grants.len(),
{
    if grants.len() == 0 {
        Seq::empty()
    } else {
        slots_ops(code, site, sentinels, grants.drop_last()) + slot_ops(
            code.with_grants(grants.drop_last()),
            site,
            sentinels,
            grants.last(),
        )
    }
}

/// The instructions before `ent.Player.update`: players that the computer controls skip all
/// grants. `ai_job` is the field of the player that says what controls it.
pub open spec fn grant_ops(
    code: ModuleView,
    site: GrantSite,
    ai_job: RefField,
    sentinels: Sentinels,
    grants: Seq<GrantView>,
) -> Seq<Opcode> {
    let slots = slots_ops(code, site, sentinels, grants);
    seq![
        Opcode::GetThis { dst: Reg(AI_JOB), field: ai_job },
        Opcode::JNotNull { reg: Reg(AI_JOB), offset: slots.len() as usize as i32 },
    ] + slots
}

/// The types of the registers of the grants. `ai_job_ty` is that of what controls the player.
pub open spec fn grant_regs(site: GrantSite, ai_job_ty: RefType) -> Seq<RefType> {
    seq![
        ai_job_ty,
        site.shape.bytes_ty,
        site.shape.int_ty,
        site.id_ty,
        site.shape.bytes_ty,
        site.bool_ty,
        site.shape.bytes_ty,
        site.shape.int_ty,
        site.id_ty,
        site.amount_ty,
        site.reason_ty,
        site.res_ty,
        site.bool_ty,
        site.bool_ty,
        site.bool_ty,
        site.bool_ty,
    ]
}

/// The useful grants, then the filler grants.
pub open spec fn in_order(grants: Seq<GrantView>) -> Seq<GrantView> {
    of_kind(grants, GrantKind::Useful) + of_kind(grants, GrantKind::Filler)
}

/// The field of the player that says what controls it, as `ent.Player.update` reads it.
pub open spec fn ai_job_field(f: FunctionView) -> Result<RefField, Failure> {
    if f.ops.len() != 10 || f.regs.len() != 5 {
        Err(Failure::Shape(Method::PlayerUpdate, f.ops.len(), f.regs.len()))
    } else {
        match (f.ops[2], f.ops[3]) {
            (Opcode::GetThis { field, .. }, Opcode::JNull { .. }) => Ok(field),
            (Opcode::GetThis { .. }, _) => Err(Failure::Op(Method::PlayerUpdate, 3)),
            (_, _) => Err(Failure::Op(Method::PlayerUpdate, 2)),
        }
    }
}

impl ModuleView {
    /// The program after the patch of `ent.Player.update`. Fields that were added before an
    /// error was found stay.
    pub open spec fn patch_grants(self, grants: Seq<GrantView>) -> (
        ModuleView,
        Result<(), Failure>,
    ) {
        match self.grant_site() {
            Err(e) => (self, Err(e)),
            Ok(site) => match self.add_sentinels(
                of_kind(grants, GrantKind::Useful),
                site.bool_ty,
            ) {
                (with_fields, Err(e)) => (with_fields, Err(e)),
                (with_fields, Ok(sentinels)) => match with_fields.function(
                    site.update,
                    Method::PlayerUpdate,
                ) {
                    Err(e) => (with_fields, Err(e)),
                    Ok(i) => {
                        let f = with_fields.functions[i];
                        match ai_job_field(f) {
                            Err(e) => (with_fields, Err(e)),
                            Ok(ai_job) => (
                                with_fields.with_grants(in_order(grants)).with_function(
                                    i,
                                    prepended(
                                        f,
                                        grant_regs(site, f.regs[3]),
                                        grant_ops(
                                            with_fields,
                                            site,
                                            ai_job,
                                            sentinels,
                                            in_order(grants),
                                        ),
                                    ),
                                ),
                                Ok(()),
                            ),
                        }
                    },
                },
            },
        }
    }
}

/// The contents of a list of sentinels.
pub open spec fn sentinels_view(sentinels: Seq<(&'static str, RefField)>) -> Sentinels {
    Seq::new(sentinels.len(), |i: int| (sentinels[i].0@, sentinels[i].1))
}

/// The fields go by the keys of their grants.
pub proof fn lemma_sentinel_keys(code: ModuleView, grants: Seq<GrantView>, bool_ty: RefType)
    ensures
        code.add_sentinels(grants, bool_ty).1 matches Ok(sentinels) ==> {
            &&& sentinels.len() == grants.len()
            &&& forall|i: int|
                0 <= i < grants.len() ==> (#[trigger] sentinels[i]).0 == grants[i].key
        },
    decreases grants.len(),
{
    if grants.len() > 0 {
        lemma_sentinel_keys(code, grants.drop_last(), bool_ty);
    }
}

/// Adds a field for each useful grant to the player's resources.
fn add_sentinels(code: &mut Module, grants: &Vec<ResourceGrant>, bool_ty: RefType) -> (added: Result<
    Vec<(&'static str, RefField)>,
    PatchError,
>)
    ensures
        ({
            let spec_added = old(code)@.add_sentinels(
                of_kind(grants_view(grants@), GrantKind::Useful),
                bool_ty,
            );
            &&& final(code)@ == spec_added.0
            &&& match added {
                Ok(sentinels) => spec_added.1 == Ok::<Sentinels, Failure>(
                    sentinels_view(sentinels@),
                ),
                Err(e) => spec_added.1 == Err::<Sentinels, Failure>(e@),
            }
        }),
{
    let ghost start = code@;
    let ghost all = grants_view(grants@);
    let mut sentinels: Vec<(&'static str, RefField)> = Vec::new();
    assert(sentinels_view(sentinels@) =~= Seq::empty());
    assert(all.take(0) =~= Seq::empty());
    assert(of_kind(all.take(0), GrantKind::Useful) =~= Seq::empty()) by {
        reveal(Seq::filter);
    }
    for i in 0..grants.len()
        invariant
            start == old(code)@,
            all == grants_view(grants@),
            start.add_sentinels(of_kind(all.take(i as int), GrantKind::Useful), bool_ty) == (
                code@,
                Ok::<Sentinels, Failure>(sentinels_view(sentinels@)),
            ),
    {
        let grant = &grants[i];
        let ghost seen = of_kind(all.take(i as int), GrantKind::Useful);
        proof {
            lemma_kind_step(all, i as int, GrantKind::Useful);
        }
        if grant.kind == GrantKind::Useful {
            let name = joined("apUsefulApplied_", grant.key);
            let ghost now = seen.push(grant@);
            let ghost before = sentinels_view(sentinels@);
            assert(now.drop_last() =~= seen);
            assert(now.last() == grant@);
            match add_bool_field(code, RESOURCES_CLASS, name.as_str(), bool_ty) {
                Ok(field) => {
                    sentinels.push((grant.key, field));
                    assert(sentinels_view(sentinels@) =~= before.push((grant.key@, field)));
                },
                Err(_) => {
                    proof {
                        lemma_sentinel_failure(start, all, i as int, bool_ty);
                    }
                    return Err(PatchError::ResourcesClass);
                },
            }
        }
    }
    assert(all.take(all.len() as int) =~= all);
    Ok(sentinels)
}

/// One more grant: it joins those of its own kind.
proof fn lemma_kind_step(all: Seq<GrantView>, i: int, kind: GrantKind)
    requires
        0 <= i < all.len(),
    ensures
        of_kind(all.take(i + 1), kind) == if all[i].kind == kind {
            of_kind(all.take(i), kind).push(all[i])
        } else {
            of_kind(all.take(i), kind)
        },
{
    reveal(Seq::filter);
    assert(all.take(i + 1).drop_last() =~= all.take(i));
    assert(all.take(i + 1).last() == all[i]);
}

/// A failure to add a field is final, and leaves the program as it then was.
proof fn lemma_sentinel_failure(
    code: ModuleView,
    all: Seq<GrantView>,
    i: int,
    bool_ty: RefType,
)
    requires
        0 <= i < all.len(),
        code.add_sentinels(of_kind(all.take(i + 1), GrantKind::Useful), bool_ty).1 is Err,
    ensures
        code.add_sentinels(of_kind(all, GrantKind::Useful), bool_ty) == code.add_sentinels(
            of_kind(all.take(i + 1), GrantKind::Useful),
            bool_ty,
        ),
    decreases all.len() - i,
{
    if i + 1 == all.len() {
        assert(all.take(i + 1) =~= all);
    } else {
        let seen = of_kind(all.take(i + 1), GrantKind::Useful);
        let more = of_kind(all.take(i + 2), GrantKind::Useful);
        lemma_kind_step(all, i + 1, GrantKind::Useful);
        if all[i + 1].kind == GrantKind::Useful {
            assert(more.drop_last() =~= seen);
        }
        lemma_sentinel_failure(code, all, i + 1, bool_ty);
    }
}

/// The number of instructions of the identifiers.
pub proof fn lemma_aliases_len(
    site: GrantSite,
    text_at: int,
    len_at: int,
    amount_at: int,
    n: nat,
)
    ensures
        aliases_ops(site, text_at, len_at, amount_at, n).len() == 9 * n,
    decreases n,
{
    if n > 0 {
        lemma_aliases_len(site, text_at, len_at, amount_at, (n - 1) as nat);
    }
}

/// Adds the instructions that ask whether a marker exists.
fn push_marker(ops: &mut Vec<Opcode>, site: GrantSite, text_at: usize, len_at: usize)
    ensures
        final(ops)@ == old(ops)@ + marker_ops(site, text_at as int, len_at as int),
{
    let mut marker: Vec<Opcode> = vec![
        Opcode::String { dst: Reg(MARKER_BYTES), ptr: RefString(text_at) },
        Opcode::Int { dst: Reg(MARKER_LEN), ptr: RefInt(len_at) },
        Opcode::New { dst: Reg(MARKER_STR) },
        Opcode::SetField {
            obj: Reg(MARKER_STR),
            field: site.shape.bytes,
            src: Reg(MARKER_BYTES),
        },
        Opcode::SetField { obj: Reg(MARKER_STR), field: site.shape.length, src: Reg(MARKER_LEN) },
        Opcode::Call1 {
            dst: Reg(MARKER_PATH),
            fun: RefFun(site.get_path),
            arg0: Reg(MARKER_STR),
        },
        Opcode::Call1 { dst: Reg(EXISTS), fun: RefFun(site.exists), arg0: Reg(MARKER_PATH) },
    ];
    assert(marker@ =~= marker_ops(site, text_at as int, len_at as int));
    ops.append(&mut marker);
}

/// Adds the constants of every identifier of a grant, and the instructions that add the
/// resource.
fn push_aliases(
    code: &mut Module,
    ops: &mut Vec<Opcode>,
    site: GrantSite,
    grant: &ResourceGrant,
)
    ensures
        final(code)@ == old(code)@.with_aliases(grant@.resource_ids, grant.amount),
        final(ops)@ == old(ops)@ + aliases_ops(
            site,
            old(code)@.strings.len() as int,
            old(code)@.ints.len() as int,
            old(code)@.floats.len() as int,
            grant@.resource_ids.len(),
        ),
{
    let ghost start = code@;
    let ghost first = ops@;
    let ghost ids = grant@.resource_ids;
    assert(start.with_aliases(ids.take(0), grant.amount) =~= start);
    assert(first + Seq::empty() =~= first);
    for i in 0..grant.resource_ids.len()
        invariant
            ids == grant@.resource_ids,
            code@ == start.with_aliases(ids.take(i as int), grant.amount),
            ops@ == first + aliases_ops(
                site,
                start.strings.len() as int,
                start.ints.len() as int,
                start.floats.len() as int,
                i as nat,
            ),
    {
        let id = grant.resource_ids[i];
        let ghost so_far = ops@;
        let text_at = code.push_string(id);
        let len_at = code.push_int(id.len() as i32);
        let amount_at = code.push_float(grant.amount);
        let mut alias: Vec<Opcode> = vec![
            Opcode::String { dst: Reg(NAME_BYTES), ptr: RefString(text_at) },
            Opcode::Int { dst: Reg(NAME_LEN), ptr: RefInt(len_at) },
            Opcode::New { dst: Reg(NAME_STR) },
            Opcode::SetField { obj: Reg(NAME_STR), field: site.shape.bytes, src: Reg(NAME_BYTES) },
            Opcode::SetField { obj: Reg(NAME_STR), field: site.shape.length, src: Reg(NAME_LEN) },
            Opcode::Float { dst: Reg(AMOUNT), ptr: RefFloat(amount_at) },
            Opcode::Null { dst: Reg(REASON) },
            Opcode::NullCheck { reg: Reg(RES) },
            Opcode::Call4 {
                dst: Reg(ADDED),
                fun: RefFun(site.add_resource),
                arg0: Reg(RES),
                arg1: Reg(NAME_STR),
                arg2: Reg(AMOUNT),
                arg3: Reg(REASON),
            },
        ];
        let ghost alias_code = alias@;
        ops.append(&mut alias);
        proof {
            let before = start.with_aliases(ids.take(i as int), grant.amount);
            let after = start.with_aliases(ids.take(i + 1), grant.amount);
            assert(after.strings =~= before.strings.push(id@));
            assert(after.ints =~= before.ints.push(byte_len(id@)));
            assert(after.floats =~= before.floats.push(Float::Whole(grant.amount)));
            assert(alias_code =~= alias_ops(
                site,
                start.strings.len() + i,
                start.ints.len() + i,
                start.floats.len() + i,
            ));
            let before_ops = aliases_ops(
                site,
                start.strings.len() as int,
                start.ints.len() as int,
                start.floats.len() as int,
                i as nat,
            );
            assert(first + before_ops + alias_code =~= first + (before_ops + alias_code));
        }
    }
    assert(ids.take(ids.len() as int) =~= ids);
}

/// Adds the constants and the instructions of a filler grant.
fn push_filler_slot(
    code: &mut Module,
    ops: &mut Vec<Opcode>,
    site: GrantSite,
    sentinels: Ghost<Sentinels>,
    grant: &ResourceGrant,
)
    requires
        grant.kind == GrantKind::Filler,
    ensures
        final(code)@ == old(code)@.with_grant(grant@),
        final(ops)@ == old(ops)@ + slot_ops(old(code)@, site, sentinels@, grant@),
{
    let ghost first = ops@;
    let ghost slot = slot_ops(code@, site, sentinels@, grant@);
    let text_at = code.push_string(grant.marker_path.as_str());
    let len_at = code.push_int(grant.marker_path.as_str().len() as i32);
    push_marker(ops, site, text_at, len_at);
    let skip_at = ops.len();
    ops.push(Opcode::JFalse { cond: Reg(EXISTS), offset: 0 });
    ops.push(Opcode::GetThis { dst: Reg(RES), field: site.res });
    push_aliases(code, ops, site, grant);
    ops.push(
        Opcode::Call1 { dst: Reg(DELETED), fun: RefFun(site.delete), arg0: Reg(MARKER_PATH) },
    );
    let end = ops.len();
    ops[skip_at] = Opcode::JFalse { cond: Reg(EXISTS), offset: (end - skip_at - 1) as i32 };
    assert(ops@ =~= first + slot);
}

/// Finds the field that remembers a useful grant.
fn find_sentinel(sentinels: &Vec<(&'static str, RefField)>, key: &str) -> (field: RefField)
    requires
        exists|i: int| 0 <= i < sentinels@.len() && (#[trigger] sentinels@[i]).0@ == key@,
    ensures
        field == sentinel_of(sentinels_view(sentinels@), key@),
{
    let ghost p = has_key(key@);
    let count = sentinels.len();
    let mut i: usize = 0;
    loop
        invariant
            p == has_key(key@),
            i <= count == sentinels@.len(),
            forall|j: int| 0 <= j < i ==> !p(#[trigger] sentinels_view(sentinels@)[j]),
            exists|j: int| 0 <= j < sentinels@.len() && (#[trigger] sentinels@[j]).0@ == key@,
        decreases sentinels@.len() - i,
    {
        proof {
            let j = choose|j: int|
                0 <= j < sentinels@.len() && (#[trigger] sentinels@[j]).0@ == key@;
            assert(p(sentinels_view(sentinels@)[j]));
        }
        if same_text(sentinels[i].0, key) {
            proof {
                lemma_first_where_is(sentinels_view(sentinels@), p, i as int);
            }
            return sentinels[i].1;
        }
        i = i + 1;
    }
}

/// Adds the constants and the instructions of a useful grant.
#[verifier::rlimit(40)]
fn push_useful_slot(
    code: &mut Module,
    ops: &mut Vec<Opcode>,
    site: GrantSite,
    sentinels: &Vec<(&'static str, RefField)>,
    grant: &ResourceGrant,
)
    requires
        grant.kind == GrantKind::Useful,
        exists|i: int| 0 <= i < sentinels@.len() && (#[trigger] sentinels@[i]).0@ == grant.key@,
    ensures
        final(code)@ == old(code)@.with_grant(grant@),
        final(ops)@ == old(ops)@ + slot_ops(
            old(code)@,
            site,
            sentinels_view(sentinels@),
            grant@,
        ),
{
    let ghost first = ops@;
    let ghost slot = slot_ops(code@, site, sentinels_view(sentinels@), grant@);
    let sentinel = find_sentinel(sentinels, grant.key);
    ops.push(Opcode::GetThis { dst: Reg(RES), field: site.res });
    ops.push(Opcode::Field { dst: Reg(APPLIED), obj: Reg(RES), field: sentinel });
    let done_at = ops.len();
    ops.push(Opcode::JTrue { cond: Reg(APPLIED), offset: 0 });

    let text_at = code.push_string(grant.marker_path.as_str());
    let len_at = code.push_int(grant.marker_path.as_str().len() as i32);
    push_marker(ops, site, text_at, len_at);
    let skip_at = ops.len();
    ops.push(Opcode::JFalse { cond: Reg(EXISTS), offset: 0 });
    ops.push(Opcode::GetThis { dst: Reg(RES), field: site.res });
    push_aliases(code, ops, site, grant);
    ops.push(Opcode::GetThis { dst: Reg(RES), field: site.res });
    ops.push(Opcode::Bool { dst: Reg(TRUE), value: ValBool(true) });
    ops.push(Opcode::SetField { obj: Reg(RES), field: sentinel, src: Reg(TRUE) });
    let end = ops.len();
    ops[done_at] = Opcode::JTrue { cond: Reg(APPLIED), offset: (end - done_at - 1) as i32 };
    ops[skip_at] = Opcode::JFalse { cond: Reg(EXISTS), offset: (end - skip_at - 1) as i32 };
    assert(ops@ =~= first + slot);
}

/// One more grant behind others.
pub proof fn lemma_slots_push(
    code: ModuleView,
    site: GrantSite,
    sentinels: Sentinels,
    grants: Seq<GrantView>,
    grant: GrantView,
)
    ensures
        code.with_grants(grants.push(grant)) == code.with_grants(grants).with_grant(grant),
        slots_ops(code, site, sentinels, grants.push(grant)) == slots_ops(
            code,
            site,
            sentinels,
            grants,
        ) + slot_ops(code.with_grants(grants), site, sentinels, grant),
{
    assert(grants.push(grant).drop_last() =~= grants);
}

/// The constants of grants leave everything but the pools of the program as it was.
pub proof fn lemma_with_grants_keeps(code: ModuleView, grants: Seq<GrantView>)
    ensures
        code.with_grants(grants) == (ModuleView {
            strings: code.with_grants(grants).strings,
            ints: code.with_grants(grants).ints,
            floats: code.with_grants(grants).floats,
            ..code
        }),
    decreases grants.len(),
{
    if grants.len() > 0 {
        lemma_with_grants_keeps(code, grants.drop_last());
    }
}

/// Every grant of a kind is among those of that kind.
proof fn lemma_of_kind_contains(all: Seq<GrantView>, i: int)
    requires
        0 <= i < all.len(),
    ensures
        of_kind(all, all[i].kind).contains(all[i]),
{
    let p = |g: GrantView| g.kind == all[i].kind;
    all.lemma_filter_contains(p, i);
}

/// Adds the constants and the instructions of all grants: the useful ones, then the filler ones.
fn push_slots(
    code: &mut Module,
    ops: &mut Vec<Opcode>,
    site: GrantSite,
    sentinels: &Vec<(&'static str, RefField)>,
    grants: &Vec<ResourceGrant>,
)
    requires
        forall|k: int|
            #![trigger of_kind(grants_view(grants@), GrantKind::Useful)[k]]
            0 <= k < of_kind(grants_view(grants@), GrantKind::Useful).len() ==> k
                < sentinels@.len() && sentinels@[k].0@ == of_kind(
                grants_view(grants@),
                GrantKind::Useful,
            )[k].key,
    ensures
        final(code)@ == old(code)@.with_grants(in_order(grants_view(grants@))),
        final(ops)@ == old(ops)@ + slots_ops(
            old(code)@,
            site,
            sentinels_view(sentinels@),
            in_order(grants_view(grants@)),
        ),
{
    let ghost start = code@;
    let ghost first = ops@;
    let ghost all = grants_view(grants@);
    let ghost marks = sentinels_view(sentinels@);
    let ghost useful = of_kind(all, GrantKind::Useful);
    assert(first + Seq::empty() =~= first);
    assert(all.take(0) =~= Seq::empty());
    assert(all.take(all.len() as int) =~= all);
    assert(of_kind(all.take(0), GrantKind::Useful) =~= Seq::empty()) by {
        reveal(Seq::filter);
    }
    assert(useful + of_kind(all.take(0), GrantKind::Filler) =~= useful) by {
        reveal(Seq::filter);
    }
    for i in 0..grants.len()
        invariant
            all == grants_view(grants@),
            marks == sentinels_view(sentinels@),
            useful == of_kind(all, GrantKind::Useful),
            forall|k: int|
                #![trigger useful[k]]
                0 <= k < useful.len() ==> k < sentinels@.len() && sentinels@[k].0@
                    == useful[k].key,
            code@ == start.with_grants(of_kind(all.take(i as int), GrantKind::Useful)),
            ops@ == first + slots_ops(
                start,
                site,
                marks,
                of_kind(all.take(i as int), GrantKind::Useful),
            ),
    {
        let grant = &grants[i];
        let ghost seen = of_kind(all.take(i as int), GrantKind::Useful);
        let ghost so_far = slots_ops(start, site, marks, seen);
        proof {
            lemma_kind_step(all, i as int, GrantKind::Useful);
            lemma_slots_push(start, site, marks, seen, grant@);
        }
        if grant.kind == GrantKind::Useful {
            proof {
                lemma_of_kind_contains(all, i as int);
                let k = choose|k: int| 0 <= k < useful.len() && useful[k] == grant@;
                assert(sentinels@[k].0@ == grant.key@);
            }
            push_useful_slot(code, ops, site, sentinels, grant);
            proof {
                let slot = slot_ops(start.with_grants(seen), site, marks, grant@);
                assert(first + so_far + slot =~= first + (so_far + slot));
            }
        }
    }
    for i in 0..grants.len()
        invariant
            all == grants_view(grants@),
            marks == sentinels_view(sentinels@),
            code@ == start.with_grants(useful + of_kind(all.take(i as int), GrantKind::Filler)),
            ops@ == first + slots_ops(
                start,
                site,
                marks,
                useful + of_kind(all.take(i as int), GrantKind::Filler),
            ),
    {
        let grant = &grants[i];
        let ghost seen = useful + of_kind(all.take(i as int), GrantKind::Filler);
        let ghost so_far = slots_ops(start, site, marks, seen);
        proof {
            lemma_kind_step(all, i as int, GrantKind::Filler);
            lemma_slots_push(start, site, marks, seen, grant@);
            assert(seen.push(grant@) =~= useful + of_kind(
                all.take(i as int),
                GrantKind::Filler,
            ).push(grant@));
        }
        if grant.kind == GrantKind::Filler {
            push_filler_slot(code, ops, site, Ghost(marks), grant);
            proof {
                let slot = slot_ops(start.with_grants(seen), site, marks, grant@);
                assert(first + so_far + slot =~= first + (so_far + slot));
            }
        }
    }
}

/// Makes the game check the markers of `grants` before every tick of the human player.
pub fn patch_player_update_grants_resources(
    code: &mut Module,
    grants: &Vec<ResourceGrant>,
) -> (patched: Result<(), PatchError>)
    ensures
        (final(code)@, outcome(patched)) == old(code)@.patch_grants(grants_view(grants@)),
{
    let ghost all = grants_view(grants@);
    let site = match grant_site(code) {
        Ok(site) => site,
        Err(error) => return Err(error),
    };
    proof {
        lemma_sentinel_keys(code@, of_kind(all, GrantKind::Useful), site.bool_ty);
    }
    let sentinels = match add_sentinels(code, grants, site.bool_ty) {
        Ok(sentinels) => sentinels,
        Err(error) => return Err(error),
    };

    let at = match function_at(code, site.update, Method::PlayerUpdate) {
        Ok(i) => i,
        Err(error) => return Err(error),
    };
    let f = &code.functions[at];
    if f.ops.len() != 10 || f.regs.len() != 5 {
        return Err(PatchError::Shape(Method::PlayerUpdate, f.ops.len(), f.regs.len()));
    }
    let ai_job = match &f.ops[2] {
        Opcode::GetThis { field, .. } => *field,
        _ => return Err(PatchError::Op(Method::PlayerUpdate, 2)),
    };
    match &f.ops[3] {
        Opcode::JNull { .. } => {},
        _ => return Err(PatchError::Op(Method::PlayerUpdate, 3)),
    }
    let ai_job_ty = f.regs[3];
    let ghost with_fields = code@;

    let mut ops: Vec<Opcode> = vec![
        Opcode::GetThis { dst: Reg(AI_JOB), field: ai_job },
        Opcode::JNotNull { reg: Reg(AI_JOB), offset: 0 },
    ];
    proof {
        let marks = sentinels_view(sentinels@);
        assert forall|k: int|
            #![trigger of_kind(all, GrantKind::Useful)[k]]
            0 <= k < of_kind(all, GrantKind::Useful).len() implies k < sentinels@.len()
            && sentinels@[k].0@ == of_kind(all, GrantKind::Useful)[k].key by {
            assert(marks[k].0 == of_kind(all, GrantKind::Useful)[k].key);
        }
        lemma_with_grants_keeps(with_fields, in_order(all));
    }
    push_slots(code, &mut ops, site, &sentinels, grants);
    let end = ops.len();
    ops[1] = Opcode::JNotNull { reg: Reg(AI_JOB), offset: (end - 2) as i32 };
    let regs: Vec<RefType> = vec![
        ai_job_ty,
        site.shape.bytes_ty,
        site.shape.int_ty,
        site.id_ty,
        site.shape.bytes_ty,
        site.bool_ty,
        site.shape.bytes_ty,
        site.shape.int_ty,
        site.id_ty,
        site.amount_ty,
        site.reason_ty,
        site.res_ty,
        site.bool_ty,
        site.bool_ty,
        site.bool_ty,
        site.bool_ty,
    ];
    proof {
        assert(regs@ =~= grant_regs(site, ai_job_ty));
        assert(ops@ =~= grant_ops(
            with_fields,
            site,
            ai_job,
            sentinels_view(sentinels@),
            in_order(all),
        ));
        assert(code@.functions == with_fields.functions);
        assert(code.functions@.len() == code@.functions.len());
    }
    let ghost before = code@;
    let f = &mut code.functions[at];
    prepend(f, regs, ops);
    proof {
        let new = function_view(*f);
        assert(before.with_function(at as int, new).functions =~= code@.functions);
    }
    Ok(())
}

} // verus!
