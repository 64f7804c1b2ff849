//! Questions about a program, for whoever has to fit the patches to a new release of the game.

use vstd::prelude::*;
use hlbc::opcodes::Opcode;
use hlbc::types::{Function, Native, ObjField, RefString, RefType, Type};
use crate::dialogue::{same_but_case, same_ignoring_case};
use crate::lookup::{
    find_function, lemma_first_where, lemma_first_where_is, lemma_first_where_none, name_is,
};
use crate::module::{function_view, texts_view, FunctionView, Module, ModuleView, TypeView};
use crate::text::chars_of;

verus! {

/// The number of the function that an instruction calls by its number.
pub open spec fn called(op: Opcode) -> Option<usize> {
    match op {
        Opcode::Call0 { fun, .. } => Some(fun.0),
        Opcode::Call1 { fun, .. } => Some(fun.0),
        Opcode::Call2 { fun, .. } => Some(fun.0),
        Opcode::Call3 { fun, .. } => Some(fun.0),
        Opcode::Call4 { fun, .. } => Some(fun.0),
        Opcode::CallN { fun, .. } => Some(fun.0),
        _ => None,
    }
}

/// Finds the number of the function that an instruction calls.
fn callee(op: &Opcode) -> (fun: Option<usize>)
    ensures
        fun == called(*op),
{
    match op {
        Opcode::Call0 { fun, .. } => Some(fun.0),
        Opcode::Call1 { fun, .. } => Some(fun.0),
        Opcode::Call2 { fun, .. } => Some(fun.0),
        Opcode::Call3 { fun, .. } => Some(fun.0),
        Opcode::Call4 { fun, .. } => Some(fun.0),
        Opcode::CallN { fun, .. } => Some(fun.0),
        _ => None,
    }
}

/// A call: the position of the caller among the functions, and that of the instruction.
#[derive(Clone, Copy, Debug, PartialEq, Eq, Structural)]
pub struct CallSite {
    pub function: usize,
    pub op: usize,
}

/// The calls of `target` among the first `n` instructions of the function at `at`.
pub open spec fn calls_in(at: int, ops: Seq<Opcode>, target: usize, n: nat) -> Seq<CallSite>
    decreases n,
{
    if n == 0 {
        Seq::empty()
    } else {
        let before = calls_in(at, ops, target, (n - 1) as nat);
        if called(ops[n - 1]) == Some(target) {
            before.push(CallSite { function: at as usize, op: (n - 1) as usize })
        } else {
            before
        }
    }
}

/// The calls of `target` in the first `n` functions.
pub open spec fn calls_of(functions: Seq<FunctionView>, target: usize, n: nat) -> Seq<CallSite>
    decreases n,
{
    if n == 0 {
        Seq::empty()
    } else {
        calls_of(functions, target, (n - 1) as nat) + calls_in(
            n - 1,
            functions[n - 1].ops,
            target,
            functions[n - 1].ops.len(),
        )
    }
}

/// Finds every call of a function by its number.
pub fn find_callers(code: &Module, target: usize) -> (sites: Vec<CallSite>)
    ensures
        sites@ == calls_of(code@.functions, target, code@.functions.len()),
{
    let mut sites: Vec<CallSite> = Vec::new();
    for i in 0..code.functions.len()
        invariant
            sites@ == calls_of(code@.functions, target, i as nat),
    {
        let f = &code.functions[i];
        let ghost before = sites@;
        assert(before + Seq::empty() =~= before);
        for k in 0..f.ops.len()
            invariant
                *f == code.functions@[i as int],
                i < code.functions@.len(),
                sites@ == before + calls_in(i as int, f.ops@, target, k as nat),
        {
            let ghost so_far = calls_in(i as int, f.ops@, target, k as nat);
            if let Some(fun) = callee(&f.ops[k]) {
                if fun == target {
                    let site = CallSite { function: i, op: k };
                    sites.push(site);
                    assert((before + so_far).push(site) =~= before + so_far.push(site));
                }
            }
        }
    }
    sites
}

/// Finds the text of a name.
pub fn name_of(code: &Module, name: RefString) -> (text: Option<String>)
    ensures
        match text {
            Some(t) => code@.text(name) == Some(t@),
            None => code@.text(name) is None,
        },
{
    if name.0 == 0 {
        Some("<none>".to_owned())
    } else if name.0 < code.strings.len() {
        Some(code.strings[name.0].as_str().to_owned())
    } else {
        None
    }
}

/// Finds the name of the class that a type is.
pub fn class_name_of(code: &Module, t: RefType) -> (text: Option<String>)
    ensures
        match text {
            Some(s) => code@.class_text(t) == Some(s@),
            None => code@.class_text(t) is None,
        },
{
    if t.0 < code.types.len() {
        match &code.types[t.0] {
            Type::Obj(obj) => name_of(code, obj.name),
            Type::Struct(obj) => name_of(code, obj.name),
            _ => None,
        }
    } else {
        None
    }
}

/// What a function is called, and the class that it belongs to.
#[derive(Debug)]
pub struct Identity {
    pub name: Option<String>,
    pub class: Option<String>,
}

/// The contents of an optional text.
pub open spec fn optional_text(text: Option<String>) -> Option<Seq<char>> {
    match text {
        Some(s) => Some(s@),
        None => None,
    }
}

impl ModuleView {
    /// The name of the function that has the number `findex`, and that of the class it belongs to.
    pub open spec fn identity(self, findex: usize) -> Option<
        (Option<Seq<char>>, Option<Seq<char>>),
    > {
        match self.function_index(findex) {
            Some(i) => Some(
                (
                    self.text(self.functions[i].name),
                    match self.functions[i].parent {
                        Some(parent) => self.class_text(parent),
                        None => None,
                    },
                ),
            ),
            None => None,
        }
    }

    /// The number, the types of the arguments and the type of the result of a native.
    pub open spec fn native_type(self, lib: Seq<char>, name: Seq<char>) -> Result<
        (usize, Seq<RefType>, RefType),
        SignatureError,
    > {
        match self.native_index(lib, name) {
            None => Err(SignatureError::NoNative),
            Some(i) => match self.signature(self.natives[i].t) {
                None => Err(SignatureError::NoSignature),
                Some(fun) => Ok((self.natives[i].findex.0, fun.args@, fun.ret)),
            },
        }
    }
}

/// Tells what the function that has the number `findex` is, if there is one.
pub fn who_is(code: &Module, findex: usize) -> (found: Option<Identity>)
    ensures
        match found {
            Some(id) => code@.function_index(findex) matches Some(i) && optional_text(id.name)
                == code@.text(code@.functions[i].name) && optional_text(id.class)
                == match code@.functions[i].parent {
                Some(parent) => code@.class_text(parent),
                None => None,
            },
            None => code@.function_index(findex) is None,
        },
        code@.identity(findex) == match found {
            Some(id) => Some((optional_text(id.name), optional_text(id.class))),
            None => None,
        },
{
    match find_function(code, findex) {
        None => None,
        Some(i) => {
            let f = &code.functions[i];
            let class = match f.parent {
                Some(parent) => class_name_of(code, parent),
                None => None,
            };
            Some(Identity { name: name_of(code, f.name), class })
        },
    }
}

/// A field: the position of its class among the types, and its own among the fields that the class
/// adds to those it inherits.
#[derive(Clone, Copy, Debug, PartialEq, Eq, Structural)]
pub struct FieldSite {
    pub class: usize,
    pub field: usize,
}

impl ModuleView {
    /// The field is called so, but for the case of letters.
    pub open spec fn field_is(self, field: ObjField, name: Seq<char>) -> bool {
        self.text(field.name) matches Some(text) && same_but_case(text, name)
    }

    /// The fields that the `i`-th type adds to those it inherits.
    pub open spec fn own_fields(self, i: int) -> Seq<ObjField> {
        match self.types[i] {
            TypeView::Class(class) => class.own_fields,
            _ => Seq::empty(),
        }
    }

    /// The fields called `name` among the first `n` own fields of the `i`-th type.
    pub open spec fn fields_in(self, i: int, name: Seq<char>, n: nat) -> Seq<FieldSite>
        decreases n,
    {
        if n == 0 {
            Seq::empty()
        } else {
            let before = self.fields_in(i, name, (n - 1) as nat);
            if self.field_is(self.own_fields(i)[n - 1], name) {
                before.push(FieldSite { class: i as usize, field: (n - 1) as usize })
            } else {
                before
            }
        }
    }

    /// The fields called `name` of the first `n` types.
    pub open spec fn fields_called(self, name: Seq<char>, n: nat) -> Seq<FieldSite>
        decreases n,
    {
        if n == 0 {
            Seq::empty()
        } else {
            self.fields_called(name, (n - 1) as nat) + self.fields_in(
                n - 1,
                name,
                self.own_fields(n - 1).len(),
            )
        }
    }

    /// The `i`-th type is a class that extends the class `class` directly.
    pub open spec fn extends_class(self, i: int, class: Seq<char>) -> bool {
        &&& self.types[i] matches TypeView::Class(c)
        &&& c.super_ matches Some(parent)
        &&& parent.0 < self.types.len()
        &&& self.is_class(self.types[parent.0 as int], class)
    }

    /// Those of the first `n` types that extend the class `class` directly.
    pub open spec fn subclasses(self, class: Seq<char>, n: nat) -> Seq<usize>
        decreases n,
    {
        if n == 0 {
            Seq::empty()
        } else if self.extends_class(n - 1, class) {
            self.subclasses(class, (n - 1) as nat).push((n - 1) as usize)
        } else {
            self.subclasses(class, (n - 1) as nat)
        }
    }
}

/// Whether a field is called so, but for the case of letters.
fn field_is_called(code: &Module, field: &ObjField, name: &str) -> (is: bool)
    ensures
        is == code@.field_is(*field, name@),
{
    match name_of(code, field.name) {
        Some(text) => same_ignoring_case(
            chars_of(text.as_str()).as_slice(),
            chars_of(name).as_slice(),
        ),
        None => false,
    }
}

/// Finds every field of a name, in whatever class.
pub fn find_field_anywhere(code: &Module, name: &str) -> (sites: Vec<FieldSite>)
    ensures
        sites@ == code@.fields_called(name@, code@.types.len()),
{
    let mut sites: Vec<FieldSite> = Vec::new();
    for i in 0..code.types.len()
        invariant
            sites@ == code@.fields_called(name@, i as nat),
    {
        let ghost before = sites@;
        assert(before + Seq::empty() =~= before);
        if let Type::Obj(obj) = &code.types[i] {
            for k in 0..obj.own_fields.len()
                invariant
                    i < code.types@.len(),
                    code@.own_fields(i as int) == obj.own_fields@,
                    sites@ == before + code@.fields_in(i as int, name@, k as nat),
            {
                let ghost so_far = code@.fields_in(i as int, name@, k as nat);
                if field_is_called(code, &obj.own_fields[k], name) {
                    let site = FieldSite { class: i, field: k };
                    sites.push(site);
                    assert((before + so_far).push(site) =~= before + so_far.push(site));
                }
            }
        }
    }
    sites
}

/// Finds the classes that extend a class directly, by their positions among the types. A class that
/// is to get a new field must have none.
pub fn direct_subclasses(code: &Module, class_name: &str) -> (found: Vec<usize>)
    ensures
        found@ == code@.subclasses(class_name@, code@.types.len()),
{
    let mut found: Vec<usize> = Vec::new();
    for i in 0..code.types.len()
        invariant
            found@ == code@.subclasses(class_name@, i as nat),
    {
        if let Type::Obj(obj) = &code.types[i] {
            if let Some(parent) = obj.super_ {
                if parent.0 < code.types.len() {
                    if let Type::Obj(above) = &code.types[parent.0] {
                        if name_is(code, above.name, class_name) {
                            found.push(i);
                        }
                    }
                }
            }
        }
    }
    found
}

/// The signature of a native.
#[derive(Debug)]
pub struct NativeSignature {
    pub findex: usize,
    pub args: Vec<RefType>,
    pub ret: RefType,
}

/// Why the signature of a native could not be found.
#[derive(Clone, Copy, Debug, PartialEq, Eq, Structural)]
pub enum SignatureError {
    /// There is no such native.
    NoNative,
    /// The native does not have the type of a function.
    NoSignature,
}

/// Copies a list of types.
fn copy_types(types: &Vec<RefType>) -> (copy: Vec<RefType>)
    ensures
        copy@ == types@,
{
    let mut copy: Vec<RefType> = Vec::new();
    for i in 0..types.len()
        invariant
            copy@ == types@.take(i as int),
    {
        copy.push(types[i]);
        assert(types@.take(i + 1) =~= types@.take(i as int).push(types@[i as int]));
    }
    assert(types@.take(types@.len() as int) =~= types@);
    copy
}

/// Finds the signature of a native by library and name.
pub fn native_signature(code: &Module, lib: &str, name: &str) -> (found: Result<
    NativeSignature,
    SignatureError,
>)
    ensures
        match code@.native_index(lib@, name@) {
            None => found == Err::<NativeSignature, SignatureError>(SignatureError::NoNative),
            Some(i) => match code@.signature(code@.natives[i].t) {
                None => found == Err::<NativeSignature, SignatureError>(
                    SignatureError::NoSignature,
                ),
                Some(fun) => found matches Ok(sig) && sig.findex == code@.natives[i].findex.0
                    && sig.args@ == fun.args@ && sig.ret == fun.ret,
            },
        },
        code@.native_type(lib@, name@) == match found {
            Ok(sig) => Ok::<(usize, Seq<RefType>, RefType), SignatureError>(
                (sig.findex, sig.args@, sig.ret),
            ),
            Err(error) => Err(error),
        },
{
    let ghost p = |n: Native| code@.is_native(n, lib@, name@);
    for i in 0..code.natives.len()
        invariant
            p == (|n: Native| code@.is_native(n, lib@, name@)),
            forall|j: int| 0 <= j < i ==> !p(#[trigger] code@.natives[j]),
    {
        let n = &code.natives[i];
        if name_is(code, n.lib, lib) && name_is(code, n.name, name) {
            proof {
                lemma_first_where_is(code@.natives, p, i as int);
            }
            if n.t.0 < code.types.len() {
                match &code.types[n.t.0] {
                    Type::Fun(fun) | Type::Method(fun) => {
                        return Ok(
                            NativeSignature {
                                findex: n.findex.0,
                                args: copy_types(&fun.args),
                                ret: fun.ret,
                            },
                        );
                    },
                    _ => {},
                }
            }
            return Err(SignatureError::NoSignature);
        }
    }
    proof {
        lemma_first_where_none(code@.natives, p);
    }
    Err(SignatureError::NoNative)
}

/// A text occurs in another.
pub open spec fn occurs_in(part: Seq<char>, whole: Seq<char>) -> bool {
    exists|i: int| #[trigger] occurs_at(part, whole, i)
}

/// A text occurs in another at a position.
pub open spec fn occurs_at(part: Seq<char>, whole: Seq<char>, i: int) -> bool {
    0 <= i && i + part.len() <= whole.len() && whole.subrange(i, i + part.len()) == part
}

/// Whether a text occurs in another at a position.
fn is_at(part: &[char], whole: &[char], at: usize) -> (is: bool)
    requires
        at + part@.len() <= whole@.len(),
    ensures
        is == occurs_at(part@, whole@, at as int),
{
    for k in 0..part.len()
        invariant
            at + part@.len() <= whole@.len(),
            forall|j: int| 0 <= j < k ==> whole@[at + j] == #[trigger] part@[j],
    {
        assert(at + k < whole.len());
        if whole[at + k] != part[k] {
            proof {
                let found = whole@.subrange(at as int, at + part@.len());
                assert(found[k as int] != part@[k as int]);
            }
            return false;
        }
    }
    assert(whole@.subrange(at as int, at + part@.len()) =~= part@);
    true
}

/// Whether a text occurs in another.
pub fn contains(whole: &str, part: &str) -> (does: bool)
    ensures
        does == occurs_in(part@, whole@),
{
    let hay = chars_of(whole);
    let pin = chars_of(part);
    if pin.len() > hay.len() {
        return false;
    }
    let last = hay.len() - pin.len();
    for i in 0..hay.len()
        invariant
            hay@ == whole@,
            pin@ == part@,
            last == hay@.len() - pin@.len(),
            i <= last,
            forall|j: int| 0 <= j < i ==> !#[trigger] occurs_at(part@, whole@, j),
    {
        if is_at(pin.as_slice(), hay.as_slice(), i) {
            return true;
        }
        if i == last {
            return false;
        }
    }
    proof {
        assert(part@ =~= Seq::empty());
        assert(whole@.subrange(0, 0) =~= part@);
        assert(occurs_at(part@, whole@, 0));
    }
    true
}

impl ModuleView {
    /// The source file of the first instruction of a function, where it is known.
    pub open spec fn source_file(self, f: FunctionView) -> Option<Seq<char>> {
        match (f.debug_info, self.debug_files) {
            (Some(lines), Some(files)) => if lines.len() > 0 && lines[0].0 < files.len() {
                Some(files[lines[0].0 as int])
            } else {
                None
            },
            (_, _) => None,
        }
    }

    /// A function that goes by `header` has to do with `needle`: it occurs in the header, or in the
    /// name of the source file.
    pub open spec fn has_to_do_with(
        self,
        f: FunctionView,
        header: Seq<char>,
        needle: Seq<char>,
    ) -> bool {
        ||| occurs_in(needle, header)
        ||| self.source_file(f) matches Some(file) && occurs_in(needle, file)
    }
}

/// Whether a function has to do with a text: it occurs in the header that the function is shown
/// with, or in the name of its source file.
pub fn function_matches(code: &Module, f: &Function, header: &str, needle: &str) -> (does: bool)
    ensures
        does == code@.has_to_do_with(function_view(*f), header@, needle@),
{
    if contains(header, needle) {
        return true;
    }
    if let Some(lines) = &f.debug_info {
        if let Some(files) = &code.debug_files {
            if lines.len() > 0 && lines[0].0 < files.len() {
                return contains(files[lines[0].0].as_str(), needle);
            }
        }
    }
    false
}

impl ModuleView {
    /// The positions of those of the first `n` functions that have to do with `needle`. Function `i`
    /// goes by `headers[i]`.
    pub open spec fn listed(self, headers: Seq<Seq<char>>, needle: Seq<char>, n: nat) -> Seq<usize>
        decreases n,
    {
        if n == 0 {
            Seq::empty()
        } else {
            let before = self.listed(headers, needle, (n - 1) as nat);
            if self.has_to_do_with(self.functions[n - 1], headers[n - 1], needle) {
                before.push((n - 1) as usize)
            } else {
                before
            }
        }
    }
}

/// Lists the functions that have to do with a text, by their positions. `headers` are what the
/// functions are shown with, one after the other; a function without one is not listed.
pub fn list_functions(code: &Module, headers: &Vec<String>, needle: &str) -> (found: Vec<usize>)
    ensures
        found@ == code@.listed(
            texts_view(headers@),
            needle@,
            if code@.functions.len() <= headers@.len() {
                code@.functions.len()
            } else {
                headers@.len()
            },
        ),
{
    let n = if code.functions.len() <= headers.len() {
        code.functions.len()
    } else {
        headers.len()
    };
    let mut found: Vec<usize> = Vec::new();
    for i in 0..n
        invariant
            n <= code.functions@.len(),
            n <= headers@.len(),
            found@ == code@.listed(texts_view(headers@), needle@, i as nat),
    {
        if function_matches(code, &code.functions[i], headers[i].as_str(), needle) {
            found.push(i);
        }
    }
    found
}

/// The fields of every class are those of the class it extends, and then its own.
pub open spec fn fields_in_line(code: ModuleView) -> bool {
    forall|i: int| 0 <= i < code.types.len() ==> #[trigger] fields_of_type_in_line(code, i)
}

/// The fields of a class are those of the class it extends, and then its own.
pub open spec fn fields_of_type_in_line(code: ModuleView, i: int) -> bool {
    code.types[i] matches TypeView::Class(class) ==> match class.super_ {
        Some(parent) => parent.0 < code.types.len() && class.fields == code.fields(parent.0 as int)
            + class.own_fields,
        None => class.fields == class.own_fields,
    }
}

/// A class that nothing extends is not among those that something extends.
proof fn lemma_no_subclass(code: ModuleView, class: Seq<char>, n: nat, i: int)
    requires
        code.subclasses(class, n).len() == 0,
        0 <= i < n,
    ensures
        !code.extends_class(i, class),
    decreases n,
{
    if i < n - 1 {
        lemma_no_subclass(code, class, (n - 1) as nat, i);
    }
}

/// A new field in a class that nothing extends leaves the fields of all classes in line: those of
/// every class are those of the class it extends, and then its own. So no other class has to be
/// changed with it.
pub proof fn law_new_field_moves_no_other(
    code: ModuleView,
    class: Seq<char>,
    field: Seq<char>,
    t: RefType,
)
    requires
        fields_in_line(code),
        code.subclasses(class, code.types.len()).len() == 0,
    ensures
        fields_in_line(code.add_field(class, field, t).0),
{
    let after = code.add_field(class, field, t).0;
    lemma_first_where(code.types, |x: TypeView| code.is_class(x, class));
    if let Some(at) = code.class_index(class) {
        assert forall|i: int| 0 <= i < after.types.len() implies #[trigger] fields_of_type_in_line(
            after,
            i,
        ) by {
            lemma_no_subclass(code, class, code.types.len(), i);
            assert(fields_of_type_in_line(code, i));
            if let TypeView::Class(c) = code.types[i] {
                if i == at {
                    let now = after.types[i]->Class_0;
                    match c.super_ {
                        Some(parent) => {
                            assert(parent.0 as int != at);
                            assert(now.fields =~= code.fields(parent.0 as int) + now.own_fields);
                        },
                        None => {},
                    }
                }
            }
        }
    }
}

} // verus!
