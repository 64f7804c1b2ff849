//! Programs as the bytes of `hlboot.dat`.
//!
//! `hlbc` reads and writes the format. What it makes of some bytes depends on more than the bytes:
//! it keeps the bindings of a class in a hash map and walks that map, so that the order in which
//! bindings are written, and the name of a function that two fields of one class are bound to,
//! may differ from run to run. The two relations below therefore say that an outcome is one of
//! those that `hlbc` may have, not that it is the only one. Whether `hlbc` reports an error is
//! another matter: it does so on account of the bytes, or of a number in the program, and never on
//! account of an order.

use vstd::prelude::*;
use crate::format::has_header;
use crate::limits::{do_numbers_fit, numbers_fit};
use crate::links::{is_sound, sound};
use crate::module::{texts_view, Float, FunctionView, Module, ModuleView, Rest, TypeView};
use crate::reread::{bound_once, bound_singly, ops_aligned, same_shape, survives};
use crate::text::chars_of;

verus! {

/// `hlbc::Bytecode::deserialize` may read the bytes `image` as the program `program`.
pub uninterp spec fn reads_as(image: Seq<u8>, program: ModuleView) -> bool;

/// `hlbc::Bytecode::serialize` may write the program `program` as the bytes `image`.
pub uninterp spec fn writes_as(program: ModuleView, image: Seq<u8>) -> bool;

/// The bytes are those of a program that `hlbc` can read.
pub open spec fn readable(image: Seq<u8>) -> bool {
    exists|program: ModuleView| reads_as(image, program)
}

/// Every number of the program is one that `hlbc` can write.
pub open spec fn fits_format(program: ModuleView) -> bool {
    exists|image: Seq<u8>| writes_as(program, image)
}

/// The bytes `image` came out as the program `program`: as one of those that the reader may return,
/// as the only one where the order of bindings makes no difference, and with the shape of every
/// program that was written as these bytes and survives that.
pub open spec fn loaded_as(image: Seq<u8>, program: ModuleView) -> bool {
    &&& has_header(image)
    &&& reads_as(image, program)
    &&& as_read(program)
    &&& forall|other: ModuleView| #[trigger]
        reads_as(image, other) && bound_once(other) ==> other == program
    &&& forall|first: Seq<u8>, a: ModuleView, p: ModuleView| #[trigger]
        survives(first, a, p) && writes_as(p, image) ==> same_shape(p, program)
}

/// The program `program` came out as the bytes `image`: as some of those that the writer may produce,
/// as the only ones where there is no order of bindings to choose, and as bytes that can be read,
/// where the program survives that.
pub open spec fn stored_as(program: ModuleView, image: Seq<u8>) -> bool {
    &&& has_header(image)
    &&& writes_as(program, image)
    &&& forall|other: Seq<u8>| #[trigger]
        writes_as(program, other) && bound_singly(program) ==> other == image
    &&& forall|first: Seq<u8>, a: ModuleView| #[trigger]
        survives(first, a, program) ==> sound(image) && readable(image)
}

/// What holds of every program that the reader of `hlbc` returns.
pub open spec fn as_read(program: ModuleView) -> bool {
    &&& forall|i: int|
        0 <= i < program.functions.len() ==> function_as_read(
            program,
            #[trigger] program.functions[i],
        )
    &&& forall|i: int|
        0 <= i < program.natives.len() ==> (#[trigger] program.natives[i]).findex.0
            < program.functions.len() + program.natives.len()
    &&& forall|i: int| 0 <= i < program.types.len() ==> fields_as_read(#[trigger] program.types[i])
    &&& forall|i: int| 0 <= i < program.floats.len() ==> (#[trigger] program.floats[i]) is Loaded
}

/// What holds of every function that the reader of `hlbc` returns: its number is one of those
/// that the program gives out, its name and the class it belongs to are there, its instructions
/// have lists that the format can hold, and it has a source position for every instruction if the
/// program has the names of source files, and none otherwise.
pub open spec fn function_as_read(program: ModuleView, f: FunctionView) -> bool {
    &&& f.findex.0 < program.functions.len() + program.natives.len()
    &&& f.name.0 < program.strings.len()
    &&& f.parent matches Some(parent) ==> parent.0 < program.types.len() && (
    program.types[parent.0 as int] is Class || program.types[parent.0 as int] is Struct)
    &&& ops_aligned(f.ops)
    &&& f.debug_info is Some <==> program.debug_files is Some
    &&& f.debug_info matches Some(lines) ==> lines.len() >= f.ops.len()
}

/// What holds of every type that the reader of `hlbc` returns: the fields of a class end with
/// its own, after those that it inherits.
pub open spec fn fields_as_read(t: TypeView) -> bool {
    t matches TypeView::Class(class) ==> class.own_fields.is_suffix_of(class.fields)
}

/// No text of the program holds a zero character, which the format cannot hold, and every float
/// that the program was read with comes before those that were added.
pub open spec fn clean(program: ModuleView) -> bool {
    &&& no_zeros(program.strings)
    &&& program.debug_files matches Some(files) ==> no_zeros(files)
    &&& loaded_first(program.floats)
}

/// The program can be handed to the writer.
pub open spec fn writable(program: ModuleView) -> bool {
    clean(program) && numbers_fit(program)
}

/// No float that was read comes after one that was added.
pub open spec fn loaded_first(floats: Seq<Float>) -> bool {
    forall|i: int, j: int|
        0 <= i < j < floats.len() && (#[trigger] floats[j]) is Loaded ==> (
        #[trigger] floats[i]) is Loaded
}

/// No text holds a zero character.
pub open spec fn no_zeros(texts: Seq<Seq<char>>) -> bool {
    forall|i: int| 0 <= i < texts.len() ==> !(#[trigger] texts[i]).contains('\0')
}

/// The whole numbers that patches added to the float pool, in their order.
pub open spec fn added_floats(floats: Seq<Float>) -> Seq<u32>
    decreases floats.len(),
{
    if floats.len() == 0 {
        Seq::empty()
    } else {
        match floats.last() {
            Float::Loaded => added_floats(floats.drop_last()),
            Float::Whole(n) => added_floats(floats.drop_last()).push(n),
        }
    }
}

/// Why bytes could not be read as a program, or a program not be written.
#[derive(Debug)]
pub enum ImageError {
    /// The bytes do not hang together.
    Unsound,
    /// What `hlbc` says of it.
    Reported(hlbc::Error),
}

/// `hlbc::Bytecode::deserialize`, with the pools of its result moved into a [`Module`].
///
/// Claimed is that the result is one that the reader may have, that bytes without the header of a
/// program are not read, and what [`as_read`] says of every program that is. Reading the same
/// bytes again gives the same program, by what it holds, where no function is bound twice in a
/// class: the bytes are taken in one after the other, and only the bindings of a class are walked
/// in an order that may differ. Of bytes that the writer made of a program, claimed is that its
/// texts, its types and its functions come back, as far as names, numbers and the lengths of
/// functions go, where the program [`survives`]: the reader takes in what the writer wrote, number
/// by number, and names the functions by the same methods and bindings. Claimed is also that the
/// bytes alone decide between a program and an error: every error comes up while the bytes are
/// taken in, one after the other, and all that follows is linking, which reports none. So bytes on
/// which an error is reported are never read as a program. Which bytes with the header those are
/// is not said. The reader checks little: on bytes that do not hang together, as [`sound`] has it,
/// it panics, or goes round in a circle of classes. Those are not handed to it.
#[verifier::external_body]
fn read_program(image: &[u8]) -> (read: Result<Module, hlbc::Error>)
    requires
        sound(image@),
    ensures
        read is Ok <==> readable(image@),
        read matches Ok(program) ==> reads_as(image@, program@) && loaded_as(image@, program@),
{
    let mut bytes = image;
    let mut rest = hlbc::Bytecode::deserialize(&mut bytes)?;
    Ok(Module {
        ints: std::mem::take(&mut rest.ints),
        floats: rest.floats.iter().map(|_| Float::Loaded).collect(),
        strings: rest.strings.iter().map(|s| s.to_string()).collect(),
        debug_files: rest.debug_files.as_ref().map(|files| files.iter().map(|s| s.to_string()).collect()),
        types: std::mem::take(&mut rest.types),
        natives: std::mem::take(&mut rest.natives),
        functions: std::mem::take(&mut rest.functions),
        rest: Rest { bytecode: rest },
    })
}

/// `hlbc::Bytecode::serialize`, after the pools of the program have been moved back. The numbers
/// `amounts` go behind the floats that the program was read with.
///
/// Claimed is that the bytes are among those that the writer may produce for the program, and that
/// they start with the header. Where no class has two bindings there is no order to choose, and
/// the program is always written as the same bytes. They can be read where the program
/// [`survives`]: what the reader takes for granted held of the program when it was first read, and
/// still does. Claimed is also that the program alone decides between bytes and an error: memory
/// takes all that is written to it, so the one error left is that of a number that does not fit
/// the format, and every number is written, in whatever order. Which numbers do not fit is not
/// said. The writer panics on a text that holds a zero character, on a number that comes out as
/// `i32::MIN` and on source lines whose distance no `i32` holds, and a long run of equal lines
/// takes it deep into itself; [`writable`] leaves these out. The numbers in [`Module::rest`] are
/// those that the reader put there, which are all smaller. What the reader makes of the bytes of
/// other programs is not said: it names functions anew, in an order that may differ from run to
/// run, and numbers that were cut to fit come back changed.
#[verifier::external_body]
fn write_program(program: Module, amounts: Vec<u32>) -> (written: Result<Vec<u8>, hlbc::Error>)
    requires
        writable(program@),
        amounts@ == added_floats(program.floats@),
    ensures
        written is Ok <==> fits_format(program@),
        written matches Ok(image) ==> writes_as(program@, image@) && stored_as(program@, image@),
{
    let mut code = program.rest.bytecode;
    code.ints = program.ints;
    amounts.into_iter().for_each(|n| code.floats.push(n.into()));
    code.strings = program.strings.iter().map(|s| s.as_str().into()).collect();
    code.debug_files = program.debug_files.map(|files| files.iter().map(|s| s.as_str().into()).collect());
    code.types = program.types;
    code.natives = program.natives;
    code.functions = program.functions;
    let mut image = Vec::new();
    code.serialize(&mut image)?;
    Ok(image)
}

/// What is reported of a reading or a writing that came out like this.
pub fn reported<T>(outcome: Result<T, hlbc::Error>) -> (result: Result<T, ImageError>)
    ensures
        match outcome {
            Ok(value) => result == Ok::<T, ImageError>(value),
            Err(cause) => result == Err::<T, ImageError>(ImageError::Reported(cause)),
        },
{
    match outcome {
        Ok(value) => Ok(value),
        Err(cause) => Err(ImageError::Reported(cause)),
    }
}

/// Reads the bytes of `hlboot.dat`, or says why they are not those of a program. Bytes that do not
/// hang together are refused here; of others the reader says what is wrong.
pub fn load(image: &[u8]) -> (read: Result<Module, ImageError>)
    ensures
        read is Ok <==> sound(image@) && readable(image@),
        (read matches Err(error) && error is Unsound) <==> !sound(image@),
        read matches Ok(program) ==> loaded_as(image@, program@),
{
    if !is_sound(image) {
        return Err(ImageError::Unsound);
    }
    reported(read_program(image))
}

/// Whether no text of a list holds a zero character.
fn texts_have_no_zeros(texts: &Vec<String>) -> (fine: bool)
    ensures
        fine == no_zeros(texts_view(texts@)),
{
    for i in 0..texts.len()
        invariant
            forall|j: int|
                0 <= j < i ==> !(#[trigger] texts_view(texts@)[j]).contains('\0'),
    {
        let chars = chars_of(texts[i].as_str());
        for k in 0..chars.len()
            invariant
                chars@ == texts_view(texts@)[i as int],
                0 <= i < texts@.len(),
                forall|j: int| 0 <= j < k ==> chars@[j] != '\0',
        {
            if chars[k] == '\0' {
                assert(texts_view(texts@)[i as int].contains('\0'));
                return false;
            }
        }
    }
    true
}

/// Whether no float that was read comes after one that was added.
fn floats_in_order(floats: &Vec<Float>) -> (fine: bool)
    ensures
        fine == loaded_first(floats@),
{
    let mut last: Float = Float::Loaded;
    for k in 0..floats.len()
        invariant
            loaded_first(floats@.take(k as int)),
            k > 0 ==> last == floats@[k - 1],
            k == 0 ==> last == Float::Loaded,
    {
        if floats[k] == Float::Loaded && last != Float::Loaded {
            assert(!(floats@[k - 1] is Loaded) && floats@[k as int] is Loaded);
            return false;
        }
        proof {
            let so_far = floats@.take(k + 1);
            assert forall|i: int, j: int|
                0 <= i < j < so_far.len() && (#[trigger] so_far[j]) is Loaded implies (
            #[trigger] so_far[i]) is Loaded by {
                let before = floats@.take(k as int);
                if j < k {
                    assert(before[j] == so_far[j] && before[i] == so_far[i]);
                } else if i < k - 1 {
                    assert(before[k - 1] is Loaded);
                    assert(before[i] == so_far[i]);
                }
            }
        }
        last = floats[k];
    }
    assert(floats@.take(floats@.len() as int) =~= floats@);
    true
}

/// Whether the program can be handed to the writer: one that holds a text with a zero character
/// cannot, nor one whose floats are out of order or whose numbers the writer cannot take apart.
pub fn is_writable(program: &Module) -> (fine: bool)
    ensures
        fine == writable(program@),
{
    if !texts_have_no_zeros(&program.strings) || !floats_in_order(&program.floats)
        || !do_numbers_fit(program) {
        return false;
    }
    match &program.debug_files {
        Some(files) => texts_have_no_zeros(files),
        None => true,
    }
}

/// Writes the program as the bytes of `hlboot.dat`, or says which number of it does not fit.
pub fn store(program: Module) -> (written: Result<Vec<u8>, ImageError>)
    requires
        writable(program@),
    ensures
        written is Ok <==> fits_format(program@),
        written matches Ok(image) ==> stored_as(program@, image@),
{
    let mut amounts: Vec<u32> = Vec::new();
    for i in 0..program.floats.len()
        invariant
            amounts@ == added_floats(program.floats@.take(i as int)),
    {
        assert(program.floats@.take(i + 1).drop_last() =~= program.floats@.take(i as int));
        if let Float::Whole(n) = program.floats[i] {
            amounts.push(n);
        }
    }
    assert(program.floats@.take(program.floats@.len() as int) =~= program.floats@);
    reported(write_program(program, amounts))
}

} // verus!
