//! The bytes of `hlboot.dat`, as far as it takes to tell whether they hang together.
//!
//! The reader of `hlbc` follows every size, number and reference that it finds in the bytes. Where
//! one of them leads nowhere, it does not come back with an error. Here the bytes are gone through
//! first, in the same order, and what they refer to is looked up.

use vstd::prelude::*;
use crate::scan::{
    block, natural, naturals, number, numbers, pass_block, pass_sized_block, pass_texts, placed,
    read_entries, read_natural, read_naturals, read_number, read_run, run, sized_block, texts,
    Flaw,
};
use crate::scan_code::{constants, functions, pass_constants, read_functions};
use crate::scan_types::{all_whole, read_types, records_view, types_at, Record, RecordView};

verus! {

/// The bytes start as those of a program do.
pub open spec fn has_header(image: Seq<u8>) -> bool {
    image.len() >= 4 && image.take(3) == seq![0x48u8, 0x4Cu8, 0x42u8]
}

/// The sizes at the start of a program.
pub struct SizesView {
    pub debug: bool,
    pub ints: i32,
    pub floats: i32,
    pub texts: i32,
    pub bytes: Option<i32>,
    pub types: i32,
    pub globals: i32,
    pub natives: i32,
    pub functions: i32,
    pub constants: Option<i32>,
}

/// The sizes at the start of a program, as the numbers `n` give them.
pub open spec fn sizes_of(n: Seq<i32>, version: u8) -> SizesView {
    let o: int = if version >= 5 {
        5
    } else {
        4
    };
    SizesView {
        debug: n[0] % 2 == 1,
        ints: n[1],
        floats: n[2],
        texts: n[3],
        bytes: if version >= 5 {
            Some(n[4])
        } else {
            None
        },
        types: n[o],
        globals: n[o + 1],
        natives: n[o + 2],
        functions: n[o + 3],
        constants: if version >= 4 {
            Some(n[o + 4])
        } else {
            None
        },
    }
}

/// How many sizes there are.
pub open spec fn size_count(version: u8) -> int {
    if version >= 5 {
        10
    } else if version == 4 {
        9
    } else {
        8
    }
}

/// The position behind `n` entries of `width` bytes.
pub open spec fn entries(image: Seq<u8>, at: int, n: int, width: int) -> Result<int, Flaw> {
    if n > image.len() - at {
        Err(Flaw::Fatal)
    } else {
        block(image, at, n * width)
    }
}

/// The position behind the pool of raw bytes, which has `n` entries.
pub open spec fn raw_bytes(image: Seq<u8>, at: int, n: Option<i32>) -> Result<int, Flaw> {
    match n {
        None => Ok(at),
        Some(count) => match sized_block(image, at) {
            Err(flaw) => Err(flaw),
            Ok((_, a)) => match naturals(image, a, count as int) {
                Err(flaw) => Err(flaw),
                Ok((_, next)) => Ok(next),
            },
        },
    }
}

/// The position behind the names of the source files.
pub open spec fn file_names(image: Seq<u8>, at: int, debug: bool) -> Result<int, Flaw> {
    if !debug {
        Ok(at)
    } else {
        match natural(image, at) {
            Err(flaw) => Err(flaw),
            Ok((n, a)) => texts(image, a, n as int),
        }
    }
}

/// The position behind the pools.
pub open spec fn pools(image: Seq<u8>, at: int, sizes: SizesView) -> Result<int, Flaw> {
    match entries(image, at, sizes.ints as int, 4) {
        Err(flaw) => Err(flaw),
        Ok(a) => match entries(image, a, sizes.floats as int, 8) {
            Err(flaw) => Err(flaw),
            Ok(b) => match texts(image, b, sizes.texts as int) {
                Err(flaw) => Err(flaw),
                Ok(c) => match raw_bytes(image, c, sizes.bytes) {
                    Err(flaw) => Err(flaw),
                    Ok(d) => file_names(image, d, sizes.debug),
                },
            },
        },
    }
}

/// What there is in a program that something can refer to.
#[verifier::ext_equal]
pub struct LayoutView {
    /// The number of texts in the pool.
    pub texts: i32,
    /// The types.
    pub types: Seq<Option<RecordView>>,
    /// The library, the name, the type and the number of each function that the runtime supplies.
    pub natives: Seq<i32>,
    /// The numbers of the functions.
    pub functions: Seq<i32>,
    /// The function that the program starts with.
    pub entry: i32,
}

impl LayoutView {
    /// The lists hold whole entries.
    pub open spec fn whole(self) -> bool {
        all_whole(self.types) && self.natives.len() % 4 == 0
    }
}

/// What there is behind the pools, and the numbers that are given out there.
pub open spec fn code_part(
    image: Seq<u8>,
    at: int,
    sizes: SizesView,
    version: u8,
    entry: i32,
) -> Result<LayoutView, Flaw> {
    if sizes.types > image.len() - at {
        Err(Flaw::Fatal)
    } else {
        match types_at(image, at, sizes.types as int, Seq::empty()) {
            Err(flaw) => Err(flaw),
            Ok((records, a)) => match numbers(image, a, sizes.globals as int) {
                Err(flaw) => Err(flaw),
                Ok((_, b)) => match numbers(image, b, 4 * sizes.natives) {
                    Err(flaw) => Err(flaw),
                    Ok((natives, c)) => if sizes.functions > image.len() - c {
                        Err(Flaw::Fatal)
                    } else {
                        match functions(
                            image,
                            c,
                            sizes.functions as int,
                            sizes.debug,
                            version,
                            Seq::empty(),
                        ) {
                            Err(flaw) => Err(flaw),
                            Ok((findexes, d)) => match all_constants(image, d, sizes.constants) {
                                Err(flaw) => Err(flaw),
                                Ok(_) => Ok(
                                    LayoutView {
                                        texts: sizes.texts,
                                        types: records,
                                        natives,
                                        functions: findexes,
                                        entry,
                                    },
                                ),
                            },
                        }
                    },
                },
            },
        }
    }
}

/// The position behind the constants.
pub open spec fn all_constants(image: Seq<u8>, at: int, n: Option<i32>) -> Result<int, Flaw> {
    match n {
        None => Ok(at),
        Some(count) => if count > image.len() - at {
            Err(Flaw::Fatal)
        } else {
            constants(image, at, count as int)
        },
    }
}

/// What there is in the program that the bytes hold.
pub open spec fn layout(image: Seq<u8>) -> Result<LayoutView, Flaw> {
    if !has_header(image) {
        Err(Flaw::Reported)
    } else {
        let version = image[3];
        match run(image, 4, size_count(version), true, Seq::empty()) {
            Err(flaw) => Err(flaw),
            Ok((n, a)) => match number(image, a) {
                Err(flaw) => Err(flaw),
                Ok((entry, b)) => match pools(image, b, sizes_of(n, version)) {
                    Err(flaw) => Err(flaw),
                    Ok(c) => code_part(image, c, sizes_of(n, version), version, entry),
                },
            },
        }
    }
}

/// What there is in a program that something can refer to.
#[derive(Debug)]
pub struct Layout {
    /// The number of texts in the pool.
    pub texts: i32,
    /// The types.
    pub types: Vec<Option<Record>>,
    /// The library, the name, the type and the number of each function that the runtime supplies.
    pub natives: Vec<i32>,
    /// The numbers of the functions.
    pub functions: Vec<i32>,
    /// The function that the program starts with.
    pub entry: i32,
}

impl View for Layout {
    type V = LayoutView;

    open spec fn view(&self) -> LayoutView {
        LayoutView {
            texts: self.texts,
            types: records_view(self.types@),
            natives: self.natives@,
            functions: self.functions@,
            entry: self.entry,
        }
    }
}

/// The sizes at the start of a program.
struct Sizes {
    debug: bool,
    ints: i32,
    floats: i32,
    texts: i32,
    bytes: Option<i32>,
    types: i32,
    globals: i32,
    natives: i32,
    functions: i32,
    constants: Option<i32>,
}

impl View for Sizes {
    type V = SizesView;

    closed spec fn view(&self) -> SizesView {
        SizesView {
            debug: self.debug,
            ints: self.ints,
            floats: self.floats,
            texts: self.texts,
            bytes: self.bytes,
            types: self.types,
            globals: self.globals,
            natives: self.natives,
            functions: self.functions,
            constants: self.constants,
        }
    }
}

impl Sizes {
    /// No size is negative.
    spec fn fine(self) -> bool {
        &&& self.ints >= 0 && self.floats >= 0 && self.texts >= 0 && self.types >= 0
        &&& self.globals >= 0 && self.natives >= 0 && self.functions >= 0
        &&& self.bytes matches Some(n) ==> n >= 0
        &&& self.constants matches Some(n) ==> n >= 0
    }
}

/// Goes past entries of the same width.
fn pass_entries(image: &[u8], at: usize, n: i32, width: usize) -> (next: Result<usize, Flaw>)
    requires
        at <= image@.len(),
        n >= 0,
        1 <= width <= 8,
    ensures
        placed(next) == entries(image@, at as int, n as int, width as int),
        next matches Ok(after) ==> after <= image@.len(),
{
    assert(0 <= n * width <= 8 * n) by (nonlinear_arith)
        requires
            n >= 0,
            1 <= width <= 8,
    ;
    let left = (image.len() - at) as u64;
    if n as u64 > left {
        return Err(Flaw::Fatal);
    }
    let wanted: u64 = n as u64 * width as u64;
    if wanted > left {
        return Err(Flaw::Reported);
    }
    pass_block(image, at, wanted as usize)
}

/// Goes past the pool of raw bytes.
fn pass_raw_bytes(image: &[u8], at: usize, n: Option<i32>) -> (next: Result<usize, Flaw>)
    requires
        at <= image@.len(),
        n matches Some(count) ==> count >= 0,
    ensures
        placed(next) == raw_bytes(image@, at as int, n),
        next matches Ok(after) ==> after <= image@.len(),
{
    let count = match n {
        None => {
            return Ok(at);
        },
        Some(count) => count,
    };
    let (_, a) = match pass_sized_block(image, at) {
        Ok(found) => found,
        Err(flaw) => {
            return Err(flaw);
        },
    };
    if count as u64 > (image.len() - a) as u64 {
        return Err(Flaw::Fatal);
    }
    match read_naturals(image, a, count as usize) {
        Err(flaw) => Err(flaw),
        Ok((_, next)) => Ok(next),
    }
}

/// Goes past a pool of texts whose number is an `i32`.
fn pass_pool(image: &[u8], at: usize, n: i32) -> (next: Result<usize, Flaw>)
    requires
        at <= image@.len(),
        n >= 0,
    ensures
        placed(next) == texts(image@, at as int, n as int),
        next matches Ok(after) ==> after <= image@.len(),
{
    if n as u64 > (image.len() - at) as u64 {
        return Err(Flaw::Fatal);
    }
    pass_texts(image, at, n as usize)
}

/// Goes past the pools.
fn pass_pools(image: &[u8], at: usize, sizes: &Sizes) -> (next: Result<usize, Flaw>)
    requires
        at <= image@.len(),
        sizes.fine(),
    ensures
        placed(next) == pools(image@, at as int, sizes@),
        next matches Ok(after) ==> after <= image@.len(),
{
    let a = match pass_entries(image, at, sizes.ints, 4) {
        Ok(next) => next,
        Err(flaw) => {
            return Err(flaw);
        },
    };
    let b = match pass_entries(image, a, sizes.floats, 8) {
        Ok(next) => next,
        Err(flaw) => {
            return Err(flaw);
        },
    };
    let c = match pass_pool(image, b, sizes.texts) {
        Ok(next) => next,
        Err(flaw) => {
            return Err(flaw);
        },
    };
    let d = match pass_raw_bytes(image, c, sizes.bytes) {
        Ok(next) => next,
        Err(flaw) => {
            return Err(flaw);
        },
    };
    if !sizes.debug {
        return Ok(d);
    }
    match read_natural(image, d) {
        Err(flaw) => Err(flaw),
        Ok((n, e)) => pass_pool(image, e, n),
    }
}

/// Goes past the constants.
fn pass_all_constants(image: &[u8], at: usize, n: Option<i32>) -> (next: Result<usize, Flaw>)
    requires
        at <= image@.len(),
        n matches Some(count) ==> count >= 0,
    ensures
        placed(next) == all_constants(image@, at as int, n),
{
    match n {
        None => Ok(at),
        Some(count) => if count as u64 > (image.len() - at) as u64 {
            Err(Flaw::Fatal)
        } else {
            pass_constants(image, at, count)
        },
    }
}

/// A layout, as it was found.
spec fn layout_found(r: Result<Layout, Flaw>) -> Result<LayoutView, Flaw> {
    match r {
        Ok(found) => Ok(found@),
        Err(flaw) => Err(flaw),
    }
}

/// Goes through what there is behind the pools.
fn read_code_part(image: &[u8], at: usize, sizes: &Sizes, version: u8, entry: i32) -> (found: Result<
    Layout,
    Flaw,
>)
    requires
        at <= image@.len(),
        sizes.fine(),
    ensures
        layout_found(found) == code_part(image@, at as int, sizes@, version, entry),
        found matches Ok(l) ==> l@.whole(),
{
    if sizes.types as u64 > (image.len() - at) as u64 {
        return Err(Flaw::Fatal);
    }
    let (types, a) = match read_types(image, at, sizes.types as usize) {
        Ok(found) => found,
        Err(flaw) => {
            return Err(flaw);
        },
    };
    let (_, b) = match read_entries(image, a, 1, sizes.globals) {
        Ok(found) => found,
        Err(flaw) => {
            return Err(flaw);
        },
    };
    let (natives, c) = match read_entries(image, b, 4, sizes.natives) {
        Ok(found) => found,
        Err(flaw) => {
            return Err(flaw);
        },
    };
    if sizes.functions as u64 > (image.len() - c) as u64 {
        return Err(Flaw::Fatal);
    }
    let (functions, d) = match read_functions(image, c, sizes.functions, sizes.debug, version) {
        Ok(found) => found,
        Err(flaw) => {
            return Err(flaw);
        },
    };
    match pass_all_constants(image, d, sizes.constants) {
        Err(flaw) => Err(flaw),
        Ok(_) => Ok(Layout { texts: sizes.texts, types, natives, functions, entry }),
    }
}

/// Goes through the bytes of a program.
pub fn read_layout(image: &[u8]) -> (found: Result<Layout, Flaw>)
    ensures
        match found {
            Ok(l) => layout(image@) == Ok::<LayoutView, Flaw>(l@) && l@.whole(),
            Err(flaw) => layout(image@) == Err::<LayoutView, Flaw>(flaw),
        },
{
    if image.len() < 4 {
        return Err(Flaw::Reported);
    }
    if image[0] != 0x48 || image[1] != 0x4C || image[2] != 0x42 {
        assert(image@.take(3)[0] == image@[0] && image@.take(3)[1] == image@[1] && image@.take(3)[2]
            == image@[2]);
        return Err(Flaw::Reported);
    }
    assert(image@.take(3) =~= seq![0x48u8, 0x4Cu8, 0x42u8]);
    let version = image[3];
    let count: usize = if version >= 5 {
        10
    } else if version == 4 {
        9
    } else {
        8
    };
    let (n, a) = match read_run(image, 4, count, true) {
        Ok(found) => found,
        Err(flaw) => {
            return Err(flaw);
        },
    };
    let (entry, b) = match read_number(image, a) {
        Ok(found) => found,
        Err(flaw) => {
            return Err(flaw);
        },
    };
    let o: usize = if version >= 5 {
        5
    } else {
        4
    };
    let sizes = Sizes {
        debug: n[0] % 2 == 1,
        ints: n[1],
        floats: n[2],
        texts: n[3],
        bytes: if version >= 5 {
            Some(n[4])
        } else {
            None
        },
        types: n[o],
        globals: n[o + 1],
        natives: n[o + 2],
        functions: n[o + 3],
        constants: if version >= 4 {
            Some(n[o + 4])
        } else {
            None
        },
    };
    assert(sizes@ == sizes_of(n@, version));
    match pass_pools(image, b, &sizes) {
        Err(flaw) => Err(flaw),
        Ok(c) => read_code_part(image, c, &sizes, version, entry),
    }
}

} // verus!
