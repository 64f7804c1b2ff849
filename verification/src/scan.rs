//! Numbers, texts and blocks in the bytes of `hlboot.dat`.

use vstd::prelude::*;

verus! {

/// Why the bytes cannot be gone through to the end.
#[derive(Clone, Copy, Debug, PartialEq, Eq, Structural)]
pub enum Flaw {
    /// The bytes end too early, or hold something that the format does not know: the reader says
    /// so.
    Reported,
    /// A size is larger than what is there.
    Fatal,
}

/// The position behind a block of `len` bytes at `at`.
pub open spec fn block(image: Seq<u8>, at: int, len: int) -> Result<int, Flaw> {
    if at + len <= image.len() {
        Ok(at + len)
    } else {
        Err(Flaw::Reported)
    }
}

/// The number at `at`, which takes one, two or four bytes, and the position behind it.
pub open spec fn number(image: Seq<u8>, at: int) -> Result<(i32, int), Flaw> {
    if at >= image.len() {
        Err(Flaw::Reported)
    } else {
        let b = image[at] as int;
        let minus = (b / 32) % 2 == 1;
        if b < 0x80 {
            Ok((b as i32, at + 1))
        } else if b < 0xC0 {
            if at + 1 >= image.len() {
                Err(Flaw::Reported)
            } else {
                let v = (b % 32) * 0x100 + image[at + 1];
                Ok((signed(v, minus), at + 2))
            }
        } else if at + 3 >= image.len() {
            Err(Flaw::Reported)
        } else {
            let v = (b % 32) * 0x100_0000 + image[at + 1] * 0x1_0000 + image[at + 2] * 0x100
                + image[at + 3];
            Ok((signed(v, minus), at + 4))
        }
    }
}

/// A number with its sign.
pub open spec fn signed(v: int, minus: bool) -> i32 {
    if minus {
        (-v) as i32
    } else {
        v as i32
    }
}

/// The number at `at`, which may not be negative.
pub open spec fn natural(image: Seq<u8>, at: int) -> Result<(i32, int), Flaw> {
    match number(image, at) {
        Err(flaw) => Err(flaw),
        Ok((v, next)) => if v < 0 {
            Err(Flaw::Reported)
        } else {
            Ok((v, next))
        },
    }
}

/// The `n` numbers at `at`, after those in `got`, and the position behind them. They may not be
/// negative where `unsigned` is set.
pub open spec fn run(image: Seq<u8>, at: int, n: int, unsigned: bool, got: Seq<i32>) -> Result<
    (Seq<i32>, int),
    Flaw,
>
    decreases n,
{
    if n <= 0 {
        Ok((got, at))
    } else {
        let next = if unsigned {
            natural(image, at)
        } else {
            number(image, at)
        };
        match next {
            Err(flaw) => Err(flaw),
            Ok((v, after)) => run(image, after, n - 1, unsigned, got.push(v)),
        }
    }
}

/// The `n` numbers at `at`. Each takes a byte at least.
pub open spec fn numbers(image: Seq<u8>, at: int, n: int) -> Result<(Seq<i32>, int), Flaw> {
    if n > image.len() - at {
        Err(Flaw::Fatal)
    } else {
        run(image, at, n, false, Seq::empty())
    }
}

/// The `n` numbers at `at`, none of which may be negative.
pub open spec fn naturals(image: Seq<u8>, at: int, n: int) -> Result<(Seq<i32>, int), Flaw> {
    if n > image.len() - at {
        Err(Flaw::Fatal)
    } else {
        run(image, at, n, true, Seq::empty())
    }
}

/// A result with its position.
pub open spec fn placed(r: Result<usize, Flaw>) -> Result<int, Flaw> {
    match r {
        Ok(at) => Ok(at as int),
        Err(flaw) => Err(flaw),
    }
}

/// A number with its position.
pub open spec fn number_placed(r: Result<(i32, usize), Flaw>) -> Result<(i32, int), Flaw> {
    match r {
        Ok((v, at)) => Ok((v, at as int)),
        Err(flaw) => Err(flaw),
    }
}

/// Numbers with the position behind them.
pub open spec fn numbers_placed(r: Result<(Vec<i32>, usize), Flaw>) -> Result<
    (Seq<i32>, int),
    Flaw,
> {
    match r {
        Ok((v, at)) => Ok((v@, at as int)),
        Err(flaw) => Err(flaw),
    }
}

/// Goes past a block of bytes.
pub(crate) fn pass_block(image: &[u8], at: usize, len: usize) -> (next: Result<usize, Flaw>)
    requires
        at <= image@.len(),
    ensures
        placed(next) == block(image@, at as int, len as int),
        next matches Ok(after) ==> after <= image@.len(),
{
    if len <= image.len() - at {
        Ok(at + len)
    } else {
        Err(Flaw::Reported)
    }
}

/// Reads a number.
pub(crate) fn read_number(image: &[u8], at: usize) -> (found: Result<(i32, usize), Flaw>)
    requires
        at <= image@.len(),
    ensures
        number_placed(found) == number(image@, at as int),
        found matches Ok((v, next)) ==> at < next <= image@.len(),
{
    let left = image.len() - at;
    if left == 0 {
        return Err(Flaw::Reported);
    }
    let b = image[at] as i32;
    let minus = (b / 32) % 2 == 1;
    if b < 0x80 {
        return Ok((b, at + 1));
    }
    if b < 0xC0 {
        if left < 2 {
            return Err(Flaw::Reported);
        }
        let v: i32 = (b % 32) * 0x100 + image[at + 1] as i32;
        let found = if minus {
            -v
        } else {
            v
        };
        return Ok((found, at + 2));
    }
    if left < 4 {
        return Err(Flaw::Reported);
    }
    let v: i32 = (b % 32) * 0x100_0000 + image[at + 1] as i32 * 0x1_0000 + image[at + 2] as i32
        * 0x100 + image[at + 3] as i32;
    let found = if minus {
        -v
    } else {
        v
    };
    Ok((found, at + 4))
}

/// Reads a number that may not be negative.
pub(crate) fn read_natural(image: &[u8], at: usize) -> (found: Result<(i32, usize), Flaw>)
    requires
        at <= image@.len(),
    ensures
        number_placed(found) == natural(image@, at as int),
        found matches Ok((v, next)) ==> v >= 0 && at < next <= image@.len(),
{
    match read_number(image, at) {
        Err(flaw) => Err(flaw),
        Ok((v, next)) => if v < 0 {
            Err(Flaw::Reported)
        } else {
            Ok((v, next))
        },
    }
}

/// Reads numbers, one after the other.
pub(crate) fn read_run(image: &[u8], from: usize, n: usize, unsigned: bool) -> (found: Result<
    (Vec<i32>, usize),
    Flaw,
>)
    requires
        from <= image@.len(),
    ensures
        numbers_placed(found) == run(image@, from as int, n as int, unsigned, Seq::empty()),
        found matches Ok((v, next)) ==> v@.len() == n && next <= image@.len(),
        found matches Ok((v, next)) ==> (unsigned ==> forall|i: int|
            0 <= i < v@.len() ==> #[trigger] v@[i] >= 0),
{
    let mut got: Vec<i32> = Vec::new();
    let mut at = from;
    for k in 0..n
        invariant
            at <= image@.len(),
            got@.len() == k,
            unsigned ==> forall|i: int| 0 <= i < got@.len() ==> #[trigger] got@[i] >= 0,
            run(image@, from as int, n as int, unsigned, Seq::empty()) == run(
                image@,
                at as int,
                n - k,
                unsigned,
                got@,
            ),
    {
        let found = if unsigned {
            read_natural(image, at)
        } else {
            read_number(image, at)
        };
        match found {
            Err(flaw) => {
                return Err(flaw);
            },
            Ok((v, next)) => {
                got.push(v);
                at = next;
            },
        }
    }
    Ok((got, at))
}

/// Reads numbers.
pub(crate) fn read_numbers(image: &[u8], at: usize, n: usize) -> (found: Result<(Vec<i32>, usize), Flaw>)
    requires
        at <= image@.len(),
    ensures
        numbers_placed(found) == numbers(image@, at as int, n as int),
        found matches Ok((v, next)) ==> v@.len() == n && next <= image@.len(),
{
    if n > image.len() - at {
        return Err(Flaw::Fatal);
    }
    read_run(image, at, n, false)
}

/// Reads numbers that may not be negative.
pub(crate) fn read_naturals(image: &[u8], at: usize, n: usize) -> (found: Result<(Vec<i32>, usize), Flaw>)
    requires
        at <= image@.len(),
    ensures
        numbers_placed(found) == naturals(image@, at as int, n as int),
        found matches Ok((v, next)) ==> v@.len() == n && next <= image@.len() && forall|i: int|
            0 <= i < v@.len() ==> #[trigger] v@[i] >= 0,
{
    if n > image.len() - at {
        return Err(Flaw::Fatal);
    }
    read_run(image, at, n, true)
}

/// The size that the four bytes at `at` give.
pub open spec fn word(image: Seq<u8>, at: int) -> int {
    image[at] + image[at + 1] * 0x100 + image[at + 2] * 0x1_0000 + image[at + 3] * 0x100_0000
}

/// The size of the block at `at`, which stands before it, and the position behind the block.
pub open spec fn sized_block(image: Seq<u8>, at: int) -> Result<(int, int), Flaw> {
    if at + 4 > image.len() {
        Err(Flaw::Reported)
    } else {
        let size = word(image, at);
        if size >= 0x8000_0000 || size > image.len() - at - 4 {
            Err(Flaw::Fatal)
        } else {
            Ok((size, at + 4 + size))
        }
    }
}

/// Goes past a block that has its size before it.
pub(crate) fn pass_sized_block(image: &[u8], at: usize) -> (found: Result<(usize, usize), Flaw>)
    requires
        at <= image@.len(),
    ensures
        match found {
            Ok((size, next)) => sized_block(image@, at as int) == Ok::<(int, int), Flaw>(
                (size as int, next as int),
            ) && size < next <= image@.len(),
            Err(flaw) => sized_block(image@, at as int) == Err::<(int, int), Flaw>(flaw),
        },
{
    if image.len() - at < 4 {
        return Err(Flaw::Reported);
    }
    let size: u64 = image[at] as u64 + image[at + 1] as u64 * 0x100 + image[at + 2] as u64
        * 0x1_0000 + image[at + 3] as u64 * 0x100_0000;
    if size >= 0x8000_0000 || size > (image.len() - at - 4) as u64 {
        return Err(Flaw::Fatal);
    }
    Ok((size as usize, at + 4 + size as usize))
}

/// The position behind the sizes of `n` texts that lie one after the other in a block of `size`
/// bytes, of which `used` are taken. Each text has one more byte behind it.
pub open spec fn text_sizes(image: Seq<u8>, at: int, n: int, size: int, used: int) -> Result<
    int,
    Flaw,
>
    decreases n,
{
    if n <= 0 {
        Ok(at)
    } else {
        match natural(image, at) {
            Err(flaw) => Err(flaw),
            Ok((len, next)) => if used + len > size {
                Err(Flaw::Fatal)
            } else {
                text_sizes(image, next, n - 1, size, used + len + 1)
            },
        }
    }
}

/// The position behind a pool of `n` texts.
pub open spec fn texts(image: Seq<u8>, at: int, n: int) -> Result<int, Flaw> {
    if n > image.len() - at {
        Err(Flaw::Fatal)
    } else {
        match sized_block(image, at) {
            Err(flaw) => Err(flaw),
            Ok((size, next)) => text_sizes(image, next, n, size, 0),
        }
    }
}

/// Goes past a pool of texts.
pub(crate) fn pass_texts(image: &[u8], from: usize, n: usize) -> (next: Result<usize, Flaw>)
    requires
        from <= image@.len(),
    ensures
        placed(next) == texts(image@, from as int, n as int),
        next matches Ok(after) ==> after <= image@.len(),
{
    if n > image.len() - from {
        return Err(Flaw::Fatal);
    }
    let (size, start) = match pass_sized_block(image, from) {
        Ok(found) => found,
        Err(flaw) => {
            return Err(flaw);
        },
    };
    let mut at: usize = start;
    let mut used: usize = 0;
    for k in 0..n
        invariant
            at <= image@.len(),
            used <= size + 1,
            size < usize::MAX,
            texts(image@, from as int, n as int) == text_sizes(
                image@,
                at as int,
                n - k,
                size as int,
                used as int,
            ),
    {
        match read_natural(image, at) {
            Err(flaw) => {
                return Err(flaw);
            },
            Ok((len, next)) => {
                if used > size || len as u64 > (size - used) as u64 {
                    return Err(Flaw::Fatal);
                }
                used = used + len as usize + 1;
                at = next;
            },
        }
    }
    Ok(at)
}

/// Reads numbers that come in entries of several.
pub(crate) fn read_entries(image: &[u8], at: usize, width: usize, n: i32) -> (found: Result<
    (Vec<i32>, usize),
    Flaw,
>)
    requires
        at <= image@.len(),
        n >= 0,
        1 <= width <= 4,
    ensures
        numbers_placed(found) == numbers(image@, at as int, width * n),
        found matches Ok((v, next)) ==> v@.len() == width * n && next <= image@.len(),
{
    assert(0 <= width * n <= 4 * n) by (nonlinear_arith)
        requires
            n >= 0,
            1 <= width <= 4,
    ;
    let wanted: u64 = width as u64 * n as u64;
    if wanted > (image.len() - at) as u64 {
        return Err(Flaw::Fatal);
    }
    read_numbers(image, at, wanted as usize)
}

/// The position behind a list of fields.
pub open spec fn field_list(image: Seq<u8>, at: int) -> Result<int, Flaw> {
    match natural(image, at) {
        Err(flaw) => Err(flaw),
        Ok((n, a)) => match numbers(image, a, 2 * n) {
            Err(flaw) => Err(flaw),
            Ok((_, next)) => Ok(next),
        },
    }
}

/// The position behind one number.
pub open spec fn one_number(image: Seq<u8>, at: int) -> Result<int, Flaw> {
    match number(image, at) {
        Err(flaw) => Err(flaw),
        Ok((_, next)) => Ok(next),
    }
}

/// Goes past a list of fields.
pub(crate) fn pass_field_list(image: &[u8], at: usize) -> (next: Result<usize, Flaw>)
    requires
        at <= image@.len(),
    ensures
        placed(next) == field_list(image@, at as int),
        next matches Ok(after) ==> after <= image@.len(),
{
    match read_natural(image, at) {
        Err(flaw) => Err(flaw),
        Ok((n, a)) => match read_entries(image, a, 2, n) {
            Err(flaw) => Err(flaw),
            Ok((_, next)) => Ok(next),
        },
    }
}

/// Goes past one number.
pub(crate) fn pass_number(image: &[u8], at: usize) -> (next: Result<usize, Flaw>)
    requires
        at <= image@.len(),
    ensures
        placed(next) == one_number(image@, at as int),
        next matches Ok(after) ==> after <= image@.len(),
{
    match read_number(image, at) {
        Err(flaw) => Err(flaw),
        Ok((_, next)) => Ok(next),
    }
}

} // verus!
