//! How numbers, lists and texts are written as bytes, and that they are read as they were written.

use vstd::prelude::*;
use crate::scan::{
    field_list, natural, naturals, number, numbers, one_number, run, sized_block, text_sizes,
    texts, word, Flaw,
};

verus! {

/// The bytes `part` are those of `image` from `at` on.
pub open spec fn stands_at(image: Seq<u8>, at: int, part: Seq<u8>) -> bool {
    &&& 0 <= at
    &&& at + part.len() <= image.len()
    &&& image.subrange(at, at + part.len()) == part
}

/// Of bytes that stand one after the other, each part stands in its place.
pub proof fn lemma_stands(image: Seq<u8>, at: int, a: Seq<u8>, b: Seq<u8>)
    requires
        stands_at(image, at, a + b),
    ensures
        stands_at(image, at, a),
        stands_at(image, at + a.len(), b),
        (a + b).len() == a.len() + b.len(),
{
    let whole = image.subrange(at, at + (a + b).len());
    assert(image.subrange(at, at + a.len()) =~= a) by {
        assert forall|i: int| 0 <= i < a.len() implies image[at + i] == #[trigger] a[i] by {
            assert(whole[i] == (a + b)[i]);
        }
    }
    assert(image.subrange(at + a.len(), at + a.len() + b.len()) =~= b) by {
        assert forall|i: int| 0 <= i < b.len() implies image[at + a.len() + i]
            == #[trigger] b[i] by {
            assert(whole[a.len() + i] == (a + b)[a.len() + i]);
        }
    }
}

/// The byte at a place of bytes that stand somewhere.
pub proof fn lemma_byte(image: Seq<u8>, at: int, part: Seq<u8>, i: int)
    requires
        stands_at(image, at, part),
        0 <= i < part.len(),
    ensures
        at + i < image.len(),
        image[at + i] == part[i],
{
    assert(image.subrange(at, at + part.len())[i] == part[i]);
}

/// How many bytes a number is spelled with.
pub enum Spelling {
    One,
    Two,
    Four,
}

/// A number can be spelled so.
pub open spec fn spellable(v: int, spelling: Spelling) -> bool {
    match spelling {
        Spelling::One => 0 <= v < 0x80,
        Spelling::Two => -0x2000 < v < 0x2000,
        Spelling::Four => -0x2000_0000 < v < 0x2000_0000,
    }
}

/// The `k`-th byte of a number, counted from the last one.
pub open spec fn byte_of(v: int, k: nat) -> int
    decreases k,
{
    if k == 0 {
        v % 0x100
    } else {
        byte_of(v / 0x100, (k - 1) as nat)
    }
}

/// A number as bytes: the highest byte first, with the spelling and the sign in its highest bits.
pub open spec fn spelled(v: int, spelling: Spelling) -> Seq<u8> {
    let size = if v < 0 {
        -v
    } else {
        v
    };
    let sign: int = if v < 0 {
        0x20
    } else {
        0
    };
    match spelling {
        Spelling::One => seq![byte_of(size, 0) as u8],
        Spelling::Two => seq![(0x80 + sign + byte_of(size, 1)) as u8, byte_of(size, 0) as u8],
        Spelling::Four => seq![
            (0xC0 + sign + byte_of(size, 3)) as u8,
            byte_of(size, 2) as u8,
            byte_of(size, 1) as u8,
            byte_of(size, 0) as u8,
        ],
    }
}

/// A number is the sum of its bytes.
proof fn lemma_bytes(v: int)
    requires
        0 <= v < 0x2000_0000,
    ensures
        byte_of(v, 0) == v % 0x100,
        byte_of(v, 1) == (v / 0x100) % 0x100,
        byte_of(v, 2) == (v / 0x1_0000) % 0x100,
        byte_of(v, 3) == v / 0x100_0000,
        0 <= byte_of(v, 3) < 0x20,
        0 <= byte_of(v, 2) < 0x100,
        0 <= byte_of(v, 1) < 0x100,
        0 <= byte_of(v, 0) < 0x100,
        v == byte_of(v, 3) * 0x100_0000 + byte_of(v, 2) * 0x1_0000 + byte_of(v, 1) * 0x100
            + byte_of(v, 0),
        v < 0x2000 ==> byte_of(v, 3) == 0 && byte_of(v, 2) == 0 && byte_of(v, 1) < 0x20,
{
    reveal_with_fuel(byte_of, 4);
    assert((v / 0x100) / 0x100 == v / 0x1_0000);
    assert((v / 0x1_0000) / 0x100 == v / 0x100_0000);
}

/// A number is read as it was written, whichever way it is spelled, and reading goes on behind it.
pub proof fn law_number_is_read_as_written(image: Seq<u8>, at: int, v: i32, spelling: Spelling)
    requires
        spellable(v as int, spelling),
        stands_at(image, at, spelled(v as int, spelling)),
    ensures
        number(image, at) == Ok::<(i32, int), Flaw>((v, at + spelled(v as int, spelling).len())),
{
    let size: int = if v < 0 {
        -v
    } else {
        v as int
    };
    lemma_bytes(size);
    let part = spelled(v as int, spelling);
    lemma_byte(image, at, part, 0);
    match spelling {
        Spelling::One => {},
        Spelling::Two => {
            lemma_byte(image, at, part, 1);
        },
        Spelling::Four => {
            lemma_byte(image, at, part, 1);
            lemma_byte(image, at, part, 2);
            lemma_byte(image, at, part, 3);
        },
    }
}

/// Whatever is read as a number is one that was written so; a zero may have a sign.
pub proof fn law_number_read_was_written(image: Seq<u8>, at: int) -> (spelling: Spelling)
    requires
        0 <= at,
        number(image, at) is Ok,
    ensures
        ({
            let (v, next) = number(image, at)->Ok_0;
            &&& spellable(v as int, spelling)
            &&& next == at + spelled(v as int, spelling).len()
            &&& next <= image.len()
            &&& v != 0 ==> stands_at(image, at, spelled(v as int, spelling))
        }),
{
    let (v, next) = number(image, at)->Ok_0;
    let size: int = if v < 0 {
        -v
    } else {
        v as int
    };
    let b = image[at] as int;
    let spelling = if b < 0x80 {
        Spelling::One
    } else if b < 0xC0 {
        Spelling::Two
    } else {
        Spelling::Four
    };
    let part = spelled(v as int, spelling);
    match spelling {
        Spelling::One => {
            lemma_digits(0, 0, 0, b);
        },
        Spelling::Two => {
            lemma_digits(0, 0, b % 32, image[at + 1] as int);
            assert(size == (b % 32) * 0x100 + image[at + 1]);
        },
        Spelling::Four => {
            lemma_digits(
                b % 32,
                image[at + 1] as int,
                image[at + 2] as int,
                image[at + 3] as int,
            );
            assert(size == (b % 32) * 0x100_0000 + image[at + 1] * 0x1_0000 + image[at + 2] * 0x100
                + image[at + 3]);
        },
    }
    if v != 0 {
        assert(part[0] == image[at]);
        assert(image.subrange(at, next) =~= part);
    }
    spelling
}

/// The bytes of a number that is given by its bytes.
proof fn lemma_digits(d3: int, d2: int, d1: int, d0: int)
    requires
        0 <= d3 < 0x100,
        0 <= d2 < 0x100,
        0 <= d1 < 0x100,
        0 <= d0 < 0x100,
    ensures
        ({
            let v = d3 * 0x100_0000 + d2 * 0x1_0000 + d1 * 0x100 + d0;
            &&& byte_of(v, 0) == d0
            &&& byte_of(v, 1) == d1
            &&& byte_of(v, 2) == d2
            &&& byte_of(v, 3) == d3
        }),
{
    reveal_with_fuel(byte_of, 4);
    let v = d3 * 0x100_0000 + d2 * 0x1_0000 + d1 * 0x100 + d0;
    assert(v / 0x100 == d3 * 0x1_0000 + d2 * 0x100 + d1);
    assert((v / 0x100) / 0x100 == d3 * 0x100 + d2);
    assert(((v / 0x100) / 0x100) / 0x100 == d3);
}

/// Reading a number fails only where the bytes end before it does.
pub proof fn law_number_is_missed_at_the_end_only(image: Seq<u8>, at: int)
    requires
        0 <= at <= image.len(),
    ensures
        number(image, at) is Err ==> number(image, at)->Err_0 is Reported,
        number(image, at) is Err <==> image.len() - at < if at == image.len() || image[at] < 0x80 {
            1int
        } else if image[at] < 0xC0 {
            2
        } else {
            4
        },
{
}

/// A number that the format can hold.
pub open spec fn writes(v: i32) -> bool {
    -0x2000_0000 < v < 0x2000_0000
}

/// A number as it is written: with as few bytes as it takes.
pub open spec fn written(v: i32) -> Seq<u8> {
    spelled(
        v as int,
        if 0 <= v < 0x80 {
            Spelling::One
        } else if -0x2000 < v < 0x2000 {
            Spelling::Two
        } else {
            Spelling::Four
        },
    )
}

/// The numbers of a list, one after the other.
pub open spec fn written_all(vs: Seq<i32>) -> Seq<u8>
    decreases vs.len(),
{
    if vs.len() == 0 {
        Seq::empty()
    } else {
        written(vs[0]) + written_all(vs.drop_first())
    }
}

/// The format can hold every number of a list.
pub open spec fn all_write(vs: Seq<i32>) -> bool {
    forall|i: int| 0 <= i < vs.len() ==> writes(#[trigger] vs[i])
}

/// No number of a list is negative.
pub open spec fn none_below_zero(vs: Seq<i32>) -> bool {
    forall|i: int| 0 <= i < vs.len() ==> #[trigger] vs[i] >= 0
}

/// A number is read as it was written.
pub proof fn lemma_number(image: Seq<u8>, at: int, v: i32)
    requires
        writes(v),
        stands_at(image, at, written(v)),
    ensures
        number(image, at) == Ok::<(i32, int), Flaw>((v, at + written(v).len())),
        one_number(image, at) == Ok::<int, Flaw>(at + written(v).len()),
        v >= 0 ==> natural(image, at) == Ok::<(i32, int), Flaw>((v, at + written(v).len())),
        written(v).len() >= 1,
{
    law_number_is_read_as_written(
        image,
        at,
        v,
        if 0 <= v < 0x80 {
            Spelling::One
        } else if -0x2000 < v < 0x2000 {
            Spelling::Two
        } else {
            Spelling::Four
        },
    );
}

/// A list takes a byte for each number at least.
pub proof fn lemma_list_len(vs: Seq<i32>)
    ensures
        written_all(vs).len() >= vs.len(),
    decreases vs.len(),
{
    if vs.len() > 0 {
        lemma_list_len(vs.drop_first());
    }
}

/// The numbers of a list are read as they were written, behind those that were read before.
proof fn lemma_run(image: Seq<u8>, at: int, vs: Seq<i32>, unsigned: bool, got: Seq<i32>)
    requires
        all_write(vs),
        unsigned ==> none_below_zero(vs),
        stands_at(image, at, written_all(vs)),
    ensures
        run(image, at, vs.len() as int, unsigned, got) == Ok::<(Seq<i32>, int), Flaw>(
            (got + vs, at + written_all(vs).len()),
        ),
    decreases vs.len(),
{
    if vs.len() == 0 {
        assert(got + vs =~= got);
    } else {
        let rest = vs.drop_first();
        lemma_stands(image, at, written(vs[0]), written_all(rest));
        lemma_number(image, at, vs[0]);
        lemma_run(image, at + written(vs[0]).len(), rest, unsigned, got.push(vs[0]));
        assert(got.push(vs[0]) + rest =~= got + vs);
    }
}

/// The numbers of a list are read as they were written.
pub proof fn law_numbers_are_read_as_written(image: Seq<u8>, at: int, vs: Seq<i32>)
    requires
        all_write(vs),
        stands_at(image, at, written_all(vs)),
    ensures
        ({
            let read = Ok::<(Seq<i32>, int), Flaw>((vs, at + written_all(vs).len()));
            &&& run(image, at, vs.len() as int, false, Seq::empty()) == read
            &&& numbers(image, at, vs.len() as int) == read
            &&& none_below_zero(vs) ==> run(image, at, vs.len() as int, true, Seq::empty()) == read
            &&& none_below_zero(vs) ==> naturals(image, at, vs.len() as int) == read
        }),
{
    lemma_run(image, at, vs, false, Seq::empty());
    if none_below_zero(vs) {
        lemma_run(image, at, vs, true, Seq::empty());
    }
    lemma_list_len(vs);
    assert(Seq::<i32>::empty() + vs =~= vs);
}

/// A size as four bytes, the lowest one first.
pub open spec fn size_bytes(n: int) -> Seq<u8> {
    seq![
        byte_of(n, 0) as u8,
        byte_of(n, 1) as u8,
        byte_of(n, 2) as u8,
        byte_of(n, 3) as u8,
    ]
}

/// A block of bytes with its size before it is passed as a whole.
pub proof fn law_block_is_passed_as_written(image: Seq<u8>, at: int, bytes: Seq<u8>)
    requires
        bytes.len() < 0x8000_0000,
        stands_at(image, at, size_bytes(bytes.len() as int) + bytes),
    ensures
        sized_block(image, at) == Ok::<(int, int), Flaw>(
            (bytes.len() as int, at + 4 + bytes.len()),
        ),
{
    let n = bytes.len() as int;
    let head = size_bytes(n);
    lemma_stands(image, at, head, bytes);
    lemma_byte(image, at, head, 0);
    lemma_byte(image, at, head, 1);
    lemma_byte(image, at, head, 2);
    lemma_byte(image, at, head, 3);
    reveal_with_fuel(byte_of, 4);
    assert((n / 0x100) / 0x100 == n / 0x1_0000);
    assert((n / 0x1_0000) / 0x100 == n / 0x100_0000);
    assert(word(image, at) == n);
}

/// The bytes of texts, each with a zero behind it.
pub open spec fn text_block(list: Seq<Seq<u8>>) -> Seq<u8>
    decreases list.len(),
{
    if list.len() == 0 {
        Seq::empty()
    } else {
        text_block(list.drop_last()) + list.last().push(0)
    }
}

/// The numbers of bytes of texts.
pub open spec fn text_lengths(list: Seq<Seq<u8>>) -> Seq<i32> {
    Seq::new(list.len(), |i: int| list[i].len() as i32)
}

/// A pool of texts: their bytes, and then the length of each.
pub open spec fn pool_bytes(list: Seq<Seq<u8>>) -> Seq<u8> {
    size_bytes(text_block(list).len() as int) + text_block(list) + written_all(text_lengths(list))
}

/// The texts are short enough for the format.
pub open spec fn texts_write(list: Seq<Seq<u8>>) -> bool {
    &&& text_block(list).len() < 0x8000_0000
    &&& forall|i: int| 0 <= i < list.len() ==> (#[trigger] list[i]).len() < 0x2000_0000
}

/// A text and what comes before it fit in the block.
proof fn lemma_text_fits(list: Seq<Seq<u8>>, n: int)
    requires
        0 <= n < list.len(),
    ensures
        text_block(list.take(n + 1)).len() == text_block(list.take(n)).len() + list[n].len() + 1,
        text_block(list.take(n + 1)).len() <= text_block(list).len(),
    decreases list.len(),
{
    assert(list.take(n + 1).drop_last() =~= list.take(n));
    if n + 1 < list.len() {
        lemma_text_fits(list.drop_last(), n);
        assert(list.drop_last().take(n + 1) =~= list.take(n + 1));
    } else {
        assert(list.take(n + 1) =~= list);
    }
}

/// The lengths of texts are passed.
proof fn lemma_text_sizes(image: Seq<u8>, at: int, list: Seq<Seq<u8>>, n: int)
    requires
        texts_write(list),
        0 <= n <= list.len(),
        stands_at(image, at, written_all(text_lengths(list).skip(n))),
    ensures
        text_sizes(
            image,
            at,
            list.len() - n,
            text_block(list).len() as int,
            text_block(list.take(n)).len() as int,
        ) == Ok::<int, Flaw>(at + written_all(text_lengths(list).skip(n)).len()),
    decreases list.len() - n,
{
    let left = text_lengths(list).skip(n);
    if n < list.len() {
        let rest = text_lengths(list).skip(n + 1);
        assert(left.drop_first() =~= rest);
        assert(left[0] == list[n].len() as i32);
        lemma_stands(image, at, written(left[0]), written_all(rest));
        lemma_number(image, at, left[0]);
        lemma_text_fits(list, n);
        lemma_text_sizes(image, at + written(left[0]).len(), list, n + 1);
    }
}

/// A pool of texts is passed as a whole.
pub proof fn law_texts_are_passed_as_written(image: Seq<u8>, at: int, list: Seq<Seq<u8>>)
    requires
        texts_write(list),
        stands_at(image, at, pool_bytes(list)),
    ensures
        texts(image, at, list.len() as int) == Ok::<int, Flaw>(at + pool_bytes(list).len()),
{
    let bytes = text_block(list);
    let head = size_bytes(bytes.len() as int) + bytes;
    lemma_stands(image, at, head, written_all(text_lengths(list)));
    law_block_is_passed_as_written(image, at, bytes);
    assert(text_lengths(list).skip(0) =~= text_lengths(list));
    assert(list.take(0) =~= Seq::empty());
    lemma_text_sizes(image, at + head.len(), list, 0);
    lemma_list_len(text_lengths(list));
}

/// The texts of a pool that is passed lie in its block: behind each is the byte that ends it, but that
/// of the last one may be missing.
pub proof fn law_texts_passed_lie_in_their_block(
    image: Seq<u8>,
    at: int,
    n: int,
    size: int,
    used: int,
)
    requires
        0 <= at,
        0 <= used <= size + 1,
        text_sizes(image, at, n, size, used) is Ok,
    ensures
        exists|lens: Seq<i32>|
            #![trigger none_below_zero(lens)]
            lens.len() == (if n > 0 { n } else { 0 }) && none_below_zero(lens) && ends(
                lens,
                used,
            ) <= size + 1 && run(image, at, n, true, Seq::empty()) == Ok::<(Seq<i32>, int), Flaw>(
                (lens, text_sizes(image, at, n, size, used)->Ok_0),
            ),
{
    lemma_texts_in_block(image, at, n, size, used, Seq::empty());
}

/// Where texts end that begin at `from`, each with one byte behind it.
pub open spec fn ends(lens: Seq<i32>, from: int) -> int
    decreases lens.len(),
{
    if lens.len() == 0 {
        from
    } else {
        ends(lens.drop_first(), from + lens[0] + 1)
    }
}

/// The lengths of texts that are passed, behind those that were read before.
proof fn lemma_texts_in_block(
    image: Seq<u8>,
    at: int,
    n: int,
    size: int,
    used: int,
    got: Seq<i32>,
) -> (lens: Seq<i32>)
    requires
        0 <= at,
        0 <= used <= size + 1,
        text_sizes(image, at, n, size, used) is Ok,
    ensures
        lens.len() == (if n > 0 { n } else { 0 }),
        none_below_zero(lens),
        ends(lens, used) <= size + 1,
        run(image, at, n, true, got) == Ok::<(Seq<i32>, int), Flaw>(
            (got + lens, text_sizes(image, at, n, size, used)->Ok_0),
        ),
        got.len() == 0 ==> got + lens == lens,
    decreases n,
{
    if n <= 0 {
        assert(got + Seq::<i32>::empty() =~= got);
        Seq::empty()
    } else {
        let (len, next) = natural(image, at)->Ok_0;
        let rest = lemma_texts_in_block(image, next, n - 1, size, used + len + 1, got.push(len));
        let lens = seq![len] + rest;
        assert(lens.drop_first() =~= rest);
        assert(got.push(len) + rest =~= got + lens);
        assert(got.len() == 0 ==> got + lens =~= lens);
        lens
    }
}

/// Entries of two numbers, one after the other.
pub open spec fn pairs(list: Seq<(i32, i32)>) -> Seq<i32> {
    Seq::new(
        2 * list.len(),
        |i: int|
            if i % 2 == 0 {
                list[i / 2].0
            } else {
                list[i / 2].1
            },
    )
}

/// A list of entries of two numbers, with its length before it.
pub open spec fn pair_list_bytes(list: Seq<(i32, i32)>) -> Seq<u8> {
    written(list.len() as i32) + written_all(pairs(list))
}

/// A list of fields, or of anything else that takes two numbers, is passed as a whole.
pub proof fn law_field_list_is_passed_as_written(image: Seq<u8>, at: int, list: Seq<(i32, i32)>)
    requires
        list.len() < 0x2000_0000,
        all_write(pairs(list)),
        stands_at(image, at, pair_list_bytes(list)),
    ensures
        field_list(image, at) == Ok::<int, Flaw>(at + pair_list_bytes(list).len()),
{
    let n = list.len() as i32;
    lemma_stands(image, at, written(n), written_all(pairs(list)));
    lemma_number(image, at, n);
    law_numbers_are_read_as_written(image, at + written(n).len(), pairs(list));
}

/// A pool of texts is not gone through where its block is larger than what is left of the bytes, or where
/// a text does not lie in the block: the reader would look for it outside.
pub proof fn law_texts_outside_their_block_are_fatal(
    image: Seq<u8>,
    at: int,
    n: int,
    size: int,
    used: int,
)
    requires
        0 <= at,
        n > 0,
        natural(image, at) is Ok,
        used + (natural(image, at)->Ok_0).0 > size,
    ensures
        text_sizes(image, at, n, size, used) == Err::<int, Flaw>(Flaw::Fatal),
{
}

/// A block is not passed where its size is larger than what is left of the bytes, or is negative as a
/// number of 32 bits.
pub proof fn law_block_outside_the_bytes_is_fatal(image: Seq<u8>, at: int, n: int)
    requires
        0 <= n < 0x1_0000_0000,
        stands_at(image, at, size_bytes(n)),
    ensures
        n >= 0x8000_0000 || n > image.len() - at - 4 ==> sized_block(image, at) == Err::<
            (int, int),
            Flaw,
        >(Flaw::Fatal),
{
    let head = size_bytes(n);
    lemma_byte(image, at, head, 0);
    lemma_byte(image, at, head, 1);
    lemma_byte(image, at, head, 2);
    lemma_byte(image, at, head, 3);
    reveal_with_fuel(byte_of, 4);
    assert((n / 0x100) / 0x100 == n / 0x1_0000);
    assert((n / 0x1_0000) / 0x100 == n / 0x100_0000);
    assert(word(image, at) == n);
}

} // verus!
