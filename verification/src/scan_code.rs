//! Functions and constants in the bytes of `hlboot.dat`.

use vstd::prelude::*;
use crate::scan::{
    field_list, natural, naturals, number, number_placed, numbers, numbers_placed, one_number,
    pass_field_list, pass_number, placed, read_entries, read_natural, read_naturals,
    read_number, read_run, run, Flaw,
};

verus! {

/// The number of operands of an instruction that always has the same number of them.
pub open spec fn operand_count(op: u8) -> Option<int> {
    if op == 66 || op == 95 || op == 98 {
        Some(0)
    } else if op == 6 || op == 22 || op == 23 || op == 58 || 67 <= op <= 69 || op == 71 || op == 73
        || op == 82 {
        Some(1)
    } else if op <= 5 || op == 20 || op == 21 || op == 24 || op == 33 || op == 36 || op == 37 || op
        == 40 || op == 41 || 44 <= op <= 47 || 59 <= op <= 65 || op == 72 || 83 <= op <= 89 || op
        == 91 || op == 92 || op == 96 {
        Some(2)
    } else if 7 <= op <= 19 || op == 25 || op == 34 || op == 35 || op == 38 || op == 39 || op == 42
        || op == 43 || 48 <= op <= 57 || 74 <= op <= 81 || op == 94 || op == 97 {
        Some(3)
    } else if op == 26 || op == 93 {
        Some(4)
    } else if op == 27 {
        Some(5)
    } else if op == 28 {
        Some(6)
    } else {
        None
    }
}

/// The position behind the operands of a call with a list of arguments.
pub open spec fn listed_operands(image: Seq<u8>, at: int) -> Result<int, Flaw> {
    match run(image, at, 2, false, Seq::empty()) {
        Err(flaw) => Err(flaw),
        Ok((_, a)) => if a >= image.len() {
            Err(Flaw::Reported)
        } else {
            match run(image, a + 1, image[a] as int, false, Seq::empty()) {
                Err(flaw) => Err(flaw),
                Ok((_, next)) => Ok(next),
            }
        },
    }
}

/// The position behind the operands of a jump through a table.
pub open spec fn table_operands(image: Seq<u8>, at: int) -> Result<int, Flaw> {
    match number(image, at) {
        Err(flaw) => Err(flaw),
        Ok((_, a)) => match natural(image, a) {
            Err(flaw) => Err(flaw),
            Ok((n, b)) => match naturals(image, b, n as int) {
                Err(flaw) => Err(flaw),
                Ok((_, c)) => one_number(image, c),
            },
        },
    }
}

/// The position behind an instruction.
pub open spec fn instruction(image: Seq<u8>, at: int) -> Result<int, Flaw> {
    if at >= image.len() {
        Err(Flaw::Reported)
    } else {
        let op = image[at];
        if 29 <= op <= 32 || op == 90 {
            listed_operands(image, at + 1)
        } else if op == 70 {
            table_operands(image, at + 1)
        } else {
            match operand_count(op) {
                None => Err(Flaw::Reported),
                Some(n) => match run(image, at + 1, n, false, Seq::empty()) {
                    Err(flaw) => Err(flaw),
                    Ok((_, next)) => Ok(next),
                },
            }
        }
    }
}

/// The position behind `n` instructions.
pub open spec fn instructions(image: Seq<u8>, at: int, n: int) -> Result<int, Flaw>
    decreases n,
{
    if n <= 0 {
        Ok(at)
    } else {
        match instruction(image, at) {
            Err(flaw) => Err(flaw),
            Ok(next) => instructions(image, next, n - 1),
        }
    }
}

/// The number of operands of an instruction that always has the same number of them.
pub(crate) fn count_operands(op: u8) -> (n: Option<usize>)
    ensures
        match n {
            Some(count) => operand_count(op) == Some(count as int),
            None => operand_count(op) is None,
        },
{
    if op == 66 || op == 95 || op == 98 {
        Some(0)
    } else if op == 6 || op == 22 || op == 23 || op == 58 || (67 <= op && op <= 69) || op == 71
        || op == 73 || op == 82 {
        Some(1)
    } else if op <= 5 || op == 20 || op == 21 || op == 24 || op == 33 || op == 36 || op == 37
        || op == 40 || op == 41 || (44 <= op && op <= 47) || (59 <= op && op <= 65) || op == 72
        || (83 <= op && op <= 89) || op == 91 || op == 92 || op == 96 {
        Some(2)
    } else if (7 <= op && op <= 19) || op == 25 || op == 34 || op == 35 || op == 38 || op == 39
        || op == 42 || op == 43 || (48 <= op && op <= 57) || (74 <= op && op <= 81) || op == 94
        || op == 97 {
        Some(3)
    } else if op == 26 || op == 93 {
        Some(4)
    } else if op == 27 {
        Some(5)
    } else if op == 28 {
        Some(6)
    } else {
        None
    }
}

/// Goes past an instruction.
pub(crate) fn pass_instruction(image: &[u8], at: usize) -> (next: Result<usize, Flaw>)
    requires
        at <= image@.len(),
    ensures
        placed(next) == instruction(image@, at as int),
        next matches Ok(after) ==> after <= image@.len(),
{
    if at >= image.len() {
        return Err(Flaw::Reported);
    }
    let op = image[at];
    if (29 <= op && op <= 32) || op == 90 {
        let (_, a) = match read_run(image, at + 1, 2, false) {
            Ok(found) => found,
            Err(flaw) => {
                return Err(flaw);
            },
        };
        return pass_listed(image, a);
    }
    if op == 70 {
        let (_, a) = match read_number(image, at + 1) {
            Ok(found) => found,
            Err(flaw) => {
                return Err(flaw);
            },
        };
        let (n, b) = match read_natural(image, a) {
            Ok(found) => found,
            Err(flaw) => {
                return Err(flaw);
            },
        };
        if n as u64 > (image.len() - b) as u64 {
            return Err(Flaw::Fatal);
        }
        return match read_naturals(image, b, n as usize) {
            Err(flaw) => Err(flaw),
            Ok((_, c)) => pass_number(image, c),
        };
    }
    match count_operands(op) {
        None => Err(Flaw::Reported),
        Some(n) => match read_run(image, at + 1, n, false) {
            Err(flaw) => Err(flaw),
            Ok((_, next)) => Ok(next),
        },
    }
}

/// Goes past a list of arguments, which has its length in a byte before it.
pub(crate) fn pass_listed(image: &[u8], at: usize) -> (next: Result<usize, Flaw>)
    requires
        at <= image@.len(),
    ensures
        placed(next) == if at >= image@.len() {
            Err::<int, Flaw>(Flaw::Reported)
        } else {
            match run(image@, at + 1, image@[at as int] as int, false, Seq::empty()) {
                Err(flaw) => Err(flaw),
                Ok((_, after)) => Ok(after),
            }
        },
        next matches Ok(after) ==> after <= image@.len(),
{
    if at >= image.len() {
        return Err(Flaw::Reported);
    }
    match read_run(image, at + 1, image[at] as usize, false) {
        Err(flaw) => Err(flaw),
        Ok((_, next)) => Ok(next),
    }
}

/// The position behind the source lines of `n` instructions. `line` is the line that the first
/// entry counts from.
pub open spec fn source_lines(image: Seq<u8>, at: int, n: int, line: int) -> Result<int, Flaw>
    decreases image.len() - at,
{
    if n <= 0 {
        Ok(at)
    } else if at >= image.len() {
        Err(Flaw::Reported)
    } else {
        let c = image[at] as int;
        if c % 2 == 1 {
            if at + 1 >= image.len() {
                Err(Flaw::Reported)
            } else {
                source_lines(image, at + 2, n, line)
            }
        } else if (c / 2) % 2 == 1 {
            if line + c / 64 > i32::MAX {
                Err(Flaw::Fatal)
            } else {
                source_lines(image, at + 1, n - (c / 4) % 16, line + c / 64)
            }
        } else if (c / 4) % 2 == 1 {
            if line + c / 8 > i32::MAX {
                Err(Flaw::Fatal)
            } else {
                source_lines(image, at + 1, n - 1, line + c / 8)
            }
        } else if at + 2 >= image.len() {
            Err(Flaw::Reported)
        } else {
            source_lines(
                image,
                at + 3,
                n - 1,
                c / 8 + image[at + 1] * 0x20 + image[at + 2] * 0x2000,
            )
        }
    }
}

/// Goes past the source lines of the instructions of a function.
pub(crate) fn pass_source_lines(image: &[u8], from: usize, n: i32) -> (next: Result<usize, Flaw>)
    requires
        from <= image@.len(),
        n >= 0,
    ensures
        placed(next) == source_lines(image@, from as int, n as int, 0),
        next matches Ok(after) ==> after <= image@.len(),
{
    let mut at: usize = from;
    let mut left: i32 = n;
    let mut line: i32 = 0;
    while left > 0
        invariant
            at <= image@.len(),
            0 <= line,
            -16 <= left,
            source_lines(image@, from as int, n as int, 0) == source_lines(
                image@,
                at as int,
                left as int,
                line as int,
            ),
        decreases image@.len() - at,
    {
        let rest = image.len() - at;
        if rest == 0 {
            return Err(Flaw::Reported);
        }
        let c = image[at] as i32;
        if c % 2 == 1 {
            if rest < 2 {
                return Err(Flaw::Reported);
            }
            at = at + 2;
        } else if (c / 2) % 2 == 1 {
            if line > i32::MAX - c / 64 {
                return Err(Flaw::Fatal);
            }
            left = left - (c / 4) % 16;
            line = line + c / 64;
            at = at + 1;
        } else if (c / 4) % 2 == 1 {
            if line > i32::MAX - c / 8 {
                return Err(Flaw::Fatal);
            }
            left = left - 1;
            line = line + c / 8;
            at = at + 1;
        } else {
            if rest < 3 {
                return Err(Flaw::Reported);
            }
            left = left - 1;
            line = c / 8 + image[at + 1] as i32 * 0x20 + image[at + 2] as i32 * 0x2000;
            at = at + 3;
        }
    }
    Ok(at)
}

/// The position behind what there is for debugging of a function of `n` instructions.
pub open spec fn debug_part(image: Seq<u8>, at: int, n: int, version: u8) -> Result<int, Flaw> {
    match source_lines(image, at, n, 0) {
        Err(flaw) => Err(flaw),
        Ok(a) => if version < 3 {
            Ok(a)
        } else {
            field_list(image, a)
        },
    }
}

/// The number of the function at `at`, and the position behind it.
pub open spec fn function(image: Seq<u8>, at: int, debug: bool, version: u8) -> Result<
    (i32, int),
    Flaw,
> {
    match run(image, at, 2, false, Seq::empty()) {
        Err(flaw) => Err(flaw),
        Ok((head, a)) => match run(image, a, 2, true, Seq::empty()) {
            Err(flaw) => Err(flaw),
            Ok((sizes, b)) => match numbers(image, b, sizes[0] as int) {
                Err(flaw) => Err(flaw),
                Ok((_, c)) => if sizes[1] > image.len() - c {
                    Err(Flaw::Fatal)
                } else {
                    match instructions(image, c, sizes[1] as int) {
                        Err(flaw) => Err(flaw),
                        Ok(d) => if !debug {
                            Ok((head[1], d))
                        } else {
                            match debug_part(image, d, sizes[1] as int, version) {
                                Err(flaw) => Err(flaw),
                                Ok(next) => Ok((head[1], next)),
                            }
                        },
                    }
                },
            },
        },
    }
}

/// Goes past instructions.
pub(crate) fn pass_instructions(image: &[u8], from: usize, n: i32) -> (next: Result<usize, Flaw>)
    requires
        from <= image@.len(),
    ensures
        placed(next) == instructions(image@, from as int, n as int),
        next matches Ok(after) ==> after <= image@.len(),
{
    let mut at: usize = from;
    let mut left: i32 = n;
    while left > 0
        invariant
            at <= image@.len(),
            instructions(image@, from as int, n as int) == instructions(
                image@,
                at as int,
                left as int,
            ),
        decreases left,
    {
        match pass_instruction(image, at) {
            Err(flaw) => {
                return Err(flaw);
            },
            Ok(next) => {
                at = next;
                left = left - 1;
            },
        }
    }
    Ok(at)
}

/// Reads the number of a function, and goes past the function.
pub(crate) fn read_function(image: &[u8], at: usize, debug: bool, version: u8) -> (found: Result<
    (i32, usize),
    Flaw,
>)
    requires
        at <= image@.len(),
    ensures
        number_placed(found) == function(image@, at as int, debug, version),
        found matches Ok((_, next)) ==> next <= image@.len(),
{
    let (head, a) = match read_run(image, at, 2, false) {
        Ok(found) => found,
        Err(flaw) => {
            return Err(flaw);
        },
    };
    let (sizes, b) = match read_run(image, a, 2, true) {
        Ok(found) => found,
        Err(flaw) => {
            return Err(flaw);
        },
    };
    let (_, c) = match read_entries(image, b, 1, sizes[0]) {
        Ok(found) => found,
        Err(flaw) => {
            return Err(flaw);
        },
    };
    if sizes[1] as u64 > (image.len() - c) as u64 {
        return Err(Flaw::Fatal);
    }
    let d = match pass_instructions(image, c, sizes[1]) {
        Ok(next) => next,
        Err(flaw) => {
            return Err(flaw);
        },
    };
    if !debug {
        return Ok((head[1], d));
    }
    let e = match pass_source_lines(image, d, sizes[1]) {
        Ok(next) => next,
        Err(flaw) => {
            return Err(flaw);
        },
    };
    if version < 3 {
        return Ok((head[1], e));
    }
    match pass_field_list(image, e) {
        Err(flaw) => Err(flaw),
        Ok(next) => Ok((head[1], next)),
    }
}

/// The numbers of the `n` functions at `at`, after those in `got`, and the position behind them.
pub open spec fn functions(
    image: Seq<u8>,
    at: int,
    n: int,
    debug: bool,
    version: u8,
    got: Seq<i32>,
) -> Result<(Seq<i32>, int), Flaw>
    decreases n,
{
    if n <= 0 {
        Ok((got, at))
    } else {
        match function(image, at, debug, version) {
            Err(flaw) => Err(flaw),
            Ok((findex, next)) => functions(image, next, n - 1, debug, version, got.push(findex)),
        }
    }
}

/// Reads the numbers of functions.
pub(crate) fn read_functions(image: &[u8], from: usize, n: i32, debug: bool, version: u8) -> (found: Result<
    (Vec<i32>, usize),
    Flaw,
>)
    requires
        from <= image@.len(),
    ensures
        numbers_placed(found) == functions(
            image@,
            from as int,
            n as int,
            debug,
            version,
            Seq::empty(),
        ),
        found matches Ok((_, next)) ==> next <= image@.len(),
{
    let mut got: Vec<i32> = Vec::new();
    let mut at: usize = from;
    let mut left: i32 = n;
    while left > 0
        invariant
            at <= image@.len(),
            functions(image@, from as int, n as int, debug, version, Seq::empty()) == functions(
                image@,
                at as int,
                left as int,
                debug,
                version,
                got@,
            ),
        decreases left,
    {
        match read_function(image, at, debug, version) {
            Err(flaw) => {
                return Err(flaw);
            },
            Ok((findex, next)) => {
                got.push(findex);
                at = next;
                left = left - 1;
            },
        }
    }
    Ok((got, at))
}

/// The position behind `n` constants.
pub open spec fn constants(image: Seq<u8>, at: int, n: int) -> Result<int, Flaw>
    decreases n,
{
    if n <= 0 {
        Ok(at)
    } else {
        match number(image, at) {
            Err(flaw) => Err(flaw),
            Ok((_, a)) => match natural(image, a) {
                Err(flaw) => Err(flaw),
                Ok((fields, b)) => match naturals(image, b, fields as int) {
                    Err(flaw) => Err(flaw),
                    Ok((_, next)) => constants(image, next, n - 1),
                },
            },
        }
    }
}

/// Goes past constants.
pub(crate) fn pass_constants(image: &[u8], from: usize, n: i32) -> (next: Result<usize, Flaw>)
    requires
        from <= image@.len(),
    ensures
        placed(next) == constants(image@, from as int, n as int),
        next matches Ok(after) ==> after <= image@.len(),
{
    let mut at: usize = from;
    let mut left: i32 = n;
    while left > 0
        invariant
            at <= image@.len(),
            constants(image@, from as int, n as int) == constants(image@, at as int, left as int),
        decreases left,
    {
        let (_, a) = match read_number(image, at) {
            Ok(found) => found,
            Err(flaw) => {
                return Err(flaw);
            },
        };
        let (fields, b) = match read_natural(image, a) {
            Ok(found) => found,
            Err(flaw) => {
                return Err(flaw);
            },
        };
        if fields as u64 > (image.len() - b) as u64 {
            return Err(Flaw::Fatal);
        }
        match read_naturals(image, b, fields as usize) {
            Err(flaw) => {
                return Err(flaw);
            },
            Ok((_, next)) => {
                at = next;
                left = left - 1;
            },
        }
    }
    Ok(at)
}

} // verus!
