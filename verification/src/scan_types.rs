//! Types in the bytes of `hlboot.dat`.

use vstd::prelude::*;
use crate::scan::{
    field_list, natural, number, numbers, one_number, pass_field_list, pass_number, placed,
    read_entries, read_natural, read_number, read_run, run, Flaw,
};

verus! {

/// What a class refers to.
#[derive(Debug)]
pub struct Record {
    /// The type it extends; none if negative.
    pub parent: i32,
    /// The name and the type of each of its own fields.
    pub fields: Vec<i32>,
    /// The name, the function and the slot of each of its methods.
    pub protos: Vec<i32>,
    /// The field and the function of each of its bindings.
    pub bindings: Vec<i32>,
}

/// What a [`Record`] holds.
#[verifier::ext_equal]
pub struct RecordView {
    pub parent: i32,
    pub fields: Seq<i32>,
    pub protos: Seq<i32>,
    pub bindings: Seq<i32>,
}

impl View for Record {
    type V = RecordView;

    open spec fn view(&self) -> RecordView {
        RecordView {
            parent: self.parent,
            fields: self.fields@,
            protos: self.protos@,
            bindings: self.bindings@,
        }
    }
}

impl RecordView {
    /// The lists hold whole entries.
    pub open spec fn whole(self) -> bool {
        &&& self.fields.len() % 2 == 0
        &&& self.protos.len() % 3 == 0
        &&& self.bindings.len() % 2 == 0
    }
}

/// The class at `at`, and the position behind it.
pub open spec fn class(image: Seq<u8>, at: int) -> Result<(RecordView, int), Flaw> {
    match run(image, at, 3, false, Seq::empty()) {
        Err(flaw) => Err(flaw),
        Ok((head, a)) => match run(image, a, 3, true, Seq::empty()) {
            Err(flaw) => Err(flaw),
            Ok((sizes, b)) => match numbers(image, b, 2 * sizes[0]) {
                Err(flaw) => Err(flaw),
                Ok((fields, c)) => match numbers(image, c, 3 * sizes[1]) {
                    Err(flaw) => Err(flaw),
                    Ok((protos, d)) => match numbers(image, d, 2 * sizes[2]) {
                        Err(flaw) => Err(flaw),
                        Ok((bindings, e)) => Ok(
                            (RecordView { parent: head[1], fields, protos, bindings }, e),
                        ),
                    },
                },
            },
        },
    }
}

/// The record of a type, if it has one.
pub open spec fn record_view(record: Option<Record>) -> Option<RecordView> {
    match record {
        Some(r) => Some(r@),
        None => None,
    }
}

/// Reads a class.
pub(crate) fn read_class(image: &[u8], at: usize) -> (found: Result<(Record, usize), Flaw>)
    requires
        at <= image@.len(),
    ensures
        match found {
            Ok((record, next)) => class(image@, at as int) == Ok::<(RecordView, int), Flaw>(
                (record@, next as int),
            ) && record@.whole() && next <= image@.len(),
            Err(flaw) => class(image@, at as int) == Err::<(RecordView, int), Flaw>(flaw),
        },
{
    let (head, a) = match read_run(image, at, 3, false) {
        Ok(found) => found,
        Err(flaw) => {
            return Err(flaw);
        },
    };
    let (sizes, b) = match read_run(image, a, 3, true) {
        Ok(found) => found,
        Err(flaw) => {
            return Err(flaw);
        },
    };
    let (fields, c) = match read_entries(image, b, 2, sizes[0]) {
        Ok(found) => found,
        Err(flaw) => {
            return Err(flaw);
        },
    };
    let (protos, d) = match read_entries(image, c, 3, sizes[1]) {
        Ok(found) => found,
        Err(flaw) => {
            return Err(flaw);
        },
    };
    let (bindings, e) = match read_entries(image, d, 2, sizes[2]) {
        Ok(found) => found,
        Err(flaw) => {
            return Err(flaw);
        },
    };
    Ok((Record { parent: head[1], fields, protos, bindings }, e))
}

/// The position behind a function signature.
pub open spec fn signature(image: Seq<u8>, at: int) -> Result<int, Flaw> {
    if at >= image.len() {
        Err(Flaw::Reported)
    } else {
        match run(image, at + 1, image[at] + 1, false, Seq::empty()) {
            Err(flaw) => Err(flaw),
            Ok((_, next)) => Ok(next),
        }
    }
}

/// The position behind `n` constructs of an enumeration.
pub open spec fn constructs(image: Seq<u8>, at: int, n: int) -> Result<int, Flaw>
    decreases n,
{
    if n <= 0 {
        Ok(at)
    } else {
        match number(image, at) {
            Err(flaw) => Err(flaw),
            Ok((_, a)) => match natural(image, a) {
                Err(flaw) => Err(flaw),
                Ok((params, b)) => match numbers(image, b, params as int) {
                    Err(flaw) => Err(flaw),
                    Ok((_, next)) => constructs(image, next, n - 1),
                },
            },
        }
    }
}

/// The position behind an enumeration.
pub open spec fn enumeration(image: Seq<u8>, at: int) -> Result<int, Flaw> {
    match run(image, at, 2, false, Seq::empty()) {
        Err(flaw) => Err(flaw),
        Ok((_, a)) => match natural(image, a) {
            Err(flaw) => Err(flaw),
            Ok((n, b)) => if n > image.len() - b {
                Err(Flaw::Fatal)
            } else {
                constructs(image, b, n as int)
            },
        },
    }
}

/// A type that refers to nothing by which the program is put together.
pub open spec fn plain(next: Result<int, Flaw>) -> Result<(Option<RecordView>, int), Flaw> {
    match next {
        Err(flaw) => Err(flaw),
        Ok(after) => Ok((None, after)),
    }
}

/// The type at `at`, and the position behind it.
pub open spec fn one_type(image: Seq<u8>, at: int) -> Result<(Option<RecordView>, int), Flaw> {
    if at >= image.len() {
        Err(Flaw::Reported)
    } else {
        let kind = image[at];
        if kind <= 9 || kind == 12 || kind == 13 || kind == 16 {
            Ok((None, at + 1))
        } else if kind == 10 || kind == 20 {
            plain(signature(image, at + 1))
        } else if kind == 11 || kind == 21 {
            match class(image, at + 1) {
                Err(flaw) => Err(flaw),
                Ok((record, next)) => Ok((Some(record), next)),
            }
        } else if kind == 14 || kind == 17 || kind == 19 || kind == 22 {
            plain(one_number(image, at + 1))
        } else if kind == 15 {
            plain(field_list(image, at + 1))
        } else if kind == 18 {
            plain(enumeration(image, at + 1))
        } else {
            Err(Flaw::Reported)
        }
    }
}

/// Goes past a function signature.
pub(crate) fn pass_signature(image: &[u8], at: usize) -> (next: Result<usize, Flaw>)
    requires
        at <= image@.len(),
    ensures
        placed(next) == signature(image@, at as int),
        next matches Ok(after) ==> after <= image@.len(),
{
    if at >= image.len() {
        return Err(Flaw::Reported);
    }
    match read_run(image, at + 1, image[at] as usize + 1, false) {
        Err(flaw) => Err(flaw),
        Ok((_, next)) => Ok(next),
    }
}

/// Goes past an enumeration.
pub(crate) fn pass_enumeration(image: &[u8], from: usize) -> (next: Result<usize, Flaw>)
    requires
        from <= image@.len(),
    ensures
        placed(next) == enumeration(image@, from as int),
        next matches Ok(after) ==> after <= image@.len(),
{
    let (_, a) = match read_run(image, from, 2, false) {
        Ok(found) => found,
        Err(flaw) => {
            return Err(flaw);
        },
    };
    let (n, start) = match read_natural(image, a) {
        Ok(found) => found,
        Err(flaw) => {
            return Err(flaw);
        },
    };
    if n as u64 > (image.len() - start) as u64 {
        return Err(Flaw::Fatal);
    }
    let mut at: usize = start;
    for k in 0..n
        invariant
            at <= image@.len(),
            enumeration(image@, from as int) == constructs(image@, at as int, n - k),
    {
        let (_, b) = match read_number(image, at) {
            Ok(found) => found,
            Err(flaw) => {
                return Err(flaw);
            },
        };
        let (params, c) = match read_natural(image, b) {
            Ok(found) => found,
            Err(flaw) => {
                return Err(flaw);
            },
        };
        match read_entries(image, c, 1, params) {
            Ok((_, next)) => {
                at = next;
            },
            Err(flaw) => {
                return Err(flaw);
            },
        }
    }
    Ok(at)
}

/// Reads a type.
pub(crate) fn read_type(image: &[u8], at: usize) -> (found: Result<(Option<Record>, usize), Flaw>)
    requires
        at <= image@.len(),
    ensures
        match found {
            Ok((record, next)) => one_type(image@, at as int) == Ok::<
                (Option<RecordView>, int),
                Flaw,
            >((record_view(record), next as int)) && next <= image@.len() && (
            record matches Some(r) ==> r@.whole()),
            Err(flaw) => one_type(image@, at as int) == Err::<(Option<RecordView>, int), Flaw>(
                flaw,
            ),
        },
{
    if at >= image.len() {
        return Err(Flaw::Reported);
    }
    let kind = image[at];
    if kind <= 9 || kind == 12 || kind == 13 || kind == 16 {
        return Ok((None, at + 1));
    }
    if kind == 11 || kind == 21 {
        return match read_class(image, at + 1) {
            Err(flaw) => Err(flaw),
            Ok((record, next)) => Ok((Some(record), next)),
        };
    }
    let next = if kind == 10 || kind == 20 {
        pass_signature(image, at + 1)
    } else if kind == 14 || kind == 17 || kind == 19 || kind == 22 {
        pass_number(image, at + 1)
    } else if kind == 15 {
        pass_field_list(image, at + 1)
    } else if kind == 18 {
        pass_enumeration(image, at + 1)
    } else {
        Err(Flaw::Reported)
    };
    match next {
        Err(flaw) => Err(flaw),
        Ok(after) => Ok((None, after)),
    }
}

/// The `n` types at `at`, after those in `got`, and the position behind them.
pub open spec fn types_at(image: Seq<u8>, at: int, n: int, got: Seq<Option<RecordView>>) -> Result<
    (Seq<Option<RecordView>>, int),
    Flaw,
>
    decreases n,
{
    if n <= 0 {
        Ok((got, at))
    } else {
        match one_type(image, at) {
            Err(flaw) => Err(flaw),
            Ok((record, next)) => types_at(image, next, n - 1, got.push(record)),
        }
    }
}

/// The records of several types.
pub open spec fn records_view(records: Seq<Option<Record>>) -> Seq<Option<RecordView>> {
    Seq::new(records.len(), |i: int| record_view(records[i]))
}

/// The records hold whole entries.
pub open spec fn all_whole(records: Seq<Option<RecordView>>) -> bool {
    forall|i: int| 0 <= i < records.len() ==> ((#[trigger] records[i]) matches Some(r) ==> r.whole())
}

/// Reads types.
pub(crate) fn read_types(image: &[u8], from: usize, n: usize) -> (found: Result<
    (Vec<Option<Record>>, usize),
    Flaw,
>)
    requires
        from <= image@.len(),
    ensures
        match found {
            Ok((records, next)) => types_at(image@, from as int, n as int, Seq::empty()) == Ok::<
                (Seq<Option<RecordView>>, int),
                Flaw,
            >((records_view(records@), next as int)) && next <= image@.len() && all_whole(
                records_view(records@),
            ),
            Err(flaw) => types_at(image@, from as int, n as int, Seq::empty()) == Err::<
                (Seq<Option<RecordView>>, int),
                Flaw,
            >(flaw),
        },
{
    let mut records: Vec<Option<Record>> = Vec::new();
    let mut at: usize = from;
    assert(records_view(records@) =~= Seq::empty());
    for k in 0..n
        invariant
            at <= image@.len(),
            all_whole(records_view(records@)),
            types_at(image@, from as int, n as int, Seq::empty()) == types_at(
                image@,
                at as int,
                n - k,
                records_view(records@),
            ),
    {
        match read_type(image, at) {
            Err(flaw) => {
                return Err(flaw);
            },
            Ok((record, next)) => {
                let ghost before = records_view(records@);
                records.push(record);
                assert(records_view(records@) =~= before.push(record_view(record)));
                at = next;
            },
        }
    }
    Ok((records, at))
}

} // verus!
