//! Replacing a file as a whole.
//!
//! New contents go to a file of their own first, beside the one that they are for, and take its
//! name once they are complete. Several processes may do so at once, without knowing of each
//! other: whichever comes last wins, and nobody ever finds half a file.

use vstd::prelude::*;
use crate::text::joined;

verus! {

/// What comes next in replacing a file.
#[derive(Clone, Copy, Debug, PartialEq, Eq, Structural)]
pub enum Progress {
    /// Write the new contents to the file beside.
    Writing,
    /// Give the file beside the name of the target.
    Renaming,
    /// Something failed: remove the file beside.
    Removing,
    /// The target has been replaced.
    Done,
    /// The target has not been replaced.
    Failed,
}

impl Progress {
    /// What comes next, once what came next has been tried.
    pub open spec fn next(self, succeeded: bool) -> Progress {
        match self {
            Progress::Writing => if succeeded {
                Progress::Renaming
            } else {
                Progress::Removing
            },
            Progress::Renaming => if succeeded {
                Progress::Done
            } else {
                Progress::Removing
            },
            Progress::Removing => Progress::Failed,
            Progress::Done => Progress::Done,
            Progress::Failed => Progress::Failed,
        }
    }

    /// Goes on, once what came next has been tried. That the file beside could not be removed is
    /// no matter: it is only left over.
    pub fn on_tried(self, succeeded: bool) -> (next: Progress)
        ensures
            next == self.next(succeeded),
    {
        match self {
            Progress::Writing => if succeeded {
                Progress::Renaming
            } else {
                Progress::Removing
            },
            Progress::Renaming => if succeeded {
                Progress::Done
            } else {
                Progress::Removing
            },
            Progress::Removing => Progress::Failed,
            Progress::Done => Progress::Done,
            Progress::Failed => Progress::Failed,
        }
    }
}

/// Someone who replaces the target: the new contents, what comes next, and what is in the file
/// beside, if there is one.
pub struct Writer {
    pub data: Seq<u8>,
    pub progress: Progress,
    pub beside: Option<Seq<u8>>,
}

/// A target that several writers replace, each with a file beside of its own.
pub struct Folder {
    pub target: Option<Seq<u8>>,
    pub writers: Seq<Writer>,
}

impl Folder {
    /// The folder after the `k`-th writer has tried what came next. `left` is what a failed
    /// attempt to write left behind.
    pub open spec fn tried(self, k: int, succeeded: bool, left: Option<Seq<u8>>) -> Folder {
        let w = self.writers[k];
        let target = if w.progress is Renaming && succeeded {
            w.beside
        } else {
            self.target
        };
        let beside = match w.progress {
            Progress::Writing => if succeeded {
                Some(w.data)
            } else {
                left
            },
            Progress::Renaming | Progress::Removing => if succeeded {
                None
            } else {
                w.beside
            },
            _ => w.beside,
        };
        let after = Writer { progress: w.progress.next(succeeded), beside, ..w };
        Folder { target, writers: self.writers.update(k, after) }
    }

    /// Every writer is where it can be. The target is as it was at first (`before`), or is the
    /// whole of what some writer wrote.
    pub open spec fn whole(self, before: Option<Seq<u8>>) -> bool {
        &&& forall|k: int|
            0 <= k < self.writers.len() ==> match (#[trigger] self.writers[k]).progress {
                Progress::Writing | Progress::Done => self.writers[k].beside is None,
                Progress::Renaming => self.writers[k].beside == Some(self.writers[k].data),
                _ => true,
            }
        &&& self.target == before || exists|k: int|
            0 <= k < self.writers.len() && self.target == Some((#[trigger] self.writers[k]).data)
        &&& (exists|k: int|
            0 <= k < self.writers.len() && (#[trigger] self.writers[k]).progress is Done)
            ==> exists|k: int|
            0 <= k < self.writers.len() && self.target == Some((#[trigger] self.writers[k]).data)
    }
}

/// Before anyone has done anything, everything is whole.
pub proof fn law_target_is_whole_at_first(before: Option<Seq<u8>>, contents: Seq<Seq<u8>>)
    ensures
        at_first(before, contents).whole(before),
{
}

/// The target is never torn: whatever any of the writers does next, and whether that succeeds or
/// fails, the target is as it was at first, or is the whole of what one of them wrote. It is the
/// whole of what one of them wrote as soon as one is done, and whoever is done has left no file
/// behind.
pub proof fn law_target_is_never_torn(
    folder: Folder,
    before: Option<Seq<u8>>,
    k: int,
    succeeded: bool,
    left: Option<Seq<u8>>,
)
    requires
        folder.whole(before),
        0 <= k < folder.writers.len(),
    ensures
        folder.tried(k, succeeded, left).whole(before),
{
    let after = folder.tried(k, succeeded, left);
    assert forall|j: int| 0 <= j < folder.writers.len() implies (
    #[trigger] after.writers[j]).data == folder.writers[j].data by {}
    let w = folder.writers[k];
    if w.progress is Renaming && succeeded {
        assert(after.target == Some(after.writers[k].data));
    } else {
        if exists|j: int|
            0 <= j < folder.writers.len() && folder.target == Some(
                (#[trigger] folder.writers[j]).data,
            ) {
            let j = choose|j: int|
                0 <= j < folder.writers.len() && folder.target == Some(
                    (#[trigger] folder.writers[j]).data,
                );
            assert(after.target == Some(after.writers[j].data));
        }
        if exists|j: int| 0 <= j < after.writers.len() && (#[trigger] after.writers[j]).progress
            is Done {
            let j = choose|j: int|
                0 <= j < after.writers.len() && (#[trigger] after.writers[j]).progress is Done;
            assert(folder.writers[j].progress is Done);
        }
    }
}

/// How often the `k`-th writer has had a turn.
pub open spec fn turns(steps: Seq<int>, k: int) -> nat
    decreases steps.len(),
{
    if steps.len() == 0 {
        0
    } else {
        turns(steps.drop_last(), k) + if steps.last() == k {
            1nat
        } else {
            0
        }
    }
}

impl Folder {
    /// The folder after the writers have had their turns, in this order, and nothing has failed.
    pub open spec fn acted(self, steps: Seq<int>) -> Folder
        decreases steps.len(),
    {
        if steps.len() == 0 {
            self
        } else {
            self.acted(steps.drop_last()).tried(steps.last(), true, None)
        }
    }
}

/// A folder whose writers are about to start.
pub open spec fn at_first(before: Option<Seq<u8>>, contents: Seq<Seq<u8>>) -> Folder {
    Folder {
        target: before,
        writers: Seq::new(
            contents.len(),
            |k: int| Writer { data: contents[k], progress: Progress::Writing, beside: None },
        ),
    }
}

/// Where nothing fails, every writer succeeds, whatever the others do in between: after two turns it
/// is done, and has left no file behind. The target is then the whole of what one of the writers
/// wrote.
pub proof fn law_every_writer_succeeds(
    before: Option<Seq<u8>>,
    contents: Seq<Seq<u8>>,
    steps: Seq<int>,
)
    requires
        forall|i: int| 0 <= i < steps.len() ==> 0 <= #[trigger] steps[i] < contents.len(),
    ensures
        ({
            let after = at_first(before, contents).acted(steps);
            &&& after.writers.len() == contents.len()
            &&& after.whole(before)
            &&& forall|k: int|
                0 <= k < contents.len() ==> {
                    &&& (#[trigger] after.writers[k]).data == contents[k]
                    &&& after.writers[k].progress == if turns(steps, k) == 0 {
                        Progress::Writing
                    } else if turns(steps, k) == 1 {
                        Progress::Renaming
                    } else {
                        Progress::Done
                    }
                    &&& turns(steps, k) >= 2 ==> after.writers[k].beside is None
                }
            &&& (exists|k: int| 0 <= k < contents.len() && #[trigger] turns(steps, k) >= 2)
                ==> exists|k: int|
                0 <= k < contents.len() && after.target == Some(#[trigger] contents[k])
        }),
    decreases steps.len(),
{
    let start = at_first(before, contents);
    if steps.len() == 0 {
        law_target_is_whole_at_first(before, contents);
    } else {
        let fewer = steps.drop_last();
        let k = steps.last();
        assert(0 <= steps[steps.len() - 1] < contents.len());
        assert forall|i: int| 0 <= i < fewer.len() implies 0 <= #[trigger] fewer[i]
            < contents.len() by {
            assert(fewer[i] == steps[i]);
        }
        law_every_writer_succeeds(before, contents, fewer);
        law_target_is_never_torn(start.acted(fewer), before, k, true, None);
    }
    let after = start.acted(steps);
    if exists|k: int| 0 <= k < contents.len() && #[trigger] turns(steps, k) >= 2 {
        let k = choose|k: int| 0 <= k < contents.len() && #[trigger] turns(steps, k) >= 2;
        assert(after.writers[k].progress is Done);
        let j = choose|j: int|
            0 <= j < after.writers.len() && after.target == Some((#[trigger] after.writers[j]).data);
        assert(after.target == Some(contents[j]));
    }
}

/// The decimal digits of a number.
pub open spec fn digits(n: nat) -> Seq<char>
    decreases n,
{
    if n < 10 {
        seq![(('0' as u32) + n) as char]
    } else {
        digits(n / 10).push((('0' as u32) + n % 10) as char)
    }
}

/// The name of the file beside: `file_name` is that of the target, the numbers are those of the
/// process and of the present time.
pub open spec fn beside_name(file_name: Seq<char>, process: u32, nanos: u128) -> Seq<char> {
    "."@ + file_name + ".tmp_"@ + digits(process as nat) + "_"@ + digits(nanos as nat)
}

/// Digits are digits.
proof fn lemma_digits(n: nat)
    ensures
        digits(n).len() > 0,
        forall|i: int|
            0 <= i < digits(n).len() ==> '0' as u32 <= (#[trigger] digits(n)[i]) as u32 <= '9' as u32,
    decreases n,
{
    if n >= 10 {
        lemma_digits(n / 10);
    }
}

/// Different numbers have different digits.
proof fn lemma_digits_differ(a: nat, b: nat)
    requires
        digits(a) == digits(b),
    ensures
        a == b,
    decreases a,
{
    lemma_digits(a / 10);
    lemma_digits(b / 10);
    assert(digits(a).last() as u32 == 48 + a % 10);
    assert(digits(b).last() as u32 == 48 + b % 10);
    assert(digits(a).last() == digits(b).last());
    if a >= 10 && b >= 10 {
        assert(digits(a).drop_last() =~= digits(a / 10));
        assert(digits(b).drop_last() =~= digits(b / 10));
        lemma_digits_differ(a / 10, b / 10);
        assert(a == 10 * (a / 10) + a % 10);
        assert(b == 10 * (b / 10) + b % 10);
    } else {
        assert(digits(a).len() == digits(b).len());
    }
}

/// Where one of two sequences starts with digits and then a mark, so does the other.
proof fn lemma_same_number(a: nat, x: Seq<char>, b: nat, y: Seq<char>)
    requires
        digits(a) + "_"@ + x == digits(b) + "_"@ + y,
    ensures
        a == b,
        x == y,
{
    reveal_strlit("_");
    let s = digits(a) + "_"@ + x;
    let n = digits(a).len() as int;
    let k = digits(b).len() as int;
    lemma_digits(a);
    lemma_digits(b);
    assert(s[n] == '_' && s[k] == '_');
    if n < k {
        assert(s[n] == digits(b)[n]);
    }
    if k < n {
        assert(s[k] == digits(a)[k]);
    }
    assert(digits(a) =~= s.take(n));
    assert(digits(b) =~= s.take(k));
    lemma_digits_differ(a, b);
    assert(x =~= s.skip(n + 1));
    assert(y =~= s.skip(k + 1));
}

/// Two processes, or one process at two times, never share a file beside.
pub proof fn law_files_beside_have_names_of_their_own(
    file_name: Seq<char>,
    process: u32,
    nanos: u128,
    other_process: u32,
    other_nanos: u128,
)
    requires
        beside_name(file_name, process, nanos) == beside_name(
            file_name,
            other_process,
            other_nanos,
        ),
    ensures
        process == other_process,
        nanos == other_nanos,
{
    let start = "."@ + file_name + ".tmp_"@;
    let x = digits(process as nat) + "_"@ + digits(nanos as nat);
    let y = digits(other_process as nat) + "_"@ + digits(other_nanos as nat);
    let one = beside_name(file_name, process, nanos);
    assert(one =~= start + x);
    assert(beside_name(file_name, other_process, other_nanos) =~= start + y);
    assert(x =~= one.skip(start.len() as int));
    assert(y =~= one.skip(start.len() as int));
    lemma_same_number(
        process as nat,
        digits(nanos as nat),
        other_process as nat,
        digits(other_nanos as nat),
    );
    lemma_digits_differ(nanos as nat, other_nanos as nat);
}

/// The time by which a process names its next file beside: the present one, or one that is later
/// than the last time that it went by.
pub open spec fn stamp_after(last: Option<u128>, now: u128) -> u128 {
    match last {
        None => now,
        Some(l) => if now > l || l == u128::MAX {
            now
        } else {
            (l + 1) as u128
        },
    }
}

/// No two files beside of one process share a name, even if they are made at the same time: each is
/// named by a later time than all before it. `last` is the time of the one before, `earlier` that of
/// any before.
pub proof fn law_files_of_a_process_have_names_of_their_own(
    file_name: Seq<char>,
    process: u32,
    last: u128,
    earlier: u128,
    now: u128,
)
    requires
        earlier <= last < u128::MAX,
    ensures
        stamp_after(Some(last), now) > last,
        beside_name(file_name, process, stamp_after(Some(last), now)) != beside_name(
            file_name,
            process,
            earlier,
        ),
{
    let stamp = stamp_after(Some(last), now);
    if beside_name(file_name, process, stamp) == beside_name(file_name, process, earlier) {
        law_files_beside_have_names_of_their_own(file_name, process, stamp, process, earlier);
    }
}

/// Finds the time to name the next file beside by.
pub fn next_stamp(last: Option<u128>, now: u128) -> (stamp: u128)
    ensures
        stamp == stamp_after(last, now),
{
    match last {
        None => now,
        Some(l) => if now > l || l == u128::MAX {
            now
        } else {
            l + 1
        },
    }
}

/// Writes a number in decimal digits.
fn decimal(n: u128) -> (text: String)
    ensures
        text@ == digits(n as nat),
    decreases n,
{
    let digit: char = (48 + (n % 10) as u8) as char;
    if n < 10 {
        let mut text = String::new();
        text.push(digit);
        assert(text@ =~= digits(n as nat));
        text
    } else {
        let mut text = decimal(n / 10);
        text.push(digit);
        text
    }
}

/// Names the file beside.
pub fn temp_file_name(file_name: &str, process: u32, nanos: u128) -> (name: String)
    ensures
        name@ == beside_name(file_name@, process, nanos),
{
    let hidden = joined(".", file_name);
    let marked = joined(hidden.as_str(), ".tmp_");
    let by = joined(marked.as_str(), decimal(process as u128).as_str());
    let at = joined(by.as_str(), "_");
    joined(at.as_str(), decimal(nanos).as_str())
}

} // verus!
