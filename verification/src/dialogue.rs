//! What the tool makes of what is typed at it.

use vstd::prelude::*;
use crate::text::{chars_of, same_text, text_of, trim, trimmed};

verus! {

/// A letter in lower case, if it is one of the ASCII letters.
pub open spec fn lower(c: char) -> char {
    if 'A' <= c <= 'Z' {
        ((c as u32) + 32) as char
    } else {
        c
    }
}

/// Two texts that differ in the case of ASCII letters at most.
pub open spec fn same_but_case(a: Seq<char>, b: Seq<char>) -> bool {
    &&& a.len() == b.len()
    &&& forall|i: int| 0 <= i < a.len() ==> lower(#[trigger] a[i]) == lower(b[i])
}

/// A letter in lower case.
fn to_lower(c: char) -> (l: char)
    ensures
        l == lower(c),
{
    if 'A' <= c && c <= 'Z' {
        ((c as u8) + 32) as char
    } else {
        c
    }
}

/// Whether two texts differ in the case of ASCII letters at most.
pub fn same_ignoring_case(a: &[char], b: &[char]) -> (same: bool)
    ensures
        same == same_but_case(a@, b@),
{
    if a.len() != b.len() {
        return false;
    }
    for i in 0..a.len()
        invariant
            a@.len() == b@.len(),
            forall|j: int| 0 <= j < i ==> lower(#[trigger] a@[j]) == lower(b@[j]),
    {
        if to_lower(a[i]) != to_lower(b[i]) {
            return false;
        }
    }
    true
}

/// An answer that says yes, or nothing at all.
pub open spec fn agrees(line: Seq<char>) -> bool {
    let answer = trimmed(line);
    answer.len() == 0 || same_but_case(answer, "y"@) || same_but_case(answer, "yes"@)
}

/// Whether an answer says yes, or nothing at all.
fn is_agreement(line: &str) -> (yes: bool)
    ensures
        yes == agrees(line@),
{
    let answer = trim(chars_of(line).as_slice());
    answer.len() == 0 || same_ignoring_case(answer.as_slice(), chars_of("y").as_slice())
        || same_ignoring_case(answer.as_slice(), chars_of("yes").as_slice())
}

/// The search for the folder of the game, as far as it has come.
#[derive(Debug)]
pub enum Search {
    /// The game was found in this folder: is it the right one?
    Confirming(String),
    /// Which folder is the game in?
    Asking,
    /// Is there an `hlboot.dat` in this folder?
    Checking(String),
    /// This is the folder.
    Chosen(String),
    /// The search has been called off.
    Cancelled,
}

/// What a [`Search`] says.
#[verifier::ext_equal]
pub enum SearchView {
    Confirming(Seq<char>),
    Asking,
    Checking(Seq<char>),
    Chosen(Seq<char>),
    Cancelled,
}

impl View for Search {
    type V = SearchView;

    open spec fn view(&self) -> SearchView {
        match *self {
            Search::Confirming(dir) => SearchView::Confirming(dir@),
            Search::Asking => SearchView::Asking,
            Search::Checking(dir) => SearchView::Checking(dir@),
            Search::Chosen(dir) => SearchView::Chosen(dir@),
            Search::Cancelled => SearchView::Cancelled,
        }
    }
}

impl SearchView {
    /// The search after a line has been typed.
    pub open spec fn typed(self, line: Seq<char>) -> SearchView {
        match self {
            SearchView::Confirming(dir) => if agrees(line) {
                SearchView::Chosen(dir)
            } else {
                SearchView::Asking
            },
            SearchView::Asking => if trimmed(line).len() == 0 {
                SearchView::Cancelled
            } else {
                SearchView::Checking(trimmed(line))
            },
            other => other,
        }
    }

    /// The search after the folder has been looked into.
    pub open spec fn checked(self, has_game: bool) -> SearchView {
        match self {
            SearchView::Checking(dir) => if has_game {
                SearchView::Chosen(dir)
            } else {
                SearchView::Asking
            },
            other => other,
        }
    }
}

/// Begins the search, with the folder that was found without asking, if there is one.
pub fn begin_search(found: Option<String>) -> (search: Search)
    ensures
        search@ == match found {
            Some(dir) => SearchView::Confirming(dir@),
            None => SearchView::Asking,
        },
{
    match found {
        Some(dir) => Search::Confirming(dir),
        None => Search::Asking,
    }
}

impl Search {
    /// Goes on after a line has been typed.
    pub fn on_line(self, line: &str) -> (next: Search)
        ensures
            next@ == self@.typed(line@),
    {
        match self {
            Search::Confirming(dir) => {
                if is_agreement(line) {
                    Search::Chosen(dir)
                } else {
                    Search::Asking
                }
            },
            Search::Asking => {
                let answer = trim(chars_of(line).as_slice());
                if answer.len() == 0 {
                    Search::Cancelled
                } else {
                    Search::Checking(text_of(answer.as_slice()))
                }
            },
            Search::Checking(dir) => Search::Checking(dir),
            Search::Chosen(dir) => Search::Chosen(dir),
            Search::Cancelled => Search::Cancelled,
        }
    }

    /// Goes on after the folder has been looked into.
    pub fn on_checked(self, has_game: bool) -> (next: Search)
        ensures
            next@ == self@.checked(has_game),
    {
        match self {
            Search::Checking(dir) => {
                if has_game {
                    Search::Chosen(dir)
                } else {
                    Search::Asking
                }
            },
            Search::Confirming(dir) => Search::Confirming(dir),
            Search::Asking => Search::Asking,
            Search::Chosen(dir) => Search::Chosen(dir),
            Search::Cancelled => Search::Cancelled,
        }
    }
}

/// A folder is chosen only where it was found without asking and confirmed, or where an
/// `hlboot.dat` was found in it.
pub proof fn law_chosen_folder_is_confirmed_or_checked(
    search: SearchView,
    dir: Seq<char>,
    line: Seq<char>,
    has_game: bool,
)
    requires
        search != SearchView::Chosen(dir),
    ensures
        search.typed(line) == SearchView::Chosen(dir) <==> search == SearchView::Confirming(dir)
            && agrees(line),
        search.checked(has_game) == SearchView::Chosen(dir) <==> search == SearchView::Checking(dir)
            && has_game,
{
}

/// What was chosen from the menu.
#[derive(Clone, Copy, Debug, PartialEq, Eq, Structural)]
pub enum Choice {
    Apply,
    Restore,
    Exit,
    /// Nothing that the menu offers.
    Invalid,
}

/// What a line means as a choice from the menu.
pub open spec fn choice_of(line: Seq<char>) -> Choice {
    let answer = trimmed(line);
    if answer == "1"@ {
        Choice::Apply
    } else if answer == "2"@ {
        Choice::Restore
    } else if answer == "3"@ || answer.len() == 0 {
        Choice::Exit
    } else {
        Choice::Invalid
    }
}

/// Reads a choice from the menu.
pub fn menu_choice(line: &str) -> (choice: Choice)
    ensures
        choice == choice_of(line@),
{
    let answer = text_of(trim(chars_of(line).as_slice()).as_slice());
    if same_text(answer.as_str(), "1") {
        Choice::Apply
    } else if same_text(answer.as_str(), "2") {
        Choice::Restore
    } else if same_text(answer.as_str(), "3") || same_text(answer.as_str(), "") {
        proof {
            reveal_strlit("");
            assert(""@.len() == 0);
        }
        Choice::Exit
    } else {
        proof {
            reveal_strlit("");
            if answer@.len() == 0 {
                assert(answer@ =~= ""@);
            }
        }
        Choice::Invalid
    }
}

} // verus!
