//! What is made of lines of text: those of a file, and those that are typed.

use vstd::prelude::*;
use crate::dialogue::{agrees, choice_of, SearchView};
use crate::find_laws::{is_part, law_case_of_letters_makes_no_difference, same_letters};
use crate::lookup::{lemma_first_where, lemma_first_where_is, lemma_first_where_none};
use crate::replace::{beside_name, digits, stamp_after, Folder};
use crate::steam::{
    begins_with, first_with_game, has_game, is_char, library_roots, lines, path_in_line,
    paths_in_lines, unescaped, without_return, Candidate,
};
use crate::text::{is_white, trimmed, trimmed_end, trimmed_start};

verus! {

/// The text is nothing but white space.
pub open spec fn blank(s: Seq<char>) -> bool {
    forall|i: int| 0 <= i < s.len() ==> is_white(#[trigger] s[i])
}

/// The text neither starts nor ends with white space.
pub open spec fn tight(s: Seq<char>) -> bool {
    s.len() > 0 ==> !is_white(s[0]) && !is_white(s.last())
}

/// White space is what Unicode takes for it, and nothing else.
pub proof fn law_white_space_is_that_of_unicode(c: char)
    ensures
        is_white(c) <==> {
            ||| c == ' ' || c == '\t' || c == '\n' || c == '\r'
            ||| c == '\u{b}' || c == '\u{c}' || c == '\u{85}' || c == '\u{a0}' || c == '\u{1680}'
            ||| c == '\u{2000}' || c == '\u{2001}' || c == '\u{2002}' || c == '\u{2003}'
            ||| c == '\u{2004}' || c == '\u{2005}' || c == '\u{2006}' || c == '\u{2007}'
            ||| c == '\u{2008}' || c == '\u{2009}' || c == '\u{200a}' || c == '\u{2028}'
            ||| c == '\u{2029}' || c == '\u{202f}' || c == '\u{205f}' || c == '\u{3000}'
        },
{
}

/// White space before a text is taken away.
proof fn lemma_start(a: Seq<char>, s: Seq<char>)
    requires
        blank(a),
    ensures
        trimmed_start(a + s) == trimmed_start(s),
    decreases a.len(),
{
    if a.len() == 0 {
        assert(a + s =~= s);
    } else {
        assert((a + s)[0] == a[0]);
        assert((a + s).drop_first() =~= a.drop_first() + s);
        assert(blank(a.drop_first())) by {
            assert forall|i: int| 0 <= i < a.drop_first().len() implies is_white(
                #[trigger] a.drop_first()[i],
            ) by {
                assert(a.drop_first()[i] == a[i + 1]);
            }
        }
        lemma_start(a.drop_first(), s);
    }
}

/// White space behind a text is taken away.
proof fn lemma_end(s: Seq<char>, b: Seq<char>)
    requires
        blank(b),
    ensures
        trimmed_end(s + b) == trimmed_end(s),
    decreases b.len(),
{
    if b.len() == 0 {
        assert(s + b =~= s);
    } else {
        assert((s + b).last() == b[b.len() - 1]);
        assert((s + b).drop_last() =~= s + b.drop_last());
        assert(blank(b.drop_last())) by {
            assert forall|i: int| 0 <= i < b.drop_last().len() implies is_white(
                #[trigger] b.drop_last()[i],
            ) by {
                assert(b.drop_last()[i] == b[i]);
            }
        }
        lemma_end(s, b.drop_last());
    }
}

/// What is taken away before a text.
proof fn lemma_taken_before(s: Seq<char>) -> (a: Seq<char>)
    ensures
        blank(a),
        s == a + trimmed_start(s),
        trimmed_start(s).len() > 0 ==> !is_white(trimmed_start(s)[0]),
    decreases s.len(),
{
    if s.len() > 0 && is_white(s[0]) {
        let rest = lemma_taken_before(s.drop_first());
        let a = seq![s[0]] + rest;
        assert(s =~= seq![s[0]] + s.drop_first());
        assert(a + trimmed_start(s) =~= seq![s[0]] + (rest + trimmed_start(s.drop_first())));
        assert forall|i: int| 0 <= i < a.len() implies is_white(#[trigger] a[i]) by {
            if i > 0 {
                assert(a[i] == rest[i - 1]);
            }
        }
        a
    } else {
        assert(Seq::<char>::empty() + s =~= s);
        Seq::empty()
    }
}

/// What is taken away behind a text.
proof fn lemma_taken_behind(s: Seq<char>) -> (b: Seq<char>)
    ensures
        blank(b),
        s == trimmed_end(s) + b,
        trimmed_end(s).len() > 0 ==> !is_white(trimmed_end(s).last()),
    decreases s.len(),
{
    if s.len() > 0 && is_white(s.last()) {
        let rest = lemma_taken_behind(s.drop_last());
        let b = rest.push(s.last());
        assert(s =~= s.drop_last().push(s.last()));
        assert(trimmed_end(s) + b =~= (trimmed_end(s.drop_last()) + rest).push(s.last()));
        assert forall|i: int| 0 <= i < b.len() implies is_white(#[trigger] b[i]) by {
            if i < rest.len() {
                assert(b[i] == rest[i]);
            }
        }
        b
    } else {
        assert(s + Seq::<char>::empty() =~= s);
        Seq::empty()
    }
}

/// Trimming takes away white space before and behind, and all of it: what is left is the one text
/// without any around it from which the whole comes by adding white space.
pub proof fn law_trimming_takes_white_space_away(s: Seq<char>) -> (around: (Seq<char>, Seq<char>))
    ensures
        blank(around.0),
        blank(around.1),
        s == around.0 + trimmed(s) + around.1,
        tight(trimmed(s)),
        forall|a: Seq<char>, t: Seq<char>, b: Seq<char>|
            blank(a) && blank(b) && tight(t) && #[trigger] (a + t + b) == s ==> t == trimmed(s),
{
    let a = lemma_taken_before(s);
    let b = lemma_taken_behind(trimmed_start(s));
    assert(s =~= a + trimmed(s) + b);
    if trimmed(s).len() > 0 {
        assert(trimmed(s)[0] == trimmed_start(s)[0]);
    }
    assert forall|x: Seq<char>, t: Seq<char>, y: Seq<char>|
        blank(x) && blank(y) && tight(t) && #[trigger] (x + t + y) == s implies t == trimmed(s) by {
        assert(s =~= x + (t + y));
        lemma_start(x, t + y);
        if t.len() > 0 {
            assert((t + y)[0] == t[0]);
            lemma_end(t, y);
        } else {
            assert(t + y =~= y);
            lemma_start(y, Seq::empty());
            assert(y + Seq::<char>::empty() =~= y);
        }
    }
    (a, b)
}

/// White space around a text makes no difference to what is left of it.
proof fn lemma_white_around(a: Seq<char>, s: Seq<char>, b: Seq<char>)
    requires
        blank(a),
        blank(b),
    ensures
        trimmed(a + s + b) == trimmed(s),
{
    let (x, y) = law_trimming_takes_white_space_away(s);
    let t = trimmed(s);
    let before = a + x;
    let behind = y + b;
    assert(a + s + b =~= before + t + behind);
    assert forall|i: int| 0 <= i < before.len() implies is_white(#[trigger] before[i]) by {
        if i < a.len() {
            assert(before[i] == a[i]);
        } else {
            assert(before[i] == x[i - a.len()]);
        }
    }
    assert forall|i: int| 0 <= i < behind.len() implies is_white(#[trigger] behind[i]) by {
        if i < y.len() {
            assert(behind[i] == y[i]);
        } else {
            assert(behind[i] == b[i - y.len()]);
        }
    }
    law_trimming_takes_white_space_away(a + s + b);
    assert(before + t + behind == a + s + b);
}

/// A line holds a word: the word, and white space around it.
pub open spec fn holds(line: Seq<char>, word: Seq<char>) -> bool {
    exists|a: Seq<char>, b: Seq<char>|
        blank(a) && blank(b) && #[trigger] (a + word + b) == line
}

/// A line holds a word where the word is left of it.
proof fn lemma_holds(line: Seq<char>, word: Seq<char>)
    requires
        tight(word),
    ensures
        holds(line, word) <==> trimmed(line) == word,
{
    let (a, b) = law_trimming_takes_white_space_away(line);
    assert(a + trimmed(line) + b == line);
    if holds(line, word) {
        let (x, y) = choose|x: Seq<char>, y: Seq<char>|
            blank(x) && blank(y) && #[trigger] (x + word + y) == line;
        assert(x + word + y == line);
    }
}

/// A line is blank where nothing is left of it.
proof fn lemma_blank(line: Seq<char>)
    ensures
        blank(line) <==> trimmed(line).len() == 0,
{
    let (a, b) = law_trimming_takes_white_space_away(line);
    let t = trimmed(line);
    if t.len() == 0 {
        assert(line =~= a + b);
        assert forall|i: int| 0 <= i < line.len() implies is_white(#[trigger] line[i]) by {
            if i < a.len() {
                assert(line[i] == a[i]);
            } else {
                assert(line[i] == b[i - a.len()]);
            }
        }
    }
    if blank(line) {
        let none = Seq::<char>::empty();
        assert(line + none + none =~= line);
        assert(blank(none) && tight(none));
    }
}

/// The menu: `1` applies the patches, `2` restores the game, `3` or nothing leaves, and anything else is
/// no choice. White space around the number makes no difference.
pub proof fn law_menu_goes_by_its_numbers(line: Seq<char>)
    ensures
        choice_of(line) is Apply <==> holds(line, "1"@),
        choice_of(line) is Restore <==> holds(line, "2"@),
        choice_of(line) is Exit <==> holds(line, "3"@) || blank(line),
        choice_of(line) is Invalid <==> !holds(line, "1"@) && !holds(line, "2"@) && !holds(
            line,
            "3"@,
        ) && !blank(line),
{
    reveal_strlit("1");
    reveal_strlit("2");
    reveal_strlit("3");
    assert("1"@[0] == '1' && "2"@[0] == '2' && "3"@[0] == '3');
    lemma_holds(line, "1"@);
    lemma_holds(line, "2"@);
    lemma_holds(line, "3"@);
    lemma_blank(line);
}

/// An answer agrees where it is `y` or `yes`, in whatever case, or nothing at all.
pub proof fn law_agreement_is_yes_or_nothing(line: Seq<char>)
    ensures
        agrees(line) <==> blank(line) || exists|word: Seq<char>|
            holds(line, word) && tight(word) && #[trigger] says_yes(word),
{
    lemma_blank(line);
    let answer = trimmed(line);
    law_trimming_takes_white_space_away(line);
    law_case_of_letters_makes_no_difference(answer, "y"@);
    law_case_of_letters_makes_no_difference(answer, "yes"@);
    if agrees(line) && !blank(line) {
        lemma_holds(line, answer);
        assert(says_yes(answer));
    }
    if exists|word: Seq<char>|
        holds(line, word) && tight(word) && #[trigger] says_yes(word) {
        let word = choose|word: Seq<char>|
            holds(line, word) && tight(word) && #[trigger] says_yes(word);
        lemma_holds(line, word);
    }
}

/// The word is `y` or `yes`, but for the case of letters.
pub open spec fn says_yes(word: Seq<char>) -> bool {
    same_letters(word, "y"@) || same_letters(word, "yes"@)
}

/// The search for the folder of the game. A folder that was found is chosen where the answer agrees;
/// otherwise the user is asked for one. A blank answer calls the search off, any other is taken for a
/// folder, without the white space around it. That folder is chosen where the game is in it; otherwise
/// the user is asked again. A search that has ended stays as it is.
pub proof fn law_search_goes_by_the_answers(
    dir: Seq<char>,
    line: Seq<char>,
    has_game: bool,
)
    ensures
        SearchView::Confirming(dir).typed(line) == if agrees(line) {
            SearchView::Chosen(dir)
        } else {
            SearchView::Asking
        },
        SearchView::Asking.typed(line) is Cancelled <==> blank(line),
        !blank(line) ==> {
            &&& SearchView::Asking.typed(line) matches SearchView::Checking(folder)
            &&& holds(line, folder)
            &&& tight(folder)
        },
        SearchView::Checking(dir).checked(has_game) == if has_game {
            SearchView::Chosen(dir)
        } else {
            SearchView::Asking
        },
        SearchView::Chosen(dir).typed(line) == SearchView::Chosen(dir),
        SearchView::Chosen(dir).checked(has_game) == SearchView::Chosen(dir),
        SearchView::Cancelled.typed(line) is Cancelled,
        SearchView::Cancelled.checked(has_game) is Cancelled,
{
    lemma_blank(line);
    law_trimming_takes_white_space_away(line);
    lemma_holds(line, trimmed(line));
}

/// The first line of a text that has a line feed.
proof fn lemma_first_line(a: Seq<char>, rest: Seq<char>)
    requires
        !a.contains('\n'),
    ensures
        lines(a + seq!['\n'] + rest) == seq![without_return(a)] + lines(rest),
{
    let s = a + seq!['\n'] + rest;
    let p = is_char('\n');
    assert forall|j: int| 0 <= j < a.len() implies !p(#[trigger] s[j]) by {
        assert(s[j] == a[j]);
        assert(a.contains(a[j]));
    }
    assert(s[a.len() as int] == '\n');
    lemma_first_where_is(s, p, a.len() as int);
    assert(s.take(a.len() as int) =~= a);
    assert(s.skip((a.len() + 1) as int) =~= rest);
}

/// A text is divided at its line feeds: each line comes whole, without the line feed, and without the
/// carriage return before it, if there is one. The last line need not end with a line feed.
pub proof fn law_text_is_divided_into_lines(line: Seq<char>, rest: Seq<char>)
    requires
        !line.contains('\n'),
    ensures
        lines(Seq::empty()) == Seq::<Seq<char>>::empty(),
        line.len() > 0 ==> lines(line) == seq![line],
        !(line.len() > 0 && line.last() == '\r') ==> lines(line + seq!['\n'] + rest) == seq![line]
            + lines(rest),
        lines(line + seq!['\r', '\n'] + rest) == seq![line] + lines(rest),
{
    let p = is_char('\n');
    assert forall|j: int| 0 <= j < line.len() implies !p(#[trigger] line[j]) by {
        assert(line.contains(line[j]));
    }
    lemma_first_where_none(line, p);
    lemma_first_line(line, rest);
    let longer = line.push('\r');
    assert(!longer.contains('\n')) by {
        if longer.contains('\n') {
            let i = choose|i: int| 0 <= i < longer.len() && longer[i] == '\n';
            assert(line[i] == '\n');
        }
    }
    lemma_first_line(longer, rest);
    assert(longer.drop_last() =~= line);
    assert(longer + seq!['\n'] + rest =~= line + seq!['\r', '\n'] + rest);
}

/// A text that has no two backslashes next to each other stays as it is.
pub proof fn law_single_backslashes_stay(s: Seq<char>)
    requires
        forall|i: int| 0 <= i < s.len() - 1 ==> !(#[trigger] s[i] == '\\' && s[i + 1] == '\\'),
    ensures
        unescaped(s) == s,
    decreases s.len(),
{
    if s.len() > 0 {
        let rest = s.skip(1);
        assert(!(s.len() >= 2 && s[0] == '\\' && s[1] == '\\'));
        assert forall|i: int| 0 <= i < rest.len() - 1 implies !(#[trigger] rest[i] == '\\'
            && rest[i + 1] == '\\') by {
            assert(rest[i] == s[i + 1] && rest[i + 1] == s[i + 2]);
        }
        law_single_backslashes_stay(rest);
        assert(seq![s[0]] + rest =~= s);
    }
}

/// A line that does not start with the key names no path, and white space around a line makes no
/// difference to what it names.
pub proof fn law_only_lines_with_the_key_name_paths(
    a: Seq<char>,
    line: Seq<char>,
    b: Seq<char>,
)
    requires
        blank(a),
        blank(b),
        tight(line),
    ensures
        path_in_line(a + line + b) == path_in_line(line),
        !(line.len() >= 6 && line.take(6) == "\"path\""@) ==> path_in_line(line) is None,
{
    reveal_strlit("\"path\"");
    lemma_white_around(a, line, b);
    let none = Seq::<char>::empty();
    assert(none + line + none =~= line);
    assert(blank(none));
    law_trimming_takes_white_space_away(line);
    assert(none + line + none == line);
    let key = "\"path\""@;
    if begins_with(line, key) {
        assert(line.take(6) =~= key);
    }
}

/// What lines name that come before others.
proof fn lemma_more_lines(a: Seq<Seq<char>>, b: Seq<Seq<char>>)
    ensures
        paths_in_lines(a + b) == paths_in_lines(a) + paths_in_lines(b),
    decreases b.len(),
{
    if b.len() == 0 {
        assert(a + b =~= a);
        assert(paths_in_lines(a) + Seq::empty() =~= paths_in_lines(a));
    } else {
        lemma_more_lines(a, b.drop_last());
        assert((a + b).drop_last() =~= a + b.drop_last());
        assert((a + b).last() == b.last());
        assert(paths_in_lines(a + b) =~= paths_in_lines(a) + paths_in_lines(b));
    }
}

/// The folder of Steam comes first among the libraries. Behind it come the paths that the lines of the
/// text name, in their order: a line more names its path, if it names one, before those of the rest.
/// Without the folder of Steam there is none, and without the text there is no other.
pub proof fn law_libraries_are_those_that_the_lines_name(
    steam: Seq<char>,
    line: Seq<char>,
    rest: Seq<char>,
)
    requires
        !line.contains('\n'),
        !line.contains('\r'),
    ensures
        library_roots(None, Some(rest)).len() == 0,
        library_roots(None, None).len() == 0,
        library_roots(Some(steam), None) == seq![steam],
        library_roots(Some(steam), Some(Seq::empty())) == seq![steam],
        ({
            let others = library_roots(Some(steam), Some(rest)).skip(1);
            library_roots(Some(steam), Some(line + seq!['\n'] + rest)) == match path_in_line(line) {
                Some(path) => seq![steam, path] + others,
                None => seq![steam] + others,
            }
        }),
{
    if line.len() > 0 && line.last() == '\r' {
        assert(line[line.len() - 1] == '\r');
    }
    law_text_is_divided_into_lines(line, rest);
    lemma_more_lines(seq![line], lines(rest));
    assert(seq![line].drop_last() =~= Seq::empty());
    assert(paths_in_lines(seq![line].drop_last()) =~= Seq::empty());
    let others = library_roots(Some(steam), Some(rest)).skip(1);
    assert(others =~= paths_in_lines(lines(rest)));
    let all = library_roots(Some(steam), Some(line + seq!['\n'] + rest));
    match path_in_line(line) {
        Some(path) => {
            assert(paths_in_lines(seq![line]) =~= seq![path]);
            assert(all =~= seq![steam, path] + others);
        },
        None => {
            assert(paths_in_lines(seq![line]) =~= Seq::empty());
            assert(all =~= seq![steam] + others);
        },
    }
    assert(seq![steam] + Seq::<Seq<char>>::empty() =~= seq![steam]);
}

/// The game is in the first folder that has it.
pub proof fn law_game_is_in_the_first_folder_that_has_it(candidates: Seq<Candidate>)
    ensures
        match first_with_game(candidates) {
            Some(i) => 0 <= i < candidates.len() && candidates[i].has_game && forall|j: int|
                0 <= j < i ==> !(#[trigger] candidates[j]).has_game,
            None => forall|j: int|
                0 <= j < candidates.len() ==> !(#[trigger] candidates[j]).has_game,
        },
{
    lemma_first_where(candidates, has_game());
    match first_with_game(candidates) {
        Some(i) => {
            assert(has_game()(candidates[i]));
            assert forall|j: int| 0 <= j < i implies !(#[trigger] candidates[j]).has_game by {
                assert(!has_game()(candidates[j]));
            }
        },
        None => {
            assert forall|j: int| 0 <= j < candidates.len() implies !(
            #[trigger] candidates[j]).has_game by {
                assert(!has_game()(candidates[j]));
            }
        },
    }
}

/// The number that digits stand for.
pub open spec fn number_of(s: Seq<char>) -> int
    decreases s.len(),
{
    if s.len() == 0 {
        0
    } else {
        10 * number_of(s.drop_last()) + (s.last() as int - '0' as int)
    }
}

/// The digits of a number stand for that number, and there is no zero too many.
pub proof fn law_digits_stand_for_their_number(n: nat)
    ensures
        number_of(digits(n)) == n,
        digits(n).len() > 0,
        n > 0 ==> digits(n)[0] != '0',
        n == 0 ==> digits(n).len() == 1,
    decreases n,
{
    let s = digits(n);
    if n >= 10 {
        law_digits_stand_for_their_number(n / 10);
        assert(s.drop_last() =~= digits(n / 10));
        assert(s[0] == digits(n / 10)[0]);
    } else {
        assert(s.drop_last() =~= Seq::empty());
        assert(number_of(s.drop_last()) == 0);
    }
}

/// A writer that could not write its file, or not put it in the place of the target, takes it away and
/// has then failed. The target is not touched by that.
pub proof fn law_failed_writer_takes_its_file_away(
    folder: Folder,
    k: int,
    left: Option<Seq<u8>>,
    more: Option<Seq<u8>>,
)
    requires
        0 <= k < folder.writers.len(),
        folder.writers[k].progress is Writing || folder.writers[k].progress is Renaming,
    ensures
        ({
            let failed = folder.tried(k, false, left);
            let away = failed.tried(k, true, more);
            &&& failed.writers[k].progress is Removing
            &&& away.writers[k].progress is Failed
            &&& away.writers[k].beside is None
            &&& failed.target == folder.target
            &&& away.target == folder.target
        }),
{
}

/// A writer writes its file beside the target first and then puts it in the place of the target; when
/// both have been done it is done.
pub proof fn law_writer_writes_and_then_renames(folder: Folder, k: int)
    requires
        0 <= k < folder.writers.len(),
        folder.writers[k].progress is Writing,
    ensures
        ({
            let written = folder.tried(k, true, None);
            let renamed = written.tried(k, true, None);
            &&& written.target == folder.target
            &&& written.writers[k].beside == Some(folder.writers[k].data)
            &&& renamed.target == Some(folder.writers[k].data)
            &&& renamed.writers[k].beside is None
            &&& renamed.writers[k].progress is Done
        }),
{
}

/// The file beside a target can be told by its name: it is a hidden file, with the name of the target in
/// it and a mark behind that, and it is never the target itself.
pub proof fn law_file_beside_can_be_told(file_name: Seq<char>, process: u32, nanos: u128)
    ensures
        ({
            let name = beside_name(file_name, process, nanos);
            &&& name[0] == '.'
            &&& name.len() > file_name.len() + 6
            &&& name.subrange(1, 1 + file_name.len() as int) == file_name
            &&& is_part(".tmp_"@, name)
            &&& name != file_name
        }),
{
    reveal_strlit(".");
    reveal_strlit(".tmp_");
    reveal_strlit("_");
    law_digits_stand_for_their_number(process as nat);
    law_digits_stand_for_their_number(nanos as nat);
    let name = beside_name(file_name, process, nanos);
    assert(name.subrange(1, 1 + file_name.len() as int) =~= file_name);
    let before = "."@ + file_name;
    let behind = digits(process as nat) + "_"@ + digits(nanos as nat);
    assert(before + ".tmp_"@ + behind =~= name);
}

/// A process names its file by the present time, unless it has gone by that time or a later one before:
/// then by the next one.
pub proof fn law_stamp_is_the_present_time_where_it_can_be(last: u128, now: u128)
    ensures
        stamp_after(None, now) == now,
        now > last ==> stamp_after(Some(last), now) == now,
        now <= last < u128::MAX ==> stamp_after(Some(last), now) == last + 1,
{
}

} // verus!
