//! Finding the game among the libraries of Steam.

use vstd::prelude::*;
use crate::lookup::{
    first_where, lemma_first_where, lemma_first_where_is, lemma_first_where_none,
};
use crate::module::texts_view;
use crate::text::{chars_of, is_white, text_of, trim, trimmed};

verus! {

/// Being the character `c`.
pub open spec fn is_char(c: char) -> spec_fn(char) -> bool {
    |d: char| d == c
}

/// The position of the first `c`.
pub open spec fn first_char(s: Seq<char>, c: char) -> Option<int> {
    first_where(s, is_char(c))
}

/// Finds the first `c` from `from` on.
fn find_char(chars: &[char], c: char, from: usize) -> (found: Option<usize>)
    requires
        from <= chars@.len(),
    ensures
        match found {
            Some(i) => from <= i < chars@.len() && first_char(chars@.skip(from as int), c) == Some(
                i - from,
            ),
            None => first_char(chars@.skip(from as int), c) is None,
        },
{
    let ghost rest = chars@.skip(from as int);
    let ghost p = is_char(c);
    for i in from..chars.len()
        invariant
            p == is_char(c),
            rest == chars@.skip(from as int),
            from <= i,
            from <= chars@.len(),
            forall|j: int| 0 <= j < i - from ==> !p(#[trigger] rest[j]),
    {
        if chars[i] == c {
            proof {
                assert(rest[i - from] == chars@[i as int]);
                lemma_first_where_is(rest, p, i - from);
            }
            return Some(i);
        }
        assert(rest[i - from] == chars@[i as int]);
    }
    proof {
        lemma_first_where_none(rest, p);
    }
    None
}

/// The `n`-th of the parts that the character `c` divides the text into.
pub open spec fn part(s: Seq<char>, c: char, n: nat) -> Option<Seq<char>>
    decreases n,
{
    match first_char(s, c) {
        Some(i) => if n == 0 {
            Some(s.take(i))
        } else {
            part(s.skip(i + 1), c, (n - 1) as nat)
        },
        None => if n == 0 {
            Some(s)
        } else {
            None
        },
    }
}

/// Copies the characters from `from` up to `to`.
fn copied(chars: &[char], from: usize, to: usize) -> (copy: Vec<char>)
    requires
        from <= to <= chars@.len(),
    ensures
        copy@ == chars@.subrange(from as int, to as int),
{
    let mut copy: Vec<char> = Vec::new();
    for i in from..to
        invariant
            from <= to <= chars@.len(),
            copy@ == chars@.subrange(from as int, i as int),
    {
        copy.push(chars[i]);
        assert(chars@.subrange(from as int, i + 1) =~= chars@.subrange(from as int, i as int).push(
            chars@[i as int],
        ));
    }
    copy
}

/// Finds the `n`-th of the parts that a character divides a text into.
fn nth_part(chars: &[char], c: char, n: usize) -> (found: Option<Vec<char>>)
    ensures
        match found {
            Some(v) => part(chars@, c, n as nat) == Some(v@),
            None => part(chars@, c, n as nat) is None,
        },
{
    let mut from: usize = 0;
    assert(chars@.skip(0) =~= chars@);
    for k in 0..n
        invariant
            from <= chars@.len(),
            part(chars@, c, n as nat) == part(chars@.skip(from as int), c, (n - k) as nat),
    {
        match find_char(chars, c, from) {
            Some(i) => {
                assert(i < chars.len());
                assert(chars@.skip(from as int).skip(i - from + 1) =~= chars@.skip(i + 1));
                from = i + 1;
            },
            None => return None,
        }
    }
    let to = match find_char(chars, c, from) {
        Some(i) => i,
        None => chars.len(),
    };
    let found = copied(chars, from, to);
    proof {
        let rest = chars@.skip(from as int);
        assert(rest.take(to - from) =~= found@);
        assert(rest.take(rest.len() as int) =~= rest);
    }
    Some(found)
}

/// The text with every pair of backslashes replaced by one, from left to right.
pub open spec fn unescaped(s: Seq<char>) -> Seq<char>
    decreases s.len(),
{
    if s.len() == 0 {
        s
    } else if s.len() >= 2 && s[0] == '\\' && s[1] == '\\' {
        seq!['\\'] + unescaped(s.skip(2))
    } else {
        seq![s[0]] + unescaped(s.skip(1))
    }
}

/// Replaces every pair of backslashes by one.
fn unescape(chars: &[char]) -> (plain: Vec<char>)
    ensures
        plain@ == unescaped(chars@),
{
    let mut plain: Vec<char> = Vec::new();
    let mut i: usize = 0;
    assert(chars@.skip(0) =~= chars@);
    while i < chars.len()
        invariant
            i <= chars@.len(),
            unescaped(chars@) == plain@ + unescaped(chars@.skip(i as int)),
        decreases chars@.len() - i,
    {
        let ghost before = plain@;
        let ghost rest = chars@.skip(i as int);
        if i + 1 < chars.len() && chars[i] == '\\' && chars[i + 1] == '\\' {
            plain.push('\\');
            assert(rest.skip(2) =~= chars@.skip(i + 2));
            assert(before + (seq!['\\'] + unescaped(rest.skip(2))) =~= plain@ + unescaped(
                rest.skip(2),
            ));
            i = i + 2;
        } else {
            plain.push(chars[i]);
            assert(rest.skip(1) =~= chars@.skip(i + 1));
            assert(before + (seq![rest[0]] + unescaped(rest.skip(1))) =~= plain@ + unescaped(
                rest.skip(1),
            ));
            i = i + 1;
        }
    }
    assert(chars@.skip(i as int) =~= Seq::empty());
    assert(plain@ + Seq::empty() =~= plain@);
    plain
}

/// The line without a carriage return at its end.
pub open spec fn without_return(line: Seq<char>) -> Seq<char> {
    if line.len() > 0 && line.last() == '\r' {
        line.drop_last()
    } else {
        line
    }
}

/// The lines of a text. A line ends with a line feed, or with a carriage return and a line feed;
/// the last one need not.
pub open spec fn lines(s: Seq<char>) -> Seq<Seq<char>>
    decreases s.len(),
{
    if s.len() == 0 {
        Seq::empty()
    } else {
        proof {
            lemma_first_where(s, is_char('\n'));
        }
        match first_char(s, '\n') {
            Some(i) => seq![without_return(s.take(i))] + lines(s.skip(i + 1)),
            None => seq![s],
        }
    }
}

/// The contents of a list of lines.
pub open spec fn lines_view(list: Seq<Vec<char>>) -> Seq<Seq<char>> {
    Seq::new(list.len(), |i: int| list[i]@)
}

/// Divides a text into lines.
fn split_lines(chars: &[char]) -> (list: Vec<Vec<char>>)
    ensures
        lines_view(list@) == lines(chars@),
{
    let mut list: Vec<Vec<char>> = Vec::new();
    let mut from: usize = 0;
    assert(chars@.skip(0) =~= chars@);
    assert(lines_view(list@) + lines(chars@) =~= lines(chars@));
    while from < chars.len()
        invariant
            from <= chars@.len(),
            lines(chars@) == lines_view(list@) + lines(chars@.skip(from as int)),
        decreases chars@.len() - from,
    {
        let ghost rest = chars@.skip(from as int);
        let ghost before = lines_view(list@);
        match find_char(chars, '\n', from) {
            Some(i) => {
                let mut line = copied(chars, from, i);
                assert(line@ =~= rest.take(i - from));
                if line.len() > 0 && line[line.len() - 1] == '\r' {
                    line.pop();
                }
                assert(line@ == without_return(rest.take(i - from)));
                let ghost text = line@;
                list.push(line);
                proof {
                    assert(lines_view(list@) =~= before.push(text));
                    assert(rest.skip(i - from + 1) =~= chars@.skip(i + 1));
                    assert(before + (seq![text] + lines(chars@.skip(i + 1))) =~= before.push(text)
                        + lines(chars@.skip(i + 1)));
                }
                assert(i < chars.len());
                from = i + 1;
            },
            None => {
                let line = copied(chars, from, chars.len());
                let ghost text = line@;
                list.push(line);
                proof {
                    assert(text =~= rest);
                    assert(lines_view(list@) =~= before.push(text));
                    assert(before + seq![text] =~= before.push(text));
                }
                return list;
            },
        }
    }
    assert(chars@.skip(from as int) =~= Seq::empty());
    assert(lines_view(list@) + Seq::empty() =~= lines_view(list@));
    list
}

/// Whether a text starts with another.
pub open spec fn begins_with(s: Seq<char>, start: Seq<char>) -> bool {
    start.is_prefix_of(s)
}

/// Whether a run of characters starts with a text.
fn starts_with(chars: &[char], start: &str) -> (starts: bool)
    ensures
        starts == begins_with(chars@, start@),
{
    let wanted = chars_of(start);
    if chars.len() < wanted.len() {
        return false;
    }
    for i in 0..wanted.len()
        invariant
            wanted@ == start@,
            wanted@.len() <= chars@.len(),
            forall|j: int| 0 <= j < i ==> chars@[j] == wanted@[j],
    {
        if chars[i] != wanted[i] {
            assert(chars@[i as int] != start@[i as int]);
            return false;
        }
    }
    assert(start@ =~= chars@.take(start@.len() as int));
    true
}

/// The path that a line of `libraryfolders.vdf` names: a line that starts with `"path"` holds it
/// between the third and the fourth quotation mark, with its backslashes doubled.
pub open spec fn path_in_line(line: Seq<char>) -> Option<Seq<char>> {
    if begins_with(trimmed(line), "\"path\""@) {
        match part(trimmed(line), '"', 3) {
            Some(raw) => Some(unescaped(raw)),
            None => None,
        }
    } else {
        None
    }
}

/// The paths that the lines name.
pub open spec fn paths_in_lines(list: Seq<Seq<char>>) -> Seq<Seq<char>>
    decreases list.len(),
{
    if list.len() == 0 {
        Seq::empty()
    } else {
        match path_in_line(list.last()) {
            Some(path) => paths_in_lines(list.drop_last()).push(path),
            None => paths_in_lines(list.drop_last()),
        }
    }
}

/// Finds the path that a line names.
fn find_path(line: &[char]) -> (found: Option<String>)
    ensures
        match found {
            Some(path) => path_in_line(line@) == Some(path@),
            None => path_in_line(line@) is None,
        },
{
    let text = trim(line);
    if !starts_with(text.as_slice(), "\"path\"") {
        return None;
    }
    match nth_part(text.as_slice(), '"', 3) {
        Some(raw) => Some(text_of(unescape(raw.as_slice()).as_slice())),
        None => None,
    }
}

/// The folders that Steam keeps its libraries in. `steam_path` is the folder of Steam itself, if
/// it is known, and `folders` the text of its `libraryfolders.vdf`, if it can be read.
pub open spec fn library_roots(
    steam_path: Option<Seq<char>>,
    folders: Option<Seq<char>>,
) -> Seq<Seq<char>> {
    match (steam_path, folders) {
        (None, _) => Seq::empty(),
        (Some(path), None) => seq![path],
        (Some(path), Some(text)) => seq![path] + paths_in_lines(lines(text)),
    }
}

/// The contents of an optional text.
pub open spec fn text_view(text: Option<&str>) -> Option<Seq<char>> {
    match text {
        Some(s) => Some(s@),
        None => None,
    }
}

/// Finds the folders that Steam keeps its libraries in: that of Steam itself, then every one that
/// `libraryfolders.vdf` names. Both are best-effort; what is missing is left out.
pub fn candidate_steam_library_roots(steam_path: Option<&str>, folders: Option<&str>) -> (roots: Vec<
    String,
>)
    ensures
        texts_view(roots@) == library_roots(text_view(steam_path), text_view(folders)),
{
    let mut roots: Vec<String> = Vec::new();
    let path = match steam_path {
        Some(path) => path,
        None => {
            assert(texts_view(roots@) =~= Seq::empty());
            return roots;
        },
    };
    roots.push(path.to_owned());
    assert(texts_view(roots@) =~= seq![path@]);
    let text = match folders {
        Some(text) => text,
        None => return roots,
    };
    let list = split_lines(chars_of(text).as_slice());
    let ghost all = lines(text@);
    assert(all.take(0) =~= Seq::empty());
    assert(seq![path@] + Seq::empty() =~= seq![path@]);
    for i in 0..list.len()
        invariant
            all == lines_view(list@),
            texts_view(roots@) == seq![path@] + paths_in_lines(all.take(i as int)),
    {
        let ghost before = texts_view(roots@);
        proof {
            assert(all.take(i + 1).drop_last() =~= all.take(i as int));
            assert(all.take(i + 1).last() == all[i as int]);
        }
        if let Some(root) = find_path(list[i].as_slice()) {
            let ghost found = root@;
            roots.push(root);
            proof {
                assert(texts_view(roots@) =~= before.push(found));
                assert(seq![path@] + paths_in_lines(all.take(i as int)).push(found)
                    =~= before.push(found));
            }
        }
    }
    assert(all.take(all.len() as int) =~= all);
    roots
}

/// A text as `libraryfolders.vdf` holds it: with its backslashes doubled.
pub open spec fn doubled(s: Seq<char>) -> Seq<char>
    decreases s.len(),
{
    if s.len() == 0 {
        s
    } else if s[0] == '\\' {
        seq!['\\', '\\'] + doubled(s.skip(1))
    } else {
        seq![s[0]] + doubled(s.skip(1))
    }
}

/// Reading undoes the doubling.
proof fn lemma_doubling_undone(s: Seq<char>)
    ensures
        unescaped(doubled(s)) == s,
        !s.contains('"') ==> !doubled(s).contains('"'),
    decreases s.len(),
{
    if s.len() > 0 {
        let rest = s.skip(1);
        lemma_doubling_undone(rest);
        let d = doubled(s);
        assert(s =~= seq![s[0]] + rest);
        if s[0] == '\\' {
            assert(d.skip(2) =~= doubled(rest));
        } else {
            assert(d.skip(1) =~= doubled(rest));
        }
        if !s.contains('"') {
            assert(!rest.contains('"')) by {
                if rest.contains('"') {
                    let i = choose|i: int| 0 <= i < rest.len() && rest[i] == '"';
                    assert(s[i + 1] == '"');
                }
            }
            if d.contains('"') {
                let i = choose|i: int| 0 <= i < d.len() && d[i] == '"';
                let n: int = if s[0] == '\\' {
                    2
                } else {
                    1
                };
                assert(s[0] != '"');
                if i >= n {
                    assert(doubled(rest)[i - n] == '"');
                }
            }
        }
    }
}

/// The parts of a text with a mark in it, where there is none before that.
proof fn lemma_part_at_mark(a: Seq<char>, b: Seq<char>, c: char, n: nat)
    requires
        !a.contains(c),
    ensures
        part(a + seq![c] + b, c, 0) == Some(a),
        part(a + seq![c] + b, c, n + 1) == part(b, c, n),
{
    let s = a + seq![c] + b;
    assert forall|j: int| 0 <= j < a.len() implies !is_char(c)(#[trigger] s[j]) by {
        assert(a[j] == s[j]);
        assert(a.contains(a[j]));
    }
    assert(s[a.len() as int] == c);
    lemma_first_where_is(s, is_char(c), a.len() as int);
    assert(s.take(a.len() as int) =~= a);
    assert(s.skip((a.len() + 1) as int) =~= b);
}

/// A text that neither starts nor ends with white space is as it is without it.
proof fn lemma_nothing_to_trim(s: Seq<char>)
    requires
        s.len() > 0,
        !is_white(s[0]),
        !is_white(s.last()),
    ensures
        trimmed(s) == s,
{
}

/// A line of `libraryfolders.vdf` that was written for a path is read as that path: the key, some
/// space, and the path between quotation marks, with its backslashes doubled.
pub proof fn law_line_names_its_path(gap: Seq<char>, path: Seq<char>)
    requires
        !gap.contains('"'),
        !path.contains('"'),
    ensures
        path_in_line("\"path\""@ + gap + seq!['"'] + doubled(path) + seq!['"']) == Some(path),
{
    reveal_strlit("\"path\"");
    let key = "\"path\""@;
    let quote = seq!['"'];
    let word = seq!['p', 'a', 't', 'h'];
    let line = key + gap + quote + doubled(path) + quote;
    assert(key =~= Seq::empty() + quote + (word + quote));
    lemma_doubling_undone(path);
    assert(line[0] == '"' && line.last() == '"');
    lemma_nothing_to_trim(line);
    assert(key.is_prefix_of(line));
    let after3 = doubled(path) + quote + Seq::empty();
    let after2 = gap + quote + after3;
    let after1 = word + quote + after2;
    assert(line =~= Seq::empty() + quote + after1);
    assert(!word.contains('"'));
    lemma_part_at_mark(Seq::empty(), after1, '"', 2);
    lemma_part_at_mark(word, after2, '"', 1);
    lemma_part_at_mark(gap, after3, '"', 0);
    lemma_part_at_mark(doubled(path), Seq::empty(), '"', 0);
}

/// The folder of the game in a library of Steam, one folder below the other.
pub const GAME_SUBDIRS: [&'static str; 3] = ["steamapps", "common", "Northgard"];

/// A folder where the game may be.
#[derive(Debug)]
pub struct Candidate {
    pub dir: String,
    /// Whether there is an `hlboot.dat` in it.
    pub has_game: bool,
}

/// The position of the first folder that has the game.
pub open spec fn first_with_game(candidates: Seq<Candidate>) -> Option<int> {
    first_where(candidates, has_game())
}

/// Having the game.
pub open spec fn has_game() -> spec_fn(Candidate) -> bool {
    |c: Candidate| c.has_game
}

/// Finds the game: it is in the first folder that has an `hlboot.dat`.
pub fn find_northgard_via_steam(candidates: &Vec<Candidate>) -> (found: Option<String>)
    ensures
        match found {
            Some(dir) => first_with_game(candidates@) matches Some(i) && dir@
                == candidates@[i].dir@,
            None => first_with_game(candidates@) is None,
        },
{
    for i in 0..candidates.len()
        invariant
            forall|j: int| 0 <= j < i ==> !has_game()(#[trigger] candidates@[j]),
    {
        if candidates[i].has_game {
            proof {
                lemma_first_where_is(candidates@, has_game(), i as int);
            }
            return Some(candidates[i].dir.as_str().to_owned());
        }
    }
    proof {
        lemma_first_where_none(candidates@, has_game());
    }
    None
}

} // verus!
