//! What holds of normalized text: normalizing it again changes nothing.
//!
//! The normalizer asks Unicode which characters are letters and which are whitespace. No
//! letter is punctuation, an apostrophe or whitespace; the verifier does not know Unicode's
//! tables, so the law below is stated of the texts whose letters are plain in this sense,
//! which in fact are all texts.

use vstd::prelude::*;
use crate::normalize::{
    is_apostrophe, is_removed_mark, kept_at, line_cleaned, lines_cleaned, lines_of,
    marks_stripped, marks_stripped_upto, newlines_unified, newlines_unified_upto, normalized,
    pieces_upto,
};
use crate::pattern::{blanks_collapsed, blanks_collapsed_upto, is_blank_char};
use crate::text::{
    joined, lemma_skip_whitespace_back_bounds, lemma_skip_whitespace_bounds, skip_whitespace,
    skip_whitespace_back, trimmed, unicode_alphabetic, unicode_whitespace,
};

verus! {

/// Whether the character is a letter that no step of the normalizer removes or takes for
/// the end of a word or a line.
pub open spec fn is_plain_letter(c: char) -> bool {
    &&& unicode_alphabetic(c)
    &&& !is_removed_mark(c)
    &&& !is_apostrophe(c)
    &&& !unicode_whitespace(c)
    &&& c != ' ' && c != '\t' && c != '\n' && c != '\r'
}

/// Whether every letter of the text is a plain letter.
pub open spec fn letters_are_plain(s: Seq<char>) -> bool {
    forall|i: int| 0 <= i < s.len() ==> (unicode_alphabetic(#[trigger] s[i]) ==> is_plain_letter(s[i]))
}

/// Whether the character at `i` is one that the removal of marks leaves as it is: no
/// carriage return, no removed mark, and an apostrophe only as the plain one between two
/// plain letters.
pub open spec fn is_settled_at(s: Seq<char>, i: int) -> bool {
    &&& s[i] != '\r'
    &&& !is_removed_mark(s[i])
    &&& (is_apostrophe(s[i]) ==> s[i] == '\'' && 0 < i && i + 1 < s.len() && is_plain_letter(
        s[i - 1],
    ) && is_plain_letter(s[i + 1]))
}

/// Whether the removal of marks leaves the whole text as it is.
pub open spec fn is_settled(s: Seq<char>) -> bool {
    forall|i: int| 0 <= i < s.len() ==> #[trigger] is_settled_at(s, i)
}

/// Whether the text holds no tab and no two spaces side by side.
pub open spec fn has_single_blanks(s: Seq<char>) -> bool {
    forall|i: int|
        0 <= i < s.len() ==> #[trigger] s[i] != '\t' && !(s[i] == ' ' && i + 1 < s.len() && s[i
            + 1] == ' ')
}

/// Whether the text holds no line feed.
pub open spec fn is_one_line(s: Seq<char>) -> bool {
    forall|i: int| 0 <= i < s.len() ==> #[trigger] s[i] != '\n'
}

/// A settled text is left as it is by the unifying of line endings and by the removal of
/// marks.
pub proof fn lemma_settled_is_unchanged(s: Seq<char>, n: int)
    requires
        is_settled(s),
        0 <= n <= s.len(),
    ensures
        newlines_unified_upto(s, n) == s.take(n),
        marks_stripped_upto(s, n) == s.take(n),
    decreases n,
{
    if n > 0 {
        lemma_settled_is_unchanged(s, n - 1);
        assert(is_settled_at(s, n - 1));
        assert(kept_at(s, n - 1) == Some(s[n - 1]));
        assert(s.take(n - 1).push(s[n - 1]) =~= s.take(n));
    } else {
        assert(s.take(0) =~= Seq::<char>::empty());
    }
}

/// The unifying of line endings leaves no carriage return.
pub proof fn lemma_unified_has_no_return(s: Seq<char>, n: int)
    requires
        0 <= n <= s.len(),
    ensures
        forall|i: int|
            0 <= i < newlines_unified_upto(s, n).len() ==> #[trigger] newlines_unified_upto(
                s,
                n,
            )[i] != '\r',
    decreases n,
{
    if n > 0 {
        lemma_unified_has_no_return(s, n - 1);
        let before = newlines_unified_upto(s, n - 1);
        let after = newlines_unified_upto(s, n);
        assert forall|i: int| 0 <= i < after.len() implies #[trigger] after[i] != '\r' by {
            if i < before.len() {
                assert(before[i] != '\r');
            }
        }
    }
}

/// What holds of the text that the first `n` characters leave once marks are removed:
/// all of it is settled but for an apostrophe at its very end, whose right neighbour is
/// the plain letter that comes next.
pub open spec fn is_settling(t: Seq<char>, next: Option<char>) -> bool {
    forall|k: int|
        0 <= k < t.len() ==> {
            &&& #[trigger] t[k] != '\r'
            &&& !is_removed_mark(t[k])
            &&& (is_apostrophe(t[k]) ==> t[k] == '\'' && 0 < k && is_plain_letter(t[k - 1]) && (
            if k + 1 < t.len() {
                is_plain_letter(t[k + 1])
            } else {
                next matches Some(c) && is_plain_letter(c)
            }))
        }
}

/// The character that stands at `n`, if one does.
pub open spec fn char_at(s: Seq<char>, n: int) -> Option<char> {
    if 0 <= n < s.len() {
        Some(s[n])
    } else {
        None
    }
}

/// Where every letter is plain and no carriage return stands, the removal of marks gives
/// a settled text.
pub proof fn lemma_stripped_is_settling(u: Seq<char>, n: int)
    requires
        letters_are_plain(u),
        forall|i: int| 0 <= i < u.len() ==> #[trigger] u[i] != '\r',
        0 <= n <= u.len(),
    ensures
        is_settling(marks_stripped_upto(u, n), char_at(u, n)),
        n > 0 && kept_at(u, n - 1) == Some(u[n - 1]) ==> marks_stripped_upto(u, n).len() > 0
            && marks_stripped_upto(u, n).last() == u[n - 1],
    decreases n,
{
    if n > 0 {
        lemma_stripped_is_settling(u, n - 1);
        let before = marks_stripped_upto(u, n - 1);
        let after = marks_stripped_upto(u, n);
        let c = u[n - 1];
        assert(c != '\r');
        match kept_at(u, n - 1) {
            None => {
                assert(after == before);
                assert(!is_plain_letter(c));
                assert forall|k: int| 0 <= k < after.len() implies {
                    &&& #[trigger] after[k] != '\r'
                    &&& !is_removed_mark(after[k])
                    &&& (is_apostrophe(after[k]) ==> after[k] == '\'' && 0 < k && is_plain_letter(
                        after[k - 1],
                    ) && (if k + 1 < after.len() {
                        is_plain_letter(after[k + 1])
                    } else {
                        char_at(u, n) matches Some(d) && is_plain_letter(d)
                    }))
                } by {
                    assert(before[k] != '\r');
                }
            },
            Some(kept) => {
                assert(after == before.push(kept));
                if is_apostrophe(c) {
                    assert(kept == '\'');
                    assert(unicode_alphabetic(u[n - 2]));
                    assert(is_plain_letter(u[n - 2]));
                    assert(kept_at(u, n - 2) == Some(u[n - 2]));
                    assert(before.last() == u[n - 2]);
                    assert(unicode_alphabetic(u[n]));
                    assert(is_plain_letter(u[n]));
                }
                assert forall|k: int| 0 <= k < after.len() implies {
                    &&& #[trigger] after[k] != '\r'
                    &&& !is_removed_mark(after[k])
                    &&& (is_apostrophe(after[k]) ==> after[k] == '\'' && 0 < k && is_plain_letter(
                        after[k - 1],
                    ) && (if k + 1 < after.len() {
                        is_plain_letter(after[k + 1])
                    } else {
                        char_at(u, n) matches Some(d) && is_plain_letter(d)
                    }))
                } by {
                    if k < before.len() {
                        assert(before[k] != '\r');
                        if is_apostrophe(before[k]) && k + 1 == before.len() {
                            assert(is_plain_letter(c));
                            assert(kept == c);
                        }
                    }
                }
            },
        }
    }
}

/// Where every letter is plain and no carriage return stands, the removal of marks gives
/// a settled text.
pub proof fn lemma_stripped_is_settled(u: Seq<char>)
    requires
        letters_are_plain(u),
        forall|i: int| 0 <= i < u.len() ==> #[trigger] u[i] != '\r',
    ensures
        is_settled(marks_stripped(u)),
{
    lemma_stripped_is_settling(u, u.len() as int);
    let t = marks_stripped(u);
    assert forall|i: int| 0 <= i < t.len() implies #[trigger] is_settled_at(t, i) by {
        assert(t[i] != '\r');
    }
}

/// The collapsing of blanks keeps a settled text settled, and leaves no tab and no two
/// spaces side by side.
pub proof fn lemma_collapsed_is_settling(t: Seq<char>, n: int)
    requires
        is_settled(t),
        0 <= n <= t.len(),
    ensures
        is_settling(blanks_collapsed_upto(t, n), char_at(t, n)),
        has_single_blanks(blanks_collapsed_upto(t, n)),
        n > 0 ==> blanks_collapsed_upto(t, n).len() > 0 && blanks_collapsed_upto(t, n).last() == (
        if is_blank_char(t[n - 1]) {
            ' '
        } else {
            t[n - 1]
        }),
        forall|i: int|
            0 <= i < blanks_collapsed_upto(t, n).len() ==> #[trigger] blanks_collapsed_upto(t, n)[i]
                == ' ' || exists|j: int|
                0 <= j < n && t[j] == blanks_collapsed_upto(t, n)[i],
    decreases n,
{
    if n > 0 {
        lemma_collapsed_is_settling(t, n - 1);
        let before = blanks_collapsed_upto(t, n - 1);
        let after = blanks_collapsed_upto(t, n);
        let c = t[n - 1];
        assert(is_settled_at(t, n - 1));
        if is_blank_char(c) && n >= 2 && is_blank_char(t[n - 2]) {
            assert(after == before);
            assert(!is_plain_letter(c));
            assert forall|k: int| 0 <= k < after.len() implies {
                &&& #[trigger] after[k] != '\r'
                &&& !is_removed_mark(after[k])
                &&& (is_apostrophe(after[k]) ==> after[k] == '\'' && 0 < k && is_plain_letter(
                    after[k - 1],
                ) && (if k + 1 < after.len() {
                    is_plain_letter(after[k + 1])
                } else {
                    char_at(t, n) matches Some(d) && is_plain_letter(d)
                }))
            } by {
                assert(before[k] != '\r');
            }
            assert forall|i: int| 0 <= i < after.len() implies #[trigger] after[i] == ' '
                || exists|j: int| 0 <= j < n && t[j] == after[i] by {
                if before[i] != ' ' {
                    let j = choose|j: int| 0 <= j < n - 1 && t[j] == before[i];
                    assert(t[j] == after[i]);
                }
            }
        } else {
            let pushed = if is_blank_char(c) {
                ' '
            } else {
                c
            };
            assert(after == before.push(pushed));
            assert(!is_blank_char(c) ==> pushed != ' ' && pushed != '\t');
            if n >= 2 {
                assert(is_blank_char(c) ==> before.last() == t[n - 2] && before.last() != ' ');
            }
            if is_apostrophe(c) {
                assert(!is_blank_char(t[n - 2]));
                assert(before.last() == t[n - 2]);
            }
            assert forall|k: int| 0 <= k < after.len() implies {
                &&& #[trigger] after[k] != '\r'
                &&& !is_removed_mark(after[k])
                &&& (is_apostrophe(after[k]) ==> after[k] == '\'' && 0 < k && is_plain_letter(
                    after[k - 1],
                ) && (if k + 1 < after.len() {
                    is_plain_letter(after[k + 1])
                } else {
                    char_at(t, n) matches Some(d) && is_plain_letter(d)
                }))
            } by {
                if k < before.len() {
                    assert(before[k] != '\r');
                    if is_apostrophe(before[k]) && k + 1 == before.len() {
                        assert(is_plain_letter(c));
                        assert(pushed == c);
                    }
                }
            }
            assert forall|i: int| 0 <= i < after.len() implies #[trigger] after[i] != '\t' && !(
            after[i] == ' ' && i + 1 < after.len() && after[i + 1] == ' ') by {
                if i < before.len() {
                    assert(before[i] != '\t');
                }
            }
            assert forall|i: int| 0 <= i < after.len() implies #[trigger] after[i] == ' '
                || exists|j: int| 0 <= j < n && t[j] == after[i] by {
                if i < before.len() {
                    if before[i] != ' ' {
                        let j = choose|j: int| 0 <= j < n - 1 && t[j] == before[i];
                        assert(t[j] == after[i]);
                    }
                } else if after[i] != ' ' {
                    assert(t[n - 1] == after[i]);
                }
            }
        }
    }
}

/// A settled text with its blanks collapsed is settled and holds single blanks only; it
/// holds no line feed unless the text does.
pub proof fn lemma_collapsed_is_settled(t: Seq<char>)
    requires
        is_settled(t),
    ensures
        is_settled(blanks_collapsed(t)),
        has_single_blanks(blanks_collapsed(t)),
        is_one_line(t) ==> is_one_line(blanks_collapsed(t)),
{
    lemma_collapsed_is_settling(t, t.len() as int);
    let c = blanks_collapsed(t);
    assert forall|i: int| 0 <= i < c.len() implies #[trigger] is_settled_at(c, i) by {
        assert(c[i] != '\r');
    }
    if is_one_line(t) {
        assert forall|i: int| 0 <= i < c.len() implies #[trigger] c[i] != '\n' by {
            if c[i] != ' ' {
                let j = choose|j: int| 0 <= j < t.len() && t[j] == c[i];
                assert(t[j] != '\n');
            }
        }
    }
}

/// A part of a settled text is settled where no plain letter stands right before it or
/// right behind it.
pub proof fn lemma_part_is_settled(s: Seq<char>, from: int, to: int)
    requires
        is_settled(s),
        0 <= from <= to <= s.len(),
        from > 0 ==> !is_plain_letter(s[from - 1]),
        to < s.len() ==> !is_plain_letter(s[to]),
    ensures
        is_settled(s.subrange(from, to)),
{
    let part = s.subrange(from, to);
    assert forall|i: int| 0 <= i < part.len() implies #[trigger] is_settled_at(part, i) by {
        assert(is_settled_at(s, from + i));
    }
}

/// Trimming keeps a text settled, on one line and with single blanks, and a trimmed text
/// is left as it is by trimming.
pub proof fn lemma_trimmed(s: Seq<char>)
    ensures
        is_settled(s) ==> is_settled(trimmed(s)),
        has_single_blanks(s) ==> has_single_blanks(trimmed(s)),
        is_one_line(s) ==> is_one_line(trimmed(s)),
        trimmed(trimmed(s)) == trimmed(s),
{
    let from = skip_whitespace(s, 0);
    let to = skip_whitespace_back(s, s.len() as int);
    lemma_skip_whitespace_bounds(s, 0);
    lemma_skip_whitespace_back_bounds(s, s.len() as int);
    let y = trimmed(s);
    if from < to {
        assert(y == s.subrange(from, to));
        if is_settled(s) {
            if from > 0 {
                assert(unicode_whitespace(s[from - 1]));
            }
            if to < s.len() {
                assert(unicode_whitespace(s[to]));
            }
            lemma_part_is_settled(s, from, to);
        }
        if has_single_blanks(s) {
            assert forall|i: int| 0 <= i < y.len() implies #[trigger] y[i] != '\t' && !(y[i] == ' '
                && i + 1 < y.len() && y[i + 1] == ' ') by {
                assert(s[from + i] != '\t');
            }
        }
        if is_one_line(s) {
            assert forall|i: int| 0 <= i < y.len() implies #[trigger] y[i] != '\n' by {
                assert(s[from + i] != '\n');
            }
        }
        assert(!unicode_whitespace(y[0]));
        assert(!unicode_whitespace(y[y.len() - 1]));
        assert(skip_whitespace(y, 0) == 0);
        assert(skip_whitespace_back(y, y.len() as int) == y.len());
        assert(y.subrange(0, y.len() as int) =~= y);
    } else {
        assert(y =~= Seq::<char>::empty());
        assert(skip_whitespace(y, 0) == 0);
        assert(skip_whitespace_back(y, 0) == 0);
    }
}

/// A text with single blanks is left as it is by the collapsing of blanks.
pub proof fn lemma_single_blanks_stay(s: Seq<char>, n: int)
    requires
        has_single_blanks(s),
        0 <= n <= s.len(),
    ensures
        blanks_collapsed_upto(s, n) == s.take(n),
    decreases n,
{
    if n > 0 {
        lemma_single_blanks_stay(s, n - 1);
        assert(s[n - 1] != '\t');
        if n >= 2 {
            assert(s[n - 2] != '\t' && !(s[n - 2] == ' ' && s[n - 1] == ' '));
        }
        assert(s.take(n - 1).push(s[n - 1]) =~= s.take(n));
    } else {
        assert(s.take(0) =~= Seq::<char>::empty());
    }
}

/// A settled line, cleaned, is settled and on one line if the line was, and is left as it
/// is by every step of the normalizer.
pub proof fn lemma_cleaned_line(line: Seq<char>)
    requires
        is_settled(line),
    ensures
        is_settled(line_cleaned(line)),
        is_one_line(line) ==> is_one_line(line_cleaned(line)),
        line_cleaned(line_cleaned(line)) == line_cleaned(line),
        newlines_unified(line_cleaned(line)) == line_cleaned(line),
        marks_stripped(line_cleaned(line)) == line_cleaned(line),
{
    let collapsed = blanks_collapsed(line);
    lemma_collapsed_is_settled(line);
    lemma_trimmed(collapsed);
    let y = line_cleaned(line);
    lemma_single_blanks_stay(y, y.len() as int);
    assert(y.take(y.len() as int) =~= y);
    lemma_settled_is_unchanged(y, y.len() as int);
}

/// Where the line begins that holds the end of the first `n` characters.
pub open spec fn line_start(s: Seq<char>, n: int) -> int
    decreases n,
{
    if n <= 0 {
        0
    } else if s[n - 1] == '\n' {
        n
    } else {
        line_start(s, n - 1)
    }
}

/// Whether each of the texts is settled and on one line.
pub open spec fn are_settled_lines(lines: Seq<Seq<char>>) -> bool {
    forall|k: int|
        0 <= k < lines.len() ==> is_settled(#[trigger] lines[k]) && is_one_line(lines[k])
}

/// The pieces between the line feeds of a settled text are settled, each on one line.
pub proof fn lemma_pieces_are_settled(t: Seq<char>, n: int)
    requires
        is_settled(t),
        0 <= n <= t.len(),
    ensures
        pieces_upto(t, n).len() >= 1,
        0 <= line_start(t, n) <= n,
        line_start(t, n) > 0 ==> t[line_start(t, n) - 1] == '\n',
        pieces_upto(t, n).last() == t.subrange(line_start(t, n), n),
        is_one_line(pieces_upto(t, n).last()),
        are_settled_lines(pieces_upto(t, n).drop_last()),
    decreases n,
{
    if n > 0 {
        lemma_pieces_are_settled(t, n - 1);
        let before = pieces_upto(t, n - 1);
        let after = pieces_upto(t, n);
        let start = line_start(t, n - 1);
        if t[n - 1] == '\n' {
            assert(after == before.push(Seq::<char>::empty()));
            assert(after.drop_last() =~= before);
            assert(after.last() =~= t.subrange(n, n));
            lemma_part_is_settled(t, start, n - 1);
            assert forall|k: int| 0 <= k < before.len() implies is_settled(#[trigger] before[k])
                && is_one_line(before[k]) by {
                if k < before.len() - 1 {
                    assert(before.drop_last()[k] == before[k]);
                }
            }
        } else {
            assert(after == before.drop_last().push(before.last().push(t[n - 1])));
            assert(after.drop_last() =~= before.drop_last());
            assert(before.last().push(t[n - 1]) =~= t.subrange(start, n));
            let line = after.last();
            assert forall|i: int| 0 <= i < line.len() implies #[trigger] line[i] != '\n' by {
                if i < before.last().len() {
                    assert(before.last()[i] != '\n');
                }
            }
        }
    } else {
        assert(pieces_upto(t, 0).last() =~= t.subrange(0, 0));
        assert(pieces_upto(t, 0).drop_last() =~= Seq::<Seq<char>>::empty());
    }
}

/// The lines of a settled text are settled, each on one line.
pub proof fn lemma_lines_are_settled(t: Seq<char>)
    requires
        is_settled(t),
    ensures
        are_settled_lines(lines_of(t)),
{
    let n = t.len() as int;
    lemma_pieces_are_settled(t, n);
    let pieces = pieces_upto(t, n);
    lemma_part_is_settled(t, line_start(t, n), n);
    let lines = lines_of(t);
    assert forall|k: int| 0 <= k < lines.len() implies is_settled(#[trigger] lines[k])
        && is_one_line(lines[k]) by {
        if k < pieces.len() - 1 {
            assert(pieces.drop_last()[k] == pieces[k]);
        }
    }
}

/// Two settled texts with a line feed between them make a settled text.
pub proof fn lemma_settled_lines_join(a: Seq<char>, b: Seq<char>)
    requires
        is_settled(a),
        is_settled(b),
    ensures
        is_settled(a + seq!['\n'] + b),
{
    let joint = a + seq!['\n'] + b;
    assert forall|i: int| 0 <= i < joint.len() implies #[trigger] is_settled_at(joint, i) by {
        if i < a.len() {
            assert(is_settled_at(a, i));
        } else if i > a.len() {
            assert(is_settled_at(b, i - a.len() - 1));
        }
    }
}

/// Settled lines joined make a settled text.
pub proof fn lemma_joined_is_settled(lines: Seq<Seq<char>>)
    requires
        forall|k: int| 0 <= k < lines.len() ==> is_settled(#[trigger] lines[k]),
    ensures
        is_settled(joined(lines, "\n"@)),
    decreases lines.len(),
{
    reveal_strlit("\n");
    assert("\n"@ =~= seq!['\n']);
    if lines.len() >= 2 {
        let init = lines.drop_last();
        assert forall|k: int| 0 <= k < init.len() implies is_settled(#[trigger] init[k]) by {
            assert(init[k] == lines[k]);
        }
        lemma_joined_is_settled(init);
        lemma_settled_lines_join(joined(init, "\n"@), lines.last());
    } else if lines.len() == 1 {
        assert(is_settled(lines[0]));
    }
}

/// The pieces of the first `n` characters are those of any text that begins alike.
pub proof fn lemma_pieces_of_beginning(s: Seq<char>, other: Seq<char>, n: int)
    requires
        0 <= n <= s.len(),
        n <= other.len(),
        s.take(n) == other.take(n),
    ensures
        pieces_upto(s, n) == pieces_upto(other, n),
    decreases n,
{
    if n > 0 {
        assert(s.take(n - 1) =~= s.take(n).take(n - 1));
        assert(other.take(n - 1) =~= other.take(n).take(n - 1));
        lemma_pieces_of_beginning(s, other, n - 1);
        assert(s[n - 1] == s.take(n)[n - 1]);
        assert(other[n - 1] == other.take(n)[n - 1]);
    }
}

/// A text on one line is a single piece.
pub proof fn lemma_pieces_of_one_line(line: Seq<char>, n: int)
    requires
        is_one_line(line),
        0 <= n <= line.len(),
    ensures
        pieces_upto(line, n) == seq![line.take(n)],
    decreases n,
{
    if n > 0 {
        lemma_pieces_of_one_line(line, n - 1);
        assert(line[n - 1] != '\n');
        assert(seq![line.take(n - 1)].drop_last().push(line.take(n - 1).push(line[n - 1]))
            =~= seq![line.take(n)]) by {
            assert(line.take(n - 1).push(line[n - 1]) =~= line.take(n));
        }
    } else {
        assert(line.take(0) =~= Seq::<char>::empty());
    }
}

/// A line behind a line feed behind a text is one more piece behind the pieces of the
/// text.
pub proof fn lemma_pieces_with_one_more_line(head: Seq<char>, line: Seq<char>, m: int)
    requires
        is_one_line(line),
        0 <= m <= line.len(),
    ensures
        pieces_upto(head + seq!['\n'] + line, head.len() + 1 + m) == pieces_upto(
            head,
            head.len() as int,
        ).push(line.take(m)),
    decreases m,
{
    let whole = head + seq!['\n'] + line;
    let at = head.len() as int;
    if m > 0 {
        lemma_pieces_with_one_more_line(head, line, m - 1);
        let before = pieces_upto(whole, at + m);
        assert(whole[at + m] == line[m - 1]);
        assert(line[m - 1] != '\n');
        assert(before.drop_last() =~= pieces_upto(head, at));
        assert(line.take(m - 1).push(line[m - 1]) =~= line.take(m));
    } else {
        assert(whole.take(at) =~= head.take(at));
        lemma_pieces_of_beginning(whole, head, at);
        assert(whole[at] == '\n');
        assert(line.take(0) =~= Seq::<char>::empty());
    }
}

/// The pieces of lines joined are the lines.
pub proof fn lemma_pieces_of_joined(lines: Seq<Seq<char>>)
    requires
        lines.len() >= 1,
        forall|k: int| 0 <= k < lines.len() ==> is_one_line(#[trigger] lines[k]),
    ensures
        pieces_upto(joined(lines, "\n"@), joined(lines, "\n"@).len() as int) == lines,
    decreases lines.len(),
{
    reveal_strlit("\n");
    assert("\n"@ =~= seq!['\n']);
    if lines.len() == 1 {
        let line = lines[0];
        lemma_pieces_of_one_line(line, line.len() as int);
        assert(line.take(line.len() as int) =~= line);
        assert(seq![line] =~= lines);
    } else {
        let init = lines.drop_last();
        let last = lines.last();
        assert forall|k: int| 0 <= k < init.len() implies is_one_line(#[trigger] init[k]) by {
            assert(init[k] == lines[k]);
        }
        lemma_pieces_of_joined(init);
        let head = joined(init, "\n"@);
        lemma_pieces_with_one_more_line(head, last, last.len() as int);
        assert(last.take(last.len() as int) =~= last);
        assert(init.push(last) =~= lines);
    }
}

/// Normalizing a normalized text changes nothing.
///
/// This holds where line breaks are not kept. Where they are kept, it holds unless the
/// normalized text ends with a line feed: its last line is empty then, and the line feed
/// before an empty last line is taken for the end of the text when the text is read
/// again. The letters of the text are to be plain once its line endings are unified,
/// which Unicode's letters are.
pub proof fn lemma_normalized_twice(text: Seq<char>, preserve_line_breaks: bool)
    requires
        letters_are_plain(newlines_unified(text)),
        preserve_line_breaks ==> !(normalized(text, true).len() > 0 && normalized(
            text,
            true,
        ).last() == '\n'),
    ensures
        normalized(normalized(text, preserve_line_breaks), preserve_line_breaks) == normalized(
            text,
            preserve_line_breaks,
        ),
{
    reveal_strlit("\n");
    assert("\n"@ =~= seq!['\n']);
    let unified = newlines_unified(text);
    lemma_unified_has_no_return(text, text.len() as int);
    lemma_stripped_is_settled(unified);
    let stripped = marks_stripped(unified);
    if !preserve_line_breaks {
        lemma_cleaned_line(stripped);
    } else {
        let lines = lines_of(stripped);
        lemma_lines_are_settled(stripped);
        let cleaned = lines_cleaned(lines);
        let once = joined(cleaned, "\n"@);
        assert(once == normalized(text, true));
        assert forall|k: int| 0 <= k < cleaned.len() implies is_settled(#[trigger] cleaned[k])
            && is_one_line(cleaned[k]) && line_cleaned(cleaned[k]) == cleaned[k] by {
            lemma_cleaned_line(lines[k]);
        }
        lemma_joined_is_settled(cleaned);
        lemma_settled_is_unchanged(once, once.len() as int);
        assert(once.take(once.len() as int) =~= once);
        assert(marks_stripped(newlines_unified(once)) == once);
        if cleaned.len() == 0 {
            assert(once =~= Seq::<char>::empty());
            assert(pieces_upto(once, 0).last().len() == 0);
            assert(lines_of(once) =~= Seq::<Seq<char>>::empty());
            assert(lines_cleaned(lines_of(once)) =~= Seq::<Seq<char>>::empty());
        } else {
            lemma_pieces_of_joined(cleaned);
            if cleaned.last().len() == 0 {
                if cleaned.len() == 1 {
                    assert(once =~= Seq::<char>::empty());
                    assert(lines_of(once) =~= Seq::<Seq<char>>::empty());
                    assert(lines_cleaned(lines_of(once)) =~= Seq::<Seq<char>>::empty());
                } else {
                    let head = joined(cleaned.drop_last(), "\n"@);
                    assert(once == head + "\n"@ + cleaned.last());
                    assert(once.last() == '\n');
                }
            } else {
                assert(lines_of(once) == cleaned);
                assert(lines_cleaned(cleaned) =~= cleaned);
            }
        }
    }
}

} // verus!
