//! The normalizer: from the text of a presentation to clean lines.
//!
//! A line loses its punctuation and symbols; an apostrophe stays, as the plain one, only
//! between two letters. Runs of spaces and tabs become one space and each line is
//! trimmed.

use vstd::prelude::*;
use regex::Regex;
use crate::pattern::{
    blank_run_pattern, blanks_collapsed, compile, pattern_of, replace_all,
};
use crate::text::{
    chars_of, join, joined, string_of, strings_of, trim, trimmed, unicode_alphabetic,
};
use crate::types::{slide_views, view_texts, ExtractedSlide, SlideView};

verus! {

/// Whether the character is punctuation or a symbol that is removed wherever it stands.
pub open spec fn is_removed_mark(c: char) -> bool {
    ||| c == '.' || c == ',' || c == ';' || c == ':' || c == '?' || c == '!'
    ||| c == '"' || c == '\u{201C}' || c == '\u{201D}' || c == '\u{201E}' || c == '\u{201A}'
    ||| c == '\u{00AB}' || c == '\u{00BB}' || c == '\u{2039}' || c == '\u{203A}'
    ||| c == '(' || c == ')' || c == '[' || c == ']' || c == '{' || c == '}' || c == '<' || c
        == '>'
    ||| c == '\u{2014}' || c == '\u{2013}' || c == '-'
    ||| c == '/' || c == '\\' || c == '|'
    ||| c == '@' || c == '#' || c == '$' || c == '%' || c == '^' || c == '&' || c == '*' || c
        == '_' || c == '+' || c == '=' || c == '~'
}

/// Whether the character is of the apostrophe's kind: the plain one, a curly one, or the
/// backtick.
pub open spec fn is_apostrophe(c: char) -> bool {
    c == '\'' || c == '\u{2019}' || c == '\u{2018}' || c == '`'
}

/// Whether the character is punctuation or a symbol that is removed wherever it stands.
pub fn removed_mark(c: char) -> (r: bool)
    ensures
        r == is_removed_mark(c),
{
    c == '.' || c == ',' || c == ';' || c == ':' || c == '?' || c == '!' || c == '"' || c
        == '\u{201C}' || c == '\u{201D}' || c == '\u{201E}' || c == '\u{201A}' || c == '\u{00AB}'
        || c == '\u{00BB}' || c == '\u{2039}' || c == '\u{203A}' || c == '(' || c == ')' || c
        == '[' || c == ']' || c == '{' || c == '}' || c == '<' || c == '>' || c == '\u{2014}' || c
        == '\u{2013}' || c == '-' || c == '/' || c == '\\' || c == '|' || c == '@' || c == '#'
        || c == '$' || c == '%' || c == '^' || c == '&' || c == '*' || c == '_' || c == '+' || c
        == '=' || c == '~'
}

/// Whether the character is of the apostrophe's kind.
pub fn apostrophe(c: char) -> (r: bool)
    ensures
        r == is_apostrophe(c),
{
    c == '\'' || c == '\u{2019}' || c == '\u{2018}' || c == '`'
}

/// The first `n` characters of the text with the line endings made one: a carriage
/// return before a line feed goes, every other carriage return becomes a line feed.
pub open spec fn newlines_unified_upto(s: Seq<char>, n: int) -> Seq<char>
    decreases n,
{
    if n <= 0 {
        Seq::empty()
    } else if s[n - 1] != '\r' {
        newlines_unified_upto(s, n - 1).push(s[n - 1])
    } else if n < s.len() && s[n] == '\n' {
        newlines_unified_upto(s, n - 1)
    } else {
        newlines_unified_upto(s, n - 1).push('\n')
    }
}

/// The text with its line endings made one.
pub open spec fn newlines_unified(s: Seq<char>) -> Seq<char> {
    newlines_unified_upto(s, s.len() as int)
}

/// What the character at `i` leaves in the text: nothing where it is a removed mark; the
/// plain apostrophe where it is of the apostrophe's kind and stands between two letters,
/// and nothing where it stands elsewhere; itself in every other case.
pub open spec fn kept_at(s: Seq<char>, i: int) -> Option<char> {
    if is_removed_mark(s[i]) {
        None
    } else if is_apostrophe(s[i]) {
        if i > 0 && unicode_alphabetic(s[i - 1]) && i + 1 < s.len() && unicode_alphabetic(
            s[i + 1],
        ) {
            Some('\'')
        } else {
            None
        }
    } else {
        Some(s[i])
    }
}

/// What the first `n` characters of the text leave.
pub open spec fn marks_stripped_upto(s: Seq<char>, n: int) -> Seq<char>
    decreases n,
{
    if n <= 0 {
        Seq::empty()
    } else {
        match kept_at(s, n - 1) {
            Some(c) => marks_stripped_upto(s, n - 1).push(c),
            None => marks_stripped_upto(s, n - 1),
        }
    }
}

/// The text without its punctuation and symbols.
pub open spec fn marks_stripped(s: Seq<char>) -> Seq<char> {
    marks_stripped_upto(s, s.len() as int)
}

/// The pieces between the line feeds among the first `n` characters of the text. There
/// is always a last piece, which is empty where the text ends with a line feed.
pub open spec fn pieces_upto(s: Seq<char>, n: int) -> Seq<Seq<char>>
    decreases n,
{
    if n <= 0 {
        seq![Seq::empty()]
    } else {
        let before = pieces_upto(s, n - 1);
        if s[n - 1] == '\n' {
            before.push(Seq::empty())
        } else {
            before.drop_last().push(before.last().push(s[n - 1]))
        }
    }
}

/// The lines of a text without carriage returns: the pieces between its line feeds. A
/// line feed at the very end begins no further line.
pub open spec fn lines_of(s: Seq<char>) -> Seq<Seq<char>> {
    let pieces = pieces_upto(s, s.len() as int);
    if pieces.last().len() == 0 {
        pieces.drop_last()
    } else {
        pieces
    }
}

/// A line with its runs of blanks collapsed and its ends trimmed.
pub open spec fn line_cleaned(line: Seq<char>) -> Seq<char> {
    trimmed(blanks_collapsed(line))
}

/// Each of the lines cleaned.
pub open spec fn lines_cleaned(lines: Seq<Seq<char>>) -> Seq<Seq<char>> {
    Seq::new(lines.len(), |i: int| line_cleaned(lines[i]))
}

/// The text normalized. Where line breaks are preserved, each line is cleaned by itself
/// and the lines are joined again; where they are not, the text is cleaned as one line.
pub open spec fn normalized(text: Seq<char>, preserve_line_breaks: bool) -> Seq<char> {
    let stripped = marks_stripped(newlines_unified(text));
    if preserve_line_breaks {
        joined(lines_cleaned(lines_of(stripped)), "\n"@)
    } else {
        line_cleaned(stripped)
    }
}

/// Those of the first `n` lines that hold more than whitespace, each trimmed.
pub open spec fn trimmed_lines_upto(lines: Seq<Seq<char>>, n: int) -> Seq<Seq<char>>
    decreases n,
{
    if n <= 0 {
        Seq::empty()
    } else if trimmed(lines[n - 1]).len() > 0 {
        trimmed_lines_upto(lines, n - 1).push(trimmed(lines[n - 1]))
    } else {
        trimmed_lines_upto(lines, n - 1)
    }
}

/// The lines that a text gives: those of the normalized text that are not empty.
pub open spec fn normalized_lines(text: Seq<char>, preserve_line_breaks: bool) -> Seq<
    Seq<char>,
> {
    let lines = lines_of(normalized(text, preserve_line_breaks));
    trimmed_lines_upto(lines, lines.len() as int)
}

/// The lines that the first `n` of the texts give, text after text.
pub open spec fn lines_of_texts(texts: Seq<Seq<char>>, n: int, preserve_line_breaks: bool) -> Seq<
    Seq<char>,
>
    decreases n,
{
    if n <= 0 {
        Seq::empty()
    } else {
        lines_of_texts(texts, n - 1, preserve_line_breaks) + normalized_lines(
            texts[n - 1],
            preserve_line_breaks,
        )
    }
}

/// The text with its line endings made one.
pub fn unify_newlines(v: &Vec<char>) -> (r: Vec<char>)
    ensures
        r@ == newlines_unified(v@),
{
    let mut r: Vec<char> = Vec::new();
    let mut i: usize = 0;
    while i < v.len()
        invariant
            i <= v.len(),
            r@ == newlines_unified_upto(v@, i as int),
        decreases v.len() - i,
    {
        if v[i] != '\r' {
            r.push(v[i]);
        } else if i + 1 < v.len() && v[i + 1] == '\n' {
        } else {
            r.push('\n');
        }
        i += 1;
    }
    r
}

/// The text without its punctuation and symbols.
pub fn strip_marks(v: &Vec<char>) -> (r: Vec<char>)
    ensures
        r@ == marks_stripped(v@),
{
    let mut r: Vec<char> = Vec::new();
    let mut i: usize = 0;
    while i < v.len()
        invariant
            i <= v.len(),
            r@ == marks_stripped_upto(v@, i as int),
        decreases v.len() - i,
    {
        let c = v[i];
        if removed_mark(c) {
        } else if apostrophe(c) {
            if i > 0 && v[i - 1].is_alphabetic() && i + 1 < v.len() && v[i + 1].is_alphabetic() {
                r.push('\'');
            }
        } else {
            r.push(c);
        }
        i += 1;
    }
    r
}

/// The lines of a text without carriage returns.
pub fn split_lines(v: &Vec<char>) -> (r: Vec<Vec<char>>)
    ensures
        r.deep_view() == lines_of(v@),
{
    let mut closed: Vec<Vec<char>> = Vec::new();
    let mut current: Vec<char> = Vec::new();
    let mut i: usize = 0;
    proof {
        assert(closed.deep_view().push(current@) =~= seq![Seq::<char>::empty()]);
    }
    while i < v.len()
        invariant
            i <= v.len(),
            closed.deep_view().push(current@) == pieces_upto(v@, i as int),
        decreases v.len() - i,
    {
        let ghost before = closed.deep_view();
        let ghost piece = current@;
        if v[i] == '\n' {
            closed.push(current);
            current = Vec::new();
            proof {
                assert(closed.deep_view() =~~= before.push(piece));
            }
        } else {
            current.push(v[i]);
            proof {
                assert(before.push(piece).drop_last() =~= before);
                assert(before.push(piece).last() == piece);
            }
        }
        i += 1;
    }
    if current.len() > 0 {
        let ghost before = closed.deep_view();
        let ghost piece = current@;
        closed.push(current);
        proof {
            assert(closed.deep_view() =~~= before.push(piece));
        }
    } else {
        proof {
            assert(closed.deep_view().push(current@).drop_last() =~= closed.deep_view());
        }
    }
    closed
}

/// The normalizer of text for lyrics.
#[derive(Debug)]
pub struct TextNormalizer {
    preserve_line_breaks: bool,
    blank_runs: Regex,
}

impl Clone for TextNormalizer {
    /// A normalizer that works as this one does.
    fn clone(&self) -> (r: Self)
        ensures
            r.preserves_line_breaks() == self.preserves_line_breaks(),
    {
        proof {
            use_type_invariant(self);
        }
        TextNormalizer {
            preserve_line_breaks: self.preserve_line_breaks,
            blank_runs: self.blank_runs.clone(),
        }
    }
}

impl Default for TextNormalizer {
    /// A normalizer that does not keep line breaks.
    fn default() -> (r: Self)
        ensures
            !r.preserves_line_breaks(),
    {
        TextNormalizer::new().with_preserve_line_breaks(false)
    }
}

impl TextNormalizer {
    /// The expression held is that of a run of blanks.
    #[verifier::type_invariant]
    spec fn holds_blank_run_pattern(self) -> bool {
        pattern_of(self.blank_runs) == blank_run_pattern()
    }

    /// Whether the normalizer keeps the line breaks of a text.
    pub closed spec fn preserves_line_breaks(&self) -> bool {
        self.preserve_line_breaks
    }

    /// A normalizer that keeps line breaks.
    pub fn new() -> (r: Self)
        ensures
            r.preserves_line_breaks(),
    {
        TextNormalizer { preserve_line_breaks: true, blank_runs: compile("[ \\t]+") }
    }

    /// The normalizer with the keeping of line breaks set as given.
    pub fn with_preserve_line_breaks(self, preserve: bool) -> (r: Self)
        ensures
            r.preserves_line_breaks() == preserve,
    {
        proof {
            use_type_invariant(&self);
        }
        TextNormalizer { preserve_line_breaks: preserve, blank_runs: self.blank_runs }
    }

    /// A line with its runs of blanks collapsed and its ends trimmed.
    fn clean_line(&self, line: &Vec<char>) -> (r: Vec<char>)
        ensures
            r@ == line_cleaned(line@),
    {
        proof {
            use_type_invariant(self);
        }
        let collapsed = replace_all(&self.blank_runs, string_of(line).as_str(), " ");
        trim(&chars_of(collapsed.as_str()))
    }

    /// Normalizes a text: removes punctuation and symbols, keeps an apostrophe between
    /// two letters, collapses runs of blanks and trims the lines, or the whole text where
    /// line breaks are not kept.
    pub fn normalize_line(&self, text: &str) -> (r: String)
        ensures
            r@ == normalized(text@, self.preserves_line_breaks()),
    {
        let stripped = strip_marks(&unify_newlines(&chars_of(text)));
        if self.preserve_line_breaks {
            let lines = split_lines(&stripped);
            let mut cleaned: Vec<Vec<char>> = Vec::new();
            let mut i: usize = 0;
            while i < lines.len()
                invariant
                    i <= lines.len(),
                    cleaned.len() == i,
                    forall|j: int| 0 <= j < i ==> cleaned@[j]@ == line_cleaned(lines@[j]@),
                decreases lines.len() - i,
            {
                cleaned.push(self.clean_line(&lines[i]));
                i += 1;
            }
            proof {
                assert forall|j: int| 0 <= j < lines.len() implies cleaned.deep_view()[j] == line_cleaned(
                    lines.deep_view()[j],
                ) by {
                    assert(cleaned.deep_view()[j] =~= cleaned@[j]@);
                    assert(lines.deep_view()[j] =~= lines@[j]@);
                }
                assert(cleaned.deep_view() =~= lines_cleaned(lines.deep_view()));
            }
            string_of(&join(&cleaned, &chars_of("\n")))
        } else {
            string_of(&self.clean_line(&stripped))
        }
    }

    /// The lines of a text: those of the normalized text that are not empty.
    pub fn normalize_to_lines(&self, text: &str) -> (r: Vec<String>)
        ensures
            r.deep_view() == normalized_lines(text@, self.preserves_line_breaks()),
    {
        let normalized = self.normalize_line(text);
        let lines = split_lines(&chars_of(normalized.as_str()));
        let mut kept: Vec<Vec<char>> = Vec::new();
        let mut i: usize = 0;
        proof {
            assert(kept.deep_view() =~= Seq::empty());
        }
        while i < lines.len()
            invariant
                i <= lines.len(),
                kept.deep_view() == trimmed_lines_upto(lines.deep_view(), i as int),
            decreases lines.len() - i,
        {
            let line = trim(&lines[i]);
            proof {
                assert(lines.deep_view()[i as int] =~= lines@[i as int]@);
            }
            if line.len() > 0 {
                let ghost before = kept.deep_view();
                kept.push(line);
                proof {
                    assert(kept.deep_view() =~~= before.push(line@));
                }
            }
            i += 1;
        }
        strings_of(&kept)
    }

    /// Adds to `out` the lines of each of the texts of a slide but the one at `skip`.
    pub(crate) fn add_slide_lines(&self, out: &mut Vec<String>, slide: &ExtractedSlide, skip: Option<usize>)
        ensures
            final(out).deep_view() == old(out).deep_view() + lines_of_texts(
                texts_but(view_texts(slide@), skip),
                texts_but(view_texts(slide@), skip).len() as int,
                self.preserves_line_breaks(),
            ),
    {
        let ghost texts = view_texts(slide@);
        let ghost wanted = texts_but(texts, skip);
        let ghost preserve = self.preserves_line_breaks();
        let mut i: usize = 0;
        let ghost mut taken: int = 0;
        proof {
            assert(old(out).deep_view() + lines_of_texts(wanted, 0, preserve) =~= old(
                out,
            ).deep_view());
        }
        while i < slide.lines.len()
            invariant
                i <= slide.lines.len(),
                texts == view_texts(slide@),
                texts.len() == slide.lines.len(),
                wanted == texts_but(texts, skip),
                preserve == self.preserves_line_breaks(),
                taken == skipped_index(i as int, skip),
                0 <= taken <= wanted.len(),
                out.deep_view() == old(out).deep_view() + lines_of_texts(wanted, taken, preserve),
            decreases slide.lines.len() - i,
        {
            let skip_this = match skip {
                Some(at) => at == i,
                None => false,
            };
            if !skip_this {
                let more = self.normalize_to_lines(slide.lines[i].text.as_str());
                proof {
                    assert(wanted[taken] == texts[i as int]);
                    assert(slide@.lines[i as int] == slide.lines@[i as int]@);
                    assert(texts[i as int] == slide.lines@[i as int].text@);
                }
                let ghost before = out.deep_view();
                append_strings(out, more);
                proof {
                    assert(old(out).deep_view() + lines_of_texts(wanted, taken, preserve)
                        + more.deep_view() =~= old(out).deep_view() + (lines_of_texts(
                        wanted,
                        taken,
                        preserve,
                    ) + more.deep_view()));
                    taken = taken + 1;
                }
            }
            i += 1;
        }
    }

    /// The lines of all the texts of the slides, slide after slide.
    pub fn normalize_presentation(&self, slides: &[ExtractedSlide]) -> (r: Vec<String>)
        ensures
            r.deep_view() == presentation_lines(
                slide_views(slides@),
                None,
                self.preserves_line_breaks(),
            ),
    {
        self.lines_without(slides, None)
    }

    /// The lines of all the texts of the slides, slide after slide, but for the text at
    /// `skip` on the first slide.
    pub(crate) fn lines_without(&self, slides: &[ExtractedSlide], skip: Option<usize>) -> (r: Vec<
        String,
    >)
        ensures
            r.deep_view() == presentation_lines(
                slide_views(slides@),
                skip,
                self.preserves_line_breaks(),
            ),
    {
        let ghost views = slide_views(slides@);
        let mut all_lines: Vec<String> = Vec::new();
        let mut s: usize = 0;
        proof {
            assert(all_lines.deep_view() =~= Seq::empty());
        }
        while s < slides.len()
            invariant
                s <= slides.len(),
                views == slide_views(slides@),
                all_lines.deep_view() == presentation_lines(
                    views.take(s as int),
                    skip,
                    self.preserves_line_breaks(),
                ),
            decreases slides.len() - s,
        {
            let skip_here = if s == 0 {
                skip
            } else {
                None
            };
            self.add_slide_lines(&mut all_lines, &slides[s], skip_here);
            proof {
                let upto = views.take(s + 1);
                assert(upto.drop_last() =~= views.take(s as int));
                assert(upto.last() == slides@[s as int]@);
            }
            s += 1;
        }
        proof {
            assert(views.take(slides.len() as int) =~= views);
        }
        all_lines
    }
}

/// The texts without the one at `skip`, where one is to be skipped.
pub open spec fn texts_but(texts: Seq<Seq<char>>, skip: Option<usize>) -> Seq<Seq<char>> {
    match skip {
        Some(at) => if at < texts.len() {
            texts.remove(at as int)
        } else {
            texts
        },
        None => texts,
    }
}

/// The index that the text at `i` has once the text at `skip` is left out.
pub open spec fn skipped_index(i: int, skip: Option<usize>) -> int {
    match skip {
        Some(at) => if at < i {
            i - 1
        } else {
            i
        },
        None => i,
    }
}

/// The lines of all the texts of the slides, slide after slide, but for the text at `skip`
/// on the first slide, where one is to be skipped.
pub open spec fn presentation_lines(
    slides: Seq<SlideView>,
    skip: Option<usize>,
    preserve_line_breaks: bool,
) -> Seq<Seq<char>>
    decreases slides.len(),
{
    if slides.len() == 0 {
        Seq::empty()
    } else {
        let texts = texts_but(
            view_texts(slides.last()),
            if slides.len() == 1 {
                skip
            } else {
                None
            },
        );
        presentation_lines(slides.drop_last(), skip, preserve_line_breaks) + lines_of_texts(
            texts,
            texts.len() as int,
            preserve_line_breaks,
        )
    }
}

/// Appends the strings of `more` to `out`.
pub fn append_strings(out: &mut Vec<String>, more: Vec<String>)
    ensures
        final(out).deep_view() == old(out).deep_view() + more.deep_view(),
{
    let mut more = more;
    let ghost added = more.deep_view();
    let ghost before = out.deep_view();
    out.append(&mut more);
    proof {
        assert(out.deep_view() =~= before + added);
    }
}

} // verus!
