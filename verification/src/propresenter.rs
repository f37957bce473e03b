//! Text for import into a lyric presenter: the lines in groups of a few, one group for
//! each slide, with a blank line between two groups.

use vstd::prelude::*;
use crate::text::{chars_of, join, joined, string_of};

verus! {

/// The first `n` lines in groups of `size`: each group but the last is full.
pub open spec fn chunked_upto(lines: Seq<Seq<char>>, n: int, size: int) -> Seq<Seq<Seq<char>>>
    decreases n,
{
    if n <= 0 {
        Seq::empty()
    } else {
        let before = chunked_upto(lines, n - 1, size);
        if before.len() > 0 && before.last().len() < size {
            before.drop_last().push(before.last().push(lines[n - 1]))
        } else {
            before.push(seq![lines[n - 1]])
        }
    }
}

/// The lines in groups of `size`.
pub open spec fn chunked(lines: Seq<Seq<char>>, size: int) -> Seq<Seq<Seq<char>>> {
    chunked_upto(lines, lines.len() as int, size)
}

/// The text of each group: its lines, one to a line.
pub open spec fn group_texts(groups: Seq<Seq<Seq<char>>>) -> Seq<Seq<char>> {
    Seq::new(groups.len(), |i: int| joined(groups[i], "\n"@))
}

/// The lines as text for the presenter: groups of `size` lines, a blank line between two
/// groups.
pub open spec fn formatted(lines: Seq<Seq<char>>, size: int) -> Seq<char> {
    joined(group_texts(chunked(lines, size)), "\n\n"@)
}

/// The size of a group for a wish of `lines` lines: the wish, but one at least.
pub open spec fn group_size(lines: usize) -> usize {
    if lines == 0 {
        1
    } else {
        lines
    }
}

/// A slide ready for output.
#[derive(Debug, Clone)]
pub struct FormattedSlide {
    /// The lines of the slide.
    pub lines: Vec<String>,
}

impl FormattedSlide {
    /// A slide of the given lines.
    pub fn new(lines: Vec<String>) -> (r: Self)
        ensures
            r.lines == lines,
    {
        FormattedSlide { lines }
    }

    /// The slide as text, one line to a line.
    pub fn to_string(&self) -> (r: String)
        ensures
            r@ == joined(self.lines.deep_view(), "\n"@),
    {
        string_of(&self.chars())
    }

    /// The slide as characters, one line to a line.
    fn chars(&self) -> (r: Vec<char>)
        ensures
            r@ == joined(self.lines.deep_view(), "\n"@),
    {
        let mut parts: Vec<Vec<char>> = Vec::new();
        let mut i: usize = 0;
        while i < self.lines.len()
            invariant
                i <= self.lines.len(),
                parts.len() == i,
                forall|j: int| 0 <= j < i ==> parts@[j]@ == self.lines@[j]@,
            decreases self.lines.len() - i,
        {
            parts.push(chars_of(self.lines[i].as_str()));
            i += 1;
        }
        proof {
            assert(parts.deep_view() =~~= self.lines.deep_view());
        }
        join(&parts, &chars_of("\n"))
    }
}

/// The lines of each slide.
pub open spec fn slide_lines(slides: Seq<FormattedSlide>) -> Seq<Seq<Seq<char>>> {
    Seq::new(slides.len(), |i: int| slides[i].lines.deep_view())
}

/// Splits the lines into slides of `lines_per_slide` lines, or of one line where none
/// are asked for.
pub fn split_into_slides(lines: &[String], lines_per_slide: usize) -> (slides: Vec<
    FormattedSlide,
>)
    ensures
        slide_lines(slides@) == chunked(lines.deep_view(), group_size(lines_per_slide) as int),
{
    let size: usize = if lines_per_slide == 0 {
        1
    } else {
        lines_per_slide
    };
    let ghost all = lines.deep_view();
    let mut slides: Vec<FormattedSlide> = Vec::new();
    let mut i: usize = 0;
    proof {
        assert(slide_lines(slides@) =~= Seq::empty());
    }
    while i < lines.len()
        invariant
            i <= lines.len(),
            size >= 1,
            all == lines.deep_view(),
            slide_lines(slides@) == chunked_upto(all, i as int, size as int),
        decreases lines.len() - i,
    {
        let ghost before = slide_lines(slides@);
        proof {
            assert(all[i as int] =~= lines@[i as int]@);
            if slides.len() > 0 {
                assert(before.last() == slides@[slides.len() - 1].lines.deep_view());
                assert(slides@[slides.len() - 1].lines.deep_view().len() == slides@[slides.len()
                    - 1].lines.len());
            }
        }
        let line = lines[i].clone();
        let open = slides.len() > 0 && slides[slides.len() - 1].lines.len() < size;
        if open {
            let mut last = match slides.pop() {
                Some(slide) => slide,
                None => FormattedSlide::new(Vec::new()),
            };
            let ghost held = last.lines.deep_view();
            last.lines.push(line);
            proof {
                assert(last.lines.deep_view() =~~= held.push(all[i as int]));
                assert(slide_lines(slides@) =~~= before.drop_last());
            }
            slides.push(last);
            proof {
                assert(slide_lines(slides@) =~~= before.drop_last().push(
                    held.push(all[i as int]),
                ));
            }
        } else {
            let mut group: Vec<String> = Vec::new();
            group.push(line);
            proof {
                assert(group.deep_view() =~~= seq![all[i as int]]);
            }
            slides.push(FormattedSlide::new(group));
            proof {
                assert(slide_lines(slides@) =~~= before.push(seq![all[i as int]]));
            }
        }
        i += 1;
    }
    slides
}

/// The formatter of text for the presenter.
#[derive(Debug, Clone)]
pub struct ProPresenterFormatter {
    lines_per_slide: usize,
}

impl Default for ProPresenterFormatter {
    /// A formatter that puts two lines on a slide.
    fn default() -> (r: Self)
        ensures
            r.lines_per_slide() == 2,
    {
        ProPresenterFormatter { lines_per_slide: 2 }
    }
}

impl ProPresenterFormatter {
    /// The number of lines that the formatter puts on a slide.
    pub closed spec fn lines_per_slide(&self) -> usize {
        self.lines_per_slide
    }

    /// A formatter that puts two lines on a slide.
    pub fn new() -> (r: Self)
        ensures
            r.lines_per_slide() == 2,
    {
        ProPresenterFormatter { lines_per_slide: 2 }
    }

    /// The formatter with the number of lines on a slide set as given, but to one at
    /// least.
    pub fn with_lines_per_slide(self, lines: usize) -> (r: Self)
        ensures
            r.lines_per_slide() == group_size(lines),
    {
        ProPresenterFormatter { lines_per_slide: if lines == 0 {
            1
        } else {
            lines
        } }
    }

    /// The lines as text for the presenter. No lines give the empty text.
    pub fn format(&self, lines: &[String]) -> (r: String)
        ensures
            r@ == formatted(lines.deep_view(), group_size(self.lines_per_slide()) as int),
    {
        string_of(&self.format_chars(lines))
    }

    /// The lines as characters for the presenter.
    fn format_chars(&self, lines: &[String]) -> (r: Vec<char>)
        ensures
            r@ == formatted(lines.deep_view(), group_size(self.lines_per_slide()) as int),
    {
        let slides = split_into_slides(lines, self.lines_per_slide);
        let ghost groups = slide_lines(slides@);
        let mut texts: Vec<Vec<char>> = Vec::new();
        let mut i: usize = 0;
        while i < slides.len()
            invariant
                i <= slides.len(),
                groups == slide_lines(slides@),
                texts.len() == i,
                forall|j: int| 0 <= j < i ==> texts@[j]@ == joined(groups[j], "\n"@),
            decreases slides.len() - i,
        {
            texts.push(slides[i].chars());
            i += 1;
        }
        proof {
            assert(texts.deep_view() =~~= group_texts(groups));
        }
        join(&texts, &chars_of("\n\n"))
    }

    /// The lines as text for the presenter, ended by a line feed unless there is no text.
    pub fn format_with_newline(&self, lines: &[String]) -> (r: String)
        ensures
            r@ == with_newline(
                formatted(lines.deep_view(), group_size(self.lines_per_slide()) as int),
            ),
    {
        let mut text = self.format_chars(lines);
        if text.len() > 0 {
            text.push('\n');
        }
        string_of(&text)
    }
}

/// The text ended by a line feed, unless it is empty.
pub open spec fn with_newline(text: Seq<char>) -> Seq<char> {
    if text.len() == 0 {
        text
    } else {
        text.push('\n')
    }
}

} // verus!
