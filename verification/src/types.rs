//! The document model: what a parser hands over and the normalizer reads.

use vstd::prelude::*;
use crate::error::{Error, ErrorKind};
use crate::order::{sort_stably, stably_sorted, Ranked};
use crate::text::{chars_of, is_blank, same_chars, trim_bounds, unicode_lowercase};

verus! {

/// The format of a presentation file.
#[derive(Debug, Clone, Copy, PartialEq, Eq, Structural)]
pub enum PresentationFormat {
    /// The zipped XML container.
    Pptx,
    /// The legacy compound-file container.
    Ppt,
}

/// Whether `bytes` begins with the given signature.
pub open spec fn begins_with(bytes: Seq<u8>, signature: Seq<u8>) -> bool {
    bytes.len() >= signature.len() && bytes.take(signature.len() as int) == signature
}

/// The signature of a zip archive.
pub open spec fn zip_signature() -> Seq<u8> {
    seq![0x50u8, 0x4Bu8, 0x03u8, 0x04u8]
}

/// The signature of a compound file.
pub open spec fn compound_signature() -> Seq<u8> {
    seq![0xD0u8, 0xCFu8, 0x11u8, 0xE0u8, 0xA1u8, 0xB1u8, 0x1Au8, 0xE1u8]
}

/// The format that the first bytes of a file show, if they show one.
pub open spec fn format_of_magic(bytes: Seq<u8>) -> Option<PresentationFormat> {
    if begins_with(bytes, zip_signature()) {
        Some(PresentationFormat::Pptx)
    } else if begins_with(bytes, compound_signature()) {
        Some(PresentationFormat::Ppt)
    } else {
        None
    }
}

/// The format that a file name's extension stands for, whatever its case.
pub open spec fn format_of_extension(ext: Seq<char>) -> Option<PresentationFormat> {
    let lower = unicode_lowercase(ext);
    if lower == "pptx"@ {
        Some(PresentationFormat::Pptx)
    } else if lower == "ppt"@ {
        Some(PresentationFormat::Ppt)
    } else {
        None
    }
}

/// The format of a file: what its first bytes show, else what its extension says.
pub open spec fn detected_format(bytes: Seq<u8>, extension: Option<Seq<char>>) -> Option<
    PresentationFormat,
> {
    match format_of_magic(bytes) {
        Some(format) => Some(format),
        None => match extension {
            Some(ext) => format_of_extension(ext),
            None => None,
        },
    }
}

/// Whether the string holds exactly the characters of `literal`.
pub fn text_is(s: &str, literal: &str) -> (r: bool)
    ensures
        r == (s@ == literal@),
{
    same_chars(&chars_of(s), &chars_of(literal))
}

/// Whether `bytes` begins with the four given bytes, from index `at` of the signature on.
fn has_bytes_at(bytes: &[u8], at: usize, b0: u8, b1: u8, b2: u8, b3: u8) -> (r: bool)
    requires
        at + 4 <= bytes.len(),
    ensures
        r == (bytes@[at as int] == b0 && bytes@[at + 1] == b1 && bytes@[at + 2] == b2 && bytes@[at
            + 3] == b3),
{
    bytes[at] == b0 && bytes[at + 1] == b1 && bytes[at + 2] == b2 && bytes[at + 3] == b3
}

impl PresentationFormat {
    /// The format that a file name's extension stands for.
    pub fn from_extension(ext: &str) -> (r: Option<Self>)
        ensures
            r == format_of_extension(ext@),
    {
        let lower = ext.to_lowercase();
        if text_is(lower.as_str(), "pptx") {
            Some(PresentationFormat::Pptx)
        } else if text_is(lower.as_str(), "ppt") {
            Some(PresentationFormat::Ppt)
        } else {
            None
        }
    }

    /// The format that the first bytes of a file show.
    pub fn from_magic(bytes: &[u8]) -> (r: Option<Self>)
        ensures
            r == format_of_magic(bytes@),
    {
        if bytes.len() < 4 {
            return None;
        }
        if has_bytes_at(bytes, 0, 0x50, 0x4B, 0x03, 0x04) {
            proof {
                assert(bytes@.take(4) =~= zip_signature());
            }
            return Some(PresentationFormat::Pptx);
        }
        proof {
            let head = bytes@.take(4);
            assert(head[0] == bytes@[0] && head[1] == bytes@[1] && head[2] == bytes@[2] && head[3]
                == bytes@[3]);
        }
        if bytes.len() >= 8 && has_bytes_at(bytes, 0, 0xD0, 0xCF, 0x11, 0xE0) && has_bytes_at(
            bytes,
            4,
            0xA1,
            0xB1,
            0x1A,
            0xE1,
        ) {
            proof {
                assert(bytes@.take(8) =~= compound_signature());
            }
            return Some(PresentationFormat::Ppt);
        }
        proof {
            if bytes.len() >= 8 {
                let head = bytes@.take(8);
                assert(head[0] == bytes@[0] && head[1] == bytes@[1] && head[2] == bytes@[2]
                    && head[3] == bytes@[3] && head[4] == bytes@[4] && head[5] == bytes@[5]
                    && head[6] == bytes@[6] && head[7] == bytes@[7]);
            }
        }
        None
    }
}

/// The text that reports a file whose format nothing shows.
pub open spec fn undetected_message() -> Seq<char> {
    "Could not detect file format"@
}

/// Decides the format of a file from its first bytes and, where they show nothing, from
/// its extension. What the bytes show counts, whatever the extension says.
pub fn detect_format(bytes: &[u8], extension: Option<&str>) -> (r: Result<
    PresentationFormat,
    Error,
>)
    ensures
        match detected_format(
            bytes@,
            match extension {
                Some(ext) => Some(ext@),
                None => None,
            },
        ) {
            Some(format) => r == Ok::<PresentationFormat, Error>(format),
            None => r matches Err(Error::UnsupportedFormat(m)) && m@ == undetected_message(),
        },
        format_of_magic(bytes@) matches Some(format) ==> r == Ok::<PresentationFormat, Error>(
            format,
        ),
{
    match PresentationFormat::from_magic(bytes) {
        Some(format) => Ok(format),
        None => {
            let by_extension = match extension {
                Some(ext) => PresentationFormat::from_extension(ext),
                None => None,
            };
            match by_extension {
                Some(format) => Ok(format),
                None => Err(
                    Error::UnsupportedFormat("Could not detect file format".to_string()),
                ),
            }
        },
    }
}

/// A file that begins with the zip signature is a zipped presentation and one that begins
/// with the compound-file signature is a legacy presentation, whatever extension comes
/// with it.
pub proof fn lemma_magic_has_priority(bytes: Seq<u8>, extension: Option<Seq<char>>)
    ensures
        begins_with(bytes, zip_signature()) ==> detected_format(bytes, extension) == Some(
            PresentationFormat::Pptx,
        ),
        begins_with(bytes, compound_signature()) ==> detected_format(bytes, extension) == Some(
            PresentationFormat::Ppt,
        ),
{
    if begins_with(bytes, compound_signature()) {
        let head = bytes.take(8);
        assert(head[0] == 0xD0u8);
        if begins_with(bytes, zip_signature()) {
            assert(bytes.take(4)[0] == 0x50u8);
            assert(bytes.take(4)[0] == bytes[0]);
            assert(head[0] == bytes[0]);
        }
    }
}

/// A piece of text from a shape or a text frame.
#[derive(Debug, Clone)]
pub struct SlideText {
    /// The text itself.
    pub text: String,
    /// The distance from the top of the slide, where known.
    pub y_position: Option<i64>,
    /// The distance from the left of the slide, where known.
    pub x_position: Option<i64>,
}

/// What a `SlideText` stands for.
pub struct SlideTextView {
    pub text: Seq<char>,
    pub y_position: Option<i64>,
    pub x_position: Option<i64>,
}

impl View for SlideText {
    type V = SlideTextView;

    open spec fn view(&self) -> SlideTextView {
        SlideTextView { text: self.text@, y_position: self.y_position, x_position: self.x_position }
    }
}

/// The rank of a coordinate: an unknown one comes before every known one.
pub open spec fn coordinate_rank(c: Option<i64>) -> int {
    match c {
        Some(v) => v as int,
        None => i64::MIN - 1,
    }
}

/// Whether coordinate `a` is at most `b`, an unknown one being least.
fn coordinate_le(a: Option<i64>, b: Option<i64>) -> (r: bool)
    ensures
        r == (coordinate_rank(a) <= coordinate_rank(b)),
{
    match a {
        None => true,
        Some(x) => match b {
            None => false,
            Some(y) => x <= y,
        },
    }
}

/// Whether two coordinates are the same.
fn coordinate_eq(a: Option<i64>, b: Option<i64>) -> (r: bool)
    ensures
        r == (coordinate_rank(a) == coordinate_rank(b)),
{
    match a {
        None => b.is_none(),
        Some(x) => match b {
            None => false,
            Some(y) => x == y,
        },
    }
}

/// Reading order: from the top down, and from the left within one height.
pub open spec fn reads_before(a: SlideTextView, b: SlideTextView) -> bool {
    let ya = coordinate_rank(a.y_position);
    let yb = coordinate_rank(b.y_position);
    ya < yb || (ya == yb && coordinate_rank(a.x_position) <= coordinate_rank(b.x_position))
}

impl Ranked for SlideText {
    open spec fn precedes(&self, other: &Self) -> bool {
        reads_before(self@, other@)
    }

    fn goes_before(&self, other: &Self) -> (r: bool) {
        if coordinate_eq(self.y_position, other.y_position) {
            coordinate_le(self.x_position, other.x_position)
        } else {
            coordinate_le(self.y_position, other.y_position)
        }
    }

    proof fn precedes_is_total(a: &Self, b: &Self) {
    }

    proof fn precedes_is_transitive(a: &Self, b: &Self, c: &Self) {
    }
}

impl SlideText {
    /// A text whose place on the slide is not known.
    pub fn new(text: &str) -> (r: Self)
        ensures
            r@ == (SlideTextView { text: text@, y_position: None, x_position: None }),
    {
        SlideText { text: text.to_string(), y_position: None, x_position: None }
    }

    /// A text at the given place on the slide.
    pub fn with_position(text: &str, y: i64, x: i64) -> (r: Self)
        ensures
            r@ == (SlideTextView { text: text@, y_position: Some(y), x_position: Some(x) }),
    {
        SlideText { text: text.to_string(), y_position: Some(y), x_position: Some(x) }
    }
}

/// The views of the given texts.
pub open spec fn line_views(lines: Seq<SlideText>) -> Seq<SlideTextView> {
    lines.map_values(|t: SlideText| t@)
}

/// The texts of the given lines.
pub open spec fn line_texts(lines: Seq<SlideText>) -> Seq<Seq<char>> {
    Seq::new(lines.len(), |i: int| lines[i].text@)
}

/// The texts of a slide.
pub open spec fn view_texts(slide: SlideView) -> Seq<Seq<char>> {
    slide.lines.map_values(|line: SlideTextView| line.text)
}

/// Those of the texts that hold more than whitespace, in their order.
pub open spec fn without_blanks(texts: Seq<Seq<char>>) -> Seq<Seq<char>>
    decreases texts.len(),
{
    if texts.len() == 0 {
        texts
    } else if is_blank(texts.last()) {
        without_blanks(texts.drop_last())
    } else {
        without_blanks(texts.drop_last()).push(texts.last())
    }
}

/// One slide of a presentation.
#[derive(Debug, Clone)]
pub struct ExtractedSlide {
    /// The number of the slide, counted from one.
    pub number: usize,
    /// The texts of the slide in reading order.
    pub lines: Vec<SlideText>,
    /// The speaker notes of the slide, if any were taken.
    pub notes: Option<String>,
}

/// What an `ExtractedSlide` stands for.
pub struct SlideView {
    pub number: nat,
    pub lines: Seq<SlideTextView>,
    pub notes: Option<Seq<char>>,
}

impl View for ExtractedSlide {
    type V = SlideView;

    open spec fn view(&self) -> SlideView {
        SlideView {
            number: self.number as nat,
            lines: line_views(self.lines@),
            notes: match self.notes {
                Some(n) => Some(n@),
                None => None,
            },
        }
    }
}

impl ExtractedSlide {
    /// A slide with the given number and no text.
    pub fn new(number: usize) -> (r: Self)
        ensures
            r@ == (SlideView { number: number as nat, lines: Seq::empty(), notes: None }),
            r.lines@.len() == 0,
    {
        let r = ExtractedSlide { number, lines: Vec::new(), notes: None };
        proof {
            assert(line_views(r.lines@) =~= Seq::empty());
        }
        r
    }

    /// Adds a text whose place is not known.
    pub fn add_line(&mut self, text: &str)
        ensures
            final(self).number == old(self).number,
            final(self).notes == old(self).notes,
            final(self).lines@.len() == old(self).lines@.len() + 1,
            final(self)@.lines == old(self)@.lines.push(
                SlideTextView { text: text@, y_position: None, x_position: None },
            ),
            final(self).lines@.drop_last() == old(self).lines@,
            final(self).lines@.last()@ == (SlideTextView {
                text: text@,
                y_position: None,
                x_position: None,
            }),
            line_texts(final(self).lines@) == line_texts(old(self).lines@).push(text@),
    {
        self.lines.push(SlideText::new(text));
        proof {
            assert(self.lines@.drop_last() =~= old(self).lines@);
            assert(line_views(self.lines@) =~= line_views(old(self).lines@).push(
                SlideTextView { text: text@, y_position: None, x_position: None },
            ));
            assert(line_texts(self.lines@) =~= line_texts(old(self).lines@).push(text@));
        }
    }

    /// Adds a text at the given place.
    pub fn add_line_with_position(&mut self, text: &str, y: i64, x: i64)
        ensures
            final(self).number == old(self).number,
            final(self).notes == old(self).notes,
            final(self).lines@.len() == old(self).lines@.len() + 1,
            final(self)@.lines == old(self)@.lines.push(
                SlideTextView { text: text@, y_position: Some(y), x_position: Some(x) },
            ),
            final(self).lines@.drop_last() == old(self).lines@,
            final(self).lines@.last()@ == (SlideTextView {
                text: text@,
                y_position: Some(y),
                x_position: Some(x),
            }),
    {
        self.lines.push(SlideText::with_position(text, y, x));
        proof {
            assert(self.lines@.drop_last() =~= old(self).lines@);
            assert(line_views(self.lines@) =~= line_views(old(self).lines@).push(
                SlideTextView { text: text@, y_position: Some(y), x_position: Some(x) },
            ));
        }
    }

    /// Puts the texts in reading order: from the top down, then from the left. Texts at
    /// one place keep the order in which they were found.
    pub fn sort_by_position(&mut self)
        ensures
            final(self).number == old(self).number,
            final(self).notes == old(self).notes,
            final(self).lines@ == stably_sorted(old(self).lines@),
    {
        sort_stably(&mut self.lines);
    }

    /// The texts of the slide that hold more than whitespace.
    pub fn non_empty_lines(&self) -> (r: Vec<&str>)
        ensures
            r.deep_view() == without_blanks(line_texts(self.lines@)),
    {
        let mut r: Vec<&str> = Vec::new();
        let mut i: usize = 0;
        while i < self.lines.len()
            invariant
                i <= self.lines.len(),
                r.deep_view() == without_blanks(line_texts(self.lines@).take(i as int)),
            decreases self.lines.len() - i,
        {
            let text = self.lines[i].text.as_str();
            let (start, end) = trim_bounds(&chars_of(text));
            proof {
                let before = line_texts(self.lines@).take(i as int);
                let upto = line_texts(self.lines@).take(i + 1);
                assert(upto.drop_last() =~= before);
                assert(upto.last() == text@);
            }
            if start < end {
                let ghost earlier = r.deep_view();
                r.push(text);
                proof {
                    assert(r.deep_view() =~= earlier.push(text@));
                }
            }
            i += 1;
        }
        proof {
            assert(line_texts(self.lines@).take(self.lines.len() as int) =~= line_texts(
                self.lines@,
            ));
        }
        r
    }
}

/// The views of the given slides.
pub open spec fn slide_views(slides: Seq<ExtractedSlide>) -> Seq<SlideView> {
    Seq::new(slides.len(), |i: int| slides[i]@)
}

/// The texts of all the given slides, slide after slide.
pub open spec fn all_texts(slides: Seq<ExtractedSlide>) -> Seq<Seq<char>>
    decreases slides.len(),
{
    if slides.len() == 0 {
        Seq::empty()
    } else {
        all_texts(slides.drop_last()) + line_texts(slides.last().lines@)
    }
}

/// A presentation and the text taken from it.
#[derive(Debug, Clone)]
pub struct Presentation {
    /// The name of the file, without its path.
    pub filename: String,
    /// The format of the file.
    pub format: PresentationFormat,
    /// The slides in the order of the presentation.
    pub slides: Vec<ExtractedSlide>,
    /// The speaker notes, if they were asked for.
    pub notes: Option<Vec<String>>,
}

/// What a `Presentation` stands for.
pub struct PresentationView {
    pub filename: Seq<char>,
    pub format: PresentationFormat,
    pub slides: Seq<SlideView>,
    pub notes: Option<Seq<Seq<char>>>,
}

impl View for Presentation {
    type V = PresentationView;

    open spec fn view(&self) -> PresentationView {
        PresentationView {
            filename: self.filename@,
            format: self.format,
            slides: slide_views(self.slides@),
            notes: match self.notes {
                Some(n) => Some(n.deep_view()),
                None => None,
            },
        }
    }
}

impl Presentation {
    /// A presentation of the given name and format that holds no slide yet.
    pub fn new(filename: &str, format: PresentationFormat) -> (r: Self)
        ensures
            r@ == (PresentationView {
                filename: filename@,
                format,
                slides: Seq::empty(),
                notes: None,
            }),
            r.slides@.len() == 0,
    {
        let r = Presentation {
            filename: filename.to_string(),
            format,
            slides: Vec::new(),
            notes: None,
        };
        proof {
            assert(slide_views(r.slides@) =~= Seq::empty());
        }
        r
    }

    /// Adds a slide behind those that are there.
    pub fn add_slide(&mut self, slide: ExtractedSlide)
        ensures
            final(self).filename == old(self).filename,
            final(self).format == old(self).format,
            final(self).notes == old(self).notes,
            final(self).slides@ == old(self).slides@.push(slide),
            final(self)@.slides == old(self)@.slides.push(slide@),
    {
        self.slides.push(slide);
        proof {
            assert(slide_views(self.slides@) =~= slide_views(old(self).slides@).push(slide@));
        }
    }

    /// The texts of all slides, slide after slide.
    pub fn all_lines(&self) -> (r: Vec<&str>)
        ensures
            r.deep_view() == all_texts(self.slides@),
    {
        let mut r: Vec<&str> = Vec::new();
        let mut s: usize = 0;
        while s < self.slides.len()
            invariant
                s <= self.slides.len(),
                r.deep_view() == all_texts(self.slides@.take(s as int)),
            decreases self.slides.len() - s,
        {
            let slide = &self.slides[s];
            let ghost before = r.deep_view();
            let mut i: usize = 0;
            while i < slide.lines.len()
                invariant
                    i <= slide.lines.len(),
                    r.deep_view() == before + line_texts(slide.lines@).take(i as int),
                decreases slide.lines.len() - i,
            {
                let ghost earlier = r.deep_view();
                r.push(slide.lines[i].text.as_str());
                proof {
                    assert(r.deep_view() =~= earlier.push(slide.lines@[i as int].text@));
                    assert(line_texts(slide.lines@).take(i + 1) =~= line_texts(slide.lines@).take(
                        i as int,
                    ).push(slide.lines@[i as int].text@));
                }
                i += 1;
            }
            proof {
                assert(line_texts(slide.lines@).take(slide.lines.len() as int) =~= line_texts(
                    slide.lines@,
                ));
                let upto = self.slides@.take(s + 1);
                assert(upto.drop_last() =~= self.slides@.take(s as int));
                assert(upto.last() == *slide);
            }
            s += 1;
        }
        proof {
            assert(self.slides@.take(self.slides.len() as int) =~= self.slides@);
        }
        r
    }
}

/// A result seen through its view: the presentation's, or the error's kind.
pub open spec fn outcome_view(r: Result<Presentation, Error>) -> Result<
    PresentationView,
    ErrorKind,
> {
    match r {
        Ok(p) => Ok(p@),
        Err(e) => Err(e.kind_spec()),
    }
}

} // verus!
