//! From the bytes of a file to clean lines, and from clean lines to the text of slides.
//!
//! These are the two steps that a front end takes: it reads a file and asks for its lines,
//! and it asks for the lines to be laid out.

use vstd::prelude::*;
use crate::error::{kind_prefix, ErrorKind};
use crate::normalize::TextNormalizer;
use crate::ppt::{legacy_presentation, PptParser};
use crate::pptx::{zipped_presentation, PptxParser};
use crate::propresenter::{
    chunked, formatted, slide_lines, split_into_slides, FormattedSlide, ProPresenterFormatter,
};
use crate::text::{append_chars, chars_of, concat, slice_of, string_of};
use crate::title::{extension_start, titled_lines};
use crate::types::{
    detect_format, detected_format, slide_views, Presentation, PresentationFormat,
    PresentationView,
};

verus! {

/// What was taken from a presentation.
#[derive(Debug, Clone)]
pub struct ExtractionResult {
    /// The name of the file.
    pub filename: String,
    /// The format of the file, `PPTX` or `PPT`.
    pub format: String,
    /// The number of slides found.
    pub slide_count: usize,
    /// The title of the song, where a text of the first slide matches the file's name.
    pub detected_title: Option<String>,
    /// The lines of all the other texts, normalized.
    pub lines: Vec<String>,
    /// What the reader should know of a presentation that was read without error.
    pub warning: Option<String>,
}

/// The lines laid out for the presenter.
#[derive(Debug, Clone)]
pub struct FormatResult {
    /// The text to import.
    pub text: String,
    /// The number of slides that the text makes.
    pub slide_count: usize,
}

/// The number of bytes that a file must have for its format to be looked at.
pub const MAGIC_LENGTH: usize = 8;

/// The extension of a file's name: what stands behind its last dot, or the whole name
/// where it has no dot.
pub open spec fn extension_of(filename: Seq<char>) -> Seq<char> {
    filename.skip(extension_start(filename, filename.len() as int))
}

/// The extension of a file's name.
pub fn file_extension(filename: &str) -> (r: String)
    ensures
        r@ == extension_of(filename@),
{
    let v = chars_of(filename);
    let mut start: usize = v.len();
    while start > 0 && v[start - 1] != '.'
        invariant
            start <= v.len(),
            extension_start(v@, v@.len() as int) == extension_start(v@, start as int),
        decreases start,
    {
        start -= 1;
    }
    proof {
        assert(v@.subrange(start as int, v@.len() as int) =~= v@.skip(start as int));
    }
    string_of(&slice_of(&v, start, v.len()))
}

/// The format of a file of eight bytes or more: what its first eight bytes show, else
/// what the extension of its name says.
pub open spec fn format_of_file(data: Seq<u8>, filename: Seq<char>) -> Option<PresentationFormat> {
    detected_format(data.take(MAGIC_LENGTH as int), Some(extension_of(filename)))
}

/// The name under which a format is reported.
pub open spec fn format_name(format: PresentationFormat) -> Seq<char> {
    match format {
        PresentationFormat::Pptx => "PPTX"@,
        PresentationFormat::Ppt => "PPT"@,
    }
}

/// What comes of parsing a file in the given format.
pub open spec fn parsed_file(data: Seq<u8>, filename: Seq<char>, format: PresentationFormat) -> Result<
    PresentationView,
    ErrorKind,
> {
    match format {
        PresentationFormat::Pptx => zipped_presentation(data, filename),
        PresentationFormat::Ppt => legacy_presentation(data, filename),
    }
}

/// Whether any of the slides holds a line.
pub open spec fn has_text(p: PresentationView) -> bool {
    exists|i: int| 0 <= i < p.slides.len() && (#[trigger] p.slides[i]).lines.len() > 0
}

/// The text that warns of a legacy presentation from which no text was taken.
pub open spec fn no_text_warning(filename: Seq<char>) -> Seq<char> {
    "No text content extracted from '"@ + filename
        + "'. The file may use an unsupported text storage format or contain only images/graphics."@
}

/// The text that reports a file under eight bytes.
pub open spec fn too_small_message() -> Seq<char> {
    "File too small to be a valid presentation"@
}

/// The text that reports a file whose format nothing shows.
pub open spec fn undetected_message() -> Seq<char> {
    "Could not detect file format"@
}

/// The text with which the report of a parsing error begins.
pub open spec fn parsing_prefix(format: PresentationFormat) -> Seq<char> {
    match format {
        PresentationFormat::Pptx => "PPTX parsing error: "@,
        PresentationFormat::Ppt => "PPT parsing error: "@,
    }
}

/// Whether the result is what the presentation `p`, parsed from a file of the given
/// name and format, gives: its slides counted, its title and lines as the normalizer
/// finds them, and a warning where a legacy presentation gave no text.
pub open spec fn is_extraction_of(
    result: ExtractionResult,
    p: PresentationView,
    filename: Seq<char>,
    format: PresentationFormat,
) -> bool {
    let found = titled_lines(p.slides, filename, true);
    &&& result.filename@ == filename
    &&& result.format@ == format_name(format)
    &&& result.slide_count == p.slides.len()
    &&& (match result.detected_title {
        Some(title) => Some(title@),
        None => None,
    }) == found.0
    &&& result.lines.deep_view() == found.1
    &&& (match result.warning {
        Some(warning) => format == PresentationFormat::Ppt && !has_text(p) && warning@
            == no_text_warning(filename),
        None => !(format == PresentationFormat::Ppt && !has_text(p)),
    })
}

/// Whether any of the slides holds a line.
fn any_text(presentation: &Presentation) -> (r: bool)
    ensures
        r == has_text(presentation@),
{
    let ghost views = slide_views(presentation.slides@);
    let mut i: usize = 0;
    while i < presentation.slides.len()
        invariant
            i <= presentation.slides.len(),
            views == slide_views(presentation.slides@),
            forall|j: int| 0 <= j < i ==> (#[trigger] views[j]).lines.len() == 0,
        decreases presentation.slides.len() - i,
    {
        proof {
            assert(views[i as int] == presentation.slides@[i as int]@);
            assert(views[i as int].lines.len() == presentation.slides@[i as int].lines@.len());
        }
        if presentation.slides[i].lines.len() > 0 {
            return true;
        }
        i += 1;
    }
    false
}

/// Takes the lines of a presentation from the bytes of its file.
///
/// The format is decided by the first eight bytes and, where they show nothing, by the
/// extension of the file's name. The file is parsed and its text normalized with line
/// breaks kept; the title of the song is looked for on the first slide. An error is
/// reported as a text for the reader.
pub fn extract_presentation(data: &[u8], filename: &str) -> (r: Result<ExtractionResult, String>)
    ensures
        data@.len() < MAGIC_LENGTH ==> (r matches Err(m) && m@ == too_small_message()),
        data@.len() >= MAGIC_LENGTH ==> match format_of_file(data@, filename@) {
            None => r matches Err(m) && m@ == undetected_message(),
            Some(format) => match parsed_file(data@, filename@, format) {
                Ok(p) => r matches Ok(result) && is_extraction_of(result, p, filename@, format),
                Err(kind) => r matches Err(m) && (parsing_prefix(format) + kind_prefix(
                    kind,
                )).is_prefix_of(m@),
            },
        },
{
    if data.len() < MAGIC_LENGTH {
        return Err("File too small to be a valid presentation".to_string());
    }
    let extension = file_extension(filename);
    let magic = vstd::slice::slice_subrange(data, 0, MAGIC_LENGTH);
    proof {
        assert(data@.subrange(0, MAGIC_LENGTH as int) =~= data@.take(MAGIC_LENGTH as int));
    }
    let format = match detect_format(magic, Some(extension.as_str())) {
        Ok(format) => format,
        Err(_) => {
            return Err("Could not detect file format".to_string());
        },
    };
    let parsed = match format {
        PresentationFormat::Pptx => PptxParser::new().parse(data, filename),
        PresentationFormat::Ppt => PptParser::new().parse(data, filename),
    };
    let presentation = match parsed {
        Ok(presentation) => presentation,
        Err(e) => {
            let report = e.to_string();
            let head = match format {
                PresentationFormat::Pptx => "PPTX parsing error: ",
                PresentationFormat::Ppt => "PPT parsing error: ",
            };
            proof {
                let prefix = kind_prefix(e.kind_spec());
                assert(prefix.is_prefix_of(report@));
                assert((head@ + report@).subrange(0, (head@ + prefix).len() as int) =~= head@
                    + prefix);
            }
            return Err(concat(head, report.as_str()));
        },
    };
    let normalizer = TextNormalizer::new();
    let (detected_title, lines) = normalizer.normalize_presentation_with_title(
        presentation.slides.as_slice(),
        filename,
    );
    let warning = match format {
        PresentationFormat::Ppt => if any_text(&presentation) {
            None
        } else {
            let mut text = chars_of("No text content extracted from '");
            append_chars(&mut text, &chars_of(filename));
            append_chars(
                &mut text,
                &chars_of(
                    "'. The file may use an unsupported text storage format or contain only images/graphics.",
                ),
            );
            Some(string_of(&text))
        },
        PresentationFormat::Pptx => None,
    };
    Ok(
        ExtractionResult {
            filename: filename.to_string(),
            format: match format {
                PresentationFormat::Pptx => "PPTX".to_string(),
                PresentationFormat::Ppt => "PPT".to_string(),
            },
            slide_count: presentation.slides.len(),
            detected_title,
            lines,
            warning,
        },
    )
}

/// The text of the lines laid out, with the title, where there is one that is not empty,
/// as a slide of its own before them. The text ends with a line feed unless it is empty.
pub open spec fn laid_out(lyrics: Seq<char>, title: Option<Seq<char>>) -> Seq<char> {
    match title {
        Some(t) => if t.len() > 0 {
            if lyrics.len() == 0 {
                t + "\n"@
            } else {
                t + "\n\n"@ + lyrics + "\n"@
            }
        } else if lyrics.len() == 0 {
            lyrics
        } else {
            lyrics + "\n"@
        },
        None => if lyrics.len() == 0 {
            lyrics
        } else {
            lyrics + "\n"@
        },
    }
}

/// The number of slides that a title makes: one, unless there is none or it is empty.
pub open spec fn title_slides(title: Option<Seq<char>>) -> nat {
    match title {
        Some(t) => if t.len() > 0 {
            1
        } else {
            0
        },
        None => 0,
    }
}

/// Lays the lines out for the presenter, `lines_per_slide` to a slide, with the title as
/// a slide of its own before them.
pub fn format_for_propresenter(lines: &[String], lines_per_slide: usize, title: Option<&str>) -> (r:
    FormatResult)
    requires
        lines_per_slide >= 1,
    ensures
        r.text@ == laid_out(
            formatted(lines.deep_view(), lines_per_slide as int),
            match title {
                Some(t) => Some(t@),
                None => None,
            },
        ),
        r.slide_count == title_slides(
            match title {
                Some(t) => Some(t@),
                None => None,
            },
        ) + chunked(lines.deep_view(), lines_per_slide as int).len(),
{
    let formatter = ProPresenterFormatter::new().with_lines_per_slide(lines_per_slide);
    let lyrics = chars_of(formatter.format(lines).as_str());
    let heading: Vec<char> = match title {
        Some(t) => chars_of(t),
        None => Vec::new(),
    };
    let mut text: Vec<char> = Vec::new();
    if heading.len() > 0 {
        append_chars(&mut text, &heading);
        if lyrics.len() == 0 {
            text.push('\n');
        } else {
            append_chars(&mut text, &chars_of("\n\n"));
            append_chars(&mut text, &lyrics);
            text.push('\n');
        }
    } else if lyrics.len() > 0 {
        append_chars(&mut text, &lyrics);
        text.push('\n');
    }
    proof {
        reveal_strlit("\n");
        reveal_strlit("\n\n");
        let t = heading@;
        let l = lyrics@;
        if heading.len() > 0 {
            if lyrics.len() == 0 {
                assert(text@ =~= t + "\n"@);
            } else {
                assert(text@ =~= t + "\n\n"@ + l + "\n"@);
            }
        } else if lyrics.len() > 0 {
            assert(text@ =~= l + "\n"@);
        } else {
            assert(text@ =~= l);
        }
    }
    let mut slides = split_into_slides(lines, lines_per_slide);
    proof {
        assert(slide_lines(slides@).len() == slides.len());
    }
    if heading.len() > 0 {
        // The title's slide is counted with the others.
        let mut title_line: Vec<String> = Vec::new();
        title_line.push(string_of(&heading));
        slides.push(FormattedSlide::new(title_line));
    }
    FormatResult { text: string_of(&text), slide_count: slides.len() }
}

} // verus!
