//! The parser for zipped presentations.
//!
//! A zipped presentation is an archive of XML parts. The relationship manifest of the
//! presentation names the parts of the slides; each slide's part holds its shapes.

use vstd::prelude::*;
use std::io::Cursor;
use zip::ZipArchive;
use crate::archive::{
    archive_image, image_entry, image_is_archive, open_archive, read_entry, EntryFailure,
    EntryRead,
};
use crate::error::{Error, ErrorKind};
use crate::order::{lemma_sort_through, rank_order, stably_sorted_by};
use crate::relationships::{slide_order_from_xml, slide_paths};
use crate::shapes::{extract_shapes_from_xml, shape_views, shapes_of, ShapeInfo, ShapeView};
use crate::text::{append_chars, chars_of, concat, is_blank, string_of, trim_bounds};
use crate::types::{
    outcome_view, reads_before, ExtractedSlide, Presentation, PresentationFormat,
    PresentationView, SlideText, SlideTextView, SlideView,
};
use crate::xml::document_events;

verus! {

/// The parser for presentations in the zipped XML container.
pub struct PptxParser;

/// The name of the archive entry that holds the presentation's relationship manifest.
pub open spec fn manifest_name() -> Seq<char> {
    "ppt/_rels/presentation.xml.rels"@
}

/// The first `n` shapes as lines at their offsets; a shape whose text is blank gives none.
pub open spec fn shape_lines(shapes: Seq<ShapeView>, n: int) -> Seq<SlideTextView>
    decreases n,
{
    if n <= 0 {
        Seq::empty()
    } else if is_blank(shapes[n - 1].text) {
        shape_lines(shapes, n - 1)
    } else {
        shape_lines(shapes, n - 1).push(
            SlideTextView {
                text: shapes[n - 1].text,
                y_position: Some(shapes[n - 1].y),
                x_position: Some(shapes[n - 1].x),
            },
        )
    }
}

/// Reading order as a relation.
pub open spec fn reading_order() -> spec_fn(SlideTextView, SlideTextView) -> bool {
    |a: SlideTextView, b: SlideTextView| reads_before(a, b)
}

/// The slide of the given number that the shapes make: their texts in reading order,
/// those at one place in the order of the shapes.
pub open spec fn slide_of_shapes(shapes: Seq<ShapeView>, number: nat) -> SlideView {
    SlideView {
        number,
        lines: stably_sorted_by(shape_lines(shapes, shapes.len() as int), reading_order()),
        notes: None,
    }
}

/// The slide that the entry `path` of the archive holds, or the kind of error that
/// reading it ends in.
pub open spec fn slide_at(image: Seq<u8>, path: Seq<char>, number: nat) -> Result<
    SlideView,
    ErrorKind,
> {
    match image_entry(image, path) {
        EntryRead::Text(xml) => Ok(slide_of_shapes(shapes_of(document_events(xml)), number)),
        _ => Err(ErrorKind::Zip),
    }
}

/// The slides that the first `n` of the paths lead to, numbered from one; or the first
/// error that reading them ends in.
pub open spec fn slides_at(image: Seq<u8>, paths: Seq<Seq<char>>, n: int) -> Result<
    Seq<SlideView>,
    ErrorKind,
>
    decreases n,
{
    if n <= 0 {
        Ok(Seq::empty())
    } else {
        match slides_at(image, paths, n - 1) {
            Err(kind) => Err(kind),
            Ok(before) => match slide_at(image, paths[n - 1], n as nat) {
                Ok(slide) => Ok(before.push(slide)),
                Err(kind) => Err(kind),
            },
        }
    }
}

/// What comes of parsing the bytes of a file as a zipped presentation: the presentation,
/// or the kind of the error.
pub open spec fn zipped_presentation(image: Seq<u8>, filename: Seq<char>) -> Result<
    PresentationView,
    ErrorKind,
> {
    if !image_is_archive(image) {
        Err(ErrorKind::Zip)
    } else {
        match image_entry(image, manifest_name()) {
            EntryRead::Text(manifest) => match slide_paths(document_events(manifest)) {
                Err(_) => Err(ErrorKind::Xml),
                Ok(paths) => match slides_at(image, paths, paths.len() as int) {
                    Err(kind) => Err(kind),
                    Ok(slides) => Ok(
                        PresentationView {
                            filename,
                            format: PresentationFormat::Pptx,
                            slides,
                            notes: None,
                        },
                    ),
                },
            },
            _ => Err(ErrorKind::Zip),
        }
    }
}

/// An error among the first slides is the error of all.
pub proof fn lemma_first_error_stays(image: Seq<u8>, paths: Seq<Seq<char>>, n: int, m: int)
    requires
        0 <= n <= m,
        slides_at(image, paths, n) is Err,
    ensures
        slides_at(image, paths, m) == slides_at(image, paths, n),
    decreases m - n,
{
    if n < m {
        lemma_first_error_stays(image, paths, n, m - 1);
    }
}

/// The text that reports what could not be done with the entry `name`: `head`, the name
/// and a closing quote, then the archive's own report.
pub open spec fn entry_report(head: Seq<char>, name: Seq<char>) -> Seq<char> {
    head + name + "': "@
}

/// The text that reports what could not be done with an entry.
fn entry_message(head: &str, name: &str, tail: &str) -> (r: String)
    ensures
        r@ == entry_report(head@, name@) + tail@,
{
    let mut out = chars_of(head);
    append_chars(&mut out, &chars_of(name));
    append_chars(&mut out, &chars_of("': "));
    append_chars(&mut out, &chars_of(tail));
    string_of(&out)
}

impl PptxParser {
    /// A parser.
    pub fn new() -> (r: Self)
        ensures
            r == PptxParser,
    {
        PptxParser
    }

    /// Reads an entry of the archive as text.
    fn read_file_from_archive(&self, archive: &mut ZipArchive<Cursor<Vec<u8>>>, path: &str) -> (r:
        Result<String, Error>)
        ensures
            archive_image(*final(archive)) == archive_image(*old(archive)),
            match image_entry(archive_image(*old(archive)), path@) {
                EntryRead::Text(text) => r matches Ok(content) && content@ == text,
                EntryRead::Missing => r matches Err(Error::ZipError(m)) && entry_report(
                    "File not found in archive '"@,
                    path@,
                ).is_prefix_of(m@),
                EntryRead::Unreadable => r matches Err(Error::ZipError(m)) && entry_report(
                    "Failed to read '"@,
                    path@,
                ).is_prefix_of(m@),
            },
    {
        match read_entry(archive, path) {
            Ok(content) => Ok(content),
            Err(EntryFailure::Find(report)) => Err(
                Error::ZipError(
                    entry_message("File not found in archive '", path, report.as_str()),
                ),
            ),
            Err(EntryFailure::Read(report)) => Err(
                Error::ZipError(entry_message("Failed to read '", path, report.as_str())),
            ),
        }
    }

    /// The paths of the slides' parts in the order of the slides.
    fn get_slide_order(&self, archive: &mut ZipArchive<Cursor<Vec<u8>>>) -> (r: Result<
        Vec<String>,
        Error,
    >)
        ensures
            archive_image(*final(archive)) == archive_image(*old(archive)),
            match image_entry(archive_image(*old(archive)), manifest_name()) {
                EntryRead::Text(manifest) => match slide_paths(document_events(manifest)) {
                    Ok(expected) => r matches Ok(paths) && paths.deep_view() == expected,
                    Err(_) => r matches Err(e) && e is XmlError,
                },
                _ => r matches Err(e) && e is ZipError,
            },
    {
        match self.read_file_from_archive(archive, "ppt/_rels/presentation.xml.rels") {
            Err(e) => Err(e),
            Ok(manifest) => slide_order_from_xml(manifest.as_str()),
        }
    }

    /// The shapes with text of a slide, from the slide's XML.
    pub fn extract_shapes_from_xml(&self, xml_content: &str) -> (shapes: Vec<ShapeInfo>)
        ensures
            shape_views(shapes@) == shapes_of(document_events(xml_content@)),
    {
        extract_shapes_from_xml(xml_content)
    }

    /// The slide of the given number that the shapes make.
    pub fn slide_from_shapes(&self, shapes: &Vec<ShapeInfo>, slide_number: usize) -> (slide:
        ExtractedSlide)
        ensures
            slide@ == slide_of_shapes(shape_views(shapes@), slide_number as nat),
    {
        let mut slide = ExtractedSlide::new(slide_number);
        let ghost views = shape_views(shapes@);
        let mut i: usize = 0;
        while i < shapes.len()
            invariant
                i <= shapes.len(),
                views == shape_views(shapes@),
                slide.number == slide_number,
                slide.notes is None,
                slide@.lines == shape_lines(views, i as int),
            decreases shapes.len() - i,
        {
            let shape = &shapes[i];
            proof {
                assert(views[i as int] == shape@);
            }
            let (from, to) = trim_bounds(&chars_of(shape.text.as_str()));
            if from < to {
                slide.add_line_with_position(shape.text.as_str(), shape.y, shape.x);
            }
            i += 1;
        }
        let ghost unsorted = slide.lines@;
        slide.sort_by_position();
        proof {
            lemma_sort_through(
                unsorted,
                |t: SlideText| t@,
                rank_order::<SlideText>(),
                reading_order(),
            );
        }
        slide
    }

    /// Reads the slide of the given number from its part in the archive.
    fn parse_slide(
        &self,
        archive: &mut ZipArchive<Cursor<Vec<u8>>>,
        slide_path: &str,
        slide_number: usize,
    ) -> (r: Result<ExtractedSlide, Error>)
        ensures
            archive_image(*final(archive)) == archive_image(*old(archive)),
            match slide_at(archive_image(*old(archive)), slide_path@, slide_number as nat) {
                Ok(expected) => r matches Ok(slide) && slide@ == expected,
                Err(kind) => r matches Err(e) && e.kind_spec() == kind,
            },
    {
        match self.read_file_from_archive(archive, slide_path) {
            Err(e) => Err(e),
            Ok(content) => {
                let shapes = self.extract_shapes_from_xml(content.as_str());
                Ok(self.slide_from_shapes(&shapes, slide_number))
            },
        }
    }

    /// Parses a zipped presentation from the bytes of its file.
    ///
    /// The bytes must open as a zip archive and the archive must hold the relationship
    /// manifest, or the error is of the archive; the manifest must be read to its end, or
    /// the error is of its XML. The slides are then read in their order, and the first
    /// part that cannot be read ends the parsing with an error of the archive.
    pub fn parse(&self, data: &[u8], filename: &str) -> (r: Result<Presentation, Error>)
        ensures
            outcome_view(r) == zipped_presentation(data@, filename@),
            !image_is_archive(data@) ==> (r matches Err(Error::ZipError(m))
                && "Failed to open ZIP: "@.is_prefix_of(m@)),
    {
        let mut archive = match open_archive(data) {
            Ok(archive) => archive,
            Err(report) => {
                return Err(Error::ZipError(concat("Failed to open ZIP: ", report.as_str())));
            },
        };
        let mut presentation = Presentation::new(filename, PresentationFormat::Pptx);
        let slide_order = match self.get_slide_order(&mut archive) {
            Ok(paths) => paths,
            Err(e) => {
                return Err(e);
            },
        };
        let ghost paths = slide_order.deep_view();
        let mut i: usize = 0;
        while i < slide_order.len()
            invariant
                i <= slide_order.len(),
                paths == slide_order.deep_view(),
                archive_image(archive) == data@,
                image_is_archive(data@),
                image_entry(data@, manifest_name()) matches EntryRead::Text(manifest)
                    && slide_paths(document_events(manifest)) == Ok::<
                    Seq<Seq<char>>,
                    Seq<char>,
                >(paths),
                presentation.filename@ == filename@,
                presentation.format == PresentationFormat::Pptx,
                presentation.notes is None,
                slides_at(data@, paths, i as int) == Ok::<Seq<SlideView>, ErrorKind>(
                    presentation@.slides,
                ),
            decreases slide_order.len() - i,
        {
            proof {
                assert(paths[i as int] == slide_order@[i as int]@);
            }
            match self.parse_slide(&mut archive, slide_order[i].as_str(), i + 1) {
                Ok(slide) => {
                    presentation.add_slide(slide);
                },
                Err(e) => {
                    proof {
                        lemma_first_error_stays(data@, paths, i + 1, paths.len() as int);
                    }
                    return Err(e);
                },
            }
            i += 1;
        }
        Ok(presentation)
    }
}

} // verus!
