//! The parser for legacy presentations.
//!
//! A legacy presentation is a compound file. Its records stand in the stream
//! `PowerPoint Document`; what the parser does with that stream is `parse_stream`.

use vstd::prelude::*;
use cfb::CompoundFile;
use std::io::Cursor;
use crate::container::{
    container_image, image_opens, image_root_names, image_stream, main_stream_path,
    open_container, read_main_stream, root_entry_names, StreamFailure, StreamRead,
};
use crate::error::{Error, ErrorKind};
use crate::legacy_text::text_entries_of;
use crate::records::{refusal_kind, refusal_message, refusal_of, MIN_STREAM_SIZE};
use crate::slides::slides_of;
use crate::text::concat;
use crate::types::{
    outcome_view, slide_views, text_is, ExtractedSlide, Presentation, PresentationFormat,
    PresentationView,
};

verus! {

/// The parser for presentations in the legacy compound-file container.
pub struct PptParser;

/// The name of the stream that holds the records of a presentation.
pub open spec fn main_stream_name() -> Seq<char> {
    "PowerPoint Document"@
}

/// The text that reports a container without the main stream.
pub open spec fn missing_stream_message() -> Seq<char> {
    "Missing 'PowerPoint Document' stream. This may not be a valid PPT file or may be a different Office format."@
}

/// The presentation that a stream of records holds, where the stream is accepted.
pub open spec fn stream_presentation(stream: Seq<u8>, filename: Seq<char>) -> PresentationView {
    PresentationView {
        filename,
        format: PresentationFormat::Ppt,
        slides: slides_of(text_entries_of(stream)),
        notes: None,
    }
}

/// What comes of parsing a stream of records: the presentation, or the kind of the error
/// that refuses the stream.
pub open spec fn parsed_stream(stream: Seq<u8>, filename: Seq<char>) -> Result<
    PresentationView,
    ErrorKind,
> {
    match refusal_of(stream) {
        Some(refusal) => Err(refusal_kind(refusal)),
        None => Ok(stream_presentation(stream, filename)),
    }
}

/// What comes of parsing the bytes of a file as a legacy presentation: the presentation,
/// or the kind of the error.
pub open spec fn legacy_presentation(image: Seq<u8>, filename: Seq<char>) -> Result<
    PresentationView,
    ErrorKind,
> {
    if !image_opens(image) {
        Err(ErrorKind::Cfb)
    } else if !image_root_names(image).contains(main_stream_name()) {
        Err(ErrorKind::UnsupportedFormat)
    } else {
        match image_stream(image, main_stream_path()) {
            StreamRead::Content(stream) => parsed_stream(stream, filename),
            _ => Err(ErrorKind::Cfb),
        }
    }
}

/// A stream under the smallest size is refused as corrupted, whatever it holds, and so is
/// a file whose main stream is such a stream.
pub proof fn lemma_short_stream_is_corrupted(stream: Seq<u8>, filename: Seq<char>)
    requires
        stream.len() < MIN_STREAM_SIZE,
    ensures
        parsed_stream(stream, filename) == Err::<PresentationView, ErrorKind>(
            ErrorKind::CorruptedFile,
        ),
        forall|image: Seq<u8>|
            image_opens(image) && image_root_names(image).contains(main_stream_name())
                && #[trigger] image_stream(image, main_stream_path()) == StreamRead::Content(stream)
                ==> legacy_presentation(image, filename) == Err::<PresentationView, ErrorKind>(
                ErrorKind::CorruptedFile,
            ),
{
}

impl PptParser {
    /// A parser.
    pub fn new() -> (r: Self)
        ensures
            r == PptParser,
    {
        PptParser
    }

    /// Checks that the container holds the stream of the presentation's records.
    fn validate_cfb_structure(&self, container: &CompoundFile<Cursor<Vec<u8>>>) -> (r: Result<
        (),
        Error,
    >)
        ensures
            image_root_names(container_image(*container)).contains(main_stream_name()) ==> r is Ok,
            !image_root_names(container_image(*container)).contains(main_stream_name()) ==> (
            r matches Err(Error::UnsupportedFormat(m)) && m@ == missing_stream_message()),
    {
        let names = root_entry_names(container);
        let ghost listed = image_root_names(container_image(*container));
        let mut i: usize = 0;
        while i < names.len()
            invariant
                i <= names.len(),
                names.deep_view() == listed,
                listed == image_root_names(container_image(*container)),
                forall|j: int| 0 <= j < i ==> listed[j] != main_stream_name(),
            decreases names.len() - i,
        {
            proof {
                assert(names.deep_view()[i as int] == names@[i as int]@);
            }
            if text_is(names[i].as_str(), "PowerPoint Document") {
                assert(listed[i as int] == main_stream_name());
                return Ok(());
            }
            i += 1;
        }
        Err(
            Error::UnsupportedFormat(
                "Missing 'PowerPoint Document' stream. This may not be a valid PPT file or may be a different Office format.".to_string(),
            ),
        )
    }

    /// Reads the stream of the presentation's records out of the container.
    fn read_powerpoint_stream(&self, container: &mut CompoundFile<Cursor<Vec<u8>>>) -> (r:
        Result<Vec<u8>, Error>)
        ensures
            container_image(*final(container)) == container_image(*old(container)),
            match image_stream(container_image(*old(container)), main_stream_path()) {
                StreamRead::Content(bytes) => r matches Ok(data) && data@ == bytes,
                StreamRead::CannotOpen => r matches Err(Error::CfbError(m))
                    && "Failed to open PowerPoint Document stream: "@.is_prefix_of(m@),
                StreamRead::CannotRead => r matches Err(Error::CfbError(m))
                    && "Failed to read stream: "@.is_prefix_of(m@),
            },
    {
        match read_main_stream(container, "/PowerPoint Document") {
            Ok(data) => Ok(data),
            Err(StreamFailure::Open(report)) => Err(
                Error::CfbError(
                    concat("Failed to open PowerPoint Document stream: ", report.as_str()),
                ),
            ),
            Err(StreamFailure::Read(report)) => Err(
                Error::CfbError(concat("Failed to read stream: ", report.as_str())),
            ),
        }
    }

    /// The slides that a stream of records holds.
    pub fn extract_text_from_stream(&self, data: &[u8]) -> (slides: Vec<ExtractedSlide>)
        ensures
            slide_views(slides@) == slides_of(text_entries_of(data@)),
    {
        let text_entries = self.collect_text_entries(data);
        self.organize_into_slides(text_entries)
    }

    /// Parses the stream of a presentation's records. The stream is checked first, and
    /// nothing is taken from a stream that is refused. A stream that is accepted always
    /// gives a presentation, be it one without slides.
    pub fn parse_stream(&self, stream: &[u8], filename: &str) -> (r: Result<Presentation, Error>)
        ensures
            match refusal_of(stream@) {
                Some(refusal) => r matches Err(e) && e.kind_spec() == refusal_kind(refusal)
                    && e.detail() == Some(refusal_message(refusal, stream@)),
                None => r matches Ok(p) && p@ == stream_presentation(stream@, filename@),
            },
            stream@.len() < MIN_STREAM_SIZE ==> (r matches Err(e) && e is CorruptedFile),
            outcome_view(r) == parsed_stream(stream@, filename@),
    {
        match self.validate_stream(stream) {
            Err(e) => Err(e),
            Ok(_) => {
                let mut presentation = Presentation::new(filename, PresentationFormat::Ppt);
                presentation.slides = self.extract_text_from_stream(stream);
                Ok(presentation)
            },
        }
    }

    /// Parses a legacy presentation from the bytes of its file.
    ///
    /// The bytes must open as a compound file, or the error is of the container; the
    /// container must hold the stream `PowerPoint Document`, or the format is not
    /// supported; the stream must be readable to its end, or the error is again of the
    /// container. What comes of the stream then is what `parse_stream` gives for it.
    pub fn parse(&self, data: &[u8], filename: &str) -> (r: Result<Presentation, Error>)
        ensures
            outcome_view(r) == legacy_presentation(data@, filename@),
            !image_opens(data@) ==> (r matches Err(Error::CfbError(m))
                && "Failed to open CFB container: "@.is_prefix_of(m@)),
            image_opens(data@) && !image_root_names(data@).contains(main_stream_name()) ==> (
            r matches Err(Error::UnsupportedFormat(m)) && m@ == missing_stream_message()),
            image_opens(data@) && image_root_names(data@).contains(main_stream_name()) ==> (
            match image_stream(data@, main_stream_path()) {
                StreamRead::Content(stream) => match refusal_of(stream) {
                    Some(refusal) => r matches Err(e) && e.kind_spec() == refusal_kind(refusal)
                        && e.detail() == Some(refusal_message(refusal, stream)),
                    None => r matches Ok(p) && p@ == stream_presentation(stream, filename@),
                },
                _ => r matches Err(e) && e is CfbError,
            }),
    {
        let mut container = match open_container(data) {
            Ok(container) => container,
            Err(report) => {
                return Err(
                    Error::CfbError(concat("Failed to open CFB container: ", report.as_str())),
                );
            },
        };
        match self.validate_cfb_structure(&container) {
            Err(e) => {
                return Err(e);
            },
            Ok(_) => {},
        }
        let stream = match self.read_powerpoint_stream(&mut container) {
            Ok(stream) => stream,
            Err(e) => {
                return Err(e);
            },
        };
        self.parse_stream(stream.as_slice(), filename)
    }
}

} // verus!
