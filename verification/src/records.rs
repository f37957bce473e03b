//! The record tree of a legacy presentation.
//!
//! The main stream of a legacy presentation is a sequence of records. A record begins
//! with a header of eight bytes: two bytes whose low four bits are the version and whose
//! high twelve bits are the instance, two bytes of record type, and four bytes of body
//! length, all little-endian. A record of version fifteen is a container: its body is
//! again a sequence of records.

use vstd::prelude::*;
use std::collections::HashSet;
use crate::error::{Error, ErrorKind};
use crate::ppt::PptParser;
use crate::text::{append_chars, chars_of, decimal, push_decimal, string_of};

verus! {

/// The smallest stream that can hold a presentation.
pub const MIN_STREAM_SIZE: usize = 512;

/// The largest code of a text purpose that is known.
pub const MAX_SUPPORTED_TEXT_TYPE: u32 = 8;

/// The number of malformed records past which a stream counts as corrupted.
pub const MAX_MALFORMED_RECORDS: usize = 10;

/// The version that marks a container.
pub const CONTAINER_VERSION: u16 = 0x0F;

/// The type of the document record.
pub const RT_DOCUMENT: u16 = 0x1388;

/// The type of a slide record.
pub const RT_SLIDE: u16 = 0x03E8;

/// The type of the record that tells where a slide is kept.
pub const RT_SLIDE_PERSIST_ATOM: u16 = 0x03F0;

/// The type of the record that states the purpose of the text that follows.
pub const RT_TEXT_HEADER_ATOM: u16 = 0x0F9F;

/// The type of a text run in sixteen-bit code units.
pub const RT_TEXT_CHARS_ATOM: u16 = 0x0FA0;

/// The type of a text run in bytes.
pub const RT_TEXT_BYTES_ATOM: u16 = 0x0FA8;

/// The type of a metadata string.
pub const RT_CSTRING: u16 = 0x0FBA;

/// The number that two bytes at `at` write, low byte first.
pub open spec fn u16_at(data: Seq<u8>, at: int) -> int {
    data[at] + 0x100 * data[at + 1]
}

/// The number that four bytes at `at` write, low byte first.
pub open spec fn u32_at(data: Seq<u8>, at: int) -> int {
    data[at] + 0x100 * data[at + 1] + 0x1_0000 * data[at + 2] + 0x100_0000 * data[at + 3]
}

/// Reads two bytes at `offset`, low byte first.
pub fn read_u16_le(data: &[u8], offset: usize) -> (r: u16)
    requires
        offset + 2 <= data.len(),
    ensures
        r == u16_at(data@, offset as int),
{
    data[offset] as u16 + 0x100 * (data[offset + 1] as u16)
}

/// Reads four bytes at `offset`, low byte first.
pub fn read_u32_le(data: &[u8], offset: usize) -> (r: u32)
    requires
        offset + 4 <= data.len(),
    ensures
        r == u32_at(data@, offset as int),
{
    data[offset] as u32 + 0x100 * (data[offset + 1] as u32) + 0x1_0000 * (data[offset + 2] as u32)
        + 0x100_0000 * (data[offset + 3] as u32)
}

/// The header of a record.
#[derive(Debug, Clone, Copy, PartialEq, Eq, Structural)]
pub struct RecordHeader {
    /// The version, below sixteen.
    pub version: u16,
    /// The instance, below 4096.
    pub instance: u16,
    /// The type of the record.
    pub record_type: u16,
    /// The length of the body in bytes.
    pub length: u32,
}

/// The header that the eight bytes at `at` write.
pub open spec fn header_at(data: Seq<u8>, at: int) -> RecordHeader {
    RecordHeader {
        version: (u16_at(data, at) % 16) as u16,
        instance: (u16_at(data, at) / 16) as u16,
        record_type: u16_at(data, at + 2) as u16,
        length: u32_at(data, at + 4) as u32,
    }
}

/// Reads the header of the record at `at`.
pub fn read_header(data: &[u8], at: usize) -> (r: RecordHeader)
    requires
        at + 8 <= data.len(),
    ensures
        r == header_at(data@, at as int),
{
    let first = read_u16_le(data, at);
    RecordHeader {
        version: first % 16,
        instance: first / 16,
        record_type: read_u16_le(data, at + 2),
        length: read_u32_le(data, at + 4),
    }
}

/// Whether a record can begin at `at` within a scope that ends at `end`.
pub open spec fn has_header(data: Seq<u8>, at: int, end: int) -> bool {
    0 <= at && at + 8 <= end && end <= data.len()
}

/// Where the body of the record at `at` ends.
pub open spec fn body_end(data: Seq<u8>, at: int) -> int {
    at + 8 + header_at(data, at).length
}

/// The purpose of a text, as the header record before it states it.
#[derive(Debug, Clone, Copy, PartialEq, Eq, Structural)]
pub enum TextType {
    Title,
    Body,
    Notes,
    NotUsed,
    Other,
    CenterBody,
    CenterTitle,
    HalfBody,
    QuarterBody,
}

/// The purpose that a code stands for; an unknown code stands for `Other`.
pub open spec fn text_type_of(code: int) -> TextType {
    if code == 0 {
        TextType::Title
    } else if code == 1 {
        TextType::Body
    } else if code == 2 {
        TextType::Notes
    } else if code == 3 {
        TextType::NotUsed
    } else if code == 5 {
        TextType::CenterBody
    } else if code == 6 {
        TextType::CenterTitle
    } else if code == 7 {
        TextType::HalfBody
    } else if code == 8 {
        TextType::QuarterBody
    } else {
        TextType::Other
    }
}

impl TextType {
    /// The purpose that a code stands for.
    pub fn from_u32(value: u32) -> (r: Self)
        ensures
            r == text_type_of(value as int),
    {
        match value {
            0 => TextType::Title,
            1 => TextType::Body,
            2 => TextType::Notes,
            3 => TextType::NotUsed,
            4 => TextType::Other,
            5 => TextType::CenterBody,
            6 => TextType::CenterTitle,
            7 => TextType::HalfBody,
            8 => TextType::QuarterBody,
            _ => TextType::Other,
        }
    }

    /// Whether text of this purpose belongs to the slide itself.
    pub open spec fn slide_content(&self) -> bool {
        !(self is Notes || self is NotUsed)
    }

    /// Whether text of this purpose is a title.
    pub open spec fn title(&self) -> bool {
        self is Title || self is CenterTitle
    }

    /// Whether text of this purpose belongs to the slide itself: all but notes and unused
    /// text does.
    #[verifier::when_used_as_spec(slide_content)]
    pub fn is_slide_content(&self) -> (r: bool)
        ensures
            r == self.slide_content(),
    {
        match self {
            TextType::Notes => false,
            TextType::NotUsed => false,
            _ => true,
        }
    }

    /// Whether text of this purpose is a title.
    #[verifier::when_used_as_spec(title)]
    pub fn is_title(&self) -> (r: bool)
        ensures
            r == self.title(),
    {
        match self {
            TextType::Title => true,
            TextType::CenterTitle => true,
            _ => false,
        }
    }
}

/// What a first pass over a stream found.
#[derive(Debug)]
pub struct FileValidation {
    /// The size of the stream in bytes.
    pub stream_size: usize,
    /// Whether a document record was found.
    pub has_document: bool,
    /// Whether a slide record was found.
    pub has_slides: bool,
    /// Whether a record that states a text purpose was found.
    pub has_text_headers: bool,
    /// Whether a text run was found.
    pub has_text_content: bool,
    /// The number of text runs.
    pub text_record_count: usize,
    /// The codes of text purposes that are not known.
    pub unsupported_text_types: HashSet<u32>,
    /// The number of records whose body does not fit.
    pub malformed_records: usize,
}

/// What a `FileValidation` stands for.
pub struct ValidationView {
    pub stream_size: nat,
    pub has_document: bool,
    pub has_slides: bool,
    pub has_text_headers: bool,
    pub has_text_content: bool,
    pub text_record_count: nat,
    pub unsupported_text_types: Set<u32>,
    pub malformed_records: nat,
}

impl View for FileValidation {
    type V = ValidationView;

    open spec fn view(&self) -> ValidationView {
        ValidationView {
            stream_size: self.stream_size as nat,
            has_document: self.has_document,
            has_slides: self.has_slides,
            has_text_headers: self.has_text_headers,
            has_text_content: self.has_text_content,
            text_record_count: self.text_record_count as nat,
            unsupported_text_types: self.unsupported_text_types@,
            malformed_records: self.malformed_records as nat,
        }
    }
}

/// The findings for a stream of the given size before any record was read.
pub open spec fn nothing_found(stream_size: nat) -> ValidationView {
    ValidationView {
        stream_size,
        has_document: false,
        has_slides: false,
        has_text_headers: false,
        has_text_content: false,
        text_record_count: 0,
        unsupported_text_types: Set::empty(),
        malformed_records: 0,
    }
}

/// The findings `v` with the record at `at`, whose body fits, added.
pub open spec fn noted(v: ValidationView, data: Seq<u8>, at: int) -> ValidationView {
    let header = header_at(data, at);
    if header.record_type == RT_DOCUMENT {
        ValidationView { has_document: true, ..v }
    } else if header.record_type == RT_SLIDE {
        ValidationView { has_slides: true, ..v }
    } else if header.record_type == RT_TEXT_HEADER_ATOM {
        ValidationView {
            has_text_headers: true,
            unsupported_text_types: if header.length >= 4 && u32_at(data, at + 8)
                > MAX_SUPPORTED_TEXT_TYPE {
                v.unsupported_text_types.insert(u32_at(data, at + 8) as u32)
            } else {
                v.unsupported_text_types
            },
            ..v
        }
    } else if header.record_type == RT_TEXT_CHARS_ATOM || header.record_type
        == RT_TEXT_BYTES_ATOM {
        ValidationView {
            has_text_content: true,
            text_record_count: v.text_record_count + 1,
            ..v
        }
    } else {
        v
    }
}

/// The findings `v` after the records from `at` up to `end` were read, containers
/// included. A record whose body reaches past `end` counts as malformed and ends the
/// reading of its scope.
pub open spec fn surveyed(data: Seq<u8>, at: int, end: int, v: ValidationView) -> ValidationView
    decreases end - at,
{
    if !has_header(data, at, end) {
        v
    } else if body_end(data, at) > end {
        ValidationView { malformed_records: v.malformed_records + 1, ..v }
    } else {
        let own = noted(v, data, at);
        let inner = if header_at(data, at).version == CONTAINER_VERSION {
            surveyed(data, at + 8, body_end(data, at), own)
        } else {
            own
        };
        surveyed(data, body_end(data, at), end, inner)
    }
}

/// Whether `outer` holds the ends of scopes that lie one in the other, the widest first,
/// all of them within `limit` and around a scope that ends at `end`.
pub open spec fn are_nested_scopes(outer: Seq<usize>, end: int, limit: int) -> bool {
    &&& forall|i: int| 0 <= i < outer.len() ==> #[trigger] outer[i] <= limit
    &&& forall|i: int, j: int| 0 <= i < j < outer.len() ==> #[trigger] outer[j] <= #[trigger] outer[i]
    &&& outer.len() > 0 ==> end <= outer.last()
}

/// The findings `v` after the scope from `at` up to `end` was read to its end, and after
/// it each of the scopes around it from where the scope within it ends.
pub open spec fn survey_resumed(
    data: Seq<u8>,
    at: int,
    end: int,
    outer: Seq<usize>,
    v: ValidationView,
) -> ValidationView
    decreases outer.len(),
{
    if outer.len() == 0 {
        surveyed(data, at, end, v)
    } else {
        survey_resumed(
            data,
            end,
            outer.last() as int,
            outer.drop_last(),
            surveyed(data, at, end, v),
        )
    }
}

/// Two readings that come to the same at the end of a scope come to the same at the end
/// of the scopes around it.
pub proof fn lemma_survey_resumes_alike(
    data: Seq<u8>,
    at: int,
    v: ValidationView,
    other_at: int,
    other_v: ValidationView,
    end: int,
    outer: Seq<usize>,
)
    requires
        surveyed(data, at, end, v) == surveyed(data, other_at, end, other_v),
    ensures
        survey_resumed(data, at, end, outer, v) == survey_resumed(
            data,
            other_at,
            end,
            outer,
            other_v,
        ),
{
}

/// Why a stream is refused, or nothing where it is accepted.
pub enum Refusal {
    TooSmall,
    NoDocument,
    NoText,
    TooManyMalformed,
}

/// The refusal that the findings for a stream call for, if any.
pub open spec fn refusal_of(data: Seq<u8>) -> Option<Refusal> {
    let found = survey_of(data);
    if data.len() < MIN_STREAM_SIZE {
        Some(Refusal::TooSmall)
    } else if !found.has_document {
        Some(Refusal::NoDocument)
    } else if !found.has_text_content && !found.has_text_headers {
        Some(Refusal::NoText)
    } else if found.malformed_records > MAX_MALFORMED_RECORDS {
        Some(Refusal::TooManyMalformed)
    } else {
        None
    }
}

/// The findings for a whole stream.
pub open spec fn survey_of(data: Seq<u8>) -> ValidationView {
    surveyed(data, 0, data.len() as int, nothing_found(data.len()))
}

/// The kind of error that reports a refusal.
pub open spec fn refusal_kind(refusal: Refusal) -> ErrorKind {
    match refusal {
        Refusal::TooSmall => ErrorKind::CorruptedFile,
        Refusal::NoDocument => ErrorKind::UnsupportedFormat,
        Refusal::NoText => ErrorKind::UnsupportedFormat,
        Refusal::TooManyMalformed => ErrorKind::CorruptedFile,
    }
}

/// The text that reports a refusal.
pub open spec fn refusal_message(refusal: Refusal, data: Seq<u8>) -> Seq<char> {
    match refusal {
        Refusal::TooSmall => "PowerPoint Document stream too small ("@ + decimal(data.len())
            + " bytes). Minimum expected: "@ + decimal(MIN_STREAM_SIZE as nat)
            + " bytes. File may be corrupted or truncated."@,
        Refusal::NoDocument =>
            "No RT_Document record found. This file may use an unsupported PowerPoint format version (pre-97) or be corrupted."@,
        Refusal::NoText =>
            "No text records found in file. This presentation may contain only images/graphics, or uses an unsupported text storage format."@,
        Refusal::TooManyMalformed => "Too many malformed records ("@ + decimal(
            survey_of(data).malformed_records,
        ) + ") detected. File may be corrupted."@,
    }
}

/// The text `head`, the numeral of `n`, and the text `tail`, one after the other.
fn framed_number(head: &str, n: usize, tail: &str) -> (r: Vec<char>)
    ensures
        r@ == head@ + decimal(n as nat) + tail@,
{
    let mut r = chars_of(head);
    push_decimal(&mut r, n);
    append_chars(&mut r, &chars_of(tail));
    r
}

impl PptParser {
    /// Reads the records from `start` up to `end`, containers included, and adds what
    /// they show to `validation`.
    ///
    /// The scopes of the containers that are open are kept on a stack of their ends, so
    /// that records nested however deep are read in one loop.
    pub fn scan_records_for_validation(
        &self,
        data: &[u8],
        start: usize,
        end: usize,
        validation: &mut FileValidation,
    )
        requires
            start <= end <= data.len(),
            old(validation).text_record_count + old(validation).malformed_records + (end - start)
                <= usize::MAX,
        ensures
            final(validation)@ == surveyed(data@, start as int, end as int, old(validation)@),
            final(validation).text_record_count + final(validation).malformed_records <= old(
                validation,
            ).text_record_count + old(validation).malformed_records + (end - start),
    {
        broadcast use vstd::std_specs::hash::group_hash_axioms;

        let mut pos: usize = start;
        let mut scope_end: usize = end;
        let mut outer: Vec<usize> = Vec::new();
        loop
            invariant
                start <= pos <= scope_end <= end <= data.len(),
                are_nested_scopes(outer@, scope_end as int, end as int),
                survey_resumed(data@, pos as int, scope_end as int, outer@, validation@)
                    == surveyed(data@, start as int, end as int, old(validation)@),
                validation.text_record_count + validation.malformed_records <= old(
                    validation,
                ).text_record_count + old(validation).malformed_records + (pos - start),
                old(validation).text_record_count + old(validation).malformed_records + (end
                    - start) <= usize::MAX,
            decreases data.len() - pos, outer.len(),
        {
            let ghost before = validation@;
            let ghost at = pos as int;
            let mut scope_is_done = scope_end - pos < 8;
            if !scope_is_done {
                let header = read_header(data, pos);
                let content_start: usize = pos + 8;
                if header.length as usize > scope_end - content_start {
                    validation.malformed_records += 1;
                    pos = scope_end;
                    scope_is_done = true;
                } else {
                    let content_end: usize = content_start + header.length as usize;
                    if header.record_type == RT_DOCUMENT {
                        validation.has_document = true;
                    } else if header.record_type == RT_SLIDE {
                        validation.has_slides = true;
                    } else if header.record_type == RT_TEXT_HEADER_ATOM {
                        validation.has_text_headers = true;
                        if header.length >= 4 {
                            let text_type = read_u32_le(data, content_start);
                            if text_type > MAX_SUPPORTED_TEXT_TYPE {
                                validation.unsupported_text_types.insert(text_type);
                            }
                        }
                    } else if header.record_type == RT_TEXT_CHARS_ATOM || header.record_type
                        == RT_TEXT_BYTES_ATOM {
                        validation.has_text_content = true;
                        validation.text_record_count += 1;
                    }
                    assert(validation@ == noted(before, data@, at));
                    if header.version == CONTAINER_VERSION {
                        proof {
                            assert(outer@.push(scope_end).drop_last() =~= outer@);
                            lemma_survey_resumes_alike(
                                data@,
                                at,
                                before,
                                content_end as int,
                                surveyed(
                                    data@,
                                    content_start as int,
                                    content_end as int,
                                    validation@,
                                ),
                                scope_end as int,
                                outer@,
                            );
                        }
                        outer.push(scope_end);
                        pos = content_start;
                        scope_end = content_end;
                    } else {
                        proof {
                            lemma_survey_resumes_alike(
                                data@,
                                at,
                                before,
                                content_end as int,
                                validation@,
                                scope_end as int,
                                outer@,
                            );
                        }
                        pos = content_end;
                    }
                }
            }
            if scope_is_done {
                proof {
                    assert(surveyed(data@, at, scope_end as int, before) == validation@);
                }
                match outer.pop() {
                    Some(outer_end) => {
                        pos = scope_end;
                        scope_end = outer_end;
                    },
                    None => {
                        return ;
                    },
                }
            }
        }
    }

    /// Checks that a stream can hold a presentation with text, before anything is taken
    /// from it. A stream under the smallest size is corrupted; so is one with more
    /// malformed records than are borne. A stream without a document record, or without
    /// any record of text, is of no supported format.
    pub fn validate_stream(&self, data: &[u8]) -> (r: Result<FileValidation, Error>)
        ensures
            match refusal_of(data@) {
                Some(refusal) => r matches Err(e) && e.kind_spec() == refusal_kind(refusal)
                    && e.detail() == Some(refusal_message(refusal, data@)),
                None => r matches Ok(v) && v@ == survey_of(data@),
            },
            data@.len() < MIN_STREAM_SIZE ==> (r matches Err(e) && e is CorruptedFile),
    {
        let mut validation = FileValidation {
            stream_size: data.len(),
            has_document: false,
            has_slides: false,
            has_text_headers: false,
            has_text_content: false,
            text_record_count: 0,
            unsupported_text_types: HashSet::new(),
            malformed_records: 0,
        };
        if data.len() < MIN_STREAM_SIZE {
            let message = framed_number(
                "PowerPoint Document stream too small (",
                data.len(),
                " bytes). Minimum expected: ",
            );
            let mut message = message;
            push_decimal(&mut message, MIN_STREAM_SIZE);
            append_chars(
                &mut message,
                &chars_of(" bytes. File may be corrupted or truncated."),
            );
            return Err(Error::CorruptedFile(string_of(&message)));
        }
        self.scan_records_for_validation(data, 0, data.len(), &mut validation);
        if !validation.has_document {
            return Err(
                Error::UnsupportedFormat(
                    "No RT_Document record found. This file may use an unsupported PowerPoint format version (pre-97) or be corrupted.".to_string(),
                ),
            );
        }
        if !validation.has_text_content && !validation.has_text_headers {
            return Err(
                Error::UnsupportedFormat(
                    "No text records found in file. This presentation may contain only images/graphics, or uses an unsupported text storage format.".to_string(),
                ),
            );
        }
        if validation.malformed_records > MAX_MALFORMED_RECORDS {
            let message = framed_number(
                "Too many malformed records (",
                validation.malformed_records,
                ") detected. File may be corrupted.",
            );
            return Err(Error::CorruptedFile(string_of(&message)));
        }
        Ok(validation)
    }
}

} // verus!
