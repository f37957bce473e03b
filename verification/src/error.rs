//! The errors of text extraction.

use vstd::prelude::*;
use crate::text::{append_chars, chars_of, string_of};

verus! {

/// `std::io::Error`, carried as it is.
#[verifier::external_type_specification]
#[verifier::external_body]
pub struct ExIoError(std::io::Error);

/// What went wrong while a presentation was read.
#[derive(Debug)]
pub enum Error {
    /// The input could not be opened or read.
    IoError(std::io::Error),
    /// The file format is not supported or could not be detected.
    UnsupportedFormat(String),
    /// The structure of a zipped presentation could not be parsed.
    PptxParseError(String),
    /// The structure of a legacy presentation could not be parsed.
    PptParseError(String),
    /// Text could not be extracted from a slide.
    ExtractionError(String),
    /// The file is invalid or corrupted.
    CorruptedFile(String),
    /// The zip archive could not be read.
    ZipError(String),
    /// An XML part could not be parsed.
    XmlError(String),
    /// The compound-file container could not be read.
    CfbError(String),
}

/// The kinds of error, without their details.
#[derive(Debug, Clone, Copy, PartialEq, Eq, Structural)]
pub enum ErrorKind {
    Io,
    UnsupportedFormat,
    PptxParse,
    PptParse,
    Extraction,
    CorruptedFile,
    Zip,
    Xml,
    Cfb,
}

/// The text with which the description of an error of the given kind begins.
pub open spec fn kind_prefix(kind: ErrorKind) -> Seq<char> {
    match kind {
        ErrorKind::Io => "Failed to read file: "@,
        ErrorKind::UnsupportedFormat => "Unsupported or unrecognized file format: "@,
        ErrorKind::PptxParse => "PPTX parsing error: "@,
        ErrorKind::PptParse => "PPT parsing error: "@,
        ErrorKind::Extraction => "Text extraction error: "@,
        ErrorKind::CorruptedFile => "Invalid or corrupted file: "@,
        ErrorKind::Zip => "ZIP error: "@,
        ErrorKind::Xml => "XML parsing error: "@,
        ErrorKind::Cfb => "OLE/CFB error: "@,
    }
}

/// The text with which the description of an error of the given kind begins.
pub fn prefix_of(kind: ErrorKind) -> (r: &'static str)
    ensures
        r@ == kind_prefix(kind),
{
    match kind {
        ErrorKind::Io => "Failed to read file: ",
        ErrorKind::UnsupportedFormat => "Unsupported or unrecognized file format: ",
        ErrorKind::PptxParse => "PPTX parsing error: ",
        ErrorKind::PptParse => "PPT parsing error: ",
        ErrorKind::Extraction => "Text extraction error: ",
        ErrorKind::CorruptedFile => "Invalid or corrupted file: ",
        ErrorKind::Zip => "ZIP error: ",
        ErrorKind::Xml => "XML parsing error: ",
        ErrorKind::Cfb => "OLE/CFB error: ",
    }
}

/// The text that `std::io::Error` shows for itself. What it says depends on the platform,
/// so nothing is stated of it.
#[verifier::external_body]
fn io_error_text(e: &std::io::Error) -> (r: String) {
    format!("{}", e)
}

impl Error {
    /// The kind of this error.
    pub open spec fn kind_spec(&self) -> ErrorKind {
        match self {
            Error::IoError(_) => ErrorKind::Io,
            Error::UnsupportedFormat(_) => ErrorKind::UnsupportedFormat,
            Error::PptxParseError(_) => ErrorKind::PptxParse,
            Error::PptParseError(_) => ErrorKind::PptParse,
            Error::ExtractionError(_) => ErrorKind::Extraction,
            Error::CorruptedFile(_) => ErrorKind::CorruptedFile,
            Error::ZipError(_) => ErrorKind::Zip,
            Error::XmlError(_) => ErrorKind::Xml,
            Error::CfbError(_) => ErrorKind::Cfb,
        }
    }

    /// The detail that the error carries, where it is a text of the library's own.
    pub open spec fn detail(&self) -> Option<Seq<char>> {
        match self {
            Error::IoError(_) => None,
            Error::UnsupportedFormat(m) => Some(m@),
            Error::PptxParseError(m) => Some(m@),
            Error::PptParseError(m) => Some(m@),
            Error::ExtractionError(m) => Some(m@),
            Error::CorruptedFile(m) => Some(m@),
            Error::ZipError(m) => Some(m@),
            Error::XmlError(m) => Some(m@),
            Error::CfbError(m) => Some(m@),
        }
    }

    /// The kind of this error.
    #[verifier::when_used_as_spec(kind_spec)]
    pub fn kind(&self) -> (k: ErrorKind)
        ensures
            k == self.kind_spec(),
    {
        match self {
            Error::IoError(_) => ErrorKind::Io,
            Error::UnsupportedFormat(_) => ErrorKind::UnsupportedFormat,
            Error::PptxParseError(_) => ErrorKind::PptxParse,
            Error::PptParseError(_) => ErrorKind::PptParse,
            Error::ExtractionError(_) => ErrorKind::Extraction,
            Error::CorruptedFile(_) => ErrorKind::CorruptedFile,
            Error::ZipError(_) => ErrorKind::Zip,
            Error::XmlError(_) => ErrorKind::Xml,
            Error::CfbError(_) => ErrorKind::Cfb,
        }
    }

    /// The description of the error for a reader: what kind of error it is, then its
    /// detail.
    pub fn to_string(&self) -> (r: String)
        ensures
            kind_prefix(self.kind_spec()).is_prefix_of(r@),
            self.detail() matches Some(m) ==> r@ == kind_prefix(self.kind_spec()) + m,
    {
        let mut out = chars_of(prefix_of(self.kind()));
        let detail = match self {
            Error::IoError(e) => chars_of(io_error_text(e).as_str()),
            Error::UnsupportedFormat(m) => chars_of(m.as_str()),
            Error::PptxParseError(m) => chars_of(m.as_str()),
            Error::PptParseError(m) => chars_of(m.as_str()),
            Error::ExtractionError(m) => chars_of(m.as_str()),
            Error::CorruptedFile(m) => chars_of(m.as_str()),
            Error::ZipError(m) => chars_of(m.as_str()),
            Error::XmlError(m) => chars_of(m.as_str()),
            Error::CfbError(m) => chars_of(m.as_str()),
        };
        append_chars(&mut out, &detail);
        string_of(&out)
    }
}

} // verus!
