//! Text extraction from presentation files.
//!
//! A presentation in the legacy compound-file container or in the zipped XML container is
//! read into a document model of slides and texts. The normalizer turns the texts into
//! clean lines and finds the title of a song among them; the formatter lays the lines out
//! for import into a lyric presenter.

pub mod archive;
pub mod container;
pub mod error;
pub mod extract;
pub mod legacy_text;
pub mod normalize;
pub mod normalize_laws;
pub mod numeral;
pub mod order;
pub mod pattern;
pub mod ppt;
pub mod pptx;
pub mod propresenter;
pub mod records;
pub mod relationships;
pub mod shapes;
pub mod slides;
pub mod text;
pub mod title;
pub mod types;
pub mod xml;

pub use error::{Error, ErrorKind};
pub use extract::{extract_presentation, format_for_propresenter, ExtractionResult, FormatResult};
pub use normalize::TextNormalizer;
pub use ppt::PptParser;
pub use pptx::PptxParser;
pub use propresenter::{split_into_slides, FormattedSlide, ProPresenterFormatter};
pub use types::{detect_format, ExtractedSlide, Presentation, PresentationFormat, SlideText};
