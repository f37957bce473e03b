use ppt_extract::error::{Error, ErrorKind};
use ppt_extract::legacy_text::{decode_cp1252, to_ascii_lowercase, TextEntry};
use ppt_extract::normalize::TextNormalizer;
use ppt_extract::ppt::PptParser;
use ppt_extract::records::{read_header, read_u16_le, read_u32_le, TextType};
use ppt_extract::types::PresentationFormat;
use std::io::{Cursor, Write};

/// A record: its header and its body.
fn record(version: u8, record_type: u16, body: &[u8]) -> Vec<u8> {
    let mut bytes = vec![version, 0];
    bytes.extend_from_slice(&record_type.to_le_bytes());
    bytes.extend_from_slice(&(body.len() as u32).to_le_bytes());
    bytes.extend_from_slice(body);
    bytes
}

fn text_header(purpose: u32) -> Vec<u8> {
    record(0, 0x0F9F, &purpose.to_le_bytes())
}

fn text_bytes(text: &[u8]) -> Vec<u8> {
    record(0, 0x0FA8, text)
}

fn text_chars(text: &str) -> Vec<u8> {
    let mut body = Vec::new();
    for unit in text.encode_utf16() {
        body.extend_from_slice(&unit.to_le_bytes());
    }
    record(0, 0x0FA0, &body)
}

fn persist() -> Vec<u8> {
    record(0, 0x03F0, &[0u8; 4])
}

/// A stream: the records inside a document container, padded with zeros to the smallest
/// size that is accepted.
fn stream_of(records: &[Vec<u8>]) -> Vec<u8> {
    let body: Vec<u8> = records.concat();
    let mut stream = record(0x0F, 0x1388, &body);
    while stream.len() < 512 {
        stream.push(0);
    }
    stream
}

fn texts_of(slides: &[ppt_extract::types::ExtractedSlide]) -> Vec<Vec<String>> {
    slides
        .iter()
        .map(|slide| slide.lines.iter().map(|line| line.text.clone()).collect())
        .collect()
}

fn container_with(streams: &[(&str, &[u8])]) -> Vec<u8> {
    let mut container = cfb::CompoundFile::create(Cursor::new(Vec::new())).unwrap();
    for (path, content) in streams {
        let mut stream = container.create_stream(path).unwrap();
        stream.write_all(content).unwrap();
        stream.flush().unwrap();
    }
    container.flush().unwrap();
    container.into_inner().into_inner()
}

#[test]
fn test_read_u16_le() {
    let data = [0x01, 0x02, 0x03, 0x04];
    assert_eq!(read_u16_le(&data, 0), 0x0201);
    assert_eq!(read_u16_le(&data, 2), 0x0403);
}

#[test]
fn test_read_u32_le() {
    let data = [0x01, 0x02, 0x03, 0x04];
    assert_eq!(read_u32_le(&data, 0), 0x04030201);
}

#[test]
fn test_extract_ansi_text() {
    let parser = PptParser::new();
    let data = b"Hello World\0garbage";
    let result = parser.extract_ansi_text(data, 0, data.len());
    assert_eq!(result, Some("Hello World".to_string()));
}

#[test]
fn test_extract_unicode_text() {
    let parser = PptParser::new();
    let data = [0x48, 0x00, 0x69, 0x00];
    let result = parser.extract_unicode_text(&data, 0, 4);
    assert_eq!(result, Some("Hi".to_string()));
}

#[test]
fn test_text_type_conversion() {
    assert_eq!(TextType::from_u32(0), TextType::Title);
    assert_eq!(TextType::from_u32(1), TextType::Body);
    assert_eq!(TextType::from_u32(2), TextType::Notes);
    assert_eq!(TextType::from_u32(4), TextType::Other);

    assert!(TextType::Title.is_slide_content());
    assert!(TextType::Body.is_slide_content());
    assert!(TextType::Other.is_slide_content());
    assert!(!TextType::Notes.is_slide_content());
    assert!(!TextType::NotUsed.is_slide_content());
}

#[test]
fn test_template_filtering() {
    let parser = PptParser::new();

    assert!(!parser.is_valid_slide_text("Click to edit Master title style", TextType::Title));
    assert!(!parser.is_valid_slide_text("Edit Master text styles", TextType::Body));

    assert!(parser.is_valid_slide_text("Hello World", TextType::Title));
    assert!(parser.is_valid_slide_text("Song lyrics here", TextType::Body));
    assert!(parser.is_valid_slide_text("A Mighty Fortress Is Our God", TextType::Other));

    assert!(!parser.is_valid_slide_text("Speaker notes", TextType::Notes));

    assert!(!parser.is_valid_slide_text("*", TextType::Body));
    assert!(!parser.is_valid_slide_text("*", TextType::Other));
}

#[test]
fn test_validate_stream_too_small() {
    let parser = PptParser::new();
    let small_data = vec![0u8; 100];

    let result = parser.validate_stream(&small_data);
    assert!(result.is_err());

    let err = result.unwrap_err();
    assert!(matches!(err, Error::CorruptedFile(_)));
}

#[test]
fn test_validate_stream_no_document() {
    let parser = PptParser::new();
    let mut data = vec![0u8; 1024];

    data[0] = 0x00;
    data[1] = 0x00;
    data[2] = 0x01;
    data[3] = 0x00;
    data[4] = 0x08;
    data[5] = 0x00;
    data[6] = 0x00;
    data[7] = 0x00;

    let result = parser.validate_stream(&data);
    assert!(result.is_err());

    let err = result.unwrap_err();
    assert!(matches!(err, Error::UnsupportedFormat(_)));
}

#[test]
fn test_validate_stream_valid_structure() {
    let parser = PptParser::new();
    let mut data = vec![0u8; 1024];

    data[0] = 0x0F;
    data[1] = 0x00;
    data[2] = 0x88;
    data[3] = 0x13;
    data[4] = 0x64;
    data[5] = 0x00;
    data[6] = 0x00;
    data[7] = 0x00;

    data[8] = 0x00;
    data[9] = 0x00;
    data[10] = 0x9F;
    data[11] = 0x0F;
    data[12] = 0x04;
    data[13] = 0x00;
    data[14] = 0x00;
    data[15] = 0x00;
    data[16] = 0x01;
    data[17] = 0x00;
    data[18] = 0x00;
    data[19] = 0x00;

    data[20] = 0x00;
    data[21] = 0x00;
    data[22] = 0xA8;
    data[23] = 0x0F;
    data[24] = 0x04;
    data[25] = 0x00;
    data[26] = 0x00;
    data[27] = 0x00;
    data[28] = b'T';
    data[29] = b'e';
    data[30] = b's';
    data[31] = b't';

    let result = parser.validate_stream(&data);
    assert!(result.is_ok());

    let validation = result.unwrap();
    assert!(validation.has_document);
    assert!(validation.has_text_headers);
    assert!(validation.has_text_content);
    assert_eq!(validation.text_record_count, 1);
    assert_eq!(validation.malformed_records, 0);
}

#[test]
fn test_validate_detects_unsupported_text_type() {
    let parser = PptParser::new();
    let mut data = vec![0u8; 1024];

    data[0] = 0x0F;
    data[1] = 0x00;
    data[2] = 0x88;
    data[3] = 0x13;
    data[4] = 0x64;
    data[5] = 0x00;
    data[6] = 0x00;
    data[7] = 0x00;

    data[8] = 0x00;
    data[9] = 0x00;
    data[10] = 0x9F;
    data[11] = 0x0F;
    data[12] = 0x04;
    data[13] = 0x00;
    data[14] = 0x00;
    data[15] = 0x00;
    data[16] = 99;
    data[17] = 0x00;
    data[18] = 0x00;
    data[19] = 0x00;

    data[20] = 0x00;
    data[21] = 0x00;
    data[22] = 0xA8;
    data[23] = 0x0F;
    data[24] = 0x04;
    data[25] = 0x00;
    data[26] = 0x00;
    data[27] = 0x00;
    data[28] = b'T';
    data[29] = b'e';
    data[30] = b's';
    data[31] = b't';

    let result = parser.validate_stream(&data);
    assert!(result.is_ok());

    let validation = result.unwrap();
    assert!(validation.unsupported_text_types.contains(&99));
}

#[test]
fn header_fields_are_read_from_eight_bytes() {
    let data = [0x2F, 0x01, 0x88, 0x13, 0x10, 0x00, 0x00, 0x01];
    let header = read_header(&data, 0);
    assert_eq!(header.version, 0x0F);
    assert_eq!(header.instance, 0x012);
    assert_eq!(header.record_type, 0x1388);
    assert_eq!(header.length, 0x0100_0010);
    assert_eq!(read_u32_le(&[0xFF, 0xFF, 0xFF, 0xFF], 0), u32::MAX);
    assert_eq!(read_u16_le(&[0xFF, 0xFF], 0), u16::MAX);
}

#[test]
fn every_stream_under_the_smallest_size_is_corrupted() {
    let parser = PptParser::new();
    for size in [0usize, 1, 8, 100, 511] {
        let data = vec![0u8; size];
        let err = parser.validate_stream(&data).unwrap_err();
        assert_eq!(err.kind(), ErrorKind::CorruptedFile);
        let err = parser.parse_stream(&data, "x.ppt").unwrap_err();
        assert_eq!(err.kind(), ErrorKind::CorruptedFile);
    }
    let mut short = stream_of(&[text_header(1), text_bytes(b"Test")]);
    short.truncate(511);
    let err = parser.validate_stream(&short).unwrap_err();
    assert_eq!(
        err.to_string(),
        "Invalid or corrupted file: PowerPoint Document stream too small (511 bytes). Minimum expected: 512 bytes. File may be corrupted or truncated."
    );
}

#[test]
fn a_stream_without_text_records_is_not_supported() {
    let parser = PptParser::new();
    let stream = stream_of(&[persist()]);
    let err = parser.validate_stream(&stream).unwrap_err();
    assert_eq!(
        err.to_string(),
        "Unsupported or unrecognized file format: No text records found in file. This presentation may contain only images/graphics, or uses an unsupported text storage format."
    );
    let mut no_document = vec![0u8; 600];
    no_document[..12].copy_from_slice(&text_header(1));
    let err = parser.validate_stream(&no_document).unwrap_err();
    assert_eq!(
        err.to_string(),
        "Unsupported or unrecognized file format: No RT_Document record found. This file may use an unsupported PowerPoint format version (pre-97) or be corrupted."
    );
}

#[test]
fn malformed_records_are_counted_and_borne_up_to_ten() {
    let parser = PptParser::new();
    // A container whose only record claims more bytes than the container has.
    let broken = record(0x0F, 0x03E8, &record(0, 0x0FA8, b"abcd")[..8]);
    let mut records = vec![text_header(1), text_bytes(b"Test")];
    for _ in 0..10 {
        records.push(broken.clone());
    }
    let stream = stream_of(&records);
    let validation = parser.validate_stream(&stream).unwrap();
    assert_eq!(validation.malformed_records, 10);
    assert!(validation.has_slides);
    assert_eq!(validation.stream_size, stream.len());

    records.push(broken.clone());
    let stream = stream_of(&records);
    let err = parser.validate_stream(&stream).unwrap_err();
    assert_eq!(
        err.to_string(),
        "Invalid or corrupted file: Too many malformed records (11) detected. File may be corrupted."
    );
}

#[test]
fn a_record_past_the_end_of_its_scope_ends_the_scope_only() {
    let parser = PptParser::new();
    let mut inner = text_bytes(b"kept");
    inner.extend_from_slice(&[0, 0, 0xA8, 0x0F, 0xFF, 0, 0, 0]);
    let container = record(0x0F, 0x03E8, &inner);
    let stream = stream_of(&[text_header(1), container, text_bytes(b"after")]);
    let validation = parser.validate_stream(&stream).unwrap();
    assert_eq!(validation.malformed_records, 1);
    assert_eq!(validation.text_record_count, 2);
    let entries = parser.collect_text_entries(&stream);
    let texts: Vec<&str> = entries.iter().map(|e| e.text.as_str()).collect();
    assert_eq!(texts, vec!["kept", "after"]);
}

#[test]
fn text_entries_carry_purpose_offset_and_hint() {
    let parser = PptParser::new();
    let stream = stream_of(&[
        text_bytes(b"first"),
        persist(),
        text_header(0),
        text_chars("Title"),
        text_header(2),
        text_bytes(b"a note"),
        text_header(99),
        text_bytes(b"other"),
        record(0, 0x0FBA, b"m\0e\0t\0a\0"),
    ]);
    let entries = parser.collect_text_entries(&stream);
    assert_eq!(entries.len(), 3);
    assert_eq!(entries[0].text, "first");
    assert_eq!(entries[0].text_type, TextType::Body);
    assert_eq!(entries[0].position, 8);
    assert_eq!(entries[0].slide_hint, 0);
    assert_eq!(entries[1].text, "Title");
    assert_eq!(entries[1].text_type, TextType::Title);
    assert_eq!(entries[1].position, 8 + 13 + 12 + 12);
    assert_eq!(entries[1].slide_hint, 1);
    assert_eq!(entries[2].text, "other");
    assert_eq!(entries[2].text_type, TextType::Other);
}

#[test]
fn unicode_runs_end_at_zero_and_at_lone_surrogates() {
    let parser = PptParser::new();
    let data = [0x48, 0x00, 0x00, 0x00, 0x69, 0x00];
    assert_eq!(parser.extract_unicode_text(&data, 0, 6), Some("H".to_string()));
    let pair = [0x3D, 0xD8, 0x00, 0xDE, 0x41, 0x00];
    assert_eq!(parser.extract_unicode_text(&pair, 0, 6), Some("\u{1F600}A".to_string()));
    let lone_high = [0x41, 0x00, 0x3D, 0xD8, 0x42, 0x00];
    assert_eq!(parser.extract_unicode_text(&lone_high, 0, 6), Some("A".to_string()));
    let lone_low = [0x41, 0x00, 0x00, 0xDE, 0x42, 0x00];
    assert_eq!(parser.extract_unicode_text(&lone_low, 0, 6), Some("A".to_string()));
    let high_at_end = [0x41, 0x00, 0x3D, 0xD8];
    assert_eq!(parser.extract_unicode_text(&high_at_end, 0, 4), Some("A".to_string()));
    assert_eq!(parser.extract_unicode_text(&data, 0, 0), None);
    assert_eq!(parser.extract_unicode_text(&data, 0, 3), None);
    assert_eq!(parser.extract_unicode_text(&data, 2, 6), None);
    assert_eq!(parser.extract_unicode_text(&data, 7, 2), None);
    assert_eq!(parser.extract_unicode_text(&data, 2, 2), None);
    let blank = [0x20, 0x00, 0x09, 0x00];
    assert_eq!(parser.extract_unicode_text(&blank, 0, 4), None);
    let padded = [0x20, 0x00, 0x41, 0x00];
    assert_eq!(parser.extract_unicode_text(&padded, 0, 4), Some(" A".to_string()));
    assert_eq!(parser.extract_unicode_text(&pair, 4, 2), Some("A".to_string()));
}

#[test]
fn byte_runs_are_read_in_the_western_code_page() {
    let parser = PptParser::new();
    let data = [0x93, b'H', b'i', 0x94, 0x85, 0x80, 0xE9, 0xA0];
    assert_eq!(
        parser.extract_ansi_text(&data, 0, data.len()),
        Some("\u{201C}Hi\u{201D}\u{2026}\u{20AC}\u{00E9}\u{00A0}".to_string())
    );
    let undefined = [b'a', 0x81, 0x8D, 0x8F, 0x90, 0x9D, b'b'];
    assert_eq!(parser.extract_ansi_text(&undefined, 0, 7), Some("ab".to_string()));
    assert_eq!(parser.extract_ansi_text(&undefined, 1, 5), None);
    assert_eq!(parser.extract_ansi_text(&data, 0, 0), None);
    assert_eq!(parser.extract_ansi_text(&data, 0, 9), None);
    assert_eq!(parser.extract_ansi_text(&data, 9, 1), None);
    assert_eq!(parser.extract_ansi_text(b"  \t", 0, 3), None);
    assert_eq!(parser.extract_ansi_text(b"\0abc", 0, 4), None);
    assert_eq!(parser.extract_ansi_text(b" a ", 0, 3), Some(" a ".to_string()));
    assert_eq!(decode_cp1252(0x99), Some('\u{2122}'));
    assert_eq!(decode_cp1252(0x9F), Some('\u{0178}'));
    assert_eq!(decode_cp1252(0x8E), Some('\u{017D}'));
    assert_eq!(decode_cp1252(0x7F), Some('\u{7F}'));
    assert_eq!(decode_cp1252(0xFF), Some('\u{FF}'));
    assert_eq!(decode_cp1252(0x81), None);
}

#[test]
fn placeholders_are_found_whatever_their_case() {
    let parser = PptParser::new();
    assert!(!parser.is_valid_slide_text("CLICK TO EDIT", TextType::Body));
    assert!(!parser.is_valid_slide_text("second LEVEL", TextType::Body));
    assert!(!parser.is_valid_slide_text("Third level", TextType::Body));
    assert!(!parser.is_valid_slide_text("Fourth level", TextType::Body));
    assert!(!parser.is_valid_slide_text("x fifth level y", TextType::Body));
    assert!(!parser.is_valid_slide_text("Master Text", TextType::Body));
    assert!(!parser.is_valid_slide_text("master title", TextType::Body));
    assert!(parser.is_valid_slide_text("Click  to edit", TextType::Body));
    assert!(!parser.is_valid_slide_text("   ", TextType::Body));
    assert!(!parser.is_valid_slide_text("", TextType::Body));
    assert!(!parser.is_valid_slide_text("text", TextType::NotUsed));
    assert!(!parser.is_valid_slide_text(" \u{2022} ", TextType::Body));
    assert!(parser.is_valid_slide_text(" a ", TextType::Body));
    assert!(parser.is_valid_slide_text("7", TextType::CenterBody));
    assert!(parser.is_valid_slide_text("\u{00E9}", TextType::HalfBody));
    assert!(parser.is_valid_slide_text("**", TextType::QuarterBody));
    let lower: String = to_ascii_lowercase(&"AbC \u{00C4}Z".chars().collect()).into_iter().collect();
    assert_eq!(lower, "abc \u{00C4}z");
}

fn entry(text: &str, text_type: TextType, position: usize, slide_hint: usize) -> TextEntry {
    TextEntry { text: text.to_string(), text_type, position, slide_hint }
}

#[test]
fn entries_are_grouped_by_hint() {
    let parser = PptParser::new();
    let slides = parser.organize_into_slides(vec![
        entry("body 1", TextType::Body, 10, 1),
        entry("Title 1", TextType::Title, 20, 1),
        entry("body 2", TextType::Body, 30, 2),
        entry("Centered", TextType::CenterTitle, 40, 2),
        entry("again 1", TextType::Body, 50, 1),
    ]);
    assert_eq!(
        texts_of(&slides),
        vec![
            vec!["Title 1".to_string(), "body 1".to_string()],
            vec!["Centered".to_string(), "body 2".to_string()],
            vec!["again 1".to_string()],
        ]
    );
    assert_eq!(slides[0].number, 1);
    assert_eq!(slides[2].number, 3);
    assert!(slides[0].lines[0].y_position.is_none());
    assert!(parser.organize_into_slides(Vec::new()).is_empty());
}

#[test]
fn a_single_group_is_split_at_titles() {
    let parser = PptParser::new();
    let entries = vec![
        entry("intro", TextType::Body, 10, 0),
        entry("One", TextType::Title, 20, 0),
        entry("line", TextType::Body, 30, 0),
        entry("Two", TextType::CenterTitle, 40, 0),
    ];
    let groups = parser.split_by_titles(&entries);
    let sizes: Vec<usize> = groups.iter().map(|g| g.len()).collect();
    assert_eq!(sizes, vec![1, 2, 1]);
    let slides = parser.organize_into_slides(entries);
    assert_eq!(
        texts_of(&slides),
        vec![
            vec!["intro".to_string()],
            vec!["One".to_string(), "line".to_string()],
            vec!["Two".to_string()],
        ]
    );
    let one = parser.organize_into_slides(vec![entry("Only", TextType::Title, 5, 7)]);
    assert_eq!(texts_of(&one), vec![vec!["Only".to_string()]]);
    let first_title = parser.organize_into_slides(vec![
        entry("T", TextType::Title, 5, 3),
        entry("b", TextType::Body, 6, 3),
    ]);
    assert_eq!(texts_of(&first_title), vec![vec!["T".to_string(), "b".to_string()]]);
}

#[test]
fn lines_of_a_slide_follow_their_offsets() {
    let parser = PptParser::new();
    let slides = parser.organize_into_slides(vec![
        entry("late", TextType::Body, 90, 4),
        entry("Second title", TextType::Title, 50, 4),
        entry("early", TextType::Body, 10, 4),
        entry("First title", TextType::CenterTitle, 20, 4),
        entry("same place", TextType::Body, 10, 4),
    ]);
    assert_eq!(
        texts_of(&slides),
        vec![vec![
            "late".to_string(),
        ], vec![
            "Second title".to_string(),
            "early".to_string(),
        ], vec![
            "First title".to_string(),
            "same place".to_string(),
        ]]
    );
}

#[test]
fn two_slide_document_end_to_end() {
    let parser = PptParser::new();
    let stream = stream_of(&[
        persist(),
        text_header(0),
        text_bytes(b"Amazing Grace"),
        text_header(1),
        text_chars("How sweet the sound"),
        persist(),
        text_header(1),
        text_bytes(b"That saved a wretch"),
        text_bytes(b"like me"),
    ]);
    let presentation = parser.parse_stream(&stream, "Amazing Grace.ppt").unwrap();
    assert_eq!(presentation.filename, "Amazing Grace.ppt");
    assert_eq!(presentation.format, PresentationFormat::Ppt);
    assert!(presentation.notes.is_none());
    assert_eq!(presentation.slides.len(), 2);
    assert_eq!(presentation.slides[0].number, 1);
    assert_eq!(presentation.slides[1].number, 2);

    let normalizer = TextNormalizer::new();
    let (title, lines) =
        normalizer.normalize_presentation_with_title(&presentation.slides, "Amazing Grace.ppt");
    assert_eq!(title, Some("Amazing Grace".to_string()));
    assert_eq!(lines, vec!["How sweet the sound", "That saved a wretch", "like me"]);
}

#[test]
fn a_container_is_parsed_through_its_main_stream() {
    let parser = PptParser::new();
    let stream = stream_of(&[
        persist(),
        text_header(0),
        text_bytes(b"Title"),
        text_header(1),
        text_bytes(b"x"),
    ]);
    let file = container_with(&[("/Current User", b"user"), ("/PowerPoint Document", &stream)]);
    let presentation = parser.parse(&file, "t.ppt").unwrap();
    assert_eq!(texts_of(&presentation.slides), vec![vec!["Title".to_string(), "x".to_string()]]);

    let small = container_with(&[("/PowerPoint Document", b"tiny")]);
    let err = parser.parse(&small, "t.ppt").unwrap_err();
    assert_eq!(err.kind(), ErrorKind::CorruptedFile);

    let other = container_with(&[("/WordDocument", &stream)]);
    let err = parser.parse(&other, "t.ppt").unwrap_err();
    assert_eq!(
        err.to_string(),
        "Unsupported or unrecognized file format: Missing 'PowerPoint Document' stream. This may not be a valid PPT file or may be a different Office format."
    );

    let err = parser.parse(b"not a container", "t.ppt").unwrap_err();
    assert_eq!(err.kind(), ErrorKind::Cfb);
    assert!(err.to_string().starts_with("OLE/CFB error: Failed to open CFB container: "));
    assert!(err.to_string().len() > "OLE/CFB error: Failed to open CFB container: ".len());
}

#[test]
fn an_accepted_stream_without_text_gives_no_slides() {
    let parser = PptParser::new();
    let stream = stream_of(&[text_header(2), text_bytes(b"only notes"), text_bytes(b"\x95")]);
    let presentation = parser.parse_stream(&stream, "n.ppt").unwrap();
    assert!(presentation.slides.is_empty());
    assert!(parser.extract_text_from_stream(&stream).is_empty());
}

#[test]
fn containers_nested_very_deep_are_read_to_the_bottom() {
    let parser = PptParser::new();
    let depth = 200_000usize;
    let innermost = [text_header(0), text_bytes(b"deep down")].concat();
    let mut stream = Vec::with_capacity(depth * 8 + innermost.len() + 8);
    for level in 0..depth {
        let inside = (depth - level - 1) * 8 + innermost.len();
        stream.extend_from_slice(&[0x0F, 0]);
        stream.extend_from_slice(&(if level == 0 { 0x1388u16 } else { 0x03E8u16 }).to_le_bytes());
        stream.extend_from_slice(&(inside as u32).to_le_bytes());
    }
    stream.extend_from_slice(&innermost);
    let validation = parser.validate_stream(&stream).unwrap();
    assert_eq!(validation.text_record_count, 1);
    assert_eq!(validation.malformed_records, 0);
    let entries = parser.collect_text_entries(&stream);
    assert_eq!(entries.len(), 1);
    assert_eq!(entries[0].text, "deep down");
    assert_eq!(entries[0].text_type, TextType::Title);
    assert_eq!(entries[0].position, depth * 8 + 12);
}

#[test]
fn records_after_a_container_are_read_in_the_scope_around_it() {
    let parser = PptParser::new();
    let inner = record(0x0F, 0x03E8, &[persist(), text_bytes(b"inside")].concat());
    let middle = record(0x0F, 0x03E8, &[text_bytes(b"before"), inner, text_bytes(b"behind")].concat());
    let stream = stream_of(&[middle, persist(), text_bytes(b"last")]);
    let entries = parser.collect_text_entries(&stream);
    let seen: Vec<(&str, usize)> = entries.iter().map(|e| (e.text.as_str(), e.slide_hint)).collect();
    assert_eq!(seen, vec![("before", 0), ("inside", 1), ("behind", 1), ("last", 2)]);
    let validation = parser.validate_stream(&stream).unwrap();
    assert_eq!(validation.text_record_count, 4);
    assert!(validation.unsupported_text_types.is_empty());
}
