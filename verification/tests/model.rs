use ppt_extract::error::{Error, ErrorKind};
use ppt_extract::extract::{extract_presentation, file_extension};
use ppt_extract::numeral::{parse_numeral, parse_signed};
use ppt_extract::order::sort_stably;
use ppt_extract::text::{
    append_chars, chars_of, contains, join, matches_at, push_decimal, same_chars, slice_of,
    string_of, strings_of, trim, trim_bounds,
};
use ppt_extract::types::{
    detect_format, text_is, ExtractedSlide, Presentation, PresentationFormat, SlideText,
};
use std::io::{Cursor, Write};

fn chars(s: &str) -> Vec<char> {
    s.chars().collect()
}

fn text(v: &[char]) -> String {
    v.iter().collect()
}

#[test]
fn strings_and_characters_convert_both_ways() {
    assert_eq!(chars_of("a\u{00E9}\u{1F600}"), vec!['a', '\u{00E9}', '\u{1F600}']);
    assert!(chars_of("").is_empty());
    assert_eq!(string_of(&vec!['x', '\u{20AC}']), "x\u{20AC}");
    assert_eq!(string_of(&Vec::new()), "");
    assert_eq!(strings_of(&vec![chars("ab"), chars("")]), vec!["ab", ""]);
    assert_eq!(slice_of(&chars("hello"), 1, 3), chars("el"));
    assert!(slice_of(&chars("hello"), 2, 2).is_empty());
    let mut v = chars("ab");
    append_chars(&mut v, &chars("cd"));
    assert_eq!(v, chars("abcd"));
}

#[test]
fn trimming_takes_all_unicode_whitespace() {
    assert_eq!(text(&trim(&chars("  a b \t\n"))), "a b");
    assert_eq!(text(&trim(&chars("\u{00A0}\u{2003}x\u{3000}"))), "x");
    assert_eq!(text(&trim(&chars("x"))), "x");
    assert_eq!(text(&trim(&chars(""))), "");
    assert_eq!(text(&trim(&chars(" \r\n "))), "");
    assert_eq!(trim_bounds(&chars("  ab ")), (2, 4));
    assert_eq!(trim_bounds(&chars("   ")), (0, 0));
    assert_eq!(trim_bounds(&chars("")), (0, 0));
    assert_eq!(text(&trim(&chars("\u{200B}a"))), "\u{200B}a");
}

#[test]
fn texts_are_searched_and_compared() {
    assert!(contains(&chars("amazing grace"), &chars("zing g")));
    assert!(contains(&chars("abc"), &chars("")));
    assert!(contains(&chars(""), &chars("")));
    assert!(contains(&chars("abc"), &chars("abc")));
    assert!(contains(&chars("aab"), &chars("ab")));
    assert!(!contains(&chars("abc"), &chars("abcd")));
    assert!(!contains(&chars("abc"), &chars("ac")));
    assert!(matches_at(&chars("abc"), &chars("bc"), 1));
    assert!(!matches_at(&chars("abc"), &chars("bc"), 0));
    assert!(same_chars(&chars("ab"), &chars("ab")));
    assert!(!same_chars(&chars("ab"), &chars("abc")));
    assert!(!same_chars(&chars("ab"), &chars("ac")));
    assert!(text_is("ppt", "ppt"));
    assert!(!text_is("ppt", "pptx"));
}

#[test]
fn texts_are_joined_and_numbers_written() {
    assert_eq!(text(&join(&vec![chars("a"), chars(""), chars("b")], &chars(", "))), "a, , b");
    assert_eq!(text(&join(&vec![chars("only")], &chars("--"))), "only");
    assert_eq!(text(&join(&Vec::new(), &chars("--"))), "");
    let mut out = chars("n=");
    push_decimal(&mut out, 0);
    push_decimal(&mut out, 7);
    push_decimal(&mut out, 10);
    push_decimal(&mut out, 1234567890);
    assert_eq!(text(&out), "n=07101234567890");
    let mut out = Vec::new();
    push_decimal(&mut out, usize::MAX);
    assert_eq!(text(&out), usize::MAX.to_string());
}

#[test]
fn numerals_are_read_within_their_limit() {
    assert_eq!(parse_numeral(&chars("x123y"), 1, 4, 1000), Some(123));
    assert_eq!(parse_numeral(&chars("x123y"), 1, 4, 123), Some(123));
    assert_eq!(parse_numeral(&chars("x123y"), 1, 4, 122), None);
    assert_eq!(parse_numeral(&chars("x123y"), 1, 5, 1000), None);
    assert_eq!(parse_numeral(&chars("x123y"), 1, 1, 1000), None);
    assert_eq!(parse_numeral(&chars("000"), 0, 3, 0), Some(0));
    assert_eq!(parse_numeral(&chars("18446744073709551615"), 0, 20, u64::MAX), Some(u64::MAX));
    assert_eq!(parse_numeral(&chars("18446744073709551616"), 0, 20, u64::MAX), None);
    assert_eq!(parse_signed(&chars("-5")), Some(-5));
    assert_eq!(parse_signed(&chars("+5")), Some(5));
    assert_eq!(parse_signed(&chars("5-")), None);
}

#[test]
fn magic_bytes_decide_the_format_before_the_extension() {
    let zip = [0x50, 0x4B, 0x03, 0x04, 0, 0, 0, 0];
    let compound = [0xD0, 0xCF, 0x11, 0xE0, 0xA1, 0xB1, 0x1A, 0xE1];
    assert_eq!(PresentationFormat::from_magic(&zip), Some(PresentationFormat::Pptx));
    assert_eq!(PresentationFormat::from_magic(&zip[..4]), Some(PresentationFormat::Pptx));
    assert_eq!(PresentationFormat::from_magic(&zip[..3]), None);
    assert_eq!(PresentationFormat::from_magic(&compound), Some(PresentationFormat::Ppt));
    assert_eq!(PresentationFormat::from_magic(&compound[..7]), None);
    assert_eq!(PresentationFormat::from_magic(&[0xD0, 0xCF, 0x11, 0xE0, 0xA1, 0xB1, 0x1A, 0xE0]), None);
    assert_eq!(PresentationFormat::from_magic(&[]), None);
    assert_eq!(PresentationFormat::from_extension("pptx"), Some(PresentationFormat::Pptx));
    assert_eq!(PresentationFormat::from_extension("PPT"), Some(PresentationFormat::Ppt));
    assert_eq!(PresentationFormat::from_extension("PpTx"), Some(PresentationFormat::Pptx));
    assert_eq!(PresentationFormat::from_extension("txt"), None);
    assert_eq!(PresentationFormat::from_extension(""), None);
    assert_eq!(PresentationFormat::from_extension(".ppt"), None);

    assert_eq!(detect_format(&zip, Some("ppt")).unwrap(), PresentationFormat::Pptx);
    assert_eq!(detect_format(&compound, Some("pptx")).unwrap(), PresentationFormat::Ppt);
    assert_eq!(detect_format(&compound, None).unwrap(), PresentationFormat::Ppt);
    assert_eq!(detect_format(&[0u8; 8], Some("PPTX")).unwrap(), PresentationFormat::Pptx);
    assert_eq!(detect_format(&[], Some("ppt")).unwrap(), PresentationFormat::Ppt);
    let err = detect_format(&[0u8; 8], Some("doc")).unwrap_err();
    assert_eq!(
        err.to_string(),
        "Unsupported or unrecognized file format: Could not detect file format"
    );
    assert!(matches!(detect_format(&[1, 2, 3], None), Err(Error::UnsupportedFormat(_))));
}

#[test]
fn errors_describe_themselves() {
    let detail = "d".to_string();
    assert_eq!(Error::UnsupportedFormat(detail.clone()).to_string(), "Unsupported or unrecognized file format: d");
    assert_eq!(Error::PptxParseError(detail.clone()).to_string(), "PPTX parsing error: d");
    assert_eq!(Error::PptParseError(detail.clone()).to_string(), "PPT parsing error: d");
    assert_eq!(Error::ExtractionError(detail.clone()).to_string(), "Text extraction error: d");
    assert_eq!(Error::CorruptedFile(detail.clone()).to_string(), "Invalid or corrupted file: d");
    assert_eq!(Error::ZipError(detail.clone()).to_string(), "ZIP error: d");
    assert_eq!(Error::XmlError(detail.clone()).to_string(), "XML parsing error: d");
    assert_eq!(Error::CfbError(String::new()).to_string(), "OLE/CFB error: ");
    let io = Error::IoError(std::io::Error::new(std::io::ErrorKind::Other, "disk on fire"));
    assert_eq!(io.to_string(), "Failed to read file: disk on fire");
    assert_eq!(io.kind(), ErrorKind::Io);
    assert_eq!(Error::PptxParseError(detail.clone()).kind(), ErrorKind::PptxParse);
    assert_eq!(Error::PptParseError(detail.clone()).kind(), ErrorKind::PptParse);
    assert_eq!(Error::ExtractionError(detail).kind(), ErrorKind::Extraction);
}

#[test]
fn slides_and_presentations_are_built_up() {
    let mut slide = ExtractedSlide::new(3);
    assert_eq!(slide.number, 3);
    assert!(slide.lines.is_empty());
    assert!(slide.notes.is_none());
    slide.add_line("plain");
    slide.add_line_with_position("placed", 20, 10);
    slide.add_line("   ");
    assert_eq!(slide.lines.len(), 3);
    assert_eq!(slide.lines[0].text, "plain");
    assert_eq!(slide.lines[0].y_position, None);
    assert_eq!(slide.lines[1].y_position, Some(20));
    assert_eq!(slide.lines[1].x_position, Some(10));
    assert_eq!(slide.non_empty_lines(), vec!["plain", "placed"]);

    let text = SlideText::with_position("t", -1, 2);
    assert_eq!((text.text.as_str(), text.y_position, text.x_position), ("t", Some(-1), Some(2)));
    let text = SlideText::new("u");
    assert_eq!((text.text.as_str(), text.y_position, text.x_position), ("u", None, None));

    let mut presentation = Presentation::new("deck.ppt", PresentationFormat::Ppt);
    assert_eq!(presentation.filename, "deck.ppt");
    assert_eq!(presentation.format, PresentationFormat::Ppt);
    assert!(presentation.slides.is_empty());
    assert!(presentation.notes.is_none());
    assert!(presentation.all_lines().is_empty());
    presentation.add_slide(slide);
    presentation.add_slide(ExtractedSlide::new(4));
    let mut last = ExtractedSlide::new(5);
    last.add_line("end");
    presentation.add_slide(last);
    assert_eq!(presentation.slides.len(), 3);
    assert_eq!(presentation.all_lines(), vec!["plain", "placed", "   ", "end"]);
}

#[test]
fn texts_are_sorted_top_down_then_left_to_right() {
    let mut slide = ExtractedSlide::new(1);
    slide.add_line_with_position("c", 10, 30);
    slide.add_line("unplaced 1");
    slide.add_line_with_position("b", 10, 20);
    slide.add_line_with_position("d", 10, 30);
    slide.lines.push(SlideText { text: "no x".to_string(), y_position: Some(10), x_position: None });
    slide.add_line_with_position("a", -5, 99);
    slide.add_line("unplaced 2");
    slide.lines.push(SlideText { text: "no y".to_string(), y_position: None, x_position: Some(-9) });
    slide.sort_by_position();
    let order: Vec<&str> = slide.lines.iter().map(|l| l.text.as_str()).collect();
    assert_eq!(order, vec!["unplaced 1", "unplaced 2", "no y", "a", "no x", "b", "c", "d"]);

    let mut empty = ExtractedSlide::new(1);
    empty.sort_by_position();
    assert!(empty.lines.is_empty());

    let mut lines = vec![SlideText::with_position("only", 1, 1)];
    sort_stably(&mut lines);
    assert_eq!(lines[0].text, "only");
}

fn legacy_file() -> Vec<u8> {
    let mut body = Vec::new();
    for (record_type, content) in [
        (0x03F0u16, vec![0u8; 4]),
        (0x0F9F, 0u32.to_le_bytes().to_vec()),
        (0x0FA8, b"Be Thou My Vision".to_vec()),
        (0x0F9F, 1u32.to_le_bytes().to_vec()),
        (0x0FA8, b"O Lord of my heart".to_vec()),
    ] {
        body.extend_from_slice(&[0, 0]);
        body.extend_from_slice(&record_type.to_le_bytes());
        body.extend_from_slice(&(content.len() as u32).to_le_bytes());
        body.extend_from_slice(&content);
    }
    let mut stream = vec![0x0F, 0];
    stream.extend_from_slice(&0x1388u16.to_le_bytes());
    stream.extend_from_slice(&(body.len() as u32).to_le_bytes());
    stream.extend_from_slice(&body);
    stream.resize(600, 0);
    container(&stream)
}

fn container(stream: &[u8]) -> Vec<u8> {
    let mut file = cfb::CompoundFile::create(Cursor::new(Vec::new())).unwrap();
    let mut main = file.create_stream("/PowerPoint Document").unwrap();
    main.write_all(stream).unwrap();
    main.flush().unwrap();
    drop(main);
    file.flush().unwrap();
    file.into_inner().into_inner()
}

fn zipped_file() -> Vec<u8> {
    let mut writer = zip::ZipWriter::new(Cursor::new(Vec::new()));
    let options = zip::write::FileOptions::default();
    writer.start_file("ppt/_rels/presentation.xml.rels", options).unwrap();
    writer
        .write_all(
            b"<Relationships><Relationship Id=\"rId1\" Type=\"http://x/relationships/slide\" Target=\"slides/slide1.xml\"/></Relationships>",
        )
        .unwrap();
    writer.start_file("ppt/slides/slide1.xml", options).unwrap();
    writer
        .write_all(
            b"<p:sld><p:sp><p:txBody><a:p><a:t>It Is Well</a:t></a:p></p:txBody></p:sp><p:sp><a:off x=\"1\" y=\"9\"/><p:txBody><a:p><a:t>When peace, like a river</a:t></a:p><a:p><a:t>attendeth my way</a:t></a:p></p:txBody></p:sp></p:sld>",
        )
        .unwrap();
    writer.finish().unwrap().into_inner()
}

#[test]
fn a_legacy_file_is_extracted() {
    let result = extract_presentation(&legacy_file(), "Be Thou My Vision - Lyrics.ppt").unwrap();
    assert_eq!(result.filename, "Be Thou My Vision - Lyrics.ppt");
    assert_eq!(result.format, "PPT");
    assert_eq!(result.slide_count, 1);
    assert_eq!(result.detected_title, Some("Be Thou My Vision".to_string()));
    assert_eq!(result.lines, vec!["O Lord of my heart"]);
    assert_eq!(result.warning, None);
}

#[test]
fn a_zipped_file_is_extracted_whatever_its_name_says() {
    let result = extract_presentation(&zipped_file(), "it is well.ppt").unwrap();
    assert_eq!(result.format, "PPTX");
    assert_eq!(result.slide_count, 1);
    assert_eq!(result.detected_title, Some("It Is Well".to_string()));
    assert_eq!(result.lines, vec!["When peace like a river", "attendeth my way"]);
    assert_eq!(result.warning, None);
}

#[test]
fn a_legacy_file_without_text_comes_with_a_warning() {
    let mut stream = vec![0x0F, 0, 0x88, 0x13, 12, 0, 0, 0];
    stream.extend_from_slice(&[0, 0, 0x9F, 0x0F, 4, 0, 0, 0, 1, 0, 0, 0]);
    stream.resize(512, 0);
    let result = extract_presentation(&container(&stream), "empty.ppt").unwrap();
    assert_eq!(result.slide_count, 0);
    assert_eq!(result.detected_title, None);
    assert!(result.lines.is_empty());
    assert_eq!(
        result.warning,
        Some(
            "No text content extracted from 'empty.ppt'. The file may use an unsupported text storage format or contain only images/graphics."
                .to_string()
        )
    );
}

#[test]
fn extraction_reports_errors_as_text() {
    assert_eq!(
        extract_presentation(b"short", "a.ppt").unwrap_err(),
        "File too small to be a valid presentation"
    );
    assert_eq!(
        extract_presentation(b"eight or more bytes", "a.txt").unwrap_err(),
        "Could not detect file format"
    );
    assert_eq!(
        extract_presentation(b"eight or more bytes", "ppt.").unwrap_err(),
        "Could not detect file format"
    );
    let err = extract_presentation(b"eight or more bytes", "a.PPTX").unwrap_err();
    assert!(err.starts_with("PPTX parsing error: ZIP error: Failed to open ZIP: "));
    let err = extract_presentation(b"eight or more bytes", "ppt").unwrap_err();
    assert!(err.starts_with("PPT parsing error: OLE/CFB error: Failed to open CFB container: "));
    let err = extract_presentation(&container(b"too small a stream"), "a.pptx").unwrap_err();
    assert_eq!(
        err,
        "PPT parsing error: Invalid or corrupted file: PowerPoint Document stream too small (18 bytes). Minimum expected: 512 bytes. File may be corrupted or truncated."
    );
    assert_eq!(file_extension("a.b.PPT"), "PPT");
    assert_eq!(file_extension("noext"), "noext");
    assert_eq!(file_extension("dir.d/file"), "d/file");
    assert_eq!(file_extension(""), "");
    assert_eq!(file_extension("x."), "");
}
