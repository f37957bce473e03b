use ppt_extract::error::{Error, ErrorKind};
use ppt_extract::pptx::PptxParser;
use ppt_extract::relationships::{
    chars_le, extract_slide_number, read_relationship, slide_order_from_events,
    slide_order_from_xml,
};
use ppt_extract::shapes::{
    apply_offset, extract_shapes_from_xml, parse_coordinate, shapes_from_events, ShapeInfo,
};
use ppt_extract::types::PresentationFormat;
use ppt_extract::xml::{local_name, name_is, XmlAttribute, XmlEvent, XmlTag};
use std::io::{Cursor, Write};

const SLIDE_TYPE: &str =
    "http://schemas.openxmlformats.org/officeDocument/2006/relationships/slide";
const MASTER_TYPE: &str =
    "http://schemas.openxmlformats.org/officeDocument/2006/relationships/slideMaster";
const LAYOUT_TYPE: &str =
    "http://schemas.openxmlformats.org/officeDocument/2006/relationships/slideLayout";

fn relationship(id: &str, rel_type: &str, target: &str) -> String {
    format!("<Relationship Id=\"{}\" Type=\"{}\" Target=\"{}\"/>", id, rel_type, target)
}

fn manifest(relationships: &[String]) -> String {
    format!(
        "<?xml version=\"1.0\" encoding=\"UTF-8\"?>\n<Relationships xmlns=\"http://schemas.openxmlformats.org/package/2006/relationships\">\n  {}\n</Relationships>\n",
        relationships.join("\n  ")
    )
}

fn shape(x: i64, y: i64, paragraphs: &[&str]) -> String {
    let body: Vec<String> = paragraphs
        .iter()
        .map(|p| format!("<a:p><a:r><a:rPr lang=\"en-US\"/><a:t>{}</a:t></a:r></a:p>", p))
        .collect();
    format!(
        "<p:sp><p:nvSpPr><p:cNvPr id=\"2\" name=\"Box\"/></p:nvSpPr><p:spPr><a:xfrm><a:off x=\"{}\" y=\"{}\"/><a:ext cx=\"10\" cy=\"10\"/></a:xfrm></p:spPr><p:txBody><a:bodyPr/>{}</p:txBody></p:sp>",
        x,
        y,
        body.join("")
    )
}

fn slide(shapes: &[String]) -> String {
    format!(
        "<?xml version=\"1.0\"?>\n<p:sld xmlns:a=\"http://schemas.openxmlformats.org/drawingml/2006/main\" xmlns:p=\"http://schemas.openxmlformats.org/presentationml/2006/main\">\n <p:cSld>\n  <p:spTree>\n   <p:grpSpPr><a:xfrm><a:off x=\"9\" y=\"9\"/></a:xfrm></p:grpSpPr>\n   {}\n  </p:spTree>\n </p:cSld>\n</p:sld>\n",
        shapes.join("\n   ")
    )
}

fn archive(entries: &[(&str, &str)]) -> Vec<u8> {
    let mut writer = zip::ZipWriter::new(Cursor::new(Vec::new()));
    for (name, content) in entries {
        writer.start_file(*name, zip::write::FileOptions::default()).unwrap();
        writer.write_all(content.as_bytes()).unwrap();
    }
    writer.finish().unwrap().into_inner()
}

fn texts_of(slides: &[ppt_extract::types::ExtractedSlide]) -> Vec<Vec<String>> {
    slides
        .iter()
        .map(|slide| slide.lines.iter().map(|line| line.text.clone()).collect())
        .collect()
}

fn tag(name: &str, attributes: &str) -> XmlTag {
    XmlTag { name: name.as_bytes().to_vec(), attributes: attributes.as_bytes().to_vec() }
}

fn start(name: &str) -> XmlEvent {
    XmlEvent::Start(tag(name, ""))
}

fn end(name: &str) -> XmlEvent {
    XmlEvent::End(name.as_bytes().to_vec())
}

fn text(content: &str) -> XmlEvent {
    XmlEvent::Text(Some(content.to_string()))
}

fn attribute(key: &str, value: &str) -> XmlAttribute {
    XmlAttribute { key: key.as_bytes().to_vec(), value: value.as_bytes().to_vec() }
}

fn summary(shapes: &[ShapeInfo]) -> Vec<(String, i64, i64)> {
    shapes.iter().map(|s| (s.text.clone(), s.x, s.y)).collect()
}

#[test]
fn test_extract_slide_number() {
    assert_eq!(extract_slide_number("rId1"), Some(1));
    assert_eq!(extract_slide_number("rId12"), Some(12));
    assert_eq!(extract_slide_number("slide1.xml"), Some(1));
    assert_eq!(extract_slide_number("slide123.xml"), Some(123));
    assert_eq!(extract_slide_number("nodigits"), None);
}

#[test]
fn test_local_name() {
    assert_eq!(local_name(b"p:sp"), b"sp");
    assert_eq!(local_name(b"a:t"), b"t");
    assert_eq!(local_name(b"sp"), b"sp");
}

#[test]
fn slide_numbers_at_the_edges() {
    assert_eq!(extract_slide_number(""), None);
    assert_eq!(extract_slide_number(".xml"), None);
    assert_eq!(extract_slide_number("7"), Some(7));
    assert_eq!(extract_slide_number("slide007.xml.xml"), Some(7));
    assert_eq!(extract_slide_number("slide4.xml.rels"), None);
    assert_eq!(extract_slide_number("slide4.rels.rels"), Some(4));
    assert_eq!(extract_slide_number("slide4.rels.xml"), Some(4));
    assert_eq!(extract_slide_number("slide4.rels.xml.rels"), None);
    assert_eq!(extract_slide_number("slide5x"), None);
    assert_eq!(extract_slide_number("a1b22"), Some(22));
    assert_eq!(extract_slide_number("slide\u{0663}"), None);
    assert_eq!(extract_slide_number("n18446744073709551615"), Some(usize::MAX));
    assert_eq!(extract_slide_number("n18446744073709551616"), None);
    assert_eq!(extract_slide_number("n99999999999999999999999"), None);
    assert_eq!(extract_slide_number("n000000000000000000000012"), Some(12));
}

#[test]
fn local_names_and_name_comparison() {
    assert_eq!(local_name(b""), b"");
    assert_eq!(local_name(b":"), b"");
    assert_eq!(local_name(b"a:b:c"), b"b:c");
    assert_eq!(local_name(b"p:"), b"");
    assert!(name_is(b"off", "off"));
    assert!(!name_is(b"of", "off"));
    assert!(!name_is(b"Off", "off"));
    assert!(name_is(b"", ""));
    assert!(name_is(&[0xE9], "\u{00E9}"));
}

#[test]
fn coordinates_are_whole_numbers_with_an_optional_sign() {
    assert_eq!(parse_coordinate(b"457200"), Some(457200));
    assert_eq!(parse_coordinate(b"-12"), Some(-12));
    assert_eq!(parse_coordinate(b"+12"), Some(12));
    assert_eq!(parse_coordinate(b"0"), Some(0));
    assert_eq!(parse_coordinate(b"-0"), Some(0));
    assert_eq!(parse_coordinate(b"007"), Some(7));
    assert_eq!(parse_coordinate(b""), None);
    assert_eq!(parse_coordinate(b"-"), None);
    assert_eq!(parse_coordinate(b"+"), None);
    assert_eq!(parse_coordinate(b"1.5"), None);
    assert_eq!(parse_coordinate(b" 1"), None);
    assert_eq!(parse_coordinate(b"--1"), None);
    assert_eq!(parse_coordinate(b"9223372036854775807"), Some(i64::MAX));
    assert_eq!(parse_coordinate(b"9223372036854775808"), None);
    assert_eq!(parse_coordinate(b"-9223372036854775808"), Some(i64::MIN));
    assert_eq!(parse_coordinate(b"-9223372036854775809"), None);
    assert_eq!(parse_coordinate(b"12345678901234567890123"), None);
}

#[test]
fn an_offset_takes_the_last_x_and_y_that_are_numbers() {
    let attributes = vec![
        attribute("x", "1"),
        attribute("y", "2"),
        attribute("z", "3"),
        attribute("x", "4"),
        attribute("y", "abc"),
        attribute("X", "9"),
    ];
    assert_eq!(apply_offset((7, 8), &attributes), (4, 2));
    assert_eq!(apply_offset((7, 8), &Vec::new()), (7, 8));
}

#[test]
fn shapes_are_read_from_events() {
    let events = vec![
        start("p:sld"),
        XmlEvent::Start(tag("a:off", " x=\"1\" y=\"1\"")),
        start("p:sp"),
        XmlEvent::Empty(tag("a:off", " x=\"30\" y=\"40\"")),
        text("outside"),
        start("p:txBody"),
        start("a:p"),
        text(" Hello"),
        text(" world "),
        end("a:p"),
        text("between"),
        XmlEvent::Empty(tag("a:p", "")),
        start("a:p"),
        XmlEvent::Text(None),
        XmlEvent::Other,
        text("again"),
        end("a:p"),
        end("p:txBody"),
        end("p:sp"),
        start("p:pic"),
        XmlEvent::Start(tag("a:off", " y=\"5\"")),
        end("a:off"),
        start("p:txBody"),
        start("a:p"),
        text("   "),
        end("a:p"),
        end("p:txBody"),
        end("p:pic"),
        start("a:p"),
        text("no body"),
        end("a:p"),
        start("p:txBody"),
        start("a:p"),
        text("stray"),
        end("p:sp"),
        start("p:sp"),
        start("a:p"),
        text("not in a paragraph"),
        start("p:txBody"),
        start("a:p"),
        text("last"),
        end("p:sp"),
        XmlEvent::Eof,
        start("p:sp"),
        start("p:txBody"),
        start("a:p"),
        text("after the end"),
        end("p:sp"),
    ];
    let shapes = shapes_from_events(&events);
    assert_eq!(
        summary(&shapes),
        vec![("Hello world \nagain".to_string(), 30, 40), ("last".to_string(), 0, 0)]
    );
    assert!(shapes_from_events(&Vec::new()).is_empty());
    let failed = vec![
        start("p:sp"),
        start("p:txBody"),
        start("a:p"),
        text("kept"),
        XmlEvent::Failure("broken".to_string()),
        end("p:sp"),
    ];
    assert_eq!(summary(&shapes_from_events(&failed)), vec![("kept".to_string(), 0, 0)]);
}

#[test]
fn shapes_are_read_from_a_slide() {
    let xml = slide(&[
        shape(100, 200, &["First shape"]),
        "<p:pic><p:spPr><a:xfrm><a:off x=\"5\" y=\"6\"/></a:xfrm></p:spPr></p:pic>".to_string(),
        shape(-3, 0, &["Tom &amp; Jerry", " second  paragraph "]),
        "<p:sp><p:txBody><a:p><a:r><a:t>Hello </a:t></a:r><a:r><a:t>world</a:t></a:r></a:p></p:txBody></p:sp>".to_string(),
        "<p:sp><p:txBody><a:p><a:r><a:t>bad &bogus; entity</a:t></a:r></a:p></p:txBody></p:sp>".to_string(),
    ]);
    let shapes = extract_shapes_from_xml(&xml);
    assert_eq!(
        summary(&shapes),
        vec![
            ("First shape".to_string(), 100, 200),
            ("Tom & Jerry\nsecond  paragraph".to_string(), -3, 0),
            ("Helloworld".to_string(), 0, 0),
        ]
    );
    assert_eq!(summary(&PptxParser::new().extract_shapes_from_xml(&xml)), summary(&shapes));
    assert!(extract_shapes_from_xml("").is_empty());
    assert!(extract_shapes_from_xml("no markup at all").is_empty());
}

#[test]
fn a_slide_that_breaks_off_gives_the_shapes_before() {
    let xml = format!(
        "<p:sld><p:spTree>{}<p:sp><p:txBody><a:p><a:t>lost</a:t></wrong></p:txBody></p:sp>{}</p:spTree></p:sld>",
        shape(1, 2, &["whole"]),
        shape(3, 4, &["never read"])
    );
    assert_eq!(summary(&extract_shapes_from_xml(&xml)), vec![("whole".to_string(), 1, 2)]);
}

#[test]
fn a_slide_puts_its_shapes_in_reading_order() {
    let shapes = vec![
        ShapeInfo { text: "bottom".to_string(), x: 0, y: 900 },
        ShapeInfo { text: "top right".to_string(), x: 500, y: 10 },
        ShapeInfo { text: "  ".to_string(), x: 0, y: 0 },
        ShapeInfo { text: "top left".to_string(), x: -5, y: 10 },
        ShapeInfo { text: "same place as top right".to_string(), x: 500, y: 10 },
        ShapeInfo { text: "above".to_string(), x: 999, y: -1 },
    ];
    let slide = PptxParser::new().slide_from_shapes(&shapes, 4);
    assert_eq!(slide.number, 4);
    assert!(slide.notes.is_none());
    let lines: Vec<(&str, Option<i64>, Option<i64>)> =
        slide.lines.iter().map(|l| (l.text.as_str(), l.y_position, l.x_position)).collect();
    assert_eq!(
        lines,
        vec![
            ("above", Some(-1), Some(999)),
            ("top left", Some(10), Some(-5)),
            ("top right", Some(10), Some(500)),
            ("same place as top right", Some(10), Some(500)),
            ("bottom", Some(900), Some(0)),
        ]
    );
}

#[test]
fn relationships_that_lead_to_slides() {
    let slide = read_relationship(&vec![
        attribute("Id", "rId7"),
        attribute("Type", SLIDE_TYPE),
        attribute("Target", "slides/slide2.xml"),
    ])
    .unwrap();
    assert_eq!(slide.path, "ppt/slides/slide2.xml");
    assert_eq!(slide.order, Some(7));

    let slide = read_relationship(&vec![
        attribute("Target", "/ppt/slides/slide9.xml"),
        attribute("Type", "x"),
        attribute("Type", SLIDE_TYPE),
        attribute("Id", "first"),
    ])
    .unwrap();
    assert_eq!(slide.path, "ppt/slides/slide9.xml");
    assert_eq!(slide.order, Some(9));

    let slide = read_relationship(&vec![attribute("Type", "a/slide")]).unwrap();
    assert_eq!(slide.path, "ppt/");
    assert_eq!(slide.order, None);

    let slide = read_relationship(&vec![
        attribute("Type", "a/slide"),
        attribute("Target", "/"),
        attribute("Id", "r\u{00E9}"),
    ])
    .unwrap();
    assert_eq!(slide.path, "");
    assert_eq!(slide.order, None);

    assert!(read_relationship(&vec![attribute("Type", MASTER_TYPE)]).is_none());
    assert!(read_relationship(&vec![attribute("Type", LAYOUT_TYPE)]).is_none());
    assert!(read_relationship(&vec![attribute("Type", "slide")]).is_none());
    assert!(read_relationship(&vec![attribute("type", SLIDE_TYPE)]).is_none());
    assert!(read_relationship(&Vec::new()).is_none());
    let lossy = read_relationship(&vec![
        attribute("Type", SLIDE_TYPE),
        XmlAttribute { key: b"Target".to_vec(), value: vec![b'a', 0xFF, b'1'] },
    ])
    .unwrap();
    assert_eq!(lossy.path, "ppt/a\u{FFFD}1");
    assert_eq!(lossy.order, Some(1));
}

#[test]
fn slides_are_ordered_by_number_whatever_the_manifest_order() {
    let xml = manifest(&[
        relationship("rId3", SLIDE_TYPE, "slides/slide3.xml"),
        relationship("rId9", MASTER_TYPE, "slideMasters/slideMaster1.xml"),
        relationship("rId1", SLIDE_TYPE, "slides/slide1.xml"),
        relationship("rId8", LAYOUT_TYPE, "slideLayouts/slideLayout1.xml"),
        relationship("rId2", SLIDE_TYPE, "slides/slide2.xml"),
    ]);
    let order = slide_order_from_xml(&xml).unwrap();
    assert_eq!(
        order,
        vec!["ppt/slides/slide1.xml", "ppt/slides/slide2.xml", "ppt/slides/slide3.xml"]
    );
}

#[test]
fn slides_without_a_number_come_last_by_path() {
    let xml = manifest(&[
        relationship("b", SLIDE_TYPE, "slides/zeta.xml"),
        relationship("rId5", SLIDE_TYPE, "slides/second.xml"),
        relationship("a", SLIDE_TYPE, "slides/alpha.xml"),
        relationship("x", SLIDE_TYPE, "slides/slide5.xml"),
        relationship("c", SLIDE_TYPE, "slides/Beta.xml"),
        relationship("rId2", SLIDE_TYPE, "slides/first.xml"),
    ]);
    let order = slide_order_from_xml(&xml).unwrap();
    assert_eq!(
        order,
        vec![
            "ppt/slides/first.xml",
            "ppt/slides/second.xml",
            "ppt/slides/slide5.xml",
            "ppt/slides/Beta.xml",
            "ppt/slides/alpha.xml",
            "ppt/slides/zeta.xml",
        ]
    );
    assert!(slide_order_from_xml("").unwrap().is_empty());
    assert!(chars_le(&"ab".chars().collect(), &"abc".chars().collect()));
    assert!(chars_le(&"ab".chars().collect(), &"ab".chars().collect()));
    assert!(!chars_le(&"b".chars().collect(), &"abc".chars().collect()));
    assert!(chars_le(&Vec::new(), &Vec::new()));
    assert!(chars_le(&"Z".chars().collect(), &"a".chars().collect()));
    assert!(chars_le(&"z".chars().collect(), &"\u{00E9}".chars().collect()));
}

#[test]
fn the_order_is_read_from_events_as_well() {
    let events = vec![
        start("Relationships"),
        XmlEvent::Empty(tag(
            "Relationship",
            &format!(" Id=\"rId2\" Type=\"{}\" Target=\"slides/b.xml\"", SLIDE_TYPE),
        )),
        XmlEvent::Start(tag(
            "Relationship",
            &format!(" Id=\"rId1\" Type=\"{}\" Target=\"slides/a.xml\"", SLIDE_TYPE),
        )),
        XmlEvent::Empty(tag(
            "r:Relationship",
            &format!(" Id=\"rId0\" Type=\"{}\" Target=\"slides/prefixed.xml\"", SLIDE_TYPE),
        )),
        end("Relationships"),
        XmlEvent::Eof,
        XmlEvent::Empty(tag(
            "Relationship",
            &format!(" Id=\"rId0\" Type=\"{}\" Target=\"slides/late.xml\"", SLIDE_TYPE),
        )),
    ];
    assert_eq!(
        slide_order_from_events(&events).unwrap(),
        vec!["ppt/slides/a.xml", "ppt/slides/b.xml"]
    );
    let mut failed = events;
    failed.insert(2, XmlEvent::Failure("bad token".to_string()));
    let err = slide_order_from_events(&failed).unwrap_err();
    assert_eq!(err.to_string(), "XML parsing error: Error parsing relationships: bad token");
}

#[test]
fn a_manifest_that_breaks_off_is_an_error_of_its_xml() {
    let err = slide_order_from_xml("<Relationships></Wrong>").unwrap_err();
    assert!(matches!(err, Error::XmlError(_)));
    assert!(err.to_string().starts_with("XML parsing error: Error parsing relationships: "));
    assert!(err.to_string().len() > "XML parsing error: Error parsing relationships: ".len());
}

#[test]
fn a_zipped_presentation_is_parsed_in_slide_order() {
    let rels = manifest(&[
        relationship("rId3", SLIDE_TYPE, "slides/slide3.xml"),
        relationship("rId1", SLIDE_TYPE, "slides/slide1.xml"),
        relationship("rId2", SLIDE_TYPE, "slides/slide2.xml"),
    ]);
    let slide1 = slide(&[shape(0, 500, &["Body of one"]), shape(0, 100, &["Slide One"])]);
    let slide2 = slide(&[shape(0, 0, &["Slide Two"])]);
    let slide3 = slide(&[]);
    let file = archive(&[
        ("ppt/slides/slide3.xml", &slide3),
        ("ppt/_rels/presentation.xml.rels", &rels),
        ("ppt/slides/slide2.xml", &slide2),
        ("ppt/slides/slide1.xml", &slide1),
    ]);
    let presentation = PptxParser::new().parse(&file, "deck.pptx").unwrap();
    assert_eq!(presentation.filename, "deck.pptx");
    assert_eq!(presentation.format, PresentationFormat::Pptx);
    assert!(presentation.notes.is_none());
    let numbers: Vec<usize> = presentation.slides.iter().map(|s| s.number).collect();
    assert_eq!(numbers, vec![1, 2, 3]);
    assert_eq!(
        texts_of(&presentation.slides),
        vec![
            vec!["Slide One".to_string(), "Body of one".to_string()],
            vec!["Slide Two".to_string()],
            Vec::<String>::new(),
        ]
    );
    let all: Vec<&str> = presentation.all_lines();
    assert_eq!(all, vec!["Slide One", "Body of one", "Slide Two"]);
}

#[test]
fn what_is_no_archive_or_lacks_a_part_is_an_error_of_the_archive() {
    let parser = PptxParser::new();
    let err = parser.parse(b"PK\x03\x04 but nothing more", "deck.pptx").unwrap_err();
    assert_eq!(err.kind(), ErrorKind::Zip);
    assert!(err.to_string().starts_with("ZIP error: Failed to open ZIP: "));
    assert!(err.to_string().len() > "ZIP error: Failed to open ZIP: ".len());

    let no_manifest = archive(&[("ppt/slides/slide1.xml", "<p:sld/>")]);
    let err = parser.parse(&no_manifest, "deck.pptx").unwrap_err();
    assert!(err
        .to_string()
        .starts_with("ZIP error: File not found in archive 'ppt/_rels/presentation.xml.rels': "));

    let rels = manifest(&[relationship("rId1", SLIDE_TYPE, "slides/slide1.xml")]);
    let no_slide = archive(&[("ppt/_rels/presentation.xml.rels", &rels)]);
    let err = parser.parse(&no_slide, "deck.pptx").unwrap_err();
    assert!(err
        .to_string()
        .starts_with("ZIP error: File not found in archive 'ppt/slides/slide1.xml': "));

    let broken = archive(&[("ppt/_rels/presentation.xml.rels", "<Relationships></Wrong>")]);
    let err = parser.parse(&broken, "deck.pptx").unwrap_err();
    assert_eq!(err.kind(), ErrorKind::Xml);

    let mut writer = zip::ZipWriter::new(Cursor::new(Vec::new()));
    writer.start_file("ppt/_rels/presentation.xml.rels", zip::write::FileOptions::default()).unwrap();
    writer.write_all(&[b'<', 0xFF, 0xFE, b'>']).unwrap();
    let not_text = writer.finish().unwrap().into_inner();
    let err = parser.parse(&not_text, "deck.pptx").unwrap_err();
    assert!(err
        .to_string()
        .starts_with("ZIP error: Failed to read 'ppt/_rels/presentation.xml.rels': "));

    let empty = archive(&[("ppt/_rels/presentation.xml.rels", "<Relationships/>")]);
    let presentation = parser.parse(&empty, "deck.pptx").unwrap();
    assert!(presentation.slides.is_empty());
}
