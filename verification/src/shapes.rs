//! The shapes of a slide.
//!
//! A slide's XML is read event by event. Each drawable shape gives its offset on the slide
//! and the text of its paragraphs; a shape without text is left out.

use vstd::prelude::*;
use crate::numeral::{parse_signed, signed_numeral};
use crate::text::{append_chars, chars_of, string_of, trim, trimmed};
use crate::xml::{
    attribute_views, attributes_of, document_events, event_views, latin1, latin1_chars,
    local_name, local_part, name_is, next_event, open_reader, pending_events, tag_attributes,
    AttributeView, EventView, TagView, XmlAttribute, XmlEvent, XmlTag,
};

verus! {

/// A shape with text: the text, trimmed, and the shape's offset in the units of the
/// container. A shape that states no offset stands at zero.
#[derive(Debug, Clone)]
pub struct ShapeInfo {
    pub text: String,
    pub x: i64,
    pub y: i64,
}

/// What a `ShapeInfo` stands for.
pub struct ShapeView {
    pub text: Seq<char>,
    pub x: i64,
    pub y: i64,
}

impl View for ShapeInfo {
    type V = ShapeView;

    open spec fn view(&self) -> ShapeView {
        ShapeView { text: self.text@, x: self.x, y: self.y }
    }
}

/// The views of the given shapes.
pub open spec fn shape_views(shapes: Seq<ShapeInfo>) -> Seq<ShapeView> {
    Seq::new(shapes.len(), |i: int| shapes[i]@)
}

/// The coordinate that an attribute value writes: a decimal number with an optional sign.
pub open spec fn coordinate_of(value: Seq<u8>) -> Option<i64> {
    match signed_numeral(latin1(value)) {
        Some(n) => Some(n as i64),
        None => None,
    }
}

/// The coordinate that an attribute value writes.
pub fn parse_coordinate(value: &[u8]) -> (r: Option<i64>)
    ensures
        r == coordinate_of(value@),
{
    parse_signed(&latin1_chars(value))
}

/// The offset `at` after the first `n` of the attributes were read: an `x` or a `y` that
/// writes a coordinate replaces the one held, every other attribute changes nothing.
pub open spec fn offset_after(at: (i64, i64), attributes: Seq<AttributeView>, n: int) -> (
    i64,
    i64,
)
    decreases n,
{
    if n <= 0 {
        at
    } else {
        let before = offset_after(at, attributes, n - 1);
        let attribute = attributes[n - 1];
        if latin1(attribute.key) == "x"@ {
            match coordinate_of(attribute.value) {
                Some(x) => (x, before.1),
                None => before,
            }
        } else if latin1(attribute.key) == "y"@ {
            match coordinate_of(attribute.value) {
                Some(y) => (before.0, y),
                None => before,
            }
        } else {
            before
        }
    }
}

/// The offset `at` as the attributes of an offset element change it.
pub open spec fn moved(at: (i64, i64), attributes: Seq<AttributeView>) -> (i64, i64) {
    offset_after(at, attributes, attributes.len() as int)
}

/// The offset `at` as the attributes of an offset element change it.
pub fn apply_offset(at: (i64, i64), attributes: &Vec<XmlAttribute>) -> (r: (i64, i64))
    ensures
        r == moved(at, attribute_views(attributes@)),
{
    let mut r = at;
    let mut i: usize = 0;
    while i < attributes.len()
        invariant
            i <= attributes.len(),
            r == offset_after(at, attribute_views(attributes@), i as int),
        decreases attributes.len() - i,
    {
        let attribute = &attributes[i];
        proof {
            assert(attribute_views(attributes@)[i as int] == attribute@);
        }
        if name_is(attribute.key.as_slice(), "x") {
            match parse_coordinate(attribute.value.as_slice()) {
                Some(x) => {
                    r = (x, r.1);
                },
                None => {},
            }
        } else if name_is(attribute.key.as_slice(), "y") {
            match parse_coordinate(attribute.value.as_slice()) {
                Some(y) => {
                    r = (r.0, y);
                },
                None => {},
            }
        }
        i += 1;
    }
    r
}

/// Where the reading of a slide stands.
pub struct ScanView {
    /// The shapes that are complete.
    pub shapes: Seq<ShapeView>,
    /// The offset of the shape that is open, if one is.
    pub open_shape: Option<(i64, i64)>,
    /// Whether a text body is open.
    pub in_text_body: bool,
    /// Whether a paragraph is open.
    pub in_paragraph: bool,
    /// The text gathered since the last shape ended.
    pub text: Seq<char>,
    /// Whether the end of the document was met.
    pub done: bool,
}

/// The state before any event.
pub open spec fn scan_start() -> ScanView {
    ScanView {
        shapes: Seq::empty(),
        open_shape: None,
        in_text_body: false,
        in_paragraph: false,
        text: Seq::empty(),
        done: false,
    }
}

/// Whether the local name is that of a drawable shape.
pub open spec fn is_shape_name(local: Seq<u8>) -> bool {
    latin1(local) == "sp"@ || latin1(local) == "pic"@
}

/// The state after an opening tag.
pub open spec fn after_start(s: ScanView, tag: TagView) -> ScanView {
    let local = local_part(tag.name);
    if is_shape_name(local) {
        ScanView { open_shape: Some((0i64, 0i64)), ..s }
    } else if latin1(local) == "off"@ {
        after_offset(s, tag)
    } else if latin1(local) == "txBody"@ {
        ScanView { in_text_body: true, ..s }
    } else if latin1(local) == "p"@ && s.in_text_body {
        ScanView {
            in_paragraph: true,
            text: if s.text.len() > 0 {
                s.text.push('\n')
            } else {
                s.text
            },
            ..s
        }
    } else {
        s
    }
}

/// The state after an offset element: the open shape, if there is one, moves.
pub open spec fn after_offset(s: ScanView, tag: TagView) -> ScanView {
    match s.open_shape {
        Some(at) => ScanView { open_shape: Some(moved(at, tag_attributes(tag.attributes))), ..s },
        None => s,
    }
}

/// The state after a tag that closes itself.
pub open spec fn after_empty(s: ScanView, tag: TagView) -> ScanView {
    if latin1(local_part(tag.name)) == "off"@ {
        after_offset(s, tag)
    } else {
        s
    }
}

/// The state after character data: it is gathered inside a paragraph and nowhere else.
pub open spec fn after_text(s: ScanView, text: Option<Seq<char>>) -> ScanView {
    if s.in_paragraph {
        match text {
            Some(t) => ScanView { text: s.text + t, ..s },
            None => s,
        }
    } else {
        s
    }
}

/// The state after a closing tag. The end of a shape completes it with the text gathered,
/// trimmed, unless that is empty, and starts the gathering anew.
pub open spec fn after_end(s: ScanView, name: Seq<u8>) -> ScanView {
    let local = local_part(name);
    if is_shape_name(local) {
        ScanView {
            shapes: match s.open_shape {
                Some(at) => if trimmed(s.text).len() > 0 {
                    s.shapes.push(ShapeView { text: trimmed(s.text), x: at.0, y: at.1 })
                } else {
                    s.shapes
                },
                None => s.shapes,
            },
            open_shape: None,
            in_text_body: false,
            in_paragraph: false,
            text: Seq::empty(),
            done: s.done,
        }
    } else if latin1(local) == "txBody"@ {
        ScanView { in_text_body: false, ..s }
    } else if latin1(local) == "p"@ {
        ScanView { in_paragraph: false, ..s }
    } else {
        s
    }
}

/// The state after one more event. Nothing changes it once the end of the document was
/// met; a failure of the tokenizer and an event without content change nothing either.
pub open spec fn scan_step(s: ScanView, event: EventView) -> ScanView {
    if s.done {
        s
    } else {
        match event {
            EventView::Start(tag) => after_start(s, tag),
            EventView::Empty(tag) => after_empty(s, tag),
            EventView::End(name) => after_end(s, name),
            EventView::Text(text) => after_text(s, text),
            EventView::Eof => ScanView { done: true, ..s },
            EventView::Failure(_) => s,
            EventView::Other => s,
        }
    }
}

/// The state after the first `n` events.
pub open spec fn scanned(events: Seq<EventView>, n: int) -> ScanView
    decreases n,
{
    if n <= 0 {
        scan_start()
    } else {
        scan_step(scanned(events, n - 1), events[n - 1])
    }
}

/// The shapes with text that the events of a slide describe, in the order in which the
/// shapes end.
pub open spec fn shapes_of(events: Seq<EventView>) -> Seq<ShapeView> {
    scanned(events, events.len() as int).shapes
}

/// Once the end of the document was met, no further event changes the state.
pub proof fn lemma_done_is_final(events: Seq<EventView>, n: int, m: int)
    requires
        0 <= n <= m,
        scanned(events, n).done,
    ensures
        scanned(events, m) == scanned(events, n),
    decreases m - n,
{
    if n < m {
        lemma_done_is_final(events, n, m - 1);
    }
}

/// The reading of a slide: the state between two events.
pub struct ShapeScan {
    shapes: Vec<ShapeInfo>,
    open_shape: Option<(i64, i64)>,
    in_text_body: bool,
    in_paragraph: bool,
    text: Vec<char>,
    done: bool,
}

impl View for ShapeScan {
    type V = ScanView;

    closed spec fn view(&self) -> ScanView {
        ScanView {
            shapes: shape_views(self.shapes@),
            open_shape: self.open_shape,
            in_text_body: self.in_text_body,
            in_paragraph: self.in_paragraph,
            text: self.text@,
            done: self.done,
        }
    }
}

impl ShapeScan {
    /// The state before any event.
    pub fn new() -> (r: Self)
        ensures
            r@ == scan_start(),
    {
        let r = ShapeScan {
            shapes: Vec::new(),
            open_shape: None,
            in_text_body: false,
            in_paragraph: false,
            text: Vec::new(),
            done: false,
        };
        proof {
            assert(shape_views(r.shapes@) =~= Seq::empty());
        }
        r
    }

    /// Whether the end of the document was met.
    pub fn is_done(&self) -> (r: bool)
        ensures
            r == self@.done,
    {
        self.done
    }

    /// The shapes that are complete.
    pub fn into_shapes(self) -> (r: Vec<ShapeInfo>)
        ensures
            shape_views(r@) == self@.shapes,
    {
        self.shapes
    }

    /// Takes an offset element.
    fn offset(&mut self, tag: &XmlTag)
        ensures
            final(self)@ == after_offset(old(self)@, tag@),
    {
        match self.open_shape {
            Some(at) => {
                let attributes = attributes_of(tag.attributes.as_slice());
                self.open_shape = Some(apply_offset(at, &attributes));
            },
            None => {},
        }
    }

    /// Takes an opening tag.
    fn start(&mut self, tag: &XmlTag)
        ensures
            final(self)@ == after_start(old(self)@, tag@),
    {
        let local = local_name(tag.name.as_slice());
        if name_is(local, "sp") || name_is(local, "pic") {
            self.open_shape = Some((0, 0));
        } else if name_is(local, "off") {
            self.offset(tag);
        } else if name_is(local, "txBody") {
            self.in_text_body = true;
        } else if name_is(local, "p") && self.in_text_body {
            self.in_paragraph = true;
            if self.text.len() > 0 {
                self.text.push('\n');
            }
        }
    }

    /// Takes a closing tag.
    fn end(&mut self, name: &[u8])
        ensures
            final(self)@ == after_end(old(self)@, name@),
    {
        let local = local_name(name);
        if name_is(local, "sp") || name_is(local, "pic") {
            match self.open_shape {
                Some(at) => {
                    let text = trim(&self.text);
                    if text.len() > 0 {
                        let ghost before = shape_views(self.shapes@);
                        let shape = ShapeInfo { text: string_of(&text), x: at.0, y: at.1 };
                        self.shapes.push(shape);
                        proof {
                            assert(shape_views(self.shapes@) =~= before.push(shape@));
                        }
                    }
                },
                None => {},
            }
            self.open_shape = None;
            self.text = Vec::new();
            self.in_text_body = false;
            self.in_paragraph = false;
        } else if name_is(local, "txBody") {
            self.in_text_body = false;
        } else if name_is(local, "p") {
            self.in_paragraph = false;
        }
    }

    /// Takes one more event.
    pub fn step(&mut self, event: &XmlEvent)
        ensures
            final(self)@ == scan_step(old(self)@, event@),
    {
        if self.done {
            return ;
        }
        match event {
            XmlEvent::Start(tag) => {
                self.start(tag);
            },
            XmlEvent::Empty(tag) => {
                if name_is(local_name(tag.name.as_slice()), "off") {
                    self.offset(tag);
                }
            },
            XmlEvent::End(name) => {
                self.end(name.as_slice());
            },
            XmlEvent::Text(text) => {
                if self.in_paragraph {
                    match text {
                        Some(t) => {
                            let more = chars_of(t.as_str());
                            append_chars(&mut self.text, &more);
                        },
                        None => {},
                    }
                }
            },
            XmlEvent::Eof => {
                self.done = true;
            },
            XmlEvent::Failure(_) => {},
            XmlEvent::Other => {},
        }
    }
}

/// The shapes with text that the given events of a slide describe.
pub fn shapes_from_events(events: &Vec<XmlEvent>) -> (shapes: Vec<ShapeInfo>)
    ensures
        shape_views(shapes@) == shapes_of(event_views(events@)),
{
    let mut scan = ShapeScan::new();
    let mut i: usize = 0;
    while i < events.len()
        invariant
            i <= events.len(),
            scan@ == scanned(event_views(events@), i as int),
        decreases events.len() - i,
    {
        scan.step(&events[i]);
        i += 1;
    }
    scan.into_shapes()
}

/// The shapes with text of a slide, from the slide's XML. A document that the tokenizer
/// cannot read to its end gives the shapes that were complete before.
pub fn extract_shapes_from_xml(xml_content: &str) -> (shapes: Vec<ShapeInfo>)
    ensures
        shape_views(shapes@) == shapes_of(document_events(xml_content@)),
{
    let mut reader = open_reader(xml_content);
    let mut scan = ShapeScan::new();
    let ghost events = document_events(xml_content@);
    let ghost mut n: int = 0;
    while !scan.is_done()
        invariant
            0 <= n <= events.len(),
            !scan@.done ==> scan@ == scanned(events, n),
            pending_events(reader) == events.skip(n),
            scan@.done ==> scan@.shapes == shapes_of(events),
        decreases events.len() - n, if scan@.done { 0int } else { 1int },
    {
        let event = next_event(&mut reader);
        scan.step(&event);
        proof {
            if n < events.len() {
                assert(events.skip(n)[0] == events[n]);
                assert(events.skip(n).drop_first() =~= events.skip(n + 1));
                n = n + 1;
                if scan@.done {
                    lemma_done_is_final(events, n, events.len() as int);
                }
            } else {
                assert(event@ == EventView::Eof);
            }
        }
    }
    scan.into_shapes()
}

} // verus!
