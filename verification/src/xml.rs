//! XML as a sequence of events.
//!
//! The documents are tokenized by `quick_xml`. An event is handed on as plain values, so
//! that the logic that reads events can be stated and checked without the tokenizer.

use vstd::prelude::*;
use vstd::slice::slice_subrange;
use crate::text::{chars_of, same_chars};
use quick_xml::events::attributes::Attributes;
use quick_xml::events::{BytesStart, Event};

verus! {

/// `quick_xml::Reader`, a tokenizer at some place in a document.
#[verifier::external_type_specification]
#[verifier::external_body]
#[verifier::reject_recursive_types(R)]
pub struct ExReader<R>(quick_xml::Reader<R>);

/// One attribute of a tag, as it stands in the document.
#[derive(Debug, Clone)]
pub struct XmlAttribute {
    pub key: Vec<u8>,
    pub value: Vec<u8>,
}

/// The name of a tag and what follows the name inside the tag: its attributes as they
/// stand in the document, with the whitespace before them.
#[derive(Debug, Clone)]
pub struct XmlTag {
    pub name: Vec<u8>,
    pub attributes: Vec<u8>,
}

/// One event of a document.
#[derive(Debug, Clone)]
pub enum XmlEvent {
    /// An opening tag.
    Start(XmlTag),
    /// A tag that closes itself.
    Empty(XmlTag),
    /// A closing tag, with its name.
    End(Vec<u8>),
    /// Character data with its entities resolved, or nothing where they could not be.
    Text(Option<String>),
    /// The end of the document.
    Eof,
    /// The tokenizer's report of a document it cannot read further.
    Failure(String),
    /// A comment, a declaration or another event that carries no content of a slide.
    Other,
}

/// What an `XmlAttribute` stands for.
pub struct AttributeView {
    pub key: Seq<u8>,
    pub value: Seq<u8>,
}

/// What an `XmlTag` stands for.
pub struct TagView {
    pub name: Seq<u8>,
    pub attributes: Seq<u8>,
}

/// What an `XmlEvent` stands for.
pub enum EventView {
    Start(TagView),
    Empty(TagView),
    End(Seq<u8>),
    Text(Option<Seq<char>>),
    Eof,
    Failure(Seq<char>),
    Other,
}

impl View for XmlAttribute {
    type V = AttributeView;

    open spec fn view(&self) -> AttributeView {
        AttributeView { key: self.key@, value: self.value@ }
    }
}

impl View for XmlTag {
    type V = TagView;

    open spec fn view(&self) -> TagView {
        TagView { name: self.name@, attributes: self.attributes@ }
    }
}

impl View for XmlEvent {
    type V = EventView;

    open spec fn view(&self) -> EventView {
        match self {
            XmlEvent::Start(tag) => EventView::Start(tag@),
            XmlEvent::Empty(tag) => EventView::Empty(tag@),
            XmlEvent::End(name) => EventView::End(name@),
            XmlEvent::Text(text) => EventView::Text(
                match text {
                    Some(t) => Some(t@),
                    None => None,
                },
            ),
            XmlEvent::Eof => EventView::Eof,
            XmlEvent::Failure(message) => EventView::Failure(message@),
            XmlEvent::Other => EventView::Other,
        }
    }
}

/// The events of a document, in order, up to its end; the end itself is not among them.
/// Whitespace around character data is not part of it, and character data that is all
/// whitespace gives no event. A document that cannot be read further ends with a
/// `Failure`.
pub uninterp spec fn document_events(xml: Seq<char>) -> Seq<EventView>;

/// The events that a reader has not given yet.
pub uninterp spec fn pending_events(reader: quick_xml::Reader<&[u8]>) -> Seq<EventView>;

/// `Reader::from_str` with `Reader::trim_text(true)`: a reader at the start of the
/// document that trims character data. What it will give depends on the document alone.
#[verifier::external_body]
pub(crate) fn open_reader<'a>(xml: &'a str) -> (reader: quick_xml::Reader<&'a [u8]>)
    ensures
        pending_events(reader) == document_events(xml@),
{
    let mut reader = quick_xml::Reader::from_str(xml);
    reader.trim_text(true);
    reader
}

/// `Reader::read_event`: the next event of the document. After the last event, and after
/// a failure, the reader gives `Eof` and goes on doing so.
#[verifier::external_body]
pub(crate) fn next_event(reader: &mut quick_xml::Reader<&[u8]>) -> (event: XmlEvent)
    ensures
        pending_events(*old(reader)).len() > 0 ==> event@ == pending_events(*old(reader))[0]
            && pending_events(*final(reader)) == pending_events(*old(reader)).drop_first(),
        pending_events(*old(reader)).len() == 0 ==> event@ == EventView::Eof && pending_events(
            *final(reader),
        ).len() == 0,
{
    let tag = |e: &BytesStart| XmlTag {
        name: e.name().0.to_vec(),
        attributes: e.attributes_raw().to_vec(),
    };
    match reader.read_event() {
        Ok(Event::Start(e)) => XmlEvent::Start(tag(&e)),
        Ok(Event::Empty(e)) => XmlEvent::Empty(tag(&e)),
        Ok(Event::End(e)) => XmlEvent::End(e.name().0.to_vec()),
        Ok(Event::Text(e)) => XmlEvent::Text(e.unescape().ok().map(String::from)),
        Ok(Event::Eof) => XmlEvent::Eof,
        Ok(_) => XmlEvent::Other,
        Err(e) => XmlEvent::Failure(e.to_string()),
    }
}

/// The attributes that stand in the given part of a tag, in order. A piece that is no
/// well-formed attribute is left out.
pub uninterp spec fn tag_attributes(raw: Seq<u8>) -> Seq<AttributeView>;

/// The views of the given events.
pub open spec fn event_views(events: Seq<XmlEvent>) -> Seq<EventView> {
    Seq::new(events.len(), |i: int| events[i]@)
}

/// The views of the given attributes.
pub open spec fn attribute_views(attributes: Seq<XmlAttribute>) -> Seq<AttributeView> {
    Seq::new(attributes.len(), |i: int| attributes[i]@)
}

/// `Attributes::new`, read to its end: the attributes in the part of a tag that follows
/// its name. The part is taken as text first, as `String::from_utf8_lossy` reads it.
#[verifier::external_body]
pub(crate) fn attributes_of(raw: &[u8]) -> (attributes: Vec<XmlAttribute>)
    ensures
        attribute_views(attributes@) == tag_attributes(raw@),
{
    Attributes::new(&String::from_utf8_lossy(raw), 0).flatten().map(
        |a| XmlAttribute { key: a.key.0.to_vec(), value: a.value.to_vec() },
    ).collect()
}

/// The bytes read as characters, each byte as the character of its number.
pub open spec fn latin1(bytes: Seq<u8>) -> Seq<char> {
    Seq::new(bytes.len(), |i: int| bytes[i] as char)
}

/// The bytes read as characters, each byte as the character of its number.
pub fn latin1_chars(bytes: &[u8]) -> (r: Vec<char>)
    ensures
        r@ == latin1(bytes@),
{
    let mut r: Vec<char> = Vec::new();
    let mut i: usize = 0;
    while i < bytes.len()
        invariant
            i <= bytes.len(),
            r@ == latin1(bytes@).take(i as int),
        decreases bytes.len() - i,
    {
        r.push(bytes[i] as char);
        i += 1;
    }
    r
}

/// Whether the name is the given one, byte for character.
pub fn name_is(name: &[u8], literal: &str) -> (r: bool)
    ensures
        r == (latin1(name@) == literal@),
{
    same_chars(&latin1_chars(name), &chars_of(literal))
}

/// The index of the first colon at or after `from`, or the length of the name.
pub open spec fn first_colon(name: Seq<u8>, from: int) -> int
    decreases name.len() - from,
{
    if 0 <= from < name.len() && name[from] != 0x3A {
        first_colon(name, from + 1)
    } else {
        from
    }
}

/// The name without its namespace prefix: what follows the first colon, or the whole name
/// where it has none.
pub open spec fn local_part(name: Seq<u8>) -> Seq<u8> {
    let colon = first_colon(name, 0);
    if colon < name.len() {
        name.subrange(colon + 1, name.len() as int)
    } else {
        name
    }
}

/// The name without its namespace prefix.
pub fn local_name(name: &[u8]) -> (r: &[u8])
    ensures
        r@ == local_part(name@),
{
    let mut i: usize = 0;
    while i < name.len() && name[i] != 0x3A
        invariant
            i <= name.len(),
            first_colon(name@, 0) == first_colon(name@, i as int),
        decreases name.len() - i,
    {
        i += 1;
    }
    if i < name.len() {
        slice_subrange(name, i + 1, name.len())
    } else {
        name
    }
}

} // verus!
