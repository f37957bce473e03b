//! The order of the slides of a zipped presentation.
//!
//! The presentation's relationship manifest names the part of each slide. The slides are
//! put in the order of the numbers that end the relationships' ids, or else the names of
//! their parts; a slide without such a number comes after all that have one.

use vstd::prelude::*;
use crate::error::Error;
use crate::numeral::{is_ascii_digit, is_digit, numeral, parse_numeral};
use crate::order::{
    is_sorted_by, is_total, is_transitive, lemma_sort_through, lemma_stably_sorted, rank_order,
    sort_stably, stably_sorted_by, Ranked,
};
use crate::text::{
    chars_of, concat, contains, contains_text, lossy_text, matches_at, occurs_at, slice_of,
    string_of, utf8_lossy,
};
use crate::xml::{
    attribute_views, attributes_of, document_events, event_views, latin1, name_is, next_event,
    open_reader, pending_events, tag_attributes, AttributeView, EventView, TagView,
    XmlAttribute, XmlEvent, XmlTag,
};

verus! {

/// The text without every repetition of `suffix` at its end.
pub open spec fn without_suffix(s: Seq<char>, suffix: Seq<char>) -> Seq<char>
    decreases s.len(),
{
    if suffix.len() > 0 && occurs_at(s, suffix, s.len() - suffix.len()) {
        without_suffix(s.take(s.len() - suffix.len()), suffix)
    } else {
        s
    }
}

/// Where the digits that end the first `n` characters of the text begin.
pub open spec fn digits_start(s: Seq<char>, n: int) -> int
    decreases n,
{
    if 0 < n <= s.len() && is_digit(s[n - 1]) {
        digits_start(s, n - 1)
    } else {
        n
    }
}

/// The name without the extensions of a part: every `.xml` at its end, then every
/// `.rels`.
pub open spec fn part_stem(s: Seq<char>) -> Seq<char> {
    without_suffix(without_suffix(s, ".xml"@), ".rels"@)
}

/// The number that ends a relationship id or the name of a part, once the extensions of
/// the part are taken off; nothing where no digit stands there or the number is too
/// large for the machine.
pub open spec fn slide_number(s: Seq<char>) -> Option<int> {
    let stem = part_stem(s);
    numeral(
        stem.subrange(digits_start(stem, stem.len() as int), stem.len() as int),
        usize::MAX as int,
    )
}

/// The length of the text without every repetition of `suffix` at the end of its first
/// `n` characters.
fn strip_suffix(v: &Vec<char>, n: usize, suffix: &str) -> (r: usize)
    requires
        n <= v.len(),
    ensures
        r <= n,
        v@.take(r as int) == without_suffix(v@.take(n as int), suffix@),
{
    let pattern = chars_of(suffix);
    let mut end: usize = n;
    if pattern.len() == 0 {
        return n;
    }
    while end >= pattern.len() && matches_at(v, &pattern, end - pattern.len())
        invariant
            end <= n <= v.len(),
            pattern@ == suffix@,
            pattern.len() > 0,
            without_suffix(v@.take(end as int), suffix@) == without_suffix(
                v@.take(n as int),
                suffix@,
            ),
        decreases end,
    {
        proof {
            let s = v@.take(end as int);
            let cut = end - pattern.len();
            assert(s.subrange(cut, cut + pattern.len()) =~= v@.subrange(cut, cut + pattern.len()));
            assert(occurs_at(s, suffix@, s.len() - suffix@.len()));
            assert(s.take(s.len() - suffix@.len()) =~= v@.take(cut));
        }
        end -= pattern.len();
    }
    proof {
        let s = v@.take(end as int);
        if end >= pattern.len() {
            let cut = end - pattern.len();
            assert(s.subrange(cut, cut + pattern.len()) =~= v@.subrange(cut, cut + pattern.len()));
        }
        assert(!occurs_at(s, suffix@, s.len() - suffix@.len()));
    }
    end
}

/// The number that ends a relationship id such as `rId2` or the name of a part such as
/// `slide3.xml`.
pub fn extract_slide_number(s: &str) -> (r: Option<usize>)
    ensures
        match r {
            Some(n) => slide_number(s@) == Some(n as int),
            None => slide_number(s@) is None,
        },
{
    let v = chars_of(s);
    proof {
        assert(v@.take(v.len() as int) =~= v@);
    }
    let without_xml = strip_suffix(&v, v.len(), ".xml");
    let end = strip_suffix(&v, without_xml, ".rels");
    let ghost stem = v@.take(end as int);
    assert(stem == part_stem(s@));
    let mut start: usize = end;
    while start > 0 && is_ascii_digit(v[start - 1])
        invariant
            start <= end <= v.len(),
            stem == v@.take(end as int),
            digits_start(stem, end as int) == digits_start(stem, start as int),
        decreases start,
    {
        start -= 1;
    }
    proof {
        assert(stem.subrange(start as int, end as int) =~= v@.subrange(start as int, end as int));
    }
    match parse_numeral(&v, start, end, usize::MAX as u64) {
        Some(n) => Some(n as usize),
        None => None,
    }
}

/// Whether text `a` comes before text `b` or is the same, character by character as in a
/// dictionary of code points.
pub open spec fn text_le(a: Seq<char>, b: Seq<char>) -> bool
    decreases a.len(),
{
    if a.len() == 0 {
        true
    } else if b.len() == 0 {
        false
    } else if a[0] != b[0] {
        a[0] < b[0]
    } else {
        text_le(a.drop_first(), b.drop_first())
    }
}

/// Of two texts, one comes before the other or they are the same.
pub proof fn lemma_text_le_total(a: Seq<char>, b: Seq<char>)
    ensures
        text_le(a, b) || text_le(b, a),
    decreases a.len(),
{
    if a.len() > 0 && b.len() > 0 && a[0] == b[0] {
        lemma_text_le_total(a.drop_first(), b.drop_first());
    }
}

/// A text that comes before another comes before all that the other comes before.
pub proof fn lemma_text_le_transitive(a: Seq<char>, b: Seq<char>, c: Seq<char>)
    requires
        text_le(a, b),
        text_le(b, c),
    ensures
        text_le(a, c),
    decreases a.len(),
{
    if a.len() > 0 && b.len() > 0 && c.len() > 0 && a[0] == b[0] && b[0] == c[0] {
        lemma_text_le_transitive(a.drop_first(), b.drop_first(), c.drop_first());
    }
}

/// Whether text `a` comes before text `b` or is the same.
pub fn chars_le(a: &Vec<char>, b: &Vec<char>) -> (r: bool)
    ensures
        r == text_le(a@, b@),
{
    let mut i: usize = 0;
    proof {
        assert(a@.skip(0) =~= a@);
        assert(b@.skip(0) =~= b@);
    }
    while i < a.len() && i < b.len() && a[i] == b[i]
        invariant
            i <= a.len(),
            i <= b.len(),
            text_le(a@, b@) == text_le(a@.skip(i as int), b@.skip(i as int)),
        decreases a.len() - i,
    {
        proof {
            assert(a@.skip(i as int).drop_first() =~= a@.skip(i + 1));
            assert(b@.skip(i as int).drop_first() =~= b@.skip(i + 1));
        }
        i += 1;
    }
    if i == a.len() {
        true
    } else if i == b.len() {
        false
    } else {
        a[i] < b[i]
    }
}

/// The part of a slide and the number that orders it, if it has one.
#[derive(Debug)]
pub struct SlideRef {
    /// The path of the part in the archive.
    pub path: String,
    /// The number that orders the slide.
    pub order: Option<usize>,
}

/// What a `SlideRef` stands for.
pub struct SlideRefView {
    pub path: Seq<char>,
    pub order: Option<usize>,
}

impl View for SlideRef {
    type V = SlideRefView;

    open spec fn view(&self) -> SlideRefView {
        SlideRefView { path: self.path@, order: self.order }
    }
}

/// The views of the given references.
pub open spec fn ref_views(refs: Seq<SlideRef>) -> Seq<SlideRefView> {
    refs.map_values(|r: SlideRef| r@)
}

/// Whether slide `a` may stand before slide `b`: by their numbers where both have one; one
/// with a number before one without; two without by their paths.
pub open spec fn ref_le(a: SlideRefView, b: SlideRefView) -> bool {
    match a.order {
        Some(x) => match b.order {
            Some(y) => x <= y,
            None => true,
        },
        None => match b.order {
            Some(_) => false,
            None => text_le(a.path, b.path),
        },
    }
}

/// The order of slides as a relation.
pub open spec fn slide_order() -> spec_fn(SlideRefView, SlideRefView) -> bool {
    |a: SlideRefView, b: SlideRefView| ref_le(a, b)
}

impl Ranked for SlideRef {
    open spec fn precedes(&self, other: &Self) -> bool {
        ref_le(self@, other@)
    }

    fn goes_before(&self, other: &Self) -> (r: bool) {
        match self.order {
            Some(x) => match other.order {
                Some(y) => x <= y,
                None => true,
            },
            None => match other.order {
                Some(_) => false,
                None => chars_le(&chars_of(self.path.as_str()), &chars_of(other.path.as_str())),
            },
        }
    }

    proof fn precedes_is_total(a: &Self, b: &Self) {
        lemma_text_le_total(a.path@, b.path@);
    }

    proof fn precedes_is_transitive(a: &Self, b: &Self, c: &Self) {
        if a.order is None && b.order is None && c.order is None {
            lemma_text_le_transitive(a.path@, b.path@, c.path@);
        }
    }
}

/// The value of the last of the first `n` attributes that has the given key, read as
/// text; the empty text where none has it.
pub open spec fn attribute_value(attributes: Seq<AttributeView>, key: Seq<char>, n: int) -> Seq<
    char,
>
    decreases n,
{
    if n <= 0 {
        Seq::empty()
    } else if latin1(attributes[n - 1].key) == key {
        utf8_lossy(attributes[n - 1].value)
    } else {
        attribute_value(attributes, key, n - 1)
    }
}

/// The value of the last attribute that has the given key.
pub fn attribute_text(attributes: &Vec<XmlAttribute>, key: &str) -> (r: String)
    ensures
        r@ == attribute_value(attribute_views(attributes@), key@, attributes@.len() as int),
{
    let mut n: usize = attributes.len();
    while n > 0
        invariant
            n <= attributes.len(),
            attribute_value(attribute_views(attributes@), key@, attributes@.len() as int)
                == attribute_value(attribute_views(attributes@), key@, n as int),
        decreases n,
    {
        proof {
            assert(attribute_views(attributes@)[n - 1] == attributes@[n - 1]@);
        }
        if name_is(attributes[n - 1].key.as_slice(), key) {
            return lossy_text(attributes[n - 1].value.as_slice());
        }
        n -= 1;
    }
    String::new()
}

/// Whether a relationship of the given type leads to a slide, not to a layout or a
/// master.
pub open spec fn is_slide_type(rel_type: Seq<char>) -> bool {
    &&& contains_text(rel_type, "/slide"@)
    &&& !contains_text(rel_type, "slideLayout"@)
    &&& !contains_text(rel_type, "slideMaster"@)
}

/// The path in the archive of the part that a relationship's target names: the target
/// without its leading slash, or the target within the directory of the presentation.
pub open spec fn part_path(target: Seq<char>) -> Seq<char> {
    if target.len() > 0 && target[0] == '/' {
        target.drop_first()
    } else {
        "ppt/"@ + target
    }
}

/// The number by which a relationship is ordered: that of its id, or else that of its
/// target.
pub open spec fn order_of(id: Seq<char>, target: Seq<char>) -> Option<usize> {
    match slide_number(id) {
        Some(n) => Some(n as usize),
        None => match slide_number(target) {
            Some(n) => Some(n as usize),
            None => None,
        },
    }
}

/// The slide that a relationship with the given attributes leads to, if it leads to one.
pub open spec fn relationship_of(attributes: Seq<AttributeView>) -> Option<SlideRefView> {
    let n = attributes.len() as int;
    let rel_type = attribute_value(attributes, "Type"@, n);
    let target = attribute_value(attributes, "Target"@, n);
    let id = attribute_value(attributes, "Id"@, n);
    if is_slide_type(rel_type) {
        Some(SlideRefView { path: part_path(target), order: order_of(id, target) })
    } else {
        None
    }
}

/// The slide that a relationship with the given attributes leads to.
pub fn read_relationship(attributes: &Vec<XmlAttribute>) -> (r: Option<SlideRef>)
    ensures
        match r {
            Some(slide) => relationship_of(attribute_views(attributes@)) == Some(slide@),
            None => relationship_of(attribute_views(attributes@)) is None,
        },
{
    let rel_type = chars_of(attribute_text(attributes, "Type").as_str());
    let target = attribute_text(attributes, "Target");
    let id = attribute_text(attributes, "Id");
    if contains(&rel_type, &chars_of("/slide")) && !contains(&rel_type, &chars_of("slideLayout"))
        && !contains(&rel_type, &chars_of("slideMaster")) {
        let order = match extract_slide_number(id.as_str()) {
            Some(n) => Some(n),
            None => extract_slide_number(target.as_str()),
        };
        let chars = chars_of(target.as_str());
        let path = if chars.len() > 0 && chars[0] == '/' {
            proof {
                assert(chars@.subrange(1, chars@.len() as int) =~= chars@.drop_first());
            }
            string_of(&slice_of(&chars, 1, chars.len()))
        } else {
            concat("ppt/", target.as_str())
        };
        Some(SlideRef { path, order })
    } else {
        None
    }
}

/// Where the reading of a manifest stands.
pub struct ManifestView {
    /// The slides found so far, in the order of the manifest.
    pub slides: Seq<SlideRefView>,
    /// The tokenizer's report, where it could not read the manifest further.
    pub failure: Option<Seq<char>>,
    /// Whether the reading is over.
    pub done: bool,
}

/// The state before any event.
pub open spec fn manifest_start() -> ManifestView {
    ManifestView { slides: Seq::empty(), failure: None, done: false }
}

/// The state after a tag: a `Relationship` that leads to a slide adds the slide.
pub open spec fn after_tag(s: ManifestView, tag: TagView) -> ManifestView {
    if latin1(tag.name) == "Relationship"@ {
        match relationship_of(tag_attributes(tag.attributes)) {
            Some(slide) => ManifestView { slides: s.slides.push(slide), ..s },
            None => s,
        }
    } else {
        s
    }
}

/// The state after one more event. The end of the document and a failure of the
/// tokenizer end the reading.
pub open spec fn manifest_step(s: ManifestView, event: EventView) -> ManifestView {
    if s.done {
        s
    } else {
        match event {
            EventView::Start(tag) => after_tag(s, tag),
            EventView::Empty(tag) => after_tag(s, tag),
            EventView::Eof => ManifestView { done: true, ..s },
            EventView::Failure(report) => ManifestView {
                failure: Some(report),
                done: true,
                ..s
            },
            _ => s,
        }
    }
}

/// The state after the first `n` events.
pub open spec fn manifest_read(events: Seq<EventView>, n: int) -> ManifestView
    decreases n,
{
    if n <= 0 {
        manifest_start()
    } else {
        manifest_step(manifest_read(events, n - 1), events[n - 1])
    }
}

/// The paths of the slides that a manifest names, in the order of the slides; or the
/// tokenizer's report where it could not read the manifest to its end.
pub open spec fn slide_paths(events: Seq<EventView>) -> Result<Seq<Seq<char>>, Seq<char>> {
    let read = manifest_read(events, events.len() as int);
    match read.failure {
        Some(report) => Err(report),
        None => Ok(
            stably_sorted_by(read.slides, slide_order()).map_values(|s: SlideRefView| s.path),
        ),
    }
}

/// The slides come out in the order of their numbers however the manifest lists them:
/// each may stand before all that follow it, and they are the slides that were found,
/// each as often as it was found.
pub proof fn lemma_slides_come_in_order(found: Seq<SlideRefView>)
    ensures
        is_sorted_by(stably_sorted_by(found, slide_order()), slide_order()),
        stably_sorted_by(found, slide_order()).to_multiset() == found.to_multiset(),
        forall|i: int, j: int|
            #![trigger stably_sorted_by(found, slide_order())[i], stably_sorted_by(found, slide_order())[j]]
            0 <= i < j < found.len() ==> match (
                stably_sorted_by(found, slide_order())[i].order,
                stably_sorted_by(found, slide_order())[j].order,
            ) {
                (Some(x), Some(y)) => x <= y,
                (None, Some(_)) => false,
                _ => true,
            },
{
    let le = slide_order();
    assert(is_total(le)) by {
        assert forall|a: SlideRefView, b: SlideRefView| #[trigger] le(a, b) || le(b, a) by {
            lemma_text_le_total(a.path, b.path);
        }
    }
    assert(is_transitive(le)) by {
        assert forall|a: SlideRefView, b: SlideRefView, c: SlideRefView| #[trigger]
            le(a, b) && #[trigger] le(b, c) implies le(a, c) by {
            if a.order is None && b.order is None && c.order is None {
                lemma_text_le_transitive(a.path, b.path, c.path);
            }
        }
    }
    lemma_stably_sorted(found, le);
    let sorted = stably_sorted_by(found, le);
    assert forall|i: int, j: int| #![trigger sorted[i], sorted[j]] 0 <= i < j < found.len() implies match (
        sorted[i].order,
        sorted[j].order,
    ) {
        (Some(x), Some(y)) => x <= y,
        (None, Some(_)) => false,
        _ => true,
    } by {
        assert(le(sorted[i], sorted[j]));
    }
}

/// Once the reading is over, no further event changes the state.
pub proof fn lemma_manifest_done(events: Seq<EventView>, n: int, m: int)
    requires
        0 <= n <= m,
        manifest_read(events, n).done,
    ensures
        manifest_read(events, m) == manifest_read(events, n),
    decreases m - n,
{
    if n < m {
        lemma_manifest_done(events, n, m - 1);
    }
}

/// The reading of a manifest: the state between two events.
pub struct ManifestScan {
    slides: Vec<SlideRef>,
    failure: Option<String>,
    done: bool,
}

impl View for ManifestScan {
    type V = ManifestView;

    closed spec fn view(&self) -> ManifestView {
        ManifestView {
            slides: ref_views(self.slides@),
            failure: match self.failure {
                Some(report) => Some(report@),
                None => None,
            },
            done: self.done,
        }
    }
}

/// The text that reports a manifest that could not be read.
pub open spec fn manifest_failure_message(report: Seq<char>) -> Seq<char> {
    "Error parsing relationships: "@ + report
}

impl ManifestScan {
    /// The state before any event.
    pub fn new() -> (r: Self)
        ensures
            r@ == manifest_start(),
    {
        let r = ManifestScan { slides: Vec::new(), failure: None, done: false };
        proof {
            assert(ref_views(r.slides@) =~= Seq::empty());
        }
        r
    }

    /// Whether the reading is over.
    pub fn is_done(&self) -> (r: bool)
        ensures
            r == self@.done,
    {
        self.done
    }

    /// Takes a tag.
    fn tag(&mut self, tag: &XmlTag)
        ensures
            final(self)@ == after_tag(old(self)@, tag@),
    {
        if name_is(tag.name.as_slice(), "Relationship") {
            let attributes = attributes_of(tag.attributes.as_slice());
            match read_relationship(&attributes) {
                Some(slide) => {
                    let ghost before = ref_views(self.slides@);
                    self.slides.push(slide);
                    proof {
                        assert(ref_views(self.slides@) =~= before.push(slide@));
                    }
                },
                None => {},
            }
        }
    }

    /// Takes one more event.
    pub fn step(&mut self, event: &XmlEvent)
        ensures
            final(self)@ == manifest_step(old(self)@, event@),
    {
        if self.done {
            return ;
        }
        match event {
            XmlEvent::Start(tag) => {
                self.tag(tag);
            },
            XmlEvent::Empty(tag) => {
                self.tag(tag);
            },
            XmlEvent::Eof => {
                self.done = true;
            },
            XmlEvent::Failure(report) => {
                self.failure = Some(report.clone());
                self.done = true;
            },
            _ => {},
        }
    }

    /// The paths of the slides in their order, or the error that reports the tokenizer's
    /// failure.
    pub fn into_paths(self) -> (r: Result<Vec<String>, Error>)
        ensures
            match self@.failure {
                Some(report) => r matches Err(Error::XmlError(m)) && m@
                    == manifest_failure_message(report),
                None => r matches Ok(paths) && paths.deep_view() == stably_sorted_by(
                    self@.slides,
                    slide_order(),
                ).map_values(|s: SlideRefView| s.path),
            },
    {
        match self.failure {
            Some(report) => Err(
                Error::XmlError(concat("Error parsing relationships: ", report.as_str())),
            ),
            None => {
                let mut slides = self.slides;
                let ghost found = slides@;
                sort_stably(&mut slides);
                proof {
                    lemma_sort_through(
                        found,
                        |r: SlideRef| r@,
                        rank_order::<SlideRef>(),
                        slide_order(),
                    );
                }
                let ghost sorted = ref_views(slides@);
                let mut paths: Vec<String> = Vec::new();
                let mut i: usize = 0;
                while i < slides.len()
                    invariant
                        i <= slides.len(),
                        sorted == ref_views(slides@),
                        paths.len() == i,
                        forall|j: int| 0 <= j < i ==> paths@[j]@ == sorted[j].path,
                    decreases slides.len() - i,
                {
                    paths.push(slides[i].path.clone());
                    i += 1;
                }
                proof {
                    assert(paths.deep_view() =~= sorted.map_values(|s: SlideRefView| s.path));
                }
                Ok(paths)
            },
        }
    }
}

/// The paths of the slides that the given events of a manifest name, in the order of the
/// slides.
pub fn slide_order_from_events(events: &Vec<XmlEvent>) -> (r: Result<Vec<String>, Error>)
    ensures
        match slide_paths(event_views(events@)) {
            Ok(expected) => r matches Ok(paths) && paths.deep_view() == expected,
            Err(report) => r matches Err(Error::XmlError(m)) && m@ == manifest_failure_message(
                report,
            ),
        },
{
    let mut scan = ManifestScan::new();
    let mut i: usize = 0;
    while i < events.len()
        invariant
            i <= events.len(),
            scan@ == manifest_read(event_views(events@), i as int),
        decreases events.len() - i,
    {
        scan.step(&events[i]);
        i += 1;
    }
    scan.into_paths()
}

/// The paths of the slides that a manifest names, in the order of the slides, from the
/// manifest's XML.
pub fn slide_order_from_xml(manifest: &str) -> (r: Result<Vec<String>, Error>)
    ensures
        match slide_paths(document_events(manifest@)) {
            Ok(expected) => r matches Ok(paths) && paths.deep_view() == expected,
            Err(report) => r matches Err(Error::XmlError(m)) && m@ == manifest_failure_message(
                report,
            ),
        },
{
    let mut reader = open_reader(manifest);
    let mut scan = ManifestScan::new();
    let ghost events = document_events(manifest@);
    let ghost mut n: int = 0;
    while !scan.is_done()
        invariant
            0 <= n <= events.len(),
            !scan@.done ==> scan@ == manifest_read(events, n),
            pending_events(reader) == events.skip(n),
            scan@.done ==> scan@.slides == manifest_read(events, events.len() as int).slides
                && scan@.failure == manifest_read(events, events.len() as int).failure,
        decreases events.len() - n, if scan@.done { 0int } else { 1int },
    {
        let event = next_event(&mut reader);
        scan.step(&event);
        proof {
            if n < events.len() {
                assert(events.skip(n)[0] == events[n]);
                assert(events.skip(n).drop_first() =~= events.skip(n + 1));
                n = n + 1;
                if scan@.done {
                    lemma_manifest_done(events, n, events.len() as int);
                }
            } else {
                assert(event@ == EventView::Eof);
            }
        }
    }
    scan.into_paths()
}

} // verus!
