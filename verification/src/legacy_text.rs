//! The text runs of a legacy presentation: how they are decoded, which of them count as
//! text of a slide, and how they are gathered from the record tree.

use vstd::prelude::*;
use crate::ppt::PptParser;
use crate::records::{
    are_nested_scopes, body_end, has_header, header_at, read_header, read_u16_le, read_u32_le,
    text_type_of, u16_at, u32_at, TextType, CONTAINER_VERSION, RT_SLIDE_PERSIST_ATOM, RT_TEXT_BYTES_ATOM,
    RT_TEXT_CHARS_ATOM, RT_TEXT_HEADER_ATOM,
};
use crate::text::{
    chars_of, contains, contains_text, is_blank, string_of, trim, trim_bounds, trimmed,
    unicode_alphanumeric,
};

verus! {

/// The character that a surrogate pair writes.
pub open spec fn pair_char(high: int, low: int) -> char {
    (0x1_0000 + (high - 0xD800) * 0x400 + (low - 0xDC00)) as char
}

/// The text that the sixteen-bit code units from `at` up to `end` write, low byte first.
/// The text ends before the first unit that is zero and before the first surrogate
/// without its partner.
pub open spec fn utf16_text(data: Seq<u8>, at: int, end: int) -> Seq<char>
    decreases end - at,
{
    if at + 2 > end {
        Seq::empty()
    } else {
        let unit = u16_at(data, at);
        if unit == 0 {
            Seq::empty()
        } else if unit < 0xD800 || unit >= 0xE000 {
            seq![unit as char] + utf16_text(data, at + 2, end)
        } else if unit < 0xDC00 && at + 4 <= end && 0xDC00 <= u16_at(data, at + 2) < 0xE000 {
            seq![pair_char(unit, u16_at(data, at + 2))] + utf16_text(data, at + 4, end)
        } else {
            Seq::empty()
        }
    }
}

/// The text of a run of code units of `len` bytes at `start`, or nothing where the run is
/// empty, of odd length, reaches past the data, or writes nothing but whitespace.
pub open spec fn unicode_run(data: Seq<u8>, start: int, len: int) -> Option<Seq<char>> {
    if len == 0 || start + len > data.len() || len % 2 != 0 {
        None
    } else if is_blank(utf16_text(data, start, start + len)) {
        None
    } else {
        Some(utf16_text(data, start, start + len))
    }
}

/// The character that a byte stands for in the Western code page of Windows, or nothing
/// for the five bytes that the code page leaves undefined.
pub open spec fn cp1252(b: u8) -> Option<char> {
    if b < 0x80 || b >= 0xA0 {
        Some(b as char)
    } else if b == 0x80 {
        Some('\u{20AC}')
    } else if b == 0x82 {
        Some('\u{201A}')
    } else if b == 0x83 {
        Some('\u{0192}')
    } else if b == 0x84 {
        Some('\u{201E}')
    } else if b == 0x85 {
        Some('\u{2026}')
    } else if b == 0x86 {
        Some('\u{2020}')
    } else if b == 0x87 {
        Some('\u{2021}')
    } else if b == 0x88 {
        Some('\u{02C6}')
    } else if b == 0x89 {
        Some('\u{2030}')
    } else if b == 0x8A {
        Some('\u{0160}')
    } else if b == 0x8B {
        Some('\u{2039}')
    } else if b == 0x8C {
        Some('\u{0152}')
    } else if b == 0x8E {
        Some('\u{017D}')
    } else if b == 0x91 {
        Some('\u{2018}')
    } else if b == 0x92 {
        Some('\u{2019}')
    } else if b == 0x93 {
        Some('\u{201C}')
    } else if b == 0x94 {
        Some('\u{201D}')
    } else if b == 0x95 {
        Some('\u{2022}')
    } else if b == 0x96 {
        Some('\u{2013}')
    } else if b == 0x97 {
        Some('\u{2014}')
    } else if b == 0x98 {
        Some('\u{02DC}')
    } else if b == 0x99 {
        Some('\u{2122}')
    } else if b == 0x9A {
        Some('\u{0161}')
    } else if b == 0x9B {
        Some('\u{203A}')
    } else if b == 0x9C {
        Some('\u{0153}')
    } else if b == 0x9E {
        Some('\u{017E}')
    } else if b == 0x9F {
        Some('\u{0178}')
    } else {
        None
    }
}

/// The character that a byte stands for in the Western code page of Windows.
pub fn decode_cp1252(b: u8) -> (r: Option<char>)
    ensures
        r == cp1252(b),
{
    if b < 0x80 || b >= 0xA0 {
        Some(b as char)
    } else {
        match b {
            0x80 => Some('\u{20AC}'),
            0x82 => Some('\u{201A}'),
            0x83 => Some('\u{0192}'),
            0x84 => Some('\u{201E}'),
            0x85 => Some('\u{2026}'),
            0x86 => Some('\u{2020}'),
            0x87 => Some('\u{2021}'),
            0x88 => Some('\u{02C6}'),
            0x89 => Some('\u{2030}'),
            0x8A => Some('\u{0160}'),
            0x8B => Some('\u{2039}'),
            0x8C => Some('\u{0152}'),
            0x8E => Some('\u{017D}'),
            0x91 => Some('\u{2018}'),
            0x92 => Some('\u{2019}'),
            0x93 => Some('\u{201C}'),
            0x94 => Some('\u{201D}'),
            0x95 => Some('\u{2022}'),
            0x96 => Some('\u{2013}'),
            0x97 => Some('\u{2014}'),
            0x98 => Some('\u{02DC}'),
            0x99 => Some('\u{2122}'),
            0x9A => Some('\u{0161}'),
            0x9B => Some('\u{203A}'),
            0x9C => Some('\u{0153}'),
            0x9E => Some('\u{017E}'),
            0x9F => Some('\u{0178}'),
            _ => None,
        }
    }
}

/// The text that the bytes from `at` up to `end` write in the Western code page. The text
/// ends before the first byte that is zero; an undefined byte writes nothing.
pub open spec fn ansi_text(data: Seq<u8>, at: int, end: int) -> Seq<char>
    decreases end - at,
{
    if at >= end || data[at] == 0 {
        Seq::empty()
    } else {
        match cp1252(data[at]) {
            Some(c) => seq![c] + ansi_text(data, at + 1, end),
            None => ansi_text(data, at + 1, end),
        }
    }
}

/// The text of a run of `len` bytes at `start`, or nothing where the run is empty, reaches
/// past the data, or writes nothing but whitespace.
pub open spec fn ansi_run(data: Seq<u8>, start: int, len: int) -> Option<Seq<char>> {
    if len == 0 || start + len > data.len() {
        None
    } else if is_blank(ansi_text(data, start, start + len)) {
        None
    } else {
        Some(ansi_text(data, start, start + len))
    }
}

/// The lower-case form of an ASCII capital; every other character is its own.
pub open spec fn ascii_lower(c: char) -> char {
    if 'A' <= c && c <= 'Z' {
        ((c as u8) + 32) as char
    } else {
        c
    }
}

/// The text with its ASCII capitals in lower case.
pub open spec fn ascii_lowercase(s: Seq<char>) -> Seq<char> {
    Seq::new(s.len(), |i: int| ascii_lower(s[i]))
}

/// The text with its ASCII capitals in lower case.
pub fn to_ascii_lowercase(v: &Vec<char>) -> (r: Vec<char>)
    ensures
        r@ == ascii_lowercase(v@),
{
    let mut r: Vec<char> = Vec::new();
    let mut i: usize = 0;
    while i < v.len()
        invariant
            i <= v.len(),
            r@ == ascii_lowercase(v@).take(i as int),
        decreases v.len() - i,
    {
        let c = v[i];
        if c >= 'A' && c <= 'Z' {
            r.push(((c as u8) + 32) as char);
        } else {
            r.push(c);
        }
        i += 1;
    }
    r
}

/// Whether the text, whatever its case, holds one of the phrases with which a template
/// marks a placeholder.
pub open spec fn holds_placeholder(text: Seq<char>) -> bool {
    let lower = ascii_lowercase(text);
    ||| contains_text(lower, "click to edit"@)
    ||| contains_text(lower, "edit master"@)
    ||| contains_text(lower, "master title"@)
    ||| contains_text(lower, "master text"@)
    ||| contains_text(lower, "second level"@)
    ||| contains_text(lower, "third level"@)
    ||| contains_text(lower, "fourth level"@)
    ||| contains_text(lower, "fifth level"@)
}

/// Whether a text of the given purpose is text of a slide: it holds more than whitespace,
/// is neither notes nor unused, is no placeholder of a template, and is not a single
/// character that is neither letter nor digit.
pub open spec fn is_slide_text(text: Seq<char>, purpose: TextType) -> bool {
    let core = trimmed(text);
    &&& core.len() > 0
    &&& purpose.slide_content()
    &&& !holds_placeholder(core)
    &&& !(core.len() == 1 && !unicode_alphanumeric(core[0]))
}

/// A text run with what is known of it.
#[derive(Debug)]
pub struct TextEntry {
    /// The text as decoded.
    pub text: String,
    /// The purpose that was in force where the run stands.
    pub text_type: TextType,
    /// The offset of the run's record in the stream.
    pub position: usize,
    /// The number of slide-persistence records before the run.
    pub slide_hint: usize,
}

/// What a `TextEntry` stands for.
pub struct EntryView {
    pub text: Seq<char>,
    pub text_type: TextType,
    pub position: nat,
    pub slide_hint: nat,
}

impl View for TextEntry {
    type V = EntryView;

    open spec fn view(&self) -> EntryView {
        EntryView {
            text: self.text@,
            text_type: self.text_type,
            position: self.position as nat,
            slide_hint: self.slide_hint as nat,
        }
    }
}

/// The views of the given entries.
pub open spec fn entry_views(entries: Seq<TextEntry>) -> Seq<EntryView> {
    entries.map_values(|e: TextEntry| e@)
}

/// What the gathering of text has come to.
pub struct Harvest {
    /// The text runs kept so far.
    pub entries: Seq<EntryView>,
    /// The purpose in force.
    pub purpose: TextType,
    /// The number of slide-persistence records met.
    pub persist_count: nat,
}

/// The state before any record: no text, and body text to come.
pub open spec fn harvest_start() -> Harvest {
    Harvest { entries: Seq::empty(), purpose: TextType::Body, persist_count: 0 }
}

/// The harvest `h` with the text `run` at `at` added, where it is text of a slide.
pub open spec fn with_run(h: Harvest, run: Option<Seq<char>>, at: int) -> Harvest {
    match run {
        Some(text) => if is_slide_text(text, h.purpose) {
            Harvest {
                entries: h.entries.push(
                    EntryView {
                        text,
                        text_type: h.purpose,
                        position: at as nat,
                        slide_hint: h.persist_count,
                    },
                ),
                ..h
            }
        } else {
            h
        },
        None => h,
    }
}

/// The harvest `h` with the record at `at`, whose body fits, taken in.
pub open spec fn gathered(h: Harvest, data: Seq<u8>, at: int) -> Harvest {
    let header = header_at(data, at);
    if header.record_type == RT_SLIDE_PERSIST_ATOM {
        Harvest { persist_count: h.persist_count + 1, ..h }
    } else if header.record_type == RT_TEXT_HEADER_ATOM {
        if header.length >= 4 {
            Harvest { purpose: text_type_of(u32_at(data, at + 8)), ..h }
        } else {
            h
        }
    } else if header.record_type == RT_TEXT_CHARS_ATOM {
        with_run(h, unicode_run(data, at + 8, header.length as int), at)
    } else if header.record_type == RT_TEXT_BYTES_ATOM {
        with_run(h, ansi_run(data, at + 8, header.length as int), at)
    } else {
        h
    }
}

/// The harvest `h` after the records from `at` up to `end` were read, containers
/// included. A record whose body reaches past `end` ends the reading of its scope.
pub open spec fn harvested(data: Seq<u8>, at: int, end: int, h: Harvest) -> Harvest
    decreases end - at,
{
    if !has_header(data, at, end) {
        h
    } else if body_end(data, at) > end {
        h
    } else {
        let own = gathered(h, data, at);
        let inner = if header_at(data, at).version == CONTAINER_VERSION {
            harvested(data, at + 8, body_end(data, at), own)
        } else {
            own
        };
        harvested(data, body_end(data, at), end, inner)
    }
}

/// The harvest `h` after the scope from `at` up to `end` was read to its end, and after it
/// each of the scopes around it from where the scope within it ends.
pub open spec fn harvest_resumed(
    data: Seq<u8>,
    at: int,
    end: int,
    outer: Seq<usize>,
    h: Harvest,
) -> Harvest
    decreases outer.len(),
{
    if outer.len() == 0 {
        harvested(data, at, end, h)
    } else {
        harvest_resumed(
            data,
            end,
            outer.last() as int,
            outer.drop_last(),
            harvested(data, at, end, h),
        )
    }
}

/// Two readings that come to the same at the end of a scope come to the same at the end
/// of the scopes around it.
pub proof fn lemma_harvest_resumes_alike(
    data: Seq<u8>,
    at: int,
    h: Harvest,
    other_at: int,
    other_h: Harvest,
    end: int,
    outer: Seq<usize>,
)
    requires
        harvested(data, at, end, h) == harvested(data, other_at, end, other_h),
    ensures
        harvest_resumed(data, at, end, outer, h) == harvest_resumed(
            data,
            other_at,
            end,
            outer,
            other_h,
        ),
{
}

/// The text runs of a whole stream that are text of a slide, in the order of the stream.
pub open spec fn text_entries_of(data: Seq<u8>) -> Seq<EntryView> {
    harvested(data, 0, data.len() as int, harvest_start()).entries
}

impl PptParser {
    /// Decodes a run of sixteen-bit code units.
    pub fn extract_unicode_text(&self, data: &[u8], start: usize, len: usize) -> (r: Option<
        String,
    >)
        ensures
            match r {
                Some(text) => unicode_run(data@, start as int, len as int) == Some(text@),
                None => unicode_run(data@, start as int, len as int) is None,
            },
    {
        if len == 0 || start > data.len() || len > data.len() - start || len % 2 != 0 {
            return None;
        }
        let end: usize = start + len;
        let mut text: Vec<char> = Vec::new();
        let mut pos: usize = start;
        while end - pos >= 2
            invariant
                start <= pos <= end <= data.len(),
                text@ + utf16_text(data@, pos as int, end as int) == utf16_text(
                    data@,
                    start as int,
                    end as int,
                ),
            ensures
                start <= pos <= end,
                text@ == utf16_text(data@, start as int, end as int),
            decreases end - pos,
        {
            let unit = read_u16_le(data, pos);
            let ghost rest = utf16_text(data@, pos as int, end as int);
            if unit == 0 {
                assert(text@ + rest =~= text@);
                break ;
            } else if unit < 0xD800 || unit >= 0xE000 {
                match char::from_u32(unit as u32) {
                    Some(c) => {
                        proof {
                            let tail = utf16_text(data@, pos + 2, end as int);
                            assert(text@.push(c) + tail =~= text@ + (seq![c] + tail));
                        }
                        text.push(c);
                    },
                    None => {
                        assert(false);
                    },
                }
                pos += 2;
            } else if unit < 0xDC00 && end - pos >= 4 {
                let low = read_u16_le(data, pos + 2);
                if low >= 0xDC00 && low < 0xE000 {
                    let code: u32 = 0x1_0000 + (unit as u32 - 0xD800) * 0x400 + (low as u32
                        - 0xDC00);
                    match char::from_u32(code) {
                        Some(c) => {
                            proof {
                                let tail = utf16_text(data@, pos + 4, end as int);
                                assert(c == pair_char(unit as int, low as int));
                                assert(text@.push(c) + tail =~= text@ + (seq![c] + tail));
                            }
                            text.push(c);
                        },
                        None => {
                            assert(false);
                        },
                    }
                    pos += 4;
                } else {
                    assert(text@ + rest =~= text@);
                    break ;
                }
            } else {
                assert(text@ + rest =~= text@);
                break ;
            }
        }
        proof {
            if end - pos < 2 {
                assert(text@ + utf16_text(data@, pos as int, end as int) =~= text@);
            }
        }
        let (from, to) = trim_bounds(&text);
        if from == to {
            None
        } else {
            Some(string_of(&text))
        }
    }

    /// Decodes a run of bytes in the Western code page of Windows.
    pub fn extract_ansi_text(&self, data: &[u8], start: usize, len: usize) -> (r: Option<String>)
        ensures
            match r {
                Some(text) => ansi_run(data@, start as int, len as int) == Some(text@),
                None => ansi_run(data@, start as int, len as int) is None,
            },
    {
        if len == 0 || start > data.len() || len > data.len() - start {
            return None;
        }
        let end: usize = start + len;
        let mut text: Vec<char> = Vec::new();
        let mut pos: usize = start;
        while pos < end && data[pos] != 0
            invariant
                start <= pos <= end <= data.len(),
                text@ + ansi_text(data@, pos as int, end as int) == ansi_text(
                    data@,
                    start as int,
                    end as int,
                ),
            decreases end - pos,
        {
            match decode_cp1252(data[pos]) {
                Some(c) => {
                    proof {
                        let tail = ansi_text(data@, pos + 1, end as int);
                        assert(text@.push(c) + tail =~= text@ + (seq![c] + tail));
                    }
                    text.push(c);
                },
                None => {},
            }
            pos += 1;
        }
        proof {
            assert(text@ + ansi_text(data@, pos as int, end as int) =~= text@);
        }
        let (from, to) = trim_bounds(&text);
        if from == to {
            None
        } else {
            Some(string_of(&text))
        }
    }

    /// Whether a text of the given purpose is text of a slide and no template's
    /// placeholder or stray mark.
    pub fn is_valid_slide_text(&self, text: &str, text_type: TextType) -> (r: bool)
        ensures
            r == is_slide_text(text@, text_type),
    {
        let core = trim(&chars_of(text));
        if core.len() == 0 {
            return false;
        }
        if !text_type.is_slide_content() {
            return false;
        }
        let lower = to_ascii_lowercase(&core);
        if contains(&lower, &chars_of("click to edit")) || contains(
            &lower,
            &chars_of("edit master"),
        ) || contains(&lower, &chars_of("master title")) || contains(
            &lower,
            &chars_of("master text"),
        ) || contains(&lower, &chars_of("second level")) || contains(
            &lower,
            &chars_of("third level"),
        ) || contains(&lower, &chars_of("fourth level")) || contains(
            &lower,
            &chars_of("fifth level"),
        ) {
            return false;
        }
        if core.len() == 1 && !core[0].is_alphanumeric() {
            return false;
        }
        true
    }

    /// Adds the text `run` found at `position` to the entries, where it is text of a slide.
    fn keep_run(
        &self,
        run: Option<String>,
        position: usize,
        entries: &mut Vec<TextEntry>,
        text_type: TextType,
        slide_hint: usize,
    )
        ensures
            entry_views(final(entries)@) == with_run(
                Harvest {
                    entries: entry_views(old(entries)@),
                    purpose: text_type,
                    persist_count: slide_hint as nat,
                },
                match run {
                    Some(text) => Some(text@),
                    None => None,
                },
                position as int,
            ).entries,
    {
        match run {
            Some(text) => {
                if self.is_valid_slide_text(text.as_str(), text_type) {
                    let entry = TextEntry { text, text_type, position, slide_hint };
                    entries.push(entry);
                    proof {
                        assert(entry_views(entries@) =~= entry_views(old(entries)@).push(entry@));
                    }
                }
            },
            None => {},
        }
    }

    /// Reads the records from `start` up to `end`, containers included, and adds the text
    /// of slides among them to `entries`. The purpose in force and the count of
    /// slide-persistence records are carried from record to record.
    ///
    /// The scopes of the containers that are open are kept on a stack of their ends, so
    /// that records nested however deep are read in one loop.
    pub fn parse_records_recursive(
        &self,
        data: &[u8],
        start: usize,
        end: usize,
        entries: &mut Vec<TextEntry>,
        current_text_type: &mut TextType,
        slide_persist_count: &mut usize,
    )
        requires
            start <= end <= data.len(),
            *old(slide_persist_count) + (end - start) <= usize::MAX,
        ensures
            (Harvest {
                entries: entry_views(final(entries)@),
                purpose: *final(current_text_type),
                persist_count: *final(slide_persist_count) as nat,
            }) == harvested(
                data@,
                start as int,
                end as int,
                Harvest {
                    entries: entry_views(old(entries)@),
                    purpose: *old(current_text_type),
                    persist_count: *old(slide_persist_count) as nat,
                },
            ),
            *final(slide_persist_count) <= *old(slide_persist_count) + (end - start),
    {
        let ghost initial = Harvest {
            entries: entry_views(old(entries)@),
            purpose: *old(current_text_type),
            persist_count: *old(slide_persist_count) as nat,
        };
        let mut pos: usize = start;
        let mut scope_end: usize = end;
        let mut outer: Vec<usize> = Vec::new();
        loop
            invariant
                start <= pos <= scope_end <= end <= data.len(),
                are_nested_scopes(outer@, scope_end as int, end as int),
                initial == (Harvest {
                    entries: entry_views(old(entries)@),
                    purpose: *old(current_text_type),
                    persist_count: *old(slide_persist_count) as nat,
                }),
                harvest_resumed(
                    data@,
                    pos as int,
                    scope_end as int,
                    outer@,
                    Harvest {
                        entries: entry_views(entries@),
                        purpose: *current_text_type,
                        persist_count: *slide_persist_count as nat,
                    },
                ) == harvested(data@, start as int, end as int, initial),
                *slide_persist_count <= *old(slide_persist_count) + (pos - start),
                *old(slide_persist_count) + (end - start) <= usize::MAX,
            decreases data.len() - pos, outer.len(),
        {
            let ghost before = Harvest {
                entries: entry_views(entries@),
                purpose: *current_text_type,
                persist_count: *slide_persist_count as nat,
            };
            let ghost at = pos as int;
            let mut scope_is_done = scope_end - pos < 8;
            if !scope_is_done {
                let header = read_header(data, pos);
                let content_start: usize = pos + 8;
                if header.length as usize > scope_end - content_start {
                    pos = scope_end;
                    scope_is_done = true;
                } else {
                    let content_end: usize = content_start + header.length as usize;
                    if header.record_type == RT_SLIDE_PERSIST_ATOM {
                        *slide_persist_count += 1;
                    } else if header.record_type == RT_TEXT_HEADER_ATOM {
                        if header.length >= 4 {
                            *current_text_type = TextType::from_u32(
                                read_u32_le(data, content_start),
                            );
                        }
                    } else if header.record_type == RT_TEXT_CHARS_ATOM {
                        let run = self.extract_unicode_text(
                            data,
                            content_start,
                            header.length as usize,
                        );
                        self.keep_run(run, pos, entries, *current_text_type, *slide_persist_count);
                    } else if header.record_type == RT_TEXT_BYTES_ATOM {
                        let run = self.extract_ansi_text(
                            data,
                            content_start,
                            header.length as usize,
                        );
                        self.keep_run(run, pos, entries, *current_text_type, *slide_persist_count);
                    }
                    let ghost own = Harvest {
                        entries: entry_views(entries@),
                        purpose: *current_text_type,
                        persist_count: *slide_persist_count as nat,
                    };
                    assert(own == gathered(before, data@, at));
                    if header.version == CONTAINER_VERSION {
                        proof {
                            assert(outer@.push(scope_end).drop_last() =~= outer@);
                            lemma_harvest_resumes_alike(
                                data@,
                                at,
                                before,
                                content_end as int,
                                harvested(data@, content_start as int, content_end as int, own),
                                scope_end as int,
                                outer@,
                            );
                        }
                        outer.push(scope_end);
                        pos = content_start;
                        scope_end = content_end;
                    } else {
                        proof {
                            lemma_harvest_resumes_alike(
                                data@,
                                at,
                                before,
                                content_end as int,
                                own,
                                scope_end as int,
                                outer@,
                            );
                        }
                        pos = content_end;
                    }
                }
            }
            if scope_is_done {
                proof {
                    assert(harvested(data@, at, scope_end as int, before) == before);
                }
                match outer.pop() {
                    Some(outer_end) => {
                        pos = scope_end;
                        scope_end = outer_end;
                    },
                    None => {
                        return ;
                    },
                }
            }
        }
    }

    /// The text runs of a stream that are text of a slide, in the order of the stream.
    pub fn collect_text_entries(&self, data: &[u8]) -> (entries: Vec<TextEntry>)
        ensures
            entry_views(entries@) == text_entries_of(data@),
    {
        let mut entries: Vec<TextEntry> = Vec::new();
        let mut current_text_type = TextType::Body;
        let mut slide_persist_count: usize = 0;
        proof {
            assert(entry_views(entries@) =~= Seq::empty());
        }
        self.parse_records_recursive(
            data,
            0,
            data.len(),
            &mut entries,
            &mut current_text_type,
            &mut slide_persist_count,
        );
        entries
    }
}

} // verus!
