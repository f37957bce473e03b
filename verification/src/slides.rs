//! The slides of a legacy presentation, put together from its text runs.
//!
//! The stream does not say where a slide ends. Text runs are grouped by the count of
//! slide-persistence records before them; where that puts all runs into one group, a
//! title begins a new group instead.

use vstd::prelude::*;
use crate::legacy_text::{entry_views, EntryView, TextEntry};
use crate::order::{lemma_sort_through, rank_order, sort_stably, stably_sorted_by, Ranked};
use crate::ppt::PptParser;
use crate::types::{slide_views, ExtractedSlide, SlideTextView, SlideView};

verus! {

impl Ranked for TextEntry {
    open spec fn precedes(&self, other: &Self) -> bool {
        self.position <= other.position
    }

    fn goes_before(&self, other: &Self) -> (r: bool) {
        self.position <= other.position
    }

    proof fn precedes_is_total(a: &Self, b: &Self) {
    }

    proof fn precedes_is_transitive(a: &Self, b: &Self, c: &Self) {
    }
}

impl TextEntry {
    /// An entry that holds what this one holds.
    pub fn copy(&self) -> (r: Self)
        ensures
            r == *self,
    {
        TextEntry {
            text: self.text.clone(),
            text_type: self.text_type,
            position: self.position,
            slide_hint: self.slide_hint,
        }
    }
}

/// The groups that are complete and the group that is still open.
pub struct Grouping {
    pub closed: Seq<Seq<EntryView>>,
    pub open: Seq<EntryView>,
}

/// Whether `entry` begins a new group behind the open group. By hints, it does where its
/// hint differs from that of the entry before it; by titles, where it is a title. The
/// first entry begins no new group: it is the first of the first.
pub open spec fn begins_group(open: Seq<EntryView>, entry: EntryView, by_title: bool) -> bool {
    open.len() > 0 && if by_title {
        entry.text_type.title()
    } else {
        entry.slide_hint != open.last().slide_hint
    }
}

/// The grouping of the first `n` entries.
pub open spec fn grouped(entries: Seq<EntryView>, n: int, by_title: bool) -> Grouping
    decreases n,
{
    if n <= 0 {
        Grouping { closed: Seq::empty(), open: Seq::empty() }
    } else {
        let before = grouped(entries, n - 1, by_title);
        if begins_group(before.open, entries[n - 1], by_title) {
            Grouping { closed: before.closed.push(before.open), open: seq![entries[n - 1]] }
        } else {
            Grouping { closed: before.closed, open: before.open.push(entries[n - 1]) }
        }
    }
}

/// All groups of a grouping, the open one last where it holds an entry.
pub open spec fn all_groups(g: Grouping) -> Seq<Seq<EntryView>> {
    if g.open.len() > 0 {
        g.closed.push(g.open)
    } else {
        g.closed
    }
}

/// The entries in groups of neighbours, by hints or by titles.
pub open spec fn groups_of(entries: Seq<EntryView>, by_title: bool) -> Seq<Seq<EntryView>> {
    all_groups(grouped(entries, entries.len() as int, by_title))
}

/// The groups that become slides: those by hints, unless that is a single group of more
/// than one entry; then those by titles.
pub open spec fn slide_groups(entries: Seq<EntryView>) -> Seq<Seq<EntryView>> {
    let by_hint = groups_of(entries, false);
    if by_hint.len() == 1 && by_hint[0].len() > 1 {
        groups_of(entries, true)
    } else {
        by_hint
    }
}

/// The order of entries by their offset in the stream.
pub open spec fn by_position() -> spec_fn(EntryView, EntryView) -> bool {
    |a: EntryView, b: EntryView| a.position <= b.position
}

/// The texts of those of the first `n` entries that are titles, or of those that are not.
pub open spec fn texts_where(entries: Seq<EntryView>, n: int, titles: bool) -> Seq<Seq<char>>
    decreases n,
{
    if n <= 0 {
        Seq::empty()
    } else if entries[n - 1].text_type.title() == titles {
        texts_where(entries, n - 1, titles).push(entries[n - 1].text)
    } else {
        texts_where(entries, n - 1, titles)
    }
}

/// The lines of the slide that a group becomes: the titles in the order of their offsets,
/// then the other texts in the order of theirs.
pub open spec fn group_lines(group: Seq<EntryView>) -> Seq<Seq<char>> {
    let sorted = stably_sorted_by(group, by_position());
    texts_where(sorted, sorted.len() as int, true) + texts_where(
        sorted,
        sorted.len() as int,
        false,
    )
}

/// The texts as lines whose place on the slide is not known.
pub open spec fn plain_lines(texts: Seq<Seq<char>>) -> Seq<SlideTextView> {
    Seq::new(
        texts.len(),
        |i: int| SlideTextView { text: texts[i], y_position: None, x_position: None },
    )
}

/// The slide that a group becomes.
pub open spec fn slide_of(group: Seq<EntryView>, number: nat) -> SlideView {
    SlideView { number, lines: plain_lines(group_lines(group)), notes: None }
}

/// The slides that the first `n` groups become. A slide bears the number of its group,
/// counted from one; a group without lines gives no slide.
pub open spec fn slides_upto(groups: Seq<Seq<EntryView>>, n: int) -> Seq<SlideView>
    decreases n,
{
    if n <= 0 {
        Seq::empty()
    } else if group_lines(groups[n - 1]).len() > 0 {
        slides_upto(groups, n - 1).push(slide_of(groups[n - 1], n as nat))
    } else {
        slides_upto(groups, n - 1)
    }
}

/// The slides that the text runs of a stream become.
pub open spec fn slides_of(entries: Seq<EntryView>) -> Seq<SlideView> {
    let groups = slide_groups(entries);
    slides_upto(groups, groups.len() as int)
}

/// The views of the given groups.
pub open spec fn group_views(groups: Seq<Vec<TextEntry>>) -> Seq<Seq<EntryView>> {
    Seq::new(groups.len(), |i: int| entry_views(groups[i]@))
}

impl PptParser {
    /// The entries in groups of neighbours, by hints or by titles.
    fn group_entries(&self, entries: &Vec<TextEntry>, by_title: bool) -> (groups: Vec<
        Vec<TextEntry>,
    >)
        ensures
            group_views(groups@) == groups_of(entry_views(entries@), by_title),
    {
        let ghost views = entry_views(entries@);
        let mut closed: Vec<Vec<TextEntry>> = Vec::new();
        let mut open: Vec<TextEntry> = Vec::new();
        let mut i: usize = 0;
        proof {
            assert(group_views(closed@) =~= Seq::empty());
            assert(entry_views(open@) =~= Seq::empty());
        }
        while i < entries.len()
            invariant
                i <= entries.len(),
                views == entry_views(entries@),
                (Grouping { closed: group_views(closed@), open: entry_views(open@) }) == grouped(
                    views,
                    i as int,
                    by_title,
                ),
            decreases entries.len() - i,
        {
            let entry = entries[i].copy();
            proof {
                assert(views[i as int] == entry@);
                if open.len() > 0 {
                    assert(entry_views(open@).last() == open@[open.len() - 1]@);
                }
            }
            let begins = open.len() > 0 && if by_title {
                entry.text_type.is_title()
            } else {
                entry.slide_hint != open[open.len() - 1].slide_hint
            };
            if begins {
                let ghost closed_before = group_views(closed@);
                let ghost open_before = entry_views(open@);
                closed.push(open);
                open = Vec::new();
                open.push(entry);
                proof {
                    assert(group_views(closed@) =~= closed_before.push(open_before));
                    assert(entry_views(open@) =~= seq![entry@]);
                }
            } else {
                let ghost open_before = entry_views(open@);
                open.push(entry);
                proof {
                    assert(entry_views(open@) =~= open_before.push(entry@));
                }
            }
            i += 1;
        }
        if open.len() > 0 {
            let ghost closed_before = group_views(closed@);
            let ghost open_before = entry_views(open@);
            closed.push(open);
            proof {
                assert(group_views(closed@) =~= closed_before.push(open_before));
            }
        }
        closed
    }

    /// The entries in groups, each title but one at the very beginning starting a group.
    pub fn split_by_titles(&self, entries: &Vec<TextEntry>) -> (groups: Vec<Vec<TextEntry>>)
        ensures
            group_views(groups@) == groups_of(entry_views(entries@), true),
    {
        self.group_entries(entries, true)
    }

    /// Adds to the slide the texts of those of the entries that are titles, or of those
    /// that are not.
    fn add_lines(&self, slide: &mut ExtractedSlide, sorted: &Vec<TextEntry>, titles: bool)
        ensures
            final(slide).number == old(slide).number,
            final(slide).notes == old(slide).notes,
            final(slide)@.lines == old(slide)@.lines + plain_lines(
                texts_where(entry_views(sorted@), sorted@.len() as int, titles),
            ),
    {
        let ghost views = entry_views(sorted@);
        let mut i: usize = 0;
        proof {
            assert(old(slide)@.lines + plain_lines(texts_where(views, 0, titles)) =~= old(
                slide,
            )@.lines);
        }
        while i < sorted.len()
            invariant
                i <= sorted.len(),
                views == entry_views(sorted@),
                slide.number == old(slide).number,
                slide.notes == old(slide).notes,
                slide@.lines == old(slide)@.lines + plain_lines(
                    texts_where(views, i as int, titles),
                ),
            decreases sorted.len() - i,
        {
            let entry = &sorted[i];
            proof {
                assert(views[i as int] == entry@);
            }
            if entry.text_type.is_title() == titles {
                let ghost before = texts_where(views, i as int, titles);
                slide.add_line(entry.text.as_str());
                proof {
                    assert(plain_lines(before.push(entry.text@)) =~= plain_lines(before).push(
                        SlideTextView { text: entry.text@, y_position: None, x_position: None },
                    ));
                    assert((old(slide)@.lines + plain_lines(before)).push(
                        SlideTextView { text: entry.text@, y_position: None, x_position: None },
                    ) =~= old(slide)@.lines + plain_lines(before.push(entry.text@)));
                }
            }
            i += 1;
        }
    }

    /// The slide that a group becomes.
    fn slide_from_group(&self, group: &Vec<TextEntry>, number: usize) -> (slide: ExtractedSlide)
        ensures
            slide@ == slide_of(entry_views(group@), number as nat),
            slide.lines@.len() == group_lines(entry_views(group@)).len(),
    {
        let mut sorted: Vec<TextEntry> = Vec::new();
        let mut i: usize = 0;
        while i < group.len()
            invariant
                i <= group.len(),
                sorted@ == group@.take(i as int),
            decreases group.len() - i,
        {
            sorted.push(group[i].copy());
            i += 1;
        }
        proof {
            assert(group@.take(group.len() as int) =~= group@);
        }
        sort_stably(&mut sorted);
        proof {
            lemma_sort_through(
                group@,
                |e: TextEntry| e@,
                rank_order::<TextEntry>(),
                by_position(),
            );
            assert(entry_views(sorted@) == stably_sorted_by(entry_views(group@), by_position()));
        }
        let mut slide = ExtractedSlide::new(number);
        self.add_lines(&mut slide, &sorted, true);
        self.add_lines(&mut slide, &sorted, false);
        proof {
            let views = entry_views(sorted@);
            let n = sorted@.len() as int;
            assert(views.len() == n);
            assert(slide@.lines =~= plain_lines(
                texts_where(views, n, true) + texts_where(views, n, false),
            ));
        }
        slide
    }

    /// Puts the text runs of a stream together into slides.
    pub fn organize_into_slides(&self, entries: Vec<TextEntry>) -> (slides: Vec<ExtractedSlide>)
        ensures
            slide_views(slides@) == slides_of(entry_views(entries@)),
    {
        let mut groups = self.group_entries(&entries, false);
        if groups.len() == 1 && groups[0].len() > 1 {
            proof {
                assert(group_views(groups@)[0] == entry_views(groups@[0]@));
            }
            groups = self.split_by_titles(&entries);
        } else {
            proof {
                if groups.len() == 1 {
                    assert(group_views(groups@)[0] == entry_views(groups@[0]@));
                }
            }
        }
        let ghost views = group_views(groups@);
        let mut slides: Vec<ExtractedSlide> = Vec::new();
        let mut i: usize = 0;
        proof {
            assert(slide_views(slides@) =~= Seq::empty());
        }
        while i < groups.len()
            invariant
                i <= groups.len(),
                views == group_views(groups@),
                slide_views(slides@) == slides_upto(views, i as int),
            decreases groups.len() - i,
        {
            let slide = self.slide_from_group(&groups[i], i + 1);
            proof {
                assert(views[i as int] == entry_views(groups@[i as int]@));
            }
            if slide.lines.len() > 0 {
                let ghost before = slide_views(slides@);
                slides.push(slide);
                proof {
                    assert(slide_views(slides@) =~= before.push(slide@));
                }
            }
            i += 1;
        }
        slides
    }
}

} // verus!
