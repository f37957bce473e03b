//! The title of a song among the texts of its first slide.
//!
//! A file that holds the lyrics of a song is most often named after the song. The name is
//! taken from the file's name, and a text of the first slide that is close enough to it is
//! the title.

use vstd::prelude::*;
use crate::normalize::{presentation_lines, normalized, TextNormalizer};
use crate::pattern::{compile, label_pattern, regex_replace_all, replace_all};
use crate::text::{
    append_chars, chars_of, contains, contains_text, join, joined, occurs_at, same_chars,
    slice_of, string_of, trim, trimmed, unicode_alphanumeric, unicode_lowercase,
    unicode_whitespace,
};
use crate::types::{slide_views, view_texts, ExtractedSlide, SlideView};

verus! {

/// Where the part of a name behind its last dot begins among the first `n` characters, or
/// zero where no dot stands there.
pub open spec fn extension_start(s: Seq<char>, n: int) -> int
    decreases n,
{
    if 0 < n <= s.len() && s[n - 1] != '.' {
        extension_start(s, n - 1)
    } else {
        n
    }
}

/// The name of a file without its extension: what stands before the last dot, or the
/// whole name where it has no dot.
pub open spec fn file_stem(name: Seq<char>) -> Seq<char> {
    let start = extension_start(name, name.len() as int);
    if start > 0 {
        name.take(start - 1)
    } else {
        name
    }
}

/// The letters, digits and whitespace among the first `n` characters of the text.
pub open spec fn comparison_kept_upto(s: Seq<char>, n: int) -> Seq<char>
    decreases n,
{
    if n <= 0 {
        Seq::empty()
    } else if unicode_alphanumeric(s[n - 1]) || unicode_whitespace(s[n - 1]) {
        comparison_kept_upto(s, n - 1).push(s[n - 1])
    } else {
        comparison_kept_upto(s, n - 1)
    }
}

/// The words found among some characters, and the word that is still open.
pub struct WordScan {
    pub closed: Seq<Seq<char>>,
    pub open: Seq<char>,
}

/// The words among the first `n` characters of the text.
pub open spec fn words_scanned(s: Seq<char>, n: int) -> WordScan
    decreases n,
{
    if n <= 0 {
        WordScan { closed: Seq::empty(), open: Seq::empty() }
    } else {
        let before = words_scanned(s, n - 1);
        if !unicode_whitespace(s[n - 1]) {
            WordScan { closed: before.closed, open: before.open.push(s[n - 1]) }
        } else if before.open.len() > 0 {
            WordScan { closed: before.closed.push(before.open), open: Seq::empty() }
        } else {
            before
        }
    }
}

/// The words of a text: its greatest runs of characters that are not whitespace.
pub open spec fn words_of(s: Seq<char>) -> Seq<Seq<char>> {
    let scan = words_scanned(s, s.len() as int);
    if scan.open.len() > 0 {
        scan.closed.push(scan.open)
    } else {
        scan.closed
    }
}

/// The form in which texts are compared: letters, digits and whitespace only, in lower
/// case, the words one space apart.
pub open spec fn comparison_form(text: Seq<char>) -> Seq<char> {
    joined(
        words_of(unicode_lowercase(comparison_kept_upto(text, text.len() as int))),
        " "@,
    )
}

/// The name of the song that a file is named after, in the form in which texts are
/// compared: the file's name without its extension and without a label at its end.
pub open spec fn song_name(filename: Seq<char>) -> Seq<char> {
    comparison_form(regex_replace_all(label_pattern(), file_stem(filename), ""@))
}

/// How much two texts have in common, as a fraction: one where they are the same; the
/// shorter length by the longer where one stands in the other; else the number of words
/// that both have by the number of words that either has, and zero where one of them has
/// no word.
pub open spec fn similarity(a: Seq<char>, b: Seq<char>) -> (nat, nat) {
    if a == b {
        (1, 1)
    } else if contains_text(a, b) || contains_text(b, a) {
        if a.len() <= b.len() {
            (a.len(), b.len())
        } else {
            (b.len(), a.len())
        }
    } else {
        let words_a = words_of(a).to_set();
        let words_b = words_of(b).to_set();
        if words_a.len() == 0 || words_b.len() == 0 {
            (0, 1)
        } else {
            (words_a.intersect(words_b).len(), words_a.union(words_b).len())
        }
    }
}

/// Whether a fraction is seven tenths or more.
pub open spec fn is_close(fraction: (nat, nat)) -> bool {
    10 * fraction.0 >= 7 * fraction.1
}

/// Whether a text is the title of the song of the given name: its comparison form has
/// two characters at least and sixty at most and is close to the name.
pub open spec fn is_title_like(text: Seq<char>, song: Seq<char>) -> bool {
    let form = comparison_form(text);
    2 <= form.len() <= 60 && is_close(similarity(form, song))
}

/// The index of the first text at or after `from` that, trimmed, is the title of the
/// song.
pub open spec fn title_index(texts: Seq<Seq<char>>, song: Seq<char>, from: int) -> Option<int>
    decreases texts.len() - from,
{
    if from < 0 || from >= texts.len() {
        None
    } else if is_title_like(trimmed(texts[from]), song) {
        Some(from)
    } else {
        title_index(texts, song, from + 1)
    }
}

/// The texts of the first slide, or none where there is no slide.
pub open spec fn first_texts(slides: Seq<SlideView>) -> Seq<Seq<char>> {
    if slides.len() > 0 {
        view_texts(slides[0])
    } else {
        Seq::empty()
    }
}

/// The title of the song among the texts of the first slide, normalized, and the lines of
/// all the other texts.
pub open spec fn titled_lines(
    slides: Seq<SlideView>,
    filename: Seq<char>,
    preserve_line_breaks: bool,
) -> (Option<Seq<char>>, Seq<Seq<char>>) {
    match title_index(first_texts(slides), song_name(filename), 0) {
        Some(at) => (
            Some(normalized(trimmed(first_texts(slides)[at]), preserve_line_breaks)),
            presentation_lines(slides, Some(at as usize), preserve_line_breaks),
        ),
        None => (None, presentation_lines(slides, None, preserve_line_breaks)),
    }
}

/// A fraction of counts.
#[derive(Debug, Clone, Copy, PartialEq, Eq, Structural)]
pub struct Similarity {
    /// What the two texts have in common.
    pub matching: usize,
    /// What they could have in common; never zero.
    pub total: usize,
}

impl Similarity {
    /// Whether the fraction is seven tenths or more.
    pub fn is_close(&self) -> (r: bool)
        ensures
            r == is_close((self.matching as nat, self.total as nat)),
    {
        10 * (self.matching as u128) >= 7 * (self.total as u128)
    }
}

/// The words of a text.
pub fn split_words(v: &Vec<char>) -> (r: Vec<Vec<char>>)
    ensures
        r.deep_view() == words_of(v@),
{
    let mut closed: Vec<Vec<char>> = Vec::new();
    let mut open: Vec<char> = Vec::new();
    let mut i: usize = 0;
    proof {
        assert(closed.deep_view() =~= Seq::empty());
    }
    while i < v.len()
        invariant
            i <= v.len(),
            (WordScan { closed: closed.deep_view(), open: open@ }) == words_scanned(v@, i as int),
        decreases v.len() - i,
    {
        let ghost before = closed.deep_view();
        let ghost word = open@;
        if !v[i].is_whitespace() {
            open.push(v[i]);
        } else if open.len() > 0 {
            closed.push(open);
            open = Vec::new();
            proof {
                assert(closed.deep_view() =~~= before.push(word));
            }
        }
        i += 1;
    }
    if open.len() > 0 {
        let ghost before = closed.deep_view();
        let ghost word = open@;
        closed.push(open);
        proof {
            assert(closed.deep_view() =~~= before.push(word));
        }
    }
    closed
}

/// The form in which texts are compared.
pub fn normalize_for_comparison(text: &str) -> (r: String)
    ensures
        r@ == comparison_form(text@),
{
    let v = chars_of(text);
    let mut kept: Vec<char> = Vec::new();
    let mut i: usize = 0;
    while i < v.len()
        invariant
            i <= v.len(),
            kept@ == comparison_kept_upto(v@, i as int),
        decreases v.len() - i,
    {
        if v[i].is_alphanumeric() || v[i].is_whitespace() {
            kept.push(v[i]);
        }
        i += 1;
    }
    let lower = string_of(&kept).to_lowercase();
    let words = split_words(&chars_of(lower.as_str()));
    string_of(&join(&words, &chars_of(" ")))
}

/// The name of the song that a file is named after, in the form in which texts are
/// compared.
pub fn extract_song_name_from_filename(filename: &str) -> (r: String)
    ensures
        r@ == song_name(filename@),
{
    let v = chars_of(filename);
    let mut start: usize = v.len();
    while start > 0 && v[start - 1] != '.'
        invariant
            start <= v.len(),
            extension_start(v@, v@.len() as int) == extension_start(v@, start as int),
        decreases start,
    {
        start -= 1;
    }
    let stem = if start > 0 {
        proof {
            assert(v@.subrange(0, start - 1) =~= v@.take(start - 1));
        }
        slice_of(&v, 0, start - 1)
    } else {
        v
    };
    let labels = compile(
        "(?i)\\s*[-_]?\\s*(lyrics?|slides?|slideshow|presentation|ppt|pptx|worship|song)\\s*$",
    );
    let cleaned = replace_all(&labels, string_of(&stem).as_str(), "");
    normalize_for_comparison(cleaned.as_str())
}

/// Whether the word stands in the list.
fn has_word(list: &Vec<Vec<char>>, word: &Vec<char>) -> (r: bool)
    ensures
        r == list.deep_view().contains(word@),
{
    let mut i: usize = 0;
    while i < list.len()
        invariant
            i <= list.len(),
            forall|j: int| 0 <= j < i ==> list.deep_view()[j] != word@,
        decreases list.len() - i,
    {
        proof {
            assert(list.deep_view()[i as int] =~= list@[i as int]@);
        }
        if same_chars(&list[i], word) {
            assert(list.deep_view()[i as int] == word@);
            return true;
        }
        i += 1;
    }
    false
}

/// Adds to `list`, which holds no word twice, those of the words that it does not hold.
fn add_new_words(list: &mut Vec<Vec<char>>, words: &Vec<Vec<char>>)
    requires
        old(list).deep_view().no_duplicates(),
    ensures
        final(list).deep_view().no_duplicates(),
        final(list).deep_view().to_set() == old(list).deep_view().to_set().union(
            words.deep_view().to_set(),
        ),
{

    let mut i: usize = 0;
    proof {
        assert(words.deep_view().take(0).to_set() =~= Set::<Seq<char>>::empty());
        assert(old(list).deep_view().to_set().union(Set::<Seq<char>>::empty()) =~= old(
            list,
        ).deep_view().to_set());
    }
    while i < words.len()
        invariant
            i <= words.len(),
            list.deep_view().no_duplicates(),
            list.deep_view().to_set() == old(list).deep_view().to_set().union(
                words.deep_view().take(i as int).to_set(),
            ),
        decreases words.len() - i,
    {
        let ghost before = list.deep_view();
        let ghost word = words@[i as int]@;
        proof {
            assert(words.deep_view()[i as int] =~= word);
            assert(words.deep_view().take(i + 1) =~= words.deep_view().take(i as int).push(word));
        }
        if !has_word(list, &words[i]) {
            let mut copy: Vec<char> = Vec::new();
            append_chars(&mut copy, &words[i]);
            assert(copy@ =~= word);
            list.push(copy);
            proof {
                assert(list.deep_view() =~~= before.push(word));
                assert(before.push(word).no_duplicates());
                before.lemma_push_to_set_commute(word);
                words.deep_view().take(i as int).lemma_push_to_set_commute(word);
                assert(list.deep_view().to_set() =~= old(list).deep_view().to_set().union(
                    words.deep_view().take(i + 1).to_set(),
                ));
            }
        } else {
            proof {
                assert(before.to_set().contains(word));
                words.deep_view().take(i as int).lemma_push_to_set_commute(word);
                assert(list.deep_view().to_set() =~= old(list).deep_view().to_set().union(
                    words.deep_view().take(i + 1).to_set(),
                ));
            }
        }
        i += 1;
    }
    proof {
        assert(words.deep_view().take(words.len() as int) =~= words.deep_view());
    }
}

/// The number of the words of `list`, which holds no word twice, that `other` holds too.
fn count_shared(list: &Vec<Vec<char>>, other: &Vec<Vec<char>>) -> (r: usize)
    requires
        list.deep_view().no_duplicates(),
    ensures
        r == list.deep_view().to_set().intersect(other.deep_view().to_set()).len(),
{
    broadcast use vstd::seq_lib::seq_to_set_is_finite;

    let ghost theirs = other.deep_view().to_set();
    let mut count: usize = 0;
    let mut i: usize = 0;
    proof {
        assert(list.deep_view().take(0).to_set().intersect(theirs) =~= Set::<Seq<char>>::empty());
    }
    while i < list.len()
        invariant
            i <= list.len(),
            count <= i,
            theirs == other.deep_view().to_set(),
            list.deep_view().no_duplicates(),
            count == list.deep_view().take(i as int).to_set().intersect(theirs).len(),
        decreases list.len() - i,
    {
        let ghost word = list@[i as int]@;
        let ghost seen = list.deep_view().take(i as int);
        proof {
            assert(list.deep_view()[i as int] =~= word);
            assert(list.deep_view().take(i + 1) =~= seen.push(word));
            assert(!seen.contains(word)) by {
                if seen.contains(word) {
                    let j = choose|j: int| 0 <= j < seen.len() && seen[j] == word;
                    assert(list.deep_view()[j] == list.deep_view()[i as int]);
                }
            }
            assert(seen.to_set().intersect(theirs).finite()) by {
                vstd::set_lib::lemma_len_intersect(seen.to_set(), theirs);
                vstd::set_lib::lemma_len_subset(seen.to_set().intersect(theirs), seen.to_set());
            }
        }
        proof {
            seen.lemma_push_to_set_commute(word);
        }
        if has_word(other, &list[i]) {
            proof {
                assert(theirs.contains(word));
                assert(seen.push(word).to_set().intersect(theirs) =~= seen.to_set().intersect(
                    theirs,
                ).insert(word));
            }
            count += 1;
        } else {
            proof {
                assert(!theirs.contains(word));
                assert(seen.push(word).to_set().intersect(theirs) =~= seen.to_set().intersect(
                    theirs,
                ));
            }
        }
        i += 1;
    }
    proof {
        assert(list.deep_view().take(list.len() as int) =~= list.deep_view());
    }
    count
}

/// How much two texts have in common.
pub fn calculate_similarity(a: &str, b: &str) -> (r: Similarity)
    ensures
        (r.matching as nat, r.total as nat) == similarity(a@, b@),
{
    broadcast use vstd::seq_lib::seq_to_set_is_finite;

    let chars_a = chars_of(a);
    let chars_b = chars_of(b);
    if same_chars(&chars_a, &chars_b) {
        return Similarity { matching: 1, total: 1 };
    }
    if contains(&chars_a, &chars_b) || contains(&chars_b, &chars_a) {
        return if chars_a.len() <= chars_b.len() {
            Similarity { matching: chars_a.len(), total: chars_b.len() }
        } else {
            Similarity { matching: chars_b.len(), total: chars_a.len() }
        };
    }
    let words_a = split_words(&chars_a);
    let words_b = split_words(&chars_b);
    let ghost set_a = words_a.deep_view().to_set();
    let ghost set_b = words_b.deep_view().to_set();
    if words_a.len() == 0 || words_b.len() == 0 {
        proof {
            if words_a.len() == 0 {
                assert(set_a =~= Set::<Seq<char>>::empty());
            } else {
                assert(set_b =~= Set::<Seq<char>>::empty());
            }
        }
        return Similarity { matching: 0, total: 1 };
    }
    proof {
        assert(set_a.contains(words_a.deep_view()[0]));
        assert(set_b.contains(words_b.deep_view()[0]));
    }
    let mut distinct_a: Vec<Vec<char>> = Vec::new();
    proof {
        assert(distinct_a.deep_view() =~= Seq::empty());
        assert(distinct_a.deep_view().to_set() =~= Set::<Seq<char>>::empty());
    }
    add_new_words(&mut distinct_a, &words_a);
    proof {
        assert(distinct_a.deep_view().to_set() =~= set_a);
    }
    let matching = count_shared(&distinct_a, &words_b);
    let mut either = distinct_a;
    add_new_words(&mut either, &words_b);
    proof {
        either.deep_view().unique_seq_to_set();
    }
    Similarity { matching, total: either.len() }
}

/// Whether a text is likely the title of the song of the given name.
pub fn is_likely_title(text: &str, normalized_filename: &str) -> (r: bool)
    ensures
        r == is_title_like(text@, normalized_filename@),
{
    let form = normalize_for_comparison(text);
    let length = chars_of(form.as_str()).len();
    if length < 2 {
        return false;
    }
    if length > 60 {
        return false;
    }
    calculate_similarity(form.as_str(), normalized_filename).is_close()
}

/// A text is wholly like itself.
pub proof fn lemma_same_texts_are_alike(a: Seq<char>)
    ensures
        similarity(a, a) == (1nat, 1nat),
        is_close(similarity(a, a)),
{
}

/// Two texts that share no word have nothing in common, unless one stands in the other.
pub proof fn lemma_disjoint_words_share_nothing(a: Seq<char>, b: Seq<char>)
    requires
        !contains_text(a, b),
        !contains_text(b, a),
        words_of(a).to_set().disjoint(words_of(b).to_set()),
    ensures
        similarity(a, b).0 == 0,
        similarity(a, b).1 > 0,
        !is_close(similarity(a, b)),
{
    broadcast use vstd::seq_lib::seq_to_set_is_finite;

    let words_a = words_of(a).to_set();
    let words_b = words_of(b).to_set();
    assert(a != b) by {
        if a == b {
            assert(a.subrange(0, a.len() as int) =~= a);
            assert(occurs_at(a, b, 0));
        }
    }
    assert(words_a.intersect(words_b) =~= Set::<Seq<char>>::empty());
    if words_a.len() != 0 && words_b.len() != 0 {
        vstd::set_lib::lemma_len_union_ind(words_a, words_b);
    }
}

/// The order of the words does not count: two texts of the same words are wholly alike,
/// unless one stands in the other and is shorter.
pub proof fn lemma_word_order_does_not_count(a: Seq<char>, b: Seq<char>)
    requires
        !contains_text(a, b),
        !contains_text(b, a),
        words_of(a).to_set() == words_of(b).to_set(),
        words_of(a).len() > 0,
    ensures
        similarity(a, b).0 == similarity(a, b).1,
        similarity(a, b).1 > 0,
        is_close(similarity(a, b)),
{
    broadcast use vstd::seq_lib::seq_to_set_is_finite;

    let words = words_of(a).to_set();
    assert(a != b) by {
        if a == b {
            assert(a.subrange(0, a.len() as int) =~= a);
            assert(occurs_at(a, b, 0));
        }
    }
    assert(words.contains(words_of(a)[0]));
    assert(words.intersect(words) =~= words);
    assert(words.union(words) =~= words);
}

impl TextNormalizer {
    /// The title of the song and the lines of the slides.
    ///
    /// The title is the first text of the first slide that is close to the song's name,
    /// which is taken from the name of the file; it is given normalized. The lines are
    /// those of all the other texts, slide after slide.
    pub fn normalize_presentation_with_title(
        &self,
        slides: &[ExtractedSlide],
        filename: &str,
    ) -> (r: (Option<String>, Vec<String>))
        ensures
            (match r.0 {
                Some(title) => Some(title@),
                None => None,
            }, r.1.deep_view()) == titled_lines(
                slide_views(slides@),
                filename@,
                self.preserves_line_breaks(),
            ),
    {
        let song = extract_song_name_from_filename(filename);
        let mut detected_title: Option<String> = None;
        let mut title_at: Option<usize> = None;
        if slides.len() > 0 {
            let first_slide = &slides[0];
            let ghost texts = view_texts(first_slide@);
            proof {
                assert(slide_views(slides@)[0] == first_slide@);
                assert(texts.len() == first_slide.lines.len());
            }
            let mut i: usize = 0;
            while i < first_slide.lines.len()
                invariant_except_break
                    title_index(texts, song@, 0) == title_index(texts, song@, i as int),
                    title_at is None,
                    detected_title is None,
                invariant
                    i <= first_slide.lines.len(),
                    texts == view_texts(first_slide@),
                    texts.len() == first_slide.lines.len(),
                ensures
                    match title_index(texts, song@, 0) {
                        Some(at) => title_at == Some(at as usize) && 0 <= at < texts.len() && (
                        detected_title matches Some(title) && title@ == normalized(
                            trimmed(texts[at]),
                            self.preserves_line_breaks(),
                        )),
                        None => title_at is None && detected_title is None,
                    },
                decreases first_slide.lines.len() - i,
            {
                let raw_text = string_of(&trim(&chars_of(first_slide.lines[i].text.as_str())));
                proof {
                    assert(first_slide@.lines[i as int] == first_slide.lines@[i as int]@);
                    assert(texts[i as int] == first_slide.lines@[i as int].text@);
                }
                if is_likely_title(raw_text.as_str(), song.as_str()) {
                    detected_title = Some(self.normalize_line(raw_text.as_str()));
                    title_at = Some(i);
                    break ;
                }
                i += 1;
            }
        }
        let all_lines = self.lines_without(slides, title_at);
        (detected_title, all_lines)
    }
}

} // verus!
