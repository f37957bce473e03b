use ppt_extract::normalize::TextNormalizer;
use ppt_extract::title::{
    calculate_similarity, extract_song_name_from_filename, is_likely_title,
    normalize_for_comparison,
};
use ppt_extract::types::{ExtractedSlide, SlideText};

fn ratio(a: &str, b: &str) -> f64 {
    let similarity = calculate_similarity(a, b);
    similarity.matching as f64 / similarity.total as f64
}

#[test]
fn test_remove_basic_punctuation() {
    let normalizer = TextNormalizer::new();

    assert_eq!(normalizer.normalize_line("Hello, world!"), "Hello world");
    assert_eq!(normalizer.normalize_line("What? Why!"), "What Why");
    assert_eq!(normalizer.normalize_line("One; two: three."), "One two three");
}

#[test]
fn test_preserve_apostrophes_in_words() {
    let normalizer = TextNormalizer::new();

    assert_eq!(normalizer.normalize_line("don't"), "don't");
    assert_eq!(normalizer.normalize_line("I'm here"), "I'm here");
    assert_eq!(normalizer.normalize_line("it's"), "it's");
    assert_eq!(normalizer.normalize_line("e'er we go"), "e'er we go");
}

#[test]
fn test_tis_at_start() {
    let normalizer = TextNormalizer::new();

    assert_eq!(normalizer.normalize_line("'Tis the season"), "Tis the season");
}

#[test]
fn test_remove_standalone_apostrophes() {
    let normalizer = TextNormalizer::new();

    assert_eq!(normalizer.normalize_line("' hello"), "hello");
    assert_eq!(normalizer.normalize_line("hello '"), "hello");
}

#[test]
fn test_remove_quotes_and_brackets() {
    let normalizer = TextNormalizer::new();

    assert_eq!(normalizer.normalize_line("\"Hello\""), "Hello");
    assert_eq!(normalizer.normalize_line("(Hello)"), "Hello");
    assert_eq!(normalizer.normalize_line("[Hello]"), "Hello");
    assert_eq!(normalizer.normalize_line("{Hello}"), "Hello");
    assert_eq!(normalizer.normalize_line("«Hello»"), "Hello");
}

#[test]
fn test_remove_dashes() {
    let normalizer = TextNormalizer::new();

    assert_eq!(normalizer.normalize_line("Hello—world"), "Helloworld");
    assert_eq!(normalizer.normalize_line("Hello–world"), "Helloworld");
    assert_eq!(normalizer.normalize_line("Hello-world"), "Helloworld");
}

#[test]
fn test_collapse_whitespace() {
    let normalizer = TextNormalizer::new();

    assert_eq!(normalizer.normalize_line("Hello    world"), "Hello world");
    assert_eq!(normalizer.normalize_line("  Hello  "), "Hello");
    assert_eq!(normalizer.normalize_line("\t\tHello\t\t"), "Hello");
}

#[test]
fn test_preserve_line_breaks() {
    let normalizer = TextNormalizer::new().with_preserve_line_breaks(true);

    assert_eq!(normalizer.normalize_line("Line one\nLine two"), "Line one\nLine two");
    assert_eq!(normalizer.normalize_line("Line one\r\nLine two"), "Line one\nLine two");
}

#[test]
fn test_normalize_to_lines() {
    let normalizer = TextNormalizer::new();

    let lines = normalizer.normalize_to_lines("Hello, world!\nHow are you?");
    assert_eq!(lines, vec!["Hello world", "How are you"]);
}

#[test]
fn test_normalize_to_lines_filters_empty() {
    let normalizer = TextNormalizer::new();

    let lines = normalizer.normalize_to_lines("Hello\n\n\nWorld");
    assert_eq!(lines, vec!["Hello", "World"]);
}

#[test]
fn test_unicode_apostrophes() {
    let normalizer = TextNormalizer::new();

    assert_eq!(normalizer.normalize_line("don't"), "don't");
}

#[test]
fn test_worship_lyrics_example() {
    let normalizer = TextNormalizer::new();

    let input = "Amazing grace! How sweet the sound,\nThat saved a wretch like me!";
    let expected = "Amazing grace How sweet the sound\nThat saved a wretch like me";
    assert_eq!(normalizer.normalize_line(input), expected);
}

#[test]
fn test_extract_song_name_from_filename() {
    assert_eq!(extract_song_name_from_filename("Amazing Grace.pptx"), "amazing grace");
    assert_eq!(extract_song_name_from_filename("Amazing Grace Lyrics.pptx"), "amazing grace");
    assert_eq!(
        extract_song_name_from_filename("How Great Thou Art - Slides.pptx"),
        "how great thou art"
    );
    assert_eq!(extract_song_name_from_filename("Holy Holy Holy"), "holy holy holy");
}

#[test]
fn test_normalize_for_comparison() {
    assert_eq!(normalize_for_comparison("Amazing Grace!"), "amazing grace");
    assert_eq!(normalize_for_comparison("  How  Great   Thou Art  "), "how great thou art");
    assert_eq!(normalize_for_comparison("It's Well"), "its well");
}

#[test]
fn test_calculate_similarity() {
    assert_eq!(ratio("amazing grace", "amazing grace"), 1.0);

    let sim = ratio("amazing grace", "amazing grace how sweet");
    assert!(sim > 0.5 && sim < 1.0);

    let sim = ratio("amazing grace", "grace amazing");
    assert_eq!(sim, 1.0);

    let sim = ratio("amazing grace", "amazing love");
    assert!(sim > 0.0 && sim < 1.0);

    let sim = ratio("amazing grace", "holy holy");
    assert_eq!(sim, 0.0);
}

#[test]
fn test_is_likely_title() {
    assert!(is_likely_title("Amazing Grace", "amazing grace"));
    assert!(is_likely_title("Amazing Grace!", "amazing grace"));
    assert!(is_likely_title("AMAZING GRACE", "amazing grace"));
    assert!(!is_likely_title("Holy Holy Holy", "amazing grace"));
    assert!(!is_likely_title(
        "Amazing grace how sweet the sound that saved a wretch like me I once was lost but now am found",
        "amazing grace"
    ));
    assert!(!is_likely_title("A", "amazing grace"));
}

#[test]
fn test_normalize_presentation_with_title_detects_title() {
    let normalizer = TextNormalizer::new();

    let mut slide1 = ExtractedSlide::new(1);
    slide1.lines.push(SlideText::new("Amazing Grace"));
    slide1.lines.push(SlideText::new("Verse 1"));

    let mut slide2 = ExtractedSlide::new(2);
    slide2.lines.push(SlideText::new("How sweet the sound"));
    slide2.lines.push(SlideText::new("That saved a wretch like me"));

    let slides = vec![slide1, slide2];

    let (title, lines) =
        normalizer.normalize_presentation_with_title(&slides, "Amazing Grace.pptx");

    assert_eq!(title, Some("Amazing Grace".to_string()));
    assert_eq!(
        lines,
        vec!["Verse 1", "How sweet the sound", "That saved a wretch like me"]
    );
}

#[test]
fn test_normalize_presentation_with_title_no_match() {
    let normalizer = TextNormalizer::new();

    let mut slide1 = ExtractedSlide::new(1);
    slide1.lines.push(SlideText::new("Verse 1"));
    slide1.lines.push(SlideText::new("Amazing grace how sweet the sound"));

    let slides = vec![slide1];

    let (title, lines) =
        normalizer.normalize_presentation_with_title(&slides, "Amazing Grace.pptx");

    assert_eq!(title, None);
    assert_eq!(lines, vec!["Verse 1", "Amazing grace how sweet the sound"]);
}

#[test]
fn test_normalize_presentation_with_title_filename_suffix() {
    let normalizer = TextNormalizer::new();

    let mut slide1 = ExtractedSlide::new(1);
    slide1.lines.push(SlideText::new("How Great Thou Art"));
    slide1.lines.push(SlideText::new("O Lord my God"));

    let slides = vec![slide1];

    let (title, lines) =
        normalizer.normalize_presentation_with_title(&slides, "How Great Thou Art - Lyrics.pptx");

    assert_eq!(title, Some("How Great Thou Art".to_string()));
    assert_eq!(lines, vec!["O Lord my God"]);
}

#[test]
fn curly_apostrophe_between_letters_becomes_plain() {
    let normalizer = TextNormalizer::new();

    assert_eq!(normalizer.normalize_line("don\u{2019}t"), "don't");
    assert_eq!(normalizer.normalize_line("don\u{2018}t"), "don't");
    assert_eq!(normalizer.normalize_line("don`t"), "don't");
    assert_eq!(normalizer.normalize_line("\u{2018}quoted\u{2019}"), "quoted");
    assert_eq!(normalizer.normalize_line("rock 'n' roll"), "rock n roll");
    assert_eq!(normalizer.normalize_line("3'4"), "34");
}

#[test]
fn typographic_quotes_and_symbols_are_removed() {
    let normalizer = TextNormalizer::new();

    assert_eq!(normalizer.normalize_line("\u{201C}Hello\u{201D}"), "Hello");
    assert_eq!(normalizer.normalize_line("\u{201E}Hallo\u{201A}"), "Hallo");
    assert_eq!(normalizer.normalize_line("\u{2039}a\u{203A} <b>"), "a b");
    assert_eq!(normalizer.normalize_line("a/b\\c|d"), "abcd");
    assert_eq!(normalizer.normalize_line("@#$%^&*_+=~"), "");
}

#[test]
fn punctuation_and_whitespace_examples() {
    let normalizer = TextNormalizer::new();

    assert_eq!(normalizer.normalize_line("Hello,   world!"), "Hello world");
    assert_eq!(normalizer.normalize_line("Hello\u{2014}world"), "Helloworld");
    assert_eq!(normalizer.normalize_line("a \t \t b"), "a b");
    assert_eq!(normalizer.normalize_line("a - b"), "a b");
}

#[test]
fn line_endings_are_unified() {
    let normalizer = TextNormalizer::new();

    assert_eq!(normalizer.normalize_line("a\rb"), "a\nb");
    assert_eq!(normalizer.normalize_line("a\r\r\nb"), "a\n\nb");
    assert_eq!(normalizer.normalize_line("a\r\n"), "a");
    assert_eq!(normalizer.normalize_line("  a  \n  b  "), "a\nb");
    assert_eq!(normalizer.normalize_line(""), "");
    assert_eq!(normalizer.normalize_line("\n"), "");
    assert_eq!(normalizer.normalize_line("a\n\n"), "a\n");
}

#[test]
fn without_line_breaks_the_text_is_cleaned_as_one_line() {
    let normalizer = TextNormalizer::new().with_preserve_line_breaks(false);

    assert_eq!(normalizer.normalize_line("  Hello,   world!  "), "Hello world");
    assert_eq!(normalizer.normalize_line("a  \n  b"), "a \n b");
    assert_eq!(normalizer.normalize_line("\n a \n"), "a");
    let lines = normalizer.normalize_to_lines("a  \n  b");
    assert_eq!(lines, vec!["a", "b"]);
}

#[test]
fn default_normalizer_does_not_keep_line_breaks() {
    let normalizer = TextNormalizer::default();
    assert_eq!(normalizer.normalize_line(" a \n"), "a");
    let kept = TextNormalizer::new();
    assert_eq!(kept.normalize_line(" a \n"), "a");
    assert_eq!(kept.normalize_line(" a \n b"), "a\nb");
    assert_eq!(normalizer.normalize_line(" a \n b"), "a \n b");
}

#[test]
fn a_cloned_normalizer_normalizes_alike() {
    let normalizer = TextNormalizer::new().with_preserve_line_breaks(false);
    let copy = normalizer.clone();
    assert_eq!(copy.normalize_line("a \t  b\n"), "a b");
    assert_eq!(copy.normalize_line("a \t  b\n"), normalizer.normalize_line("a \t  b\n"));
}

#[test]
fn normalizing_twice_changes_nothing_more() {
    let normalizer = TextNormalizer::new();
    let plain = TextNormalizer::new().with_preserve_line_breaks(false);
    let samples = [
        "Hello,   world!",
        "don't stop",
        "'Tis the season\r\nto be jolly",
        "  spaced \t out  \n  second   line ",
        "\u{201C}It\u{2019}s\u{201D} well",
        "a'.b c''d",
        "",
    ];
    for sample in samples {
        let once = normalizer.normalize_line(sample);
        assert_eq!(normalizer.normalize_line(&once), once);
        let once = plain.normalize_line(sample);
        assert_eq!(plain.normalize_line(&once), once);
    }
}

#[test]
fn normalize_presentation_takes_all_lines_in_order() {
    let normalizer = TextNormalizer::new();

    let mut slide1 = ExtractedSlide::new(1);
    slide1.add_line("First, line!\nSecond line");
    let mut slide2 = ExtractedSlide::new(2);
    slide2.add_line("   ");
    slide2.add_line("Third");
    let slides = vec![slide1, slide2];

    let lines = normalizer.normalize_presentation(&slides);
    assert_eq!(lines, vec!["First line", "Second line", "Third"]);
    assert!(normalizer.normalize_presentation(&[]).is_empty());
}

#[test]
fn song_name_drops_extension_and_label() {
    assert_eq!(extract_song_name_from_filename("Amazing Grace Lyrics.pptx"), "amazing grace");
    assert_eq!(extract_song_name_from_filename("Be Thou My Vision_slides.ppt"), "be thou my vision");
    assert_eq!(extract_song_name_from_filename("Holy.Holy.pptx"), "holyholy");
    assert_eq!(extract_song_name_from_filename("Joy SONG.ppt"), "joy");
    assert_eq!(extract_song_name_from_filename(".pptx"), "");
    assert_eq!(extract_song_name_from_filename("Song of Songs.pptx"), "song of songs");
}

#[test]
fn title_is_found_and_verse_is_not() {
    let song = extract_song_name_from_filename("Amazing Grace Lyrics.pptx");
    assert_eq!(song, "amazing grace");
    assert!(is_likely_title("Amazing Grace", &song));
    assert!(!is_likely_title("Verse 1", &song));
    assert_eq!(ratio("verse 1", &song), 0.0);
    assert_eq!(ratio(&normalize_for_comparison("Amazing Grace"), &song), 1.0);
}

#[test]
fn only_the_first_matching_text_is_the_title() {
    let normalizer = TextNormalizer::new();

    let mut slide1 = ExtractedSlide::new(1);
    slide1.add_line("Verse 1");
    slide1.add_line("  Amazing Grace!  ");
    slide1.add_line("Amazing Grace");
    let mut slide2 = ExtractedSlide::new(2);
    slide2.add_line("Amazing Grace");
    let slides = vec![slide1, slide2];

    let (title, lines) = normalizer.normalize_presentation_with_title(&slides, "amazing grace.ppt");
    assert_eq!(title, Some("Amazing Grace".to_string()));
    assert_eq!(lines, vec!["Verse 1", "Amazing Grace", "Amazing Grace"]);

    let (title, lines) = normalizer.normalize_presentation_with_title(&[], "amazing grace.ppt");
    assert_eq!(title, None);
    assert!(lines.is_empty());
}

#[test]
fn similarity_by_sameness_containment_and_words() {
    let same = calculate_similarity("", "");
    assert_eq!((same.matching, same.total), (1, 1));
    let contained = calculate_similarity("grace", "amazing grace");
    assert_eq!((contained.matching, contained.total), (5, 13));
    let contained = calculate_similarity("amazing grace", "grace");
    assert_eq!((contained.matching, contained.total), (5, 13));
    let empty = calculate_similarity("", "grace");
    assert_eq!((empty.matching, empty.total), (0, 5));
    let words = calculate_similarity("a b c a", "c d");
    assert_eq!((words.matching, words.total), (1, 4));
    let disjoint = calculate_similarity("ab", "cd ef");
    assert_eq!((disjoint.matching, disjoint.total), (0, 3));
    let blank = calculate_similarity("  ", "\t");
    assert_eq!((blank.matching, blank.total), (0, 1));
    assert!(calculate_similarity("one two three four five six seven", "one two three four five six seven x y z").is_close());
    let seven_of_ten = calculate_similarity("a b c d e f g h", "a b c d e f g i j");
    assert_eq!((seven_of_ten.matching, seven_of_ten.total), (7, 10));
    assert!(seven_of_ten.is_close());
    let six_of_ten = calculate_similarity("a b c d e f g h", "a b c d e f i j");
    assert_eq!((six_of_ten.matching, six_of_ten.total), (6, 10));
    assert!(!six_of_ten.is_close());
}

#[test]
fn title_length_is_counted_in_characters() {
    let sixty = "a".repeat(60);
    let sixty_one = "a".repeat(61);
    assert!(is_likely_title(&sixty, &sixty));
    assert!(!is_likely_title(&sixty_one, &sixty_one));
    assert!(is_likely_title("ab", "ab"));
    assert!(!is_likely_title("a", "a"));
    assert!(is_likely_title("\u{00E9}\u{00E9}", "\u{00E9}\u{00E9}"));
}

#[test]
fn comparison_form_uses_unicode_classes() {
    assert_eq!(normalize_for_comparison("\u{00C4}rger\u{00A0}\u{2003}JETZT"), "\u{00E4}rger jetzt");
    assert_eq!(normalize_for_comparison("a1-b2"), "a1b2");
    assert_eq!(normalize_for_comparison("   "), "");
}
