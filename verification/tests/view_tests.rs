use meditui::view::{fit_to_width, format_range, format_verse_ranges, word_wrap};

#[test]
fn word_wrap_breaks_between_words() {
    assert_eq!(
        word_wrap("In the beginning God created", 10),
        vec!["In the", "beginning", "God", "created"]
    );
}

#[test]
fn word_wrap_keeps_long_word_whole() {
    assert_eq!(word_wrap("a Jerusalem b", 4), vec!["a", "Jerusalem", "b"]);
}

#[test]
fn word_wrap_collapses_white_space() {
    assert_eq!(word_wrap("  And   God\tsaid \n", 80), vec!["And God said"]);
}

#[test]
fn word_wrap_of_empty_text_is_one_empty_line() {
    assert_eq!(word_wrap("", 10), vec![""]);
    assert_eq!(word_wrap("   ", 10), vec![""]);
}

#[test]
fn word_wrap_with_no_width_keeps_text() {
    assert_eq!(word_wrap("a  b", 0), vec!["a  b"]);
}

#[test]
fn word_wrap_fills_line_exactly() {
    assert_eq!(word_wrap("ab cd ef", 5), vec!["ab cd", "ef"]);
}

#[test]
fn fit_to_width_pads() {
    assert_eq!(fit_to_width("abc", 5), "abc  ");
    assert_eq!(fit_to_width("", 2), "  ");
}

#[test]
fn fit_to_width_cuts_with_dots() {
    assert_eq!(fit_to_width("abcdef", 5), "ab...");
    assert_eq!(fit_to_width("abcdef", 4), "a...");
}

#[test]
fn fit_to_width_cuts_short_widths_without_dots() {
    assert_eq!(fit_to_width("abcdef", 3), "abc");
    assert_eq!(fit_to_width("abcdef", 0), "");
}

#[test]
fn fit_to_width_counts_characters() {
    assert_eq!(fit_to_width("é·ü", 4), "é·ü ");
}

#[test]
fn format_range_single_and_span() {
    assert_eq!(format_range(3, 3), "3");
    assert_eq!(format_range(3, 7), "3-7");
}

#[test]
fn format_verse_ranges_groups_runs() {
    assert_eq!(format_verse_ranges(&[3, 1, 2, 5]), "1-3, 5");
    assert_eq!(format_verse_ranges(&[10, 12, 11, 14, 20, 21]), "10-12, 14, 20-21");
}

#[test]
fn format_verse_ranges_drops_repeats() {
    assert_eq!(format_verse_ranges(&[7, 7, 7]), "7");
}

#[test]
fn format_verse_ranges_of_nothing_is_empty() {
    assert_eq!(format_verse_ranges(&[]), "");
}

#[test]
fn word_wrap_keeps_every_word_in_order() {
    let text = "For God so loved the world, that he gave his only begotten Son, that whosoever believeth in him should not perish.";
    for width in [1usize, 5, 12, 30, 200] {
        let lines = word_wrap(text, width);
        let from_lines: Vec<String> = lines.iter().flat_map(|l| l.split_whitespace().map(|w| w.to_string())).collect();
        let from_text: Vec<String> = text.split_whitespace().map(|w| w.to_string()).collect();
        assert_eq!(from_lines, from_text);
        for l in &lines {
            assert!(l.chars().count() <= width || !l.contains(' '));
        }
    }
}

#[test]
fn word_wrap_breaks_only_where_next_word_does_not_fit() {
    let text = "And the earth was without form, and void; and darkness was upon the face of the deep.";
    for width in [6usize, 10, 17, 25] {
        let lines = word_wrap(text, width);
        for pair in lines.windows(2) {
            let next_word = pair[1].split_whitespace().next().unwrap();
            assert!(pair[0].chars().count() + 1 + next_word.chars().count() > width);
        }
    }
}
