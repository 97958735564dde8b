use meditui::highlight::Highlights;

#[test]
fn toggles_highlight_in_global_and_day_indexes() {
    let mut highlights = Highlights::new();

    highlights.toggle_for_day("Genesis", 1, 2, 1);
    assert!(highlights.is_highlighted("Genesis", 1, 2));
    assert!(highlights
        .day_verses(1, &Highlights::key("Genesis", 1))
        .unwrap()
        .contains(&2));

    highlights.toggle_for_day("Genesis", 1, 2, 1);
    assert!(!highlights.is_highlighted("Genesis", 1, 2));
    assert!(highlights.chapters.is_empty());
    assert!(highlights.days.is_empty());
}

#[test]
fn unhighlight_range_removes_day_entries() {
    let mut highlights = Highlights::new();

    highlights.highlight_range_for_day("John", 3, &[16, 17], 75);
    highlights.unhighlight_range("John", 3, &[16]);

    assert!(!highlights.is_highlighted("John", 3, 16));
    assert!(highlights.is_highlighted("John", 3, 17));
    assert!(!highlights
        .day_verses(75, &Highlights::key("John", 3))
        .unwrap()
        .contains(&16));
    assert!(highlights
        .day_verses(75, &Highlights::key("John", 3))
        .unwrap()
        .contains(&17));
}

#[test]
fn key_joins_book_and_chapter() {
    assert_eq!(Highlights::key("1 John", 3), "1 John:3");
}

#[test]
fn parse_key_reads_back_key() {
    let k = Highlights::key("Song of Solomon", 8);
    assert_eq!(Highlights::parse_key(&k), Some(("Song of Solomon".to_string(), 8)));
}

#[test]
fn parse_key_splits_at_last_colon() {
    assert_eq!(Highlights::parse_key("a:b:12"), Some(("a:b".to_string(), 12)));
}

#[test]
fn parse_key_rejects_bad_keys() {
    assert_eq!(Highlights::parse_key("Genesis"), None);
    assert_eq!(Highlights::parse_key("Genesis:"), None);
    assert_eq!(Highlights::parse_key("Genesis:x"), None);
    assert_eq!(Highlights::parse_key("Genesis:70000"), None);
    assert_eq!(Highlights::parse_key("Genesis:-1"), None);
}

#[test]
fn parse_key_accepts_plus_sign_as_u16_parse_does() {
    assert_eq!(Highlights::parse_key("Acts:+2"), Some(("Acts".to_string(), 2)));
}

#[test]
fn toggle_twice_restores_highlights() {
    let mut h = Highlights::new();
    h.toggle_for_day("Psalms", 23, 1, 80);
    h.toggle_for_day("Psalms", 23, 4, 80);
    let before_chapters = h.highlighted_verses("Psalms", 23).cloned();
    h.toggle_for_day("Psalms", 23, 6, 81);
    assert!(h.is_highlighted("Psalms", 23, 6));
    h.toggle_for_day("Psalms", 23, 6, 81);
    assert!(!h.is_highlighted("Psalms", 23, 6));
    let mut a = before_chapters.unwrap();
    let mut b = h.highlighted_verses("Psalms", 23).cloned().unwrap();
    a.sort();
    b.sort();
    assert_eq!(a, b);
    assert!(h.day_verses(81, &Highlights::key("Psalms", 23)).is_none());
    assert!(h.day_verses(80, &Highlights::key("Psalms", 23)).unwrap().contains(&4));
}

#[test]
fn toggle_flips_one_verse_only() {
    let mut h = Highlights::new();
    h.toggle_for_day("Genesis", 1, 1, 1);
    h.toggle_for_day("Genesis", 1, 2, 1);
    h.toggle_for_day("Genesis", 1, 1, 1);
    assert!(!h.is_highlighted("Genesis", 1, 1));
    assert!(h.is_highlighted("Genesis", 1, 2));
    assert!(!h.is_highlighted("Genesis", 2, 2));
    assert!(h.is_well_formed());
}

#[test]
fn highlight_range_marks_every_verse() {
    let mut h = Highlights::new();
    h.highlight_range_for_day("Romans", 8, &[28, 29, 30, 28], 300);
    for v in [28u16, 29, 30] {
        assert!(h.is_highlighted("Romans", 8, v));
        assert!(h.day_verses(300, &Highlights::key("Romans", 8)).unwrap().contains(&v));
    }
    assert!(!h.is_highlighted("Romans", 8, 31));
    let vs = h.highlighted_verses("Romans", 8).unwrap();
    assert_eq!(vs.len(), 3);
}

#[test]
fn unhighlight_range_clears_chapter_entry_when_empty() {
    let mut h = Highlights::new();
    h.highlight_range_for_day("Mark", 1, &[1, 2], 10);
    h.unhighlight_range("Mark", 1, &[1, 2, 3]);
    assert!(h.highlighted_verses("Mark", 1).is_none());
    assert!(h.chapters.is_empty());
    assert!(h.days.is_empty());
}

#[test]
fn highlighted_verses_of_unknown_chapter_is_none() {
    let h = Highlights::new();
    assert!(h.highlighted_verses("Jude", 1).is_none());
    assert!(!h.is_highlighted("Jude", 1, 1));
}

#[test]
fn range_highlight_then_clear_restores() {
    let mut h = Highlights::new();
    h.toggle_for_day("Genesis", 1, 1, 1);
    h.highlight_range_for_day("Genesis", 1, &[2, 3], 5);
    assert!(h.day_verses(5, &Highlights::key("Genesis", 1)).is_some());
    h.unhighlight_range("Genesis", 1, &[2, 3]);
    assert_eq!(h.highlighted_verses("Genesis", 1).unwrap(), &vec![1]);
    assert_eq!(h.day_verses(1, &Highlights::key("Genesis", 1)).unwrap(), &vec![1]);
    assert!(h.day_verses(5, &Highlights::key("Genesis", 1)).is_none());
    assert_eq!(h.days.len(), 1);
}

#[test]
fn day_entries_stay_highlighted_verses() {
    let mut h = Highlights::new();
    h.highlight_range_for_day("Luke", 2, &[1, 2, 3], 7);
    h.highlight_range_for_day("Luke", 2, &[3, 4], 8);
    h.unhighlight_range("Luke", 2, &[2, 3]);
    for day in [7u16, 8] {
        if let Some(vs) = h.day_verses(day, &Highlights::key("Luke", 2)) {
            for v in vs {
                assert!(h.is_highlighted("Luke", 2, *v));
            }
        }
    }
    assert_eq!(h.day_verses(8, &Highlights::key("Luke", 2)).unwrap(), &vec![4]);
}
