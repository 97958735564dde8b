use meditui::theme::{Color, Theme};

#[test]
fn themes_cycle_through_all_three() {
    assert_eq!(Theme::Midnight.cycle(), Theme::Parchment);
    assert_eq!(Theme::Parchment.cycle(), Theme::Vesper);
    assert_eq!(Theme::Vesper.cycle(), Theme::Midnight);
    for t in [Theme::Midnight, Theme::Parchment, Theme::Vesper] {
        assert_eq!(t.cycle().cycle().cycle(), t);
    }
}

#[test]
fn labels_load_back() {
    for t in [Theme::Midnight, Theme::Parchment, Theme::Vesper] {
        assert_eq!(Theme::from_saved(t.label()), t);
    }
    assert_eq!(Theme::Vesper.label(), "vesper");
}

#[test]
fn saved_names_are_trimmed_and_old_names_kept() {
    assert_eq!(Theme::from_saved("  parchment\n"), Theme::Parchment);
    assert_eq!(Theme::from_saved("dark"), Theme::Midnight);
    assert_eq!(Theme::from_saved("light"), Theme::Parchment);
    assert_eq!(Theme::from_saved("sepia"), Theme::Midnight);
    assert_eq!(Theme::from_saved(""), Theme::Midnight);
}

#[test]
fn verse_styles_follow_state() {
    let t = Theme::Midnight;
    let (n, x) = t.verse_styles(true, false, true);
    assert_eq!(n.fg, Some(Color::White));
    assert!(n.bold && x.bold);
    let (n2, x2) = t.verse_styles(false, false, true);
    assert_eq!(n2.fg, Some(Color::White));
    assert!(!n2.bold && !x2.bold);
    assert_ne!(n.bg, n2.bg);
    let (_, plain) = t.verse_styles(false, false, false);
    assert_eq!(plain.bg, Some(t.bg()));
    let (_, hl) = t.verse_styles(false, true, false);
    assert_ne!(hl.bg, plain.bg);
    let (cn, _) = t.verse_styles(true, true, false);
    assert!(cn.bold);
}

#[test]
fn styles_use_theme_background() {
    for t in [Theme::Midnight, Theme::Parchment, Theme::Vesper] {
        assert_eq!(t.bg_style().bg, Some(t.bg()));
        assert_eq!(t.help_bg_style().fg, None);
        assert!(t.chapter_title_style().bold);
    }
    assert_ne!(Theme::Midnight.bg(), Theme::Parchment.bg());
}
