use meditui::app::{App, Mode};
use meditui::bible::{Bible, BookJson, ChapterJson, VerseJson};
use meditui::highlight::Highlights;
use meditui::plan::{ChapterRef, Plan};
use meditui::theme::Theme;

fn chapter(n: u16, verses: &[&str]) -> ChapterJson {
    ChapterJson {
        chapter: n.to_string(),
        verses: verses
            .iter()
            .enumerate()
            .map(|(i, t)| VerseJson { verse: (i + 1).to_string(), text: t.to_string() })
            .collect(),
    }
}

fn files() -> Vec<(String, BookJson)> {
    vec![
        (
            "Genesis".to_string(),
            BookJson {
                book: "Genesis".to_string(),
                chapters: vec![
                    chapter(1, &["In the beginning God created the heaven and the earth.", "And the earth was without form.", "And God said, Let there be light."]),
                    chapter(2, &["Thus the heavens and the earth were finished."]),
                ],
            },
        ),
        (
            "Matthew".to_string(),
            BookJson {
                book: "Matthew".to_string(),
                chapters: vec![chapter(1, &["The book of the generation of Jesus Christ.", "Abraham begat Isaac."])],
            },
        ),
    ]
}

fn cref(book: &str, chapter: u16) -> ChapterRef {
    ChapterRef { book: book.to_string(), chapter }
}

fn plan() -> Plan {
    Plan::new(vec![vec![cref("Genesis", 1), cref("Matthew", 1)], vec![cref("Genesis", 2)]])
}

fn bible_for_day(day: u16) -> Bible {
    let chs: Vec<(String, u16)> = plan().chapters_for_day(day).iter().map(|c| (c.book.clone(), c.chapter)).collect();
    Bible::load_chapters(&chs, &files())
}

fn app() -> App {
    App::new(
        bible_for_day(1),
        plan(),
        Highlights::new(),
        "data".to_string(),
        "kjv".to_string(),
        vec!["kjv".to_string(), "web".to_string()],
        1,
        Theme::Midnight,
    )
}

#[test]
fn new_app_opens_first_chapter_of_day() {
    let a = app();
    assert_eq!(a.active_chapter().unwrap().book, "Genesis");
    assert_eq!(a.verse_count(), 3);
    assert_eq!(a.date_string, "January 1");
    assert_eq!(a.mode, Mode::Normal);
    assert!(!a.anim.is_animating());
}

#[test]
fn cursor_stays_within_chapter() {
    let mut a = app();
    for _ in 0..5 {
        a.cursor_down();
    }
    assert_eq!(a.cursor_verse, 2);
    a.cursor_up();
    assert_eq!(a.cursor_verse, 1);
    a.goto_first();
    a.cursor_up();
    assert_eq!(a.cursor_verse, 0);
    a.goto_last();
    assert_eq!(a.cursor_verse, 2);
}

#[test]
fn chapters_move_within_day() {
    let mut a = app();
    a.cursor_down();
    a.next_chapter();
    assert_eq!(a.active_chapter_idx, 1);
    assert_eq!(a.cursor_verse, 0);
    assert!(a.anim.is_animating());
    a.next_chapter();
    assert_eq!(a.active_chapter_idx, 1);
    a.prev_chapter();
    a.prev_chapter();
    assert_eq!(a.active_chapter_idx, 0);
}

#[test]
fn half_pages_use_visible_range() {
    let mut a = app();
    a.set_visible_verse_range(Some((0, 1)));
    a.half_page_down(40);
    assert_eq!(a.cursor_verse, 1);
    a.half_page_down(40);
    assert_eq!(a.cursor_verse, 2);
    a.half_page_up(40);
    assert_eq!(a.cursor_verse, 1);
    a.set_visible_verse_range(None);
    a.half_page_up(40);
    assert_eq!(a.cursor_verse, 0);
    a.half_page_down(3);
    assert_eq!(a.cursor_verse, 1);
}

#[test]
fn visible_first_and_last() {
    let mut a = app();
    a.goto_visible_last();
    assert_eq!(a.cursor_verse, 0);
    a.set_visible_verse_range(Some((1, 2)));
    a.goto_visible_last();
    assert_eq!(a.cursor_verse, 2);
    a.goto_visible_first();
    assert_eq!(a.cursor_verse, 1);
}

#[test]
fn visual_selection_highlights_range() {
    let mut a = app();
    a.cursor_down();
    a.cursor_down();
    a.enter_visual();
    a.cursor_up();
    assert_eq!(a.visual_range(), (1, 2));
    a.highlight_selection();
    assert_eq!(a.mode, Mode::Normal);
    assert!(!a.highlights.is_highlighted("Genesis", 1, 1));
    assert!(a.highlights.is_highlighted("Genesis", 1, 2));
    assert!(a.highlights.is_highlighted("Genesis", 1, 3));
    a.goto_first();
    a.enter_visual();
    a.goto_last();
    a.unhighlight_selection();
    assert!(!a.highlights.is_highlighted("Genesis", 1, 3));
    assert!(a.highlights.chapters.is_empty());
}

#[test]
fn toggle_highlight_flashes_verse() {
    let mut a = app();
    a.cursor_down();
    a.toggle_highlight();
    assert!(a.highlights.is_highlighted("Genesis", 1, 2));
    assert!(matches!(a.anim.flash, Some((1, _))));
    a.toggle_highlight();
    assert!(!a.highlights.is_highlighted("Genesis", 1, 2));
}

#[test]
fn cancel_visual_returns_to_reading() {
    let mut a = app();
    a.enter_visual();
    a.cancel_visual();
    assert_eq!(a.mode, Mode::Normal);
}

#[test]
fn archive_lists_items_in_order() {
    let mut a = app();
    a.toggle_highlight();
    a.next_chapter();
    a.cursor_down();
    a.toggle_highlight();
    let items = a.highlight_items();
    assert_eq!(items.len(), 2);
    assert_eq!((items[0].day, items[0].book.as_str(), items[0].chapter, items[0].verses.clone()), (1, "Genesis", 1, vec![1]));
    assert_eq!((items[1].day, items[1].book.as_str(), items[1].chapter, items[1].verses.clone()), (1, "Matthew", 1, vec![2]));
}

#[test]
fn archive_groups_older_highlights_by_plan_day() {
    let mut h = Highlights::new();
    h.highlight_range_for_day("Genesis", 2, &[1], 1);
    // An entry recorded only globally, as older files have it.
    h.days.clear();
    let a = App::new(bible_for_day(1), plan(), h, "data".to_string(), "kjv".to_string(), vec![], 1, Theme::Midnight);
    let items = a.highlight_items();
    assert_eq!(items.len(), 1);
    assert_eq!(items[0].day, 2);
    assert_eq!(items[0].book, "Genesis");
    assert_eq!(items[0].chapter, 2);
    assert_eq!(items[0].verses, vec![1]);
}

#[test]
fn archive_cursor_moves_and_clamps() {
    let mut a = app();
    a.toggle_highlight();
    a.next_chapter();
    a.toggle_highlight();
    a.highlight_cursor = 7;
    a.enter_highlights();
    assert_eq!(a.mode, Mode::Highlights);
    assert_eq!(a.highlight_cursor, 1);
    a.highlight_cursor_down();
    assert_eq!(a.highlight_cursor, 1);
    a.highlight_cursor_up();
    assert_eq!(a.highlight_cursor, 0);
    a.highlight_cursor_up();
    assert_eq!(a.highlight_cursor, 0);
    let sel = a.selected_highlight().unwrap();
    assert_eq!(sel.book, "Genesis");
    a.exit_highlights();
    assert_eq!(a.mode, Mode::Normal);
}

#[test]
fn empty_archive_resets_cursor() {
    let mut a = app();
    a.highlight_cursor = 4;
    a.highlight_scroll_offset = 3;
    a.clamp_highlight_cursor();
    assert_eq!(a.highlight_cursor, 0);
    assert_eq!(a.highlight_scroll_offset, 0);
    assert!(a.selected_highlight().is_none());
}

#[test]
fn opening_archive_item_moves_to_its_day_and_verse() {
    let mut h = Highlights::new();
    h.highlight_range_for_day("Matthew", 1, &[2], 1);
    let mut a = App::new(bible_for_day(2), plan(), h, "data".to_string(), "kjv".to_string(), vec![], 2, Theme::Midnight);
    assert_eq!(a.active_chapter().unwrap().book, "Genesis");
    a.enter_highlights();
    a.open_selected_highlight(bible_for_day(1));
    assert_eq!(a.day, 1);
    assert_eq!(a.active_chapter_idx, 1);
    assert_eq!(a.cursor_verse, 1);
    assert_eq!(a.mode, Mode::Normal);
}

#[test]
fn load_day_clamps_and_resets() {
    let mut a = app();
    a.cursor_down();
    a.enter_visual();
    a.load_day(0, bible_for_day(1));
    assert_eq!(a.day, 1);
    assert_eq!(a.cursor_verse, 0);
    assert_eq!(a.mode, Mode::Normal);
    a.load_day(2, bible_for_day(2));
    assert_eq!(a.day, 2);
    assert_eq!(a.date_string, "January 2");
    assert_eq!(a.today_chapters.len(), 1);
    a.goto_today(1, bible_for_day(1));
    assert_eq!(a.day, 1);
    assert_eq!(a.today_chapters.len(), 2);
}

#[test]
fn translations_cycle_in_order() {
    let mut a = app();
    assert_eq!(a.next_translation(), Some("web".to_string()));
    a.cursor_down();
    a.cycle_translation(bible_for_day(1));
    assert_eq!(a.translation, "web");
    assert_eq!(a.cursor_verse, 0);
    assert_eq!(a.next_translation(), Some("kjv".to_string()));
    a.available_translations = vec!["kjv".to_string()];
    assert_eq!(a.next_translation(), None);
}

#[test]
fn theme_and_help_toggle() {
    let mut a = app();
    a.cycle_theme();
    assert_eq!(a.theme, Theme::Parchment);
    a.toggle_help();
    assert!(a.show_help);
    a.toggle_help();
    assert!(!a.show_help);
}

#[test]
fn missing_chapter_has_no_verses() {
    let a = App::new(Bible::new(), plan(), Highlights::new(), "data".to_string(), "kjv".to_string(), vec![], 1, Theme::Midnight);
    assert!(a.active_chapter().is_some());
    assert!(a.active_verses().is_none());
    assert_eq!(a.verse_count(), 0);
}

#[test]
fn cycling_translations_comes_back_after_all() {
    let mut a = app();
    a.available_translations = vec!["asv".to_string(), "kjv".to_string(), "web".to_string()];
    let mut seen = Vec::new();
    for _ in 0..3 {
        a.cycle_translation(bible_for_day(1));
        seen.push(a.translation.clone());
    }
    assert_eq!(seen, vec!["web", "asv", "kjv"]);
}

#[test]
fn cycling_from_unknown_translation_goes_to_second() {
    let mut a = app();
    a.translation = "bbe".to_string();
    a.available_translations = vec!["asv".to_string(), "kjv".to_string(), "web".to_string()];
    a.cycle_translation(bible_for_day(1));
    assert_eq!(a.translation, "kjv");
}

#[test]
fn readings_to_load_follow_clamped_days() {
    let mut a = app();
    assert_eq!(a.today_reading(2).len(), 1);
    assert_eq!(a.today_reading(0)[1].book, "Matthew");
    assert!(a.today_reading(400).is_empty());
    assert!(a.selected_reading().is_none());
    a.highlights.highlight_range_for_day("Genesis", 2, &[1], 2);
    a.enter_highlights();
    let chs = a.selected_reading().unwrap();
    assert_eq!(chs.len(), 1);
    assert_eq!((chs[0].book.as_str(), chs[0].chapter), ("Genesis", 2));
}
