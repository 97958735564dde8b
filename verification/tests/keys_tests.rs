use meditui::app::{App, Mode};
use meditui::keys::{handle_key, KeyCode, KeyInput, Request};
use meditui::bible::{Bible, BookJson, ChapterJson, VerseJson};
use meditui::highlight::Highlights;
use meditui::plan::{ChapterRef, Plan};
use meditui::theme::Theme;

fn chapter(n: u16, verses: &[&str]) -> ChapterJson {
    ChapterJson {
        chapter: n.to_string(),
        verses: verses
            .iter()
            .enumerate()
            .map(|(i, t)| VerseJson { verse: (i + 1).to_string(), text: t.to_string() })
            .collect(),
    }
}

fn files() -> Vec<(String, BookJson)> {
    vec![
        (
            "Genesis".to_string(),
            BookJson {
                book: "Genesis".to_string(),
                chapters: vec![
                    chapter(1, &["In the beginning God created the heaven and the earth.", "And the earth was without form.", "And God said, Let there be light."]),
                    chapter(2, &["Thus the heavens and the earth were finished."]),
                ],
            },
        ),
        (
            "Matthew".to_string(),
            BookJson {
                book: "Matthew".to_string(),
                chapters: vec![chapter(1, &["The book of the generation of Jesus Christ.", "Abraham begat Isaac."])],
            },
        ),
    ]
}

fn cref(book: &str, chapter: u16) -> ChapterRef {
    ChapterRef { book: book.to_string(), chapter }
}

fn plan() -> Plan {
    Plan::new(vec![vec![cref("Genesis", 1), cref("Matthew", 1)], vec![cref("Genesis", 2)]])
}

fn bible_for_day(day: u16) -> Bible {
    let chs: Vec<(String, u16)> = plan().chapters_for_day(day).iter().map(|c| (c.book.clone(), c.chapter)).collect();
    Bible::load_chapters(&chs, &files())
}

fn app() -> App {
    App::new(
        bible_for_day(1),
        plan(),
        Highlights::new(),
        "data".to_string(),
        "kjv".to_string(),
        vec!["kjv".to_string(), "web".to_string()],
        1,
        Theme::Midnight,
    )
}

fn key(c: char) -> KeyInput {
    KeyInput { code: KeyCode::Char(c), ctrl: false }
}

fn press(a: &mut App, k: KeyInput) -> Request {
    handle_key(a, k, 20)
}

#[test]
fn j_and_k_move_cursor() {
    let mut a = app();
    assert_eq!(press(&mut a, key('j')), Request::Nothing);
    assert_eq!(a.cursor_verse, 1);
    press(&mut a, KeyInput { code: KeyCode::Down, ctrl: false });
    assert_eq!(a.cursor_verse, 2);
    press(&mut a, key('k'));
    press(&mut a, KeyInput { code: KeyCode::Up, ctrl: false });
    assert_eq!(a.cursor_verse, 0);
}

#[test]
fn gg_goes_to_first_verse_and_g_waits() {
    let mut a = app();
    press(&mut a, key('G'));
    assert_eq!(a.cursor_verse, 2);
    press(&mut a, key('g'));
    assert!(a.pending_g);
    assert_eq!(a.cursor_verse, 2);
    press(&mut a, key('g'));
    assert!(!a.pending_g);
    assert_eq!(a.cursor_verse, 0);
}

#[test]
fn g_then_other_key_is_dropped() {
    let mut a = app();
    press(&mut a, key('g'));
    press(&mut a, key('j'));
    assert!(!a.pending_g);
    assert_eq!(a.cursor_verse, 0);
}

#[test]
fn control_d_and_u_move_half_page() {
    let mut a = app();
    a.set_visible_verse_range(Some((0, 2)));
    press(&mut a, KeyInput { code: KeyCode::Char('d'), ctrl: true });
    assert_eq!(a.cursor_verse, 1);
    press(&mut a, KeyInput { code: KeyCode::Char('u'), ctrl: true });
    assert_eq!(a.cursor_verse, 0);
}

#[test]
fn capital_h_and_l_jump_within_view() {
    let mut a = app();
    a.set_visible_verse_range(Some((1, 2)));
    press(&mut a, key('L'));
    assert_eq!(a.cursor_verse, 2);
    press(&mut a, key('H'));
    assert_eq!(a.cursor_verse, 1);
}

#[test]
fn chapter_keys() {
    let mut a = app();
    press(&mut a, key('l'));
    assert_eq!(a.active_chapter_idx, 1);
    press(&mut a, key('h'));
    assert_eq!(a.active_chapter_idx, 0);
    press(&mut a, KeyInput { code: KeyCode::Tab, ctrl: false });
    assert_eq!(a.active_chapter_idx, 1);
    press(&mut a, KeyInput { code: KeyCode::BackTab, ctrl: false });
    assert_eq!(a.active_chapter_idx, 0);
}

#[test]
fn enter_toggles_and_asks_to_save() {
    let mut a = app();
    assert_eq!(press(&mut a, KeyInput { code: KeyCode::Enter, ctrl: false }), Request::SaveHighlights);
    assert!(a.highlights.is_highlighted("Genesis", 1, 1));
}

#[test]
fn visual_y_highlights_and_d_removes() {
    let mut a = app();
    press(&mut a, key('v'));
    assert_eq!(a.mode, Mode::Visual);
    press(&mut a, key('j'));
    assert_eq!(press(&mut a, key('y')), Request::SaveHighlights);
    assert_eq!(a.mode, Mode::Normal);
    assert!(a.highlights.is_highlighted("Genesis", 1, 1));
    assert!(a.highlights.is_highlighted("Genesis", 1, 2));
    press(&mut a, key('v'));
    assert_eq!(press(&mut a, key('d')), Request::SaveHighlights);
    assert!(!a.highlights.is_highlighted("Genesis", 1, 2));
    assert!(a.highlights.is_highlighted("Genesis", 1, 1));
}

#[test]
fn escape_cancels_visual() {
    let mut a = app();
    press(&mut a, key('v'));
    press(&mut a, KeyInput { code: KeyCode::Esc, ctrl: false });
    assert_eq!(a.mode, Mode::Normal);
    assert!(a.highlights.chapters.is_empty());
}

#[test]
fn archive_keys() {
    let mut a = app();
    press(&mut a, KeyInput { code: KeyCode::Enter, ctrl: false });
    press(&mut a, key('a'));
    assert_eq!(a.mode, Mode::Highlights);
    press(&mut a, key('j'));
    assert_eq!(a.highlight_cursor, 0);
    assert_eq!(press(&mut a, KeyInput { code: KeyCode::Enter, ctrl: false }), Request::OpenHighlight);
    press(&mut a, KeyInput { code: KeyCode::Esc, ctrl: false });
    assert_eq!(a.mode, Mode::Normal);
    press(&mut a, key('a'));
    press(&mut a, key('q'));
    assert!(a.should_quit);
}

#[test]
fn requests_for_outside_work() {
    let mut a = app();
    assert_eq!(press(&mut a, key('t')), Request::SaveTheme);
    assert_eq!(a.theme, Theme::Parchment);
    assert_eq!(press(&mut a, key('T')), Request::ChangeTranslation);
    assert_eq!(press(&mut a, key('r')), Request::GotoToday);
    assert_eq!(press(&mut a, key('x')), Request::Nothing);
}

#[test]
fn help_is_dismissed_by_any_key() {
    let mut a = app();
    press(&mut a, key('?'));
    assert!(a.show_help);
    press(&mut a, key('j'));
    assert!(!a.show_help);
    assert_eq!(a.cursor_verse, 0);
}

#[test]
fn q_quits() {
    let mut a = app();
    press(&mut a, key('q'));
    assert!(a.should_quit);
}
