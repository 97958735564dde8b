use meditui::app::{App, Mode};
use meditui::screen::{build_verse_lines, draw_highlights, draw_verses, header_line, help_lines, help_popup, help_title, reading_column, status_line, LineKind, Span};
use meditui::bible::{Bible, BookJson, ChapterJson, VerseJson};
use meditui::highlight::Highlights;
use meditui::plan::{ChapterRef, Plan};
use meditui::theme::Theme;

fn chapter(n: u16, verses: &[&str]) -> ChapterJson {
    ChapterJson {
        chapter: n.to_string(),
        verses: verses
            .iter()
            .enumerate()
            .map(|(i, t)| VerseJson { verse: (i + 1).to_string(), text: t.to_string() })
            .collect(),
    }
}

fn files() -> Vec<(String, BookJson)> {
    vec![
        (
            "Genesis".to_string(),
            BookJson {
                book: "Genesis".to_string(),
                chapters: vec![
                    chapter(1, &["In the beginning God created the heaven and the earth.", "And the earth was without form.", "And God said, Let there be light."]),
                    chapter(2, &["Thus the heavens and the earth were finished."]),
                ],
            },
        ),
        (
            "Matthew".to_string(),
            BookJson {
                book: "Matthew".to_string(),
                chapters: vec![chapter(1, &["The book of the generation of Jesus Christ.", "Abraham begat Isaac."])],
            },
        ),
    ]
}

fn cref(book: &str, chapter: u16) -> ChapterRef {
    ChapterRef { book: book.to_string(), chapter }
}

fn plan() -> Plan {
    Plan::new(vec![vec![cref("Genesis", 1), cref("Matthew", 1)], vec![cref("Genesis", 2)]])
}

fn bible_for_day(day: u16) -> Bible {
    let chs: Vec<(String, u16)> = plan().chapters_for_day(day).iter().map(|c| (c.book.clone(), c.chapter)).collect();
    Bible::load_chapters(&chs, &files())
}

fn app() -> App {
    App::new(
        bible_for_day(1),
        plan(),
        Highlights::new(),
        "data".to_string(),
        "kjv".to_string(),
        vec!["kjv".to_string(), "web".to_string()],
        1,
        Theme::Midnight,
    )
}

fn texts(line: &[Span]) -> Vec<String> {
    line.iter().map(|s| s.text.clone()).collect()
}

fn joined(line: &[Span]) -> String {
    line.iter().map(|s| s.text.as_str()).collect::<Vec<_>>().join("")
}

#[test]
fn verse_lines_hang_under_the_number() {
    let th = Theme::Midnight;
    let (n, t) = th.verse_styles(false, false, false);
    let lines = build_verse_lines(12, "In the beginning God created", 19, n, t);
    assert_eq!(lines.len(), 4);
    assert_eq!(texts(&lines[0]), vec!["     12  ", "In the    "]);
    assert_eq!(texts(&lines[1]), vec!["         ", "beginning "]);
    assert_eq!(texts(&lines[3]), vec!["         ", "created   "]);
    assert_eq!(lines[0][0].style, n);
    assert_eq!(lines[0][1].style, t);
    assert_eq!(lines[1][0].style, t);
}

#[test]
fn verse_line_without_room_for_text() {
    let th = Theme::Midnight;
    let (n, t) = th.verse_styles(true, false, false);
    let lines = build_verse_lines(7, "Jesus wept.", 9, n, t);
    assert_eq!(lines.len(), 1);
    assert_eq!(texts(&lines[0]), vec!["  7  Jesus wept."]);
    assert_eq!(lines[0][0].style, t);
}

#[test]
fn reading_column_is_centred() {
    assert_eq!(reading_column(100), (10, 80));
    assert_eq!(reading_column(81), (0, 80));
    assert_eq!(reading_column(50), (0, 50));
}

#[test]
fn header_shows_day_date_translation_and_chapters() {
    let a = app();
    let line = header_line(&a, 60);
    let th = a.theme;
    assert_eq!(line[0].text, "  Day 1 \u{b7} January 1 \u{b7} KJV");
    assert_eq!(line[0].style, th.header_day_style());
    assert_eq!(line[2].text, "Genesis 1");
    assert_eq!(line[2].style, th.header_chapter_active());
    assert_eq!(line[3].text, "  \u{b7}  ");
    assert_eq!(line[4].text, "Matthew 1");
    assert_eq!(line[4].style, th.header_chapter_inactive());
    assert_eq!(line[5].text, "  ");
    assert_eq!(joined(&line).chars().count(), 60);
}

#[test]
fn header_in_archive_counts_days_and_items() {
    let mut a = app();
    a.toggle_highlight();
    a.next_chapter();
    a.toggle_highlight();
    a.enter_highlights();
    let line = header_line(&a, 40);
    assert_eq!(line[0].text, "  Highlights");
    assert_eq!(line[2].text, "1 day - 2 references  ");
    assert_eq!(joined(&line).chars().count(), 40);
    let mut b = app();
    b.enter_highlights();
    assert_eq!(header_line(&b, 40)[2].text, "No highlights  ");
}

#[test]
fn status_line_in_each_mode() {
    let mut a = app();
    let th = a.theme;
    let line = status_line(&a, 40);
    assert_eq!(texts(&line), vec!["  ? help".to_string(), " ".repeat(18), "verse 1 of 3  ".to_string()]);
    assert_eq!(line[0].style, th.status_style());
    a.pending_g = true;
    assert_eq!(status_line(&a, 40)[0].text, "  g..");
    a.pending_g = false;
    a.enter_visual();
    a.cursor_down();
    let line = status_line(&a, 60);
    assert_eq!(line[0].text, "  VISUAL  2 verses");
    assert_eq!(line[0].style, th.status_accent_style());
    assert_eq!(line[2].text, "y:highlight  d:remove  Esc:cancel  ");
    a.cancel_visual();
    a.enter_highlights();
    let line = status_line(&a, 10);
    assert_eq!(texts(&line), vec!["  HIGHLIGHTS", "", "Enter:open  j/k:move  Esc:back  "]);
    a.exit_highlights();
    a.toggle_highlight();
    a.enter_highlights();
    assert_eq!(status_line(&a, 10)[0].text, "  HIGHLIGHTS  1 of 1");
}

#[test]
fn reading_page_lays_out_title_and_verses() {
    let mut a = app();
    a.highlights.toggle_for_day("Genesis", 1, 2, 1);
    a.cursor_down();
    let th = a.theme;
    let page = draw_verses(&mut a, 30, 20);
    assert_eq!(page[0].kind, LineKind::Title);
    assert_eq!(texts(&page[0].spans), vec!["          ", "Genesis 1", "           "]);
    assert_eq!(page[0].spans[1].style, th.chapter_title_style());
    assert_eq!(page[1].kind, LineKind::Blank);
    assert_eq!(page[2].kind, LineKind::Verse(0));
    assert_eq!(page[2].spans[0].text, "      1  ");
    let v1: Vec<_> = page.iter().filter(|p| p.kind == LineKind::Verse(1)).collect();
    assert_eq!(v1[0].spans[1].style, th.verse_styles(true, true, false).1);
    assert_eq!(a.visible_verse_range, Some((0, 2)));
    assert_eq!(a.scroll_offset, 0);
    for p in &page {
        assert_eq!(joined(&p.spans).chars().count(), 30);
    }
}

#[test]
fn reading_page_scrolls_to_cursor() {
    let mut a = app();
    a.goto_last();
    let page = draw_verses(&mut a, 30, 3);
    assert!(a.scroll_offset > 0);
    assert_eq!(page.len(), 3);
    assert_eq!(page[2].kind, LineKind::Verse(2));
    assert_eq!(a.visible_verse_range.map(|r| r.1), Some(2));
    a.goto_first();
    let page = draw_verses(&mut a, 30, 3);
    assert_eq!(a.scroll_offset, 1);
    assert_eq!(page[0].kind, LineKind::Blank);
    assert_eq!(page[1].kind, LineKind::Verse(0));
}

#[test]
fn reading_page_marks_visual_selection() {
    let mut a = app();
    a.enter_visual();
    a.cursor_down();
    let th = a.theme;
    let page = draw_verses(&mut a, 80, 30);
    let first = page.iter().find(|p| p.kind == LineKind::Verse(0)).unwrap();
    assert_eq!(first.spans[0].style, th.verse_styles(false, false, true).0);
    let third = page.iter().find(|p| p.kind == LineKind::Verse(2)).unwrap();
    assert_eq!(third.spans[0].style, th.verse_styles(false, false, false).0);
}

#[test]
fn reading_page_messages() {
    let mut a = App::new(Bible::new(), plan(), Highlights::new(), "data".to_string(), "kjv".to_string(), vec![], 1, Theme::Midnight);
    a.visible_verse_range = Some((0, 1));
    let page = draw_verses(&mut a, 80, 10);
    assert_eq!(page.len(), 1);
    assert_eq!(page[0].kind, LineKind::Message);
    assert_eq!(page[0].spans[0].text, "  Chapter not found: Genesis 1");
    assert_eq!(a.visible_verse_range, None);
    let mut b = App::new(Bible::new(), plan(), Highlights::new(), "data".to_string(), "kjv".to_string(), vec![], 3, Theme::Midnight);
    let page = draw_verses(&mut b, 80, 10);
    assert_eq!(page[0].spans[0].text, "  No readings for today.");
}

#[test]
fn archive_page_lists_days_and_items() {
    let mut a = app();
    a.toggle_highlight();
    a.cursor_down();
    a.cursor_down();
    a.toggle_highlight();
    a.cursor_up();
    a.toggle_highlight();
    a.next_chapter();
    a.toggle_highlight();
    a.highlights.highlight_range_for_day("Genesis", 2, &[1], 2);
    a.enter_highlights();
    a.highlight_cursor_down();
    let th = a.theme;
    let lines = draw_highlights(&mut a, 30, 10);
    let t: Vec<String> = lines.iter().map(|l| joined(l)).collect();
    assert_eq!(t.len(), 6);
    assert_eq!(t[0], format!("{:<30}", "  Day 1 - January 1"));
    assert_eq!(t[1], format!("{:<30}", "    Genesis 1:1-3"));
    assert_eq!(t[2], format!("{:<30}", "  > Matthew 1:1"));
    assert_eq!(t[3], " ".repeat(30));
    assert_eq!(t[4], format!("{:<30}", "  Day 2 - January 2"));
    assert_eq!(t[5], format!("{:<30}", "    Genesis 2:1"));
    assert_eq!(lines[0][0].style, th.status_accent_style());
    assert_eq!(lines[2][0].style, th.verse_styles(true, true, false).1);
    assert_eq!(lines[1][0].style, th.verse_styles(false, true, false).1);
    assert_eq!(a.visible_verse_range, None);
}

#[test]
fn archive_page_scrolls_to_cursor() {
    let mut a = app();
    a.toggle_highlight();
    a.highlights.highlight_range_for_day("Genesis", 2, &[1], 2);
    a.enter_highlights();
    a.highlight_cursor_down();
    let lines = draw_highlights(&mut a, 30, 2);
    assert_eq!(a.highlight_scroll_offset, 3);
    assert_eq!(lines.len(), 2);
    assert_eq!(joined(&lines[1]).trim_end(), "  > Genesis 2:1");
    a.highlight_cursor_up();
    draw_highlights(&mut a, 30, 2);
    assert_eq!(a.highlight_scroll_offset, 1);
}

#[test]
fn empty_archive_page() {
    let mut a = app();
    a.enter_highlights();
    a.highlight_cursor = 3;
    let lines = draw_highlights(&mut a, 30, 10);
    assert_eq!(lines.len(), 1);
    assert_eq!(lines[0][0].text, "  No highlights yet.");
    assert_eq!(a.highlight_cursor, 0);
}

#[test]
fn help_overlay() {
    let th = Theme::Vesper;
    let lines = help_lines(th);
    assert_eq!(lines.len(), 20);
    assert_eq!(lines[1][0].text, "  Navigation");
    assert_eq!(lines[3][0].text, "    j / k       ");
    assert_eq!(lines[3][1].text, "Move up / down");
    assert_eq!(lines[3][0].style, th.help_key_style());
    assert_eq!(lines[19][1].text, "Quit");
    assert_eq!(help_title(), " Keybindings ");
    assert_eq!(help_popup(0, 0, 100, 40), (24, 9, 52, 22));
    assert_eq!(help_popup(0, 0, 30, 10), (2, 1, 26, 8));
    assert_eq!(help_popup(5, 5, 2, 1), (6, 5, 0, 0));
}
