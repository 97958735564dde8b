use meditui::archive::{highlight_items, HighlightItem};
use meditui::highlight::Highlights;
use meditui::plan::{ChapterRef, Plan};

fn plan() -> Plan {
    let c = |b: &str, n: u16| ChapterRef { book: b.to_string(), chapter: n };
    Plan::new(vec![vec![c("Genesis", 1), c("Matthew", 1)], vec![c("Genesis", 2), c("Matthew", 2)], vec![c("Genesis", 1)]])
}

fn view(items: &[HighlightItem]) -> Vec<(u16, String, u16, Vec<u16>)> {
    items.iter().map(|i| (i.day, i.book.clone(), i.chapter, i.verses.clone())).collect()
}

#[test]
fn archive_orders_by_day_book_chapter() {
    let mut h = Highlights::new();
    h.highlight_range_for_day("Matthew", 1, &[5, 3, 4], 1);
    h.highlight_range_for_day("Genesis", 1, &[2], 1);
    h.highlight_range_for_day("Genesis", 2, &[9], 2);
    let items = highlight_items(&h, &plan());
    assert_eq!(
        view(&items),
        vec![
            (1, "Genesis".to_string(), 1, vec![2]),
            (1, "Matthew".to_string(), 1, vec![3, 4, 5]),
            (2, "Genesis".to_string(), 2, vec![9]),
        ]
    );
}

#[test]
fn global_only_highlight_appears_on_each_planned_day() {
    let mut h = Highlights::new();
    h.highlight_range_for_day("Genesis", 1, &[1], 1);
    h.days.clear();
    let items = highlight_items(&h, &plan());
    assert_eq!(view(&items), vec![(1, "Genesis".to_string(), 1, vec![1]), (3, "Genesis".to_string(), 1, vec![1])]);
}

#[test]
fn explicit_day_hides_planned_days() {
    let mut h = Highlights::new();
    h.highlight_range_for_day("Genesis", 1, &[1], 2);
    let items = highlight_items(&h, &plan());
    assert_eq!(view(&items), vec![(2, "Genesis".to_string(), 1, vec![1])]);
}

#[test]
fn unhighlighted_day_entries_are_left_out() {
    let mut h = Highlights::new();
    h.highlight_range_for_day("Genesis", 1, &[1, 2], 1);
    h.unhighlight_range("Genesis", 1, &[2]);
    let items = highlight_items(&h, &plan());
    assert_eq!(view(&items), vec![(1, "Genesis".to_string(), 1, vec![1])]);
}

#[test]
fn archive_is_the_same_however_built() {
    let mut a = Highlights::new();
    a.highlight_range_for_day("Matthew", 2, &[1], 2);
    a.highlight_range_for_day("Genesis", 1, &[7, 8], 1);
    let mut b = Highlights::new();
    b.toggle_for_day("Genesis", 1, 8, 1);
    b.toggle_for_day("Genesis", 1, 7, 1);
    b.toggle_for_day("Matthew", 2, 1, 2);
    assert_eq!(view(&highlight_items(&a, &plan())), view(&highlight_items(&b, &plan())));
}
