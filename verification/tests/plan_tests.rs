use meditui::plan::{date_string_for_day, day_of_year_from_epoch_days, ChapterRef, Plan, DAY_COUNT};

#[test]
fn date_of_day_fifty_four() {
    assert_eq!(date_string_for_day(54), "February 23");
}

#[test]
fn dates_at_year_ends() {
    assert_eq!(date_string_for_day(1), "January 1");
    assert_eq!(date_string_for_day(31), "January 31");
    assert_eq!(date_string_for_day(32), "February 1");
    assert_eq!(date_string_for_day(60), "March 1");
    assert_eq!(date_string_for_day(DAY_COUNT), "December 31");
}

#[test]
fn dates_outside_plan_are_clamped() {
    assert_eq!(date_string_for_day(0), "January 1");
    assert_eq!(date_string_for_day(366), "December 31");
    assert_eq!(date_string_for_day(u16::MAX), "December 31");
}

#[test]
fn day_of_year_counts_from_first_of_january() {
    assert_eq!(day_of_year_from_epoch_days(0), 1);
    assert_eq!(day_of_year_from_epoch_days(364), 365);
    assert_eq!(day_of_year_from_epoch_days(365), 1);
}

#[test]
fn day_of_year_in_leap_years() {
    // 2024-01-01 is day 19723 after the epoch.
    assert_eq!(day_of_year_from_epoch_days(19723), 1);
    assert_eq!(day_of_year_from_epoch_days(19776), 54);
    assert_eq!(day_of_year_from_epoch_days(19723 + 365), 366);
    assert_eq!(day_of_year_from_epoch_days(19723 + 366), 1);
    // 2000 was a leap year, 2100 will not be.
    assert_eq!(day_of_year_from_epoch_days(10957 + 365), 366);
    assert_eq!(day_of_year_from_epoch_days(47482 + 365), 1);
}

fn ch(book: &str, chapter: u16) -> ChapterRef {
    ChapterRef { book: book.to_string(), chapter }
}

#[test]
fn chapters_for_day_reads_plan() {
    let plan = Plan::new(vec![vec![ch("Genesis", 1), ch("Matthew", 1)], vec![ch("Genesis", 2)]]);
    let d1 = plan.chapters_for_day(1);
    assert_eq!(d1.len(), 2);
    assert_eq!(d1[1].book, "Matthew");
    assert_eq!(plan.chapters_for_day(2)[0].chapter, 2);
    assert!(plan.chapters_for_day(0).is_empty());
    assert!(plan.chapters_for_day(3).is_empty());
}
