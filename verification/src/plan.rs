//! The reading plan: for each day of the year, the chapters to read; and the
//! calendar arithmetic that names a day of the plan.
use vstd::prelude::*;

use crate::text::{dec, push_dec};

verus! {

broadcast use vstd::string::group_string_axioms;

/// The number of days in the plan.
pub const DAY_COUNT: u16 = 365;

/// One chapter of a day's reading.
pub struct ChapterRef {
    pub book: String,
    pub chapter: u16,
}

impl Clone for ChapterRef {
    fn clone(&self) -> (res: Self)
        ensures
            res == *self,
    {
        ChapterRef { book: self.book.clone(), chapter: self.chapter }
    }
}

/// A reading plan: `days[d - 1]` holds the chapters of day `d`.
pub struct Plan {
    pub days: Vec<Vec<ChapterRef>>,
}

impl Plan {
    /// A plan with the given days.
    pub fn new(days: Vec<Vec<ChapterRef>>) -> (res: Plan)
        ensures
            res.days@ == days@,
    {
        Plan { days }
    }

    /// The chapters of day `day` (numbered from 1); none for a day outside
    /// the plan.
    pub open spec fn day_spec(self, day: int) -> Seq<ChapterRef> {
        if 1 <= day <= self.days@.len() {
            self.days@[day - 1]@
        } else {
            Seq::empty()
        }
    }

    /// The chapters of day `day`.
    pub fn chapters_for_day(&self, day: u16) -> (res: Vec<ChapterRef>)
        ensures
            res@ == self.day_spec(day as int),
    {
        if day >= 1 && (day as usize) <= self.days.len() {
            let src = &self.days[(day - 1) as usize];
            let mut out: Vec<ChapterRef> = Vec::new();
            let mut i: usize = 0;
            while i < src.len()
                invariant
                    i <= src.len(),
                    out@ == src@.take(i as int),
                decreases src.len() - i,
            {
                out.push(src[i].clone());
                i += 1;
                assert(out@ =~= src@.take(i as int));
            }
            assert(src@.take(src@.len() as int) =~= src@);
            out
        } else {
            Vec::new()
        }
    }
}

/// The lengths of the months of a common year.
pub open spec fn month_length(m: int) -> int {
    if m == 1 {
        28
    } else if m == 3 || m == 5 || m == 8 || m == 10 {
        30
    } else {
        31
    }
}

/// The number of days before month `m` (0-based) in a common year.
pub open spec fn days_before_month(m: int) -> int
    decreases m,
{
    if m <= 0 {
        0
    } else {
        days_before_month(m - 1) + month_length(m - 1)
    }
}

/// The English name of month `m` (0-based).
pub open spec fn month_name(m: int) -> Seq<char> {
    if m == 0 {
        "January"@
    } else if m == 1 {
        "February"@
    } else if m == 2 {
        "March"@
    } else if m == 3 {
        "April"@
    } else if m == 4 {
        "May"@
    } else if m == 5 {
        "June"@
    } else if m == 6 {
        "July"@
    } else if m == 7 {
        "August"@
    } else if m == 8 {
        "September"@
    } else if m == 9 {
        "October"@
    } else if m == 10 {
        "November"@
    } else {
        "December"@
    }
}

/// Day `day` of the plan, moved into 1..=DAY_COUNT.
pub open spec fn clamp_day(day: int) -> int {
    if day < 1 {
        1
    } else if day > DAY_COUNT {
        DAY_COUNT as int
    } else {
        day
    }
}

/// The calendar date of day `day` of a common year, such as "February 23" for
/// day 54.
pub open spec fn date_spec(day: int) -> Seq<char> {
    let d = clamp_day(day);
    let m = choose|m: int| 0 <= m < 12 && #[trigger] days_before_month(m) < d <= days_before_month(m + 1);
    month_name(m) + " "@ + dec((d - days_before_month(m)) as nat)
}

fn month_name_str(m: usize) -> (res: &'static str)
    requires
        m < 12,
    ensures
        res@ == month_name(m as int),
{
    proof {
        reveal_strlit("January");
        reveal_strlit("February");
        reveal_strlit("March");
        reveal_strlit("April");
        reveal_strlit("May");
        reveal_strlit("June");
        reveal_strlit("July");
        reveal_strlit("August");
        reveal_strlit("September");
        reveal_strlit("October");
        reveal_strlit("November");
        reveal_strlit("December");
    }
    if m == 0 {
        "January"
    } else if m == 1 {
        "February"
    } else if m == 2 {
        "March"
    } else if m == 3 {
        "April"
    } else if m == 4 {
        "May"
    } else if m == 5 {
        "June"
    } else if m == 6 {
        "July"
    } else if m == 7 {
        "August"
    } else if m == 8 {
        "September"
    } else if m == 9 {
        "October"
    } else if m == 10 {
        "November"
    } else {
        "December"
    }
}

proof fn lemma_days_before_month_grows(a: int, b: int)
    requires
        0 <= a <= b,
    ensures
        days_before_month(a) + 28 * (b - a) <= days_before_month(b),
    decreases b - a,
{
    if a < b {
        lemma_days_before_month_grows(a, b - 1);
    }
}

proof fn lemma_month_unique(d: int, m1: int, m2: int)
    requires
        0 <= m1 < 12,
        0 <= m2 < 12,
        days_before_month(m1) < d <= days_before_month(m1 + 1),
        days_before_month(m2) < d <= days_before_month(m2 + 1),
    ensures
        m1 == m2,
{
    if m1 < m2 {
        lemma_days_before_month_grows(m1 + 1, m2);
    } else if m2 < m1 {
        lemma_days_before_month_grows(m2 + 1, m1);
    }
}

/// The calendar date of a day of the plan, as "Month day".
pub fn date_string_for_day(day: u16) -> (res: String)
    ensures
        res@ == date_spec(day as int),
{
    let d: u16 = if day < 1 {
        1
    } else if day > DAY_COUNT {
        DAY_COUNT
    } else {
        day
    };
    assert(days_before_month(12) == 365) by {
        reveal_with_fuel(days_before_month, 13);
    }
    let mut m: usize = 0;
    let mut before: u16 = 0;
    let mut len: u16 = 31;
    while d > before + len
        invariant
            m < 12,
            1 <= d <= 365,
            before as int == days_before_month(m as int),
            len as int == month_length(m as int),
            before < d,
            days_before_month(12) == 365,
        decreases 12 - m,
    {
        proof {
            if m == 11 {
                assert(days_before_month(12) == days_before_month(11) + month_length(11));
            }
            lemma_days_before_month_grows(m as int + 1, 12);
        }
        before = before + len;
        m = m + 1;
        len = if m == 1 {
            28
        } else if m == 3 || m == 5 || m == 8 || m == 10 {
            30
        } else {
            31
        };
    }
    let mut s = String::new();
    s.append(month_name_str(m));
    proof {
        reveal_strlit(" ");
    }
    s.append(" ");
    push_dec(&mut s, (d - before) as u64);
    proof {
        assert(days_before_month(m as int + 1) == before + len);
        let c = choose|c: int| 0 <= c < 12 && #[trigger] days_before_month(c) < d <= days_before_month(c + 1);
        assert(0 <= m < 12 && days_before_month(m as int) < d <= days_before_month(m as int + 1));
        lemma_month_unique(d as int, c, m as int);
        assert(s@ =~= date_spec(day as int));
    }
    s
}

/// The number of days in year `y`.
pub open spec fn year_length(y: int) -> int {
    if (y % 4 == 0 && y % 100 != 0) || y % 400 == 0 {
        366
    } else {
        365
    }
}

/// The day of its year (from 1) of the day `days` days after 1 January 1970,
/// counting years from `year`, where `days` are left of the days since 1970
/// once the years before `year` are counted.
pub open spec fn ordinal_from(year: int, days: int) -> int
    decreases days,
{
    if days < 0 {
        0
    } else if days < year_length(year) {
        days + 1
    } else {
        ordinal_from(year + 1, days - year_length(year))
    }
}

/// The day of the year (1 for 1 January) of the day `days` days after
/// 1 January 1970.
pub fn day_of_year_from_epoch_days(days: u64) -> (res: u16)
    ensures
        res as int == ordinal_from(1970, days as int),
        1 <= res <= 366,
{
    let mut year: u64 = 1970;
    let mut rest: u64 = days;
    let mut len: u64 = 365;
    while rest >= len
        invariant
            ordinal_from(year as int, rest as int) == ordinal_from(1970, days as int),
            1970 <= year,
            rest <= days,
            (year - 1970) * 365 + rest <= days,
            len as int == year_length(year as int),
        decreases rest,
    {
        rest = rest - len;
        year = year + 1;
        len = if (year % 4 == 0 && year % 100 != 0) || year % 400 == 0 {
            366
        } else {
            365
        };
    }
    (rest + 1) as u16
}

} // verus!
