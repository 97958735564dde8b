//! The highlight archive: every highlighted verse, grouped by reading day
//! and chapter, in order.
use vstd::prelude::*;

use crate::assoc::has_key;
use crate::highlight::{
    day_entries, lemma_days_at, lemma_marks_at, marked_in, marks_entries, parse_key_spec, key_spec,
    vec_contains, DayMarks, Highlights, VerseMarks,
};
use crate::plan::{Plan, DAY_COUNT};
use crate::text::{
    chars_of, compare_chars, lemma_str_lt_irreflexive, lemma_str_lt_total,
    lemma_str_lt_transitive, str_lt,
};

verus! {

broadcast use vstd::seq_lib::group_seq_properties;

/// The highlighted verses of one chapter under one reading day.
pub struct HighlightItem {
    pub day: u16,
    pub book: String,
    pub chapter: u16,
    pub verses: Vec<u16>,
}

impl Clone for HighlightItem {
    fn clone(&self) -> (res: Self)
        ensures
            res.day == self.day,
            res.book == self.book,
            res.chapter == self.chapter,
            res.verses@ == self.verses@,
    {
        HighlightItem {
            day: self.day,
            book: self.book.clone(),
            chapter: self.chapter,
            verses: self.verses.clone(),
        }
    }
}

/// The order of archive entries: by day, then book name, then chapter.
pub open spec fn key_lt(d1: u16, b1: Seq<char>, c1: u16, d2: u16, b2: Seq<char>, c2: u16) -> bool {
    d1 < d2 || (d1 == d2 && (str_lt(b1, b2) || (b1 == b2 && c1 < c2)))
}

pub open spec fn item_lt(a: HighlightItem, b: HighlightItem) -> bool {
    key_lt(a.day, a.book@, a.chapter, b.day, b.book@, b.chapter)
}

/// Strictly increasing.
pub open spec fn increasing(s: Seq<u16>) -> bool {
    forall|i: int, j: int| 0 <= i < j < s.len() ==> s[i] < s[j]
}

/// Items in strictly increasing order, each with a non-empty, strictly
/// increasing list of verses.
pub open spec fn items_sorted(s: Seq<HighlightItem>) -> bool {
    &&& forall|a: int, b: int| 0 <= a < b < s.len() ==> item_lt(#[trigger] s[a], #[trigger] s[b])
    &&& forall|i: int|
        0 <= i < s.len() ==> increasing((#[trigger] s[i]).verses@) && s[i].verses@.len() > 0
}

/// The (day, book, chapter, verse) entries that a list of items holds.
pub open spec fn item_tuples(s: Seq<HighlightItem>) -> Set<(u16, Seq<char>, u16, u16)> {
    Set::new(
        |t: (u16, Seq<char>, u16, u16)|
            exists|i: int|
                0 <= i < s.len() && (#[trigger] s[i]).day == t.0 && s[i].book@ == t.1
                    && s[i].chapter == t.2 && s[i].verses@.contains(t.3),
    )
}

pub proof fn lemma_key_lt_transitive(
    d1: u16,
    b1: Seq<char>,
    c1: u16,
    d2: u16,
    b2: Seq<char>,
    c2: u16,
    d3: u16,
    b3: Seq<char>,
    c3: u16,
)
    requires
        key_lt(d1, b1, c1, d2, b2, c2),
        key_lt(d2, b2, c2, d3, b3, c3),
    ensures
        key_lt(d1, b1, c1, d3, b3, c3),
{
    if d1 == d2 && d2 == d3 {
        if str_lt(b1, b2) && str_lt(b2, b3) {
            lemma_str_lt_transitive(b1, b2, b3);
        }
    }
}

pub proof fn lemma_key_lt_total(d1: u16, b1: Seq<char>, c1: u16, d2: u16, b2: Seq<char>, c2: u16)
    ensures
        key_lt(d1, b1, c1, d2, b2, c2) || (d1 == d2 && b1 == b2 && c1 == c2) || key_lt(
            d2,
            b2,
            c2,
            d1,
            b1,
            c1,
        ),
        !(key_lt(d1, b1, c1, d2, b2, c2) && key_lt(d2, b2, c2, d1, b1, c1)),
        !key_lt(d1, b1, c1, d1, b1, c1),
{
    lemma_str_lt_total(b1, b2);
    lemma_str_lt_irreflexive(b1);
    lemma_str_lt_irreflexive(b2);
}

/// Compares the key of `item` with (day, book, chapter): -1 when the item
/// comes first, 0 when equal, 1 when it comes after.
fn compare_key(item: &HighlightItem, day: u16, book: &Vec<char>, chapter: u16) -> (res: i8)
    ensures
        res == -1 <==> key_lt(item.day, item.book@, item.chapter, day, book@, chapter),
        res == 0 <==> (item.day == day && item.book@ == book@ && item.chapter == chapter),
        res == 1 <==> key_lt(day, book@, chapter, item.day, item.book@, item.chapter),
        res == -1 || res == 0 || res == 1,
{
    proof {
        lemma_key_lt_total(item.day, item.book@, item.chapter, day, book@, chapter);
    }
    if item.day < day {
        return -1;
    }
    if item.day > day {
        return 1;
    }
    let ib = chars_of(item.book.as_str());
    let c = compare_chars(&ib, book);
    if c != 0 {
        return c;
    }
    if item.chapter < chapter {
        -1
    } else if item.chapter > chapter {
        1
    } else {
        0
    }
}

/// Adds `v` to a strictly increasing list.
fn sorted_insert(vs: &mut Vec<u16>, v: u16)
    requires
        increasing(old(vs)@),
    ensures
        increasing(final(vs)@),
        final(vs)@.to_set() == old(vs)@.to_set().insert(v),
        final(vs)@.len() > 0,
{
    let mut p: usize = 0;
    while p < vs.len() && vs[p] < v
        invariant
            p <= vs.len(),
            vs@ == old(vs)@,
            forall|a: int| 0 <= a < p ==> vs@[a] < v,
        decreases vs.len() - p,
    {
        p += 1;
    }
    if p < vs.len() && vs[p] == v {
        assert(vs@[p as int] == v);
        assert(vs@.to_set() =~= old(vs)@.to_set().insert(v));
        return ;
    }
    vs.insert(p, v);
    proof {
        let o = old(vs)@;
        let n = vs@;
        assert forall|a: int| 0 <= a < n.len() implies #[trigger] n[a] == (if a < p {
            o[a]
        } else if a == p {
            v
        } else {
            o[a - 1]
        }) by {}
        assert forall|a: int, b: int| 0 <= a < b < n.len() implies n[a] < n[b] by {
            if b == p {
                assert(n[a] == o[a]);
            } else if a == p {
                assert(n[b] == o[b - 1]);
                assert(o[p as int] > v);
                if b - 1 > p {
                    assert(o[p as int] < o[b - 1]);
                }
            } else if a < p && b > p {
                assert(n[a] == o[a] && n[b] == o[b - 1]);
                assert(o[a] < v);
                assert(v < o[p as int]);
                if b - 1 > p {
                    assert(o[p as int] < o[b - 1]);
                }
            } else if b < p {
                assert(n[a] == o[a] && n[b] == o[b]);
            } else {
                assert(n[a] == o[a - 1] && n[b] == o[b - 1]);
            }
        }
        assert forall|x: u16| n.contains(x) <==> o.contains(x) || x == v by {
            if n.contains(x) {
                let j = choose|j: int| 0 <= j < n.len() && #[trigger] n[j] == x;
                if j < p {
                    assert(o[j] == x);
                } else if j > p {
                    assert(o[j - 1] == x);
                }
            }
            if o.contains(x) {
                let j = choose|j: int| 0 <= j < o.len() && #[trigger] o[j] == x;
                if j < p {
                    assert(n[j] == x);
                } else {
                    assert(n[j + 1] == x);
                }
            }
            if x == v {
                assert(n[p as int] == v);
            }
        }
        assert(n.to_set() =~= o.to_set().insert(v));
    }
}

/// Adds the entry (day, book, chapter, verse) to a sorted list of items.
pub fn insert_entry(items: &mut Vec<HighlightItem>, day: u16, book: &String, chapter: u16, verse: u16)
    requires
        items_sorted(old(items)@),
    ensures
        items_sorted(final(items)@),
        item_tuples(final(items)@) == item_tuples(old(items)@).insert((day, book@, chapter, verse)),
{
    let bc = chars_of(book.as_str());
    let mut p: usize = 0;
    while p < items.len() && compare_key(&items[p], day, &bc, chapter) == -1
        invariant
            p <= items.len(),
            items@ == old(items)@,
            bc@ == book@,
            forall|a: int| 0 <= a < p ==> key_lt(items@[a].day, items@[a].book@, items@[a].chapter, day, book@, chapter),
        decreases items.len() - p,
    {
        p += 1;
    }
    let ghost o = old(items)@;
    let ghost t = (day, book@, chapter, verse);
    if p < items.len() && compare_key(&items[p], day, &bc, chapter) == 0 {
        let mut it = items.remove(p);
        sorted_insert(&mut it.verses, verse);
        items.insert(p, it);
        proof {
            let n = items@;
            assert(n =~= o.update(p as int, it));
            assert forall|a: int, b: int| 0 <= a < b < n.len() implies item_lt(#[trigger] n[a], #[trigger] n[b]) by {
                assert(item_lt(o[a], o[b]));
            }
            assert forall|i: int| 0 <= i < n.len() implies increasing((#[trigger] n[i]).verses@) && n[i].verses@.len() > 0 by {
                if i != p {
                    assert(n[i] == o[i]);
                }
            }
            assert forall|u: (u16, Seq<char>, u16, u16)| item_tuples(n).contains(u) <==> item_tuples(o).insert(t).contains(u) by {
                if item_tuples(n).contains(u) {
                    let i = choose|i: int| 0 <= i < n.len() && (#[trigger] n[i]).day == u.0 && n[i].book@ == u.1 && n[i].chapter == u.2 && n[i].verses@.contains(u.3);
                    if i != p {
                        assert(o[i] == n[i]);
                    } else {
                        assert(n[i].verses@.to_set().contains(u.3));
                        if u.3 != verse {
                            assert(o[i].verses@.to_set().contains(u.3));
                        }
                    }
                }
                if item_tuples(o).contains(u) {
                    let i = choose|i: int| 0 <= i < o.len() && (#[trigger] o[i]).day == u.0 && o[i].book@ == u.1 && o[i].chapter == u.2 && o[i].verses@.contains(u.3);
                    if i != p {
                        assert(o[i] == n[i]);
                    } else {
                        assert(o[i].verses@.to_set().contains(u.3));
                        assert(n[i].verses@.to_set().contains(u.3));
                    }
                }
                if u == t {
                    assert(n[p as int].verses@.to_set().contains(verse));
                    assert(n[p as int].day == u.0 && n[p as int].book@ == u.1 && n[p as int].chapter == u.2);
                }
            }
            assert(item_tuples(n) =~= item_tuples(o).insert(t));
        }
    } else {
        let mut vs: Vec<u16> = Vec::new();
        vs.push(verse);
        let it = HighlightItem { day, book: book.clone(), chapter, verses: vs };
        items.insert(p, it);
        proof {
            let n = items@;
            assert(vs@.len() == 1 && vs@[0] == verse);
            assert(increasing(vs@));
            assert forall|a: int| 0 <= a < n.len() implies #[trigger] n[a] == (if a < p {
                o[a]
            } else if a == p {
                it
            } else {
                o[a - 1]
            }) by {}
            if p < o.len() {
                assert(key_lt(day, book@, chapter, o[p as int].day, o[p as int].book@, o[p as int].chapter));
            }
            assert forall|a: int, b: int| 0 <= a < b < n.len() implies item_lt(#[trigger] n[a], #[trigger] n[b]) by {
                if b == p {
                    assert(n[a] == o[a]);
                } else if a == p {
                    assert(n[b] == o[b - 1]);
                    if b - 1 > p {
                        assert(item_lt(o[p as int], o[b - 1]));
                        lemma_key_lt_transitive(day, book@, chapter, o[p as int].day, o[p as int].book@, o[p as int].chapter, o[b - 1].day, o[b - 1].book@, o[b - 1].chapter);
                    }
                } else if a < p && b > p {
                    assert(n[a] == o[a] && n[b] == o[b - 1]);
                    assert(item_lt(o[a], o[b - 1]));
                } else if b < p {
                    assert(n[a] == o[a] && n[b] == o[b]);
                } else {
                    assert(n[a] == o[a - 1] && n[b] == o[b - 1]);
                }
            }
            assert forall|i: int| 0 <= i < n.len() implies increasing((#[trigger] n[i]).verses@) && n[i].verses@.len() > 0 by {
                if i < p {
                    assert(n[i] == o[i]);
                } else if i > p {
                    assert(n[i] == o[i - 1]);
                }
            }
            assert forall|u: (u16, Seq<char>, u16, u16)| item_tuples(n).contains(u) <==> item_tuples(o).insert(t).contains(u) by {
                if item_tuples(n).contains(u) {
                    let i = choose|i: int| 0 <= i < n.len() && (#[trigger] n[i]).day == u.0 && n[i].book@ == u.1 && n[i].chapter == u.2 && n[i].verses@.contains(u.3);
                    if i < p {
                        assert(o[i] == n[i]);
                    } else if i > p {
                        assert(o[i - 1] == n[i]);
                    } else {
                        let j = choose|j: int| 0 <= j < vs@.len() && #[trigger] vs@[j] == u.3;
                        assert(u == t);
                    }
                }
                if item_tuples(o).contains(u) {
                    let i = choose|i: int| 0 <= i < o.len() && (#[trigger] o[i]).day == u.0 && o[i].book@ == u.1 && o[i].chapter == u.2 && o[i].verses@.contains(u.3);
                    if i < p {
                        assert(n[i] == o[i]);
                    } else {
                        assert(n[i + 1] == o[i]);
                    }
                }
                if u == t {
                    assert(n[p as int].verses@[0] == verse);
                    assert(n[p as int].verses@.contains(verse));
                }
            }
            assert(item_tuples(n) =~= item_tuples(o).insert(t));
        }
    }
}

// ---------------------------------------------------------------------------
// What the archive holds
// ---------------------------------------------------------------------------
/// Highlighted verse `t.3` of chapter (`t.1`, `t.2`) was recorded on reading
/// day `t.0` (a day of the plan), under a key that reads back as that chapter.
pub open spec fn explicit(
    c: Map<Seq<char>, Set<u16>>,
    d: Map<u16, Map<Seq<char>, Set<u16>>>,
    t: (u16, Seq<char>, u16, u16),
) -> bool {
    &&& 1 <= t.0 <= DAY_COUNT
    &&& d.contains_key(t.0)
    &&& exists|k: Seq<char>|
        #[trigger] d[t.0].contains_key(k) && parse_key_spec(k) == Some((t.1, t.2)) && d[t.0][k].contains(t.3)
    &&& marked_in(c, key_spec(t.1, t.2), t.3)
}

/// The highlighted verse was recorded on some reading day.
pub open spec fn explicit_any(
    c: Map<Seq<char>, Set<u16>>,
    d: Map<u16, Map<Seq<char>, Set<u16>>>,
    b: Seq<char>,
    ch: u16,
    v: u16,
) -> bool {
    exists|x: u16| #[trigger] explicit(c, d, (x, b, ch, v))
}

/// Chapter (`t.1`, `t.2`) is read on day `t.0` of the plan.
pub open spec fn planned(p: Plan, t: (u16, Seq<char>, u16, u16)) -> bool {
    &&& 1 <= t.0 <= DAY_COUNT
    &&& exists|i: int|
        0 <= i < p.day_spec(t.0 as int).len() && (#[trigger] p.day_spec(t.0 as int)[i]).book@ == t.1
            && p.day_spec(t.0 as int)[i].chapter == t.2
}

/// An entry of the archive: a highlighted verse under the day it was recorded
/// on; or, when no day records it, under every day of the plan that reads its
/// chapter.
pub open spec fn archived(
    c: Map<Seq<char>, Set<u16>>,
    d: Map<u16, Map<Seq<char>, Set<u16>>>,
    p: Plan,
    t: (u16, Seq<char>, u16, u16),
) -> bool {
    ||| explicit(c, d, t)
    ||| (planned(p, t) && marked_in(c, key_spec(t.1, t.2), t.3) && !explicit_any(c, d, t.1, t.2, t.3))
}

/// All entries of the archive.
pub open spec fn archive_spec(h: Highlights, p: Plan) -> Set<(u16, Seq<char>, u16, u16)> {
    Set::new(|t: (u16, Seq<char>, u16, u16)| archived(h.chapter_map(), h.day_map(), p, t))
}

spec fn chapter_explicit(c: Map<Seq<char>, Set<u16>>, day: u16, vm: VerseMarks, t: (u16, Seq<char>, u16, u16)) -> bool {
    t.0 == day && parse_key_spec(vm.key@) == Some((t.1, t.2)) && vm.verses@.contains(t.3) && marked_in(
        c,
        key_spec(t.1, t.2),
        t.3,
    )
}

spec fn day_explicit(c: Map<Seq<char>, Set<u16>>, dm: DayMarks, t: (u16, Seq<char>, u16, u16)) -> bool {
    1 <= dm.day <= DAY_COUNT && exists|j: int|
        0 <= j < dm.chapters@.len() && chapter_explicit(c, dm.day, #[trigger] dm.chapters@[j], t)
}

spec fn raw_explicit(c: Map<Seq<char>, Set<u16>>, days: Seq<DayMarks>, t: (u16, Seq<char>, u16, u16)) -> bool {
    exists|i: int| 0 <= i < days.len() && day_explicit(c, #[trigger] days[i], t)
}

proof fn lemma_raw_explicit(h: Highlights, t: (u16, Seq<char>, u16, u16))
    requires
        h.wf(),
    ensures
        raw_explicit(h.chapter_map(), h.days@, t) == explicit(h.chapter_map(), h.day_map(), t),
{
    let c = h.chapter_map();
    let d = h.day_map();
    if raw_explicit(c, h.days@, t) {
        let i = choose|i: int| 0 <= i < h.days@.len() && day_explicit(c, #[trigger] h.days@[i], t);
        let dm = h.days@[i];
        let j = choose|j: int| 0 <= j < dm.chapters@.len() && chapter_explicit(c, dm.day, #[trigger] dm.chapters@[j], t);
        lemma_days_at(h.days@, i);
        assert(crate::highlight::marks_wf(dm.chapters@));
        lemma_marks_at(dm.chapters@, j);
        let k = dm.chapters@[j].key@;
        assert(d[t.0].contains_key(k) && parse_key_spec(k) == Some((t.1, t.2)) && d[t.0][k].contains(t.3));
    }
    if explicit(c, d, t) {
        let k = choose|k: Seq<char>|
            #[trigger] d[t.0].contains_key(k) && parse_key_spec(k) == Some((t.1, t.2)) && d[t.0][k].contains(t.3);
        assert(has_key(day_entries(h.days@), t.0));
        let i = choose|i: int| 0 <= i < day_entries(h.days@).len() && (#[trigger] day_entries(h.days@)[i]).0 == t.0;
        assert(day_entries(h.days@)[i] == h.days@[i].entry());
        lemma_days_at(h.days@, i);
        let dm = h.days@[i];
        assert(crate::highlight::marks_wf(dm.chapters@));
        assert(has_key(marks_entries(dm.chapters@), k));
        let j = choose|j: int| 0 <= j < marks_entries(dm.chapters@).len() && (#[trigger] marks_entries(dm.chapters@)[j]).0 == k;
        assert(marks_entries(dm.chapters@)[j] == dm.chapters@[j].entry());
        lemma_marks_at(dm.chapters@, j);
        assert(dm.chapters@[j].verses@.to_set().contains(t.3));
        assert(chapter_explicit(c, dm.day, dm.chapters@[j], t));
        assert(day_explicit(c, h.days@[i], t));
    }
}

/// Adds the highlighted verses of one day's chapter entry.
fn add_explicit_chapter(items: &mut Vec<HighlightItem>, h: &Highlights, day: u16, vm: &VerseMarks)
    requires
        items_sorted(old(items)@),
        h.wf(),
    ensures
        items_sorted(final(items)@),
        item_tuples(final(items)@) == item_tuples(old(items)@).union(
            Set::new(|t: (u16, Seq<char>, u16, u16)| chapter_explicit(h.chapter_map(), day, *vm, t)),
        ),
{
    let ghost c = h.chapter_map();
    match Highlights::parse_key(vm.key.as_str()) {
        None => {
            assert(Set::new(|t: (u16, Seq<char>, u16, u16)| chapter_explicit(c, day, *vm, t)) =~= Set::empty());
            assert(item_tuples(items@).union(Set::empty()) =~= item_tuples(items@));
        },
        Some((b, ch)) => {
            let mut i: usize = 0;
            while i < vm.verses.len()
                invariant
                    i <= vm.verses.len(),
                    h.wf(),
                    c == h.chapter_map(),
                    parse_key_spec(vm.key@) == Some((b@, ch)),
                    items_sorted(items@),
                    item_tuples(items@) == item_tuples(old(items)@).union(
                        Set::new(|t: (u16, Seq<char>, u16, u16)| t.0 == day && t.1 == b@ && t.2 == ch
                            && vm.verses@.take(i as int).contains(t.3) && marked_in(c, key_spec(b@, ch), t.3)),
                    ),
                decreases vm.verses.len() - i,
            {
                let v = vm.verses[i];
                let ghost before = item_tuples(items@);
                if h.is_highlighted(b.as_str(), ch, v) {
                    insert_entry(items, day, &b, ch, v);
                }
                proof {
                    let pre = vm.verses@.take(i as int);
                    let post = vm.verses@.take(i + 1);
                    assert forall|x: u16| post.contains(x) <==> pre.contains(x) || x == v by {
                        if post.contains(x) {
                            let j = choose|j: int| 0 <= j < post.len() && #[trigger] post[j] == x;
                            if j < i {
                                assert(pre[j] == x);
                            }
                        }
                        if pre.contains(x) {
                            let j = choose|j: int| 0 <= j < pre.len() && #[trigger] pre[j] == x;
                            assert(post[j] == x);
                        }
                        if x == v {
                            assert(post[i as int] == v);
                        }
                    }
                    assert(item_tuples(items@) =~= item_tuples(old(items)@).union(
                        Set::new(|t: (u16, Seq<char>, u16, u16)| t.0 == day && t.1 == b@ && t.2 == ch
                            && post.contains(t.3) && marked_in(c, key_spec(b@, ch), t.3)),
                    ));
                }
                i += 1;
            }
            proof {
                assert(vm.verses@.take(vm.verses@.len() as int) =~= vm.verses@);
                assert(Set::new(|t: (u16, Seq<char>, u16, u16)| t.0 == day && t.1 == b@ && t.2 == ch
                    && vm.verses@.contains(t.3) && marked_in(c, key_spec(b@, ch), t.3)) =~= Set::new(
                    |t: (u16, Seq<char>, u16, u16)| chapter_explicit(c, day, *vm, t),
                ));
            }
        },
    }
}

/// Adds the highlighted verses recorded on one reading day of the plan.
fn add_explicit_day(items: &mut Vec<HighlightItem>, h: &Highlights, dm: &DayMarks)
    requires
        items_sorted(old(items)@),
        h.wf(),
    ensures
        items_sorted(final(items)@),
        item_tuples(final(items)@) == item_tuples(old(items)@).union(
            Set::new(|t: (u16, Seq<char>, u16, u16)| day_explicit(h.chapter_map(), *dm, t)),
        ),
{
    let ghost c = h.chapter_map();
    if dm.day < 1 || dm.day > DAY_COUNT {
        assert(Set::new(|t: (u16, Seq<char>, u16, u16)| day_explicit(c, *dm, t)) =~= Set::empty());
        assert(item_tuples(items@).union(Set::empty()) =~= item_tuples(items@));
        return ;
    }
    let mut j: usize = 0;
    proof {
        assert(Set::new(|t: (u16, Seq<char>, u16, u16)| exists|k: int| 0 <= k < 0 && chapter_explicit(c, dm.day, #[trigger] dm.chapters@[k], t)) =~= Set::empty());
        assert(item_tuples(items@).union(Set::empty()) =~= item_tuples(items@));
    }
    while j < dm.chapters.len()
        invariant
            j <= dm.chapters.len(),
            h.wf(),
            c == h.chapter_map(),
            1 <= dm.day <= DAY_COUNT,
            items_sorted(items@),
            item_tuples(items@) == item_tuples(old(items)@).union(
                Set::new(|t: (u16, Seq<char>, u16, u16)| exists|k: int| 0 <= k < j && chapter_explicit(c, dm.day, #[trigger] dm.chapters@[k], t)),
            ),
        decreases dm.chapters.len() - j,
    {
        add_explicit_chapter(items, h, dm.day, &dm.chapters[j]);
        proof {
            assert forall|t: (u16, Seq<char>, u16, u16)| (exists|k: int| 0 <= k < j + 1 && chapter_explicit(c, dm.day, #[trigger] dm.chapters@[k], t))
                <==> (exists|k: int| 0 <= k < j && chapter_explicit(c, dm.day, #[trigger] dm.chapters@[k], t)) || chapter_explicit(c, dm.day, dm.chapters@[j as int], t) by {
                if exists|k: int| 0 <= k < j + 1 && chapter_explicit(c, dm.day, #[trigger] dm.chapters@[k], t) {
                    let k = choose|k: int| 0 <= k < j + 1 && chapter_explicit(c, dm.day, #[trigger] dm.chapters@[k], t);
                    if k < j {
                        assert(exists|k: int| 0 <= k < j && chapter_explicit(c, dm.day, #[trigger] dm.chapters@[k], t));
                    }
                }
            }
            assert(item_tuples(items@) =~= item_tuples(old(items)@).union(
                Set::new(|t: (u16, Seq<char>, u16, u16)| exists|k: int| 0 <= k < j + 1 && chapter_explicit(c, dm.day, #[trigger] dm.chapters@[k], t)),
            ));
        }
        j += 1;
    }
    assert(Set::new(|t: (u16, Seq<char>, u16, u16)| exists|k: int| 0 <= k < dm.chapters@.len() && chapter_explicit(c, dm.day, #[trigger] dm.chapters@[k], t))
        =~= Set::new(|t: (u16, Seq<char>, u16, u16)| day_explicit(c, *dm, t)));
}

/// Adds every highlighted verse recorded on a reading day of the plan.
fn add_explicit_all(items: &mut Vec<HighlightItem>, h: &Highlights)
    requires
        items_sorted(old(items)@),
        h.wf(),
    ensures
        items_sorted(final(items)@),
        item_tuples(final(items)@) == item_tuples(old(items)@).union(
            Set::new(|t: (u16, Seq<char>, u16, u16)| explicit(h.chapter_map(), h.day_map(), t)),
        ),
{
    let ghost c = h.chapter_map();
    let mut i: usize = 0;
    proof {
        assert(Set::new(|t: (u16, Seq<char>, u16, u16)| exists|k: int| 0 <= k < 0 && day_explicit(c, #[trigger] h.days@[k], t)) =~= Set::empty());
        assert(item_tuples(items@).union(Set::empty()) =~= item_tuples(items@));
    }
    while i < h.days.len()
        invariant
            i <= h.days.len(),
            h.wf(),
            c == h.chapter_map(),
            items_sorted(items@),
            item_tuples(items@) == item_tuples(old(items)@).union(
                Set::new(|t: (u16, Seq<char>, u16, u16)| exists|k: int| 0 <= k < i && day_explicit(c, #[trigger] h.days@[k], t)),
            ),
        decreases h.days.len() - i,
    {
        add_explicit_day(items, h, &h.days[i]);
        proof {
            assert forall|t: (u16, Seq<char>, u16, u16)| (exists|k: int| 0 <= k < i + 1 && day_explicit(c, #[trigger] h.days@[k], t))
                <==> (exists|k: int| 0 <= k < i && day_explicit(c, #[trigger] h.days@[k], t)) || day_explicit(c, h.days@[i as int], t) by {
                if exists|k: int| 0 <= k < i + 1 && day_explicit(c, #[trigger] h.days@[k], t) {
                    let k = choose|k: int| 0 <= k < i + 1 && day_explicit(c, #[trigger] h.days@[k], t);
                    if k < i {
                        assert(exists|k: int| 0 <= k < i && day_explicit(c, #[trigger] h.days@[k], t));
                    }
                }
            }
            assert(item_tuples(items@) =~= item_tuples(old(items)@).union(
                Set::new(|t: (u16, Seq<char>, u16, u16)| exists|k: int| 0 <= k < i + 1 && day_explicit(c, #[trigger] h.days@[k], t)),
            ));
        }
        i += 1;
    }
    proof {
        assert forall|t: (u16, Seq<char>, u16, u16)| (exists|k: int| 0 <= k < h.days@.len() && day_explicit(c, #[trigger] h.days@[k], t))
            <==> explicit(c, h.day_map(), t) by {
            lemma_raw_explicit(*h, t);
        }
        assert(Set::new(|t: (u16, Seq<char>, u16, u16)| exists|k: int| 0 <= k < h.days@.len() && day_explicit(c, #[trigger] h.days@[k], t))
            =~= Set::new(|t: (u16, Seq<char>, u16, u16)| explicit(c, h.day_map(), t)));
    }
}

/// Whether the highlighted verse is recorded on some reading day.
fn is_explicit_any(h: &Highlights, book: &String, chapter: u16, verse: u16) -> (res: bool)
    requires
        h.wf(),
    ensures
        res == explicit_any(h.chapter_map(), h.day_map(), book@, chapter, verse),
{
    let ghost c = h.chapter_map();
    let ghost d = h.day_map();
    if !h.is_highlighted(book.as_str(), chapter, verse) {
        return false;
    }
    let bc = chars_of(book.as_str());
    let mut i: usize = 0;
    while i < h.days.len()
        invariant
            i <= h.days.len(),
            h.wf(),
            c == h.chapter_map(),
            d == h.day_map(),
            bc@ == book@,
            marked_in(c, key_spec(book@, chapter), verse),
            forall|k: int| 0 <= k < i ==> !day_explicit(c, #[trigger] h.days@[k], (h.days@[k].day, book@, chapter, verse)),
        decreases h.days.len() - i,
    {
        let dm = &h.days[i];
        if 1 <= dm.day && dm.day <= DAY_COUNT {
            let mut j: usize = 0;
            while j < dm.chapters.len()
                invariant
                    j <= dm.chapters.len(),
                    bc@ == book@,
                    h.wf(),
                    c == h.chapter_map(),
                    d == h.day_map(),
                    i < h.days@.len(),
                    *dm == h.days@[i as int],
                    1 <= dm.day <= DAY_COUNT,
                    forall|k: int| 0 <= k < j ==> !chapter_explicit(c, dm.day, #[trigger] dm.chapters@[k], (dm.day, book@, chapter, verse)),
                    marked_in(c, key_spec(book@, chapter), verse),
                decreases dm.chapters.len() - j,
            {
                let vm = &dm.chapters[j];
                match Highlights::parse_key(vm.key.as_str()) {
                    Some((b, ch)) => {
                        let b2 = chars_of(b.as_str());
                        if ch == chapter && compare_chars(&b2, &bc) == 0 && vec_contains(vm.verses.as_slice(), verse) {
                            proof {
                                let t = (dm.day, book@, chapter, verse);
                                assert(chapter_explicit(c, dm.day, dm.chapters@[j as int], t));
                                assert(day_explicit(c, h.days@[i as int], t));
                                assert(raw_explicit(c, h.days@, t));
                                lemma_raw_explicit(*h, t);
                                assert(explicit(c, d, (dm.day, book@, chapter, verse)));
                            }
                            return true;
                        }
                    },
                    None => {},
                }
                j += 1;
            }
        }
        proof {
            let t = (h.days@[i as int].day, book@, chapter, verse);
            if day_explicit(c, h.days@[i as int], t) {
                let k = choose|k: int| 0 <= k < dm.chapters@.len() && chapter_explicit(c, dm.day, #[trigger] dm.chapters@[k], t);
            }
        }
        i += 1;
    }
    proof {
        if explicit_any(c, d, book@, chapter, verse) {
            let x = choose|x: u16| #[trigger] explicit(c, d, (x, book@, chapter, verse));
            let t = (x, book@, chapter, verse);
            lemma_raw_explicit(*h, t);
            let k = choose|k: int| 0 <= k < h.days@.len() && day_explicit(c, #[trigger] h.days@[k], t);
            assert(h.days@[k].day == x) by {
                let j = choose|j: int| 0 <= j < h.days@[k].chapters@.len() && chapter_explicit(c, h.days@[k].day, #[trigger] h.days@[k].chapters@[j], t);
            }
        }
    }
    false
}

/// The archive entries of the plan's chapters read on day `day` that no
/// reading day records.
spec fn planned_day(h: Highlights, p: Plan, day: u16, t: (u16, Seq<char>, u16, u16)) -> bool {
    t.0 == day && planned(p, t) && marked_in(h.chapter_map(), key_spec(t.1, t.2), t.3) && !explicit_any(
        h.chapter_map(),
        h.day_map(),
        t.1,
        t.2,
        t.3,
    )
}

/// Adds, for the chapters that day `day` of the plan reads, their highlighted
/// verses that no reading day records.
fn add_planned_day(items: &mut Vec<HighlightItem>, h: &Highlights, p: &Plan, day: u16)
    requires
        items_sorted(old(items)@),
        h.wf(),
        1 <= day <= DAY_COUNT,
    ensures
        items_sorted(final(items)@),
        item_tuples(final(items)@) == item_tuples(old(items)@).union(
            Set::new(|t: (u16, Seq<char>, u16, u16)| planned_day(*h, *p, day, t)),
        ),
{
    let ghost c = h.chapter_map();
    let ghost d = h.day_map();
    let refs = p.chapters_for_day(day);
    let ghost ps = p.day_spec(day as int);
    let mut r: usize = 0;
    proof {
        assert(Set::new(|t: (u16, Seq<char>, u16, u16)| t.0 == day && (exists|i: int| 0 <= i < 0 && (#[trigger] ps[i]).book@ == t.1 && ps[i].chapter == t.2)
            && marked_in(c, key_spec(t.1, t.2), t.3) && !explicit_any(c, d, t.1, t.2, t.3)) =~= Set::empty());
        assert(item_tuples(items@).union(Set::empty()) =~= item_tuples(items@));
    }
    while r < refs.len()
        invariant
            r <= refs.len(),
            refs@ == ps,
            h.wf(),
            c == h.chapter_map(),
            d == h.day_map(),
            items_sorted(items@),
            item_tuples(items@) == item_tuples(old(items)@).union(
                Set::new(|t: (u16, Seq<char>, u16, u16)| t.0 == day && (exists|i: int| 0 <= i < r && (#[trigger] ps[i]).book@ == t.1 && ps[i].chapter == t.2)
                    && marked_in(c, key_spec(t.1, t.2), t.3) && !explicit_any(c, d, t.1, t.2, t.3)),
            ),
        decreases refs.len() - r,
    {
        let cr = &refs[r];
        let ghost before = item_tuples(items@);
        let ghost this = Set::new(|t: (u16, Seq<char>, u16, u16)| t.0 == day && t.1 == cr.book@ && t.2 == cr.chapter
            && marked_in(c, key_spec(t.1, t.2), t.3) && !explicit_any(c, d, t.1, t.2, t.3));
        match h.highlighted_verses(cr.book.as_str(), cr.chapter) {
            Some(vs) => {
                let mut i: usize = 0;
                while i < vs.len()
                    invariant
                        i <= vs.len(),
                        h.wf(),
                        c == h.chapter_map(),
                        d == h.day_map(),
                        c.contains_key(key_spec(cr.book@, cr.chapter)),
                        vs@.to_set() == c[key_spec(cr.book@, cr.chapter)],
                        items_sorted(items@),
                        item_tuples(items@) == before.union(
                            Set::new(|t: (u16, Seq<char>, u16, u16)| t.0 == day && t.1 == cr.book@ && t.2 == cr.chapter
                                && vs@.take(i as int).contains(t.3) && !explicit_any(c, d, t.1, t.2, t.3)),
                        ),
                    decreases vs.len() - i,
                {
                    let v = vs[i];
                    if !is_explicit_any(h, &cr.book, cr.chapter, v) {
                        insert_entry(items, day, &cr.book, cr.chapter, v);
                    }
                    proof {
                        let pre = vs@.take(i as int);
                        let post = vs@.take(i + 1);
                        assert forall|x: u16| post.contains(x) <==> pre.contains(x) || x == v by {
                            if post.contains(x) {
                                let j = choose|j: int| 0 <= j < post.len() && #[trigger] post[j] == x;
                                if j < i {
                                    assert(pre[j] == x);
                                }
                            }
                            if pre.contains(x) {
                                let j = choose|j: int| 0 <= j < pre.len() && #[trigger] pre[j] == x;
                                assert(post[j] == x);
                            }
                            if x == v {
                                assert(post[i as int] == v);
                            }
                        }
                        assert(item_tuples(items@) =~= before.union(
                            Set::new(|t: (u16, Seq<char>, u16, u16)| t.0 == day && t.1 == cr.book@ && t.2 == cr.chapter
                                && post.contains(t.3) && !explicit_any(c, d, t.1, t.2, t.3)),
                        ));
                    }
                    i += 1;
                }
                proof {
                    assert(vs@.take(vs@.len() as int) =~= vs@);
                    assert(Set::new(|t: (u16, Seq<char>, u16, u16)| t.0 == day && t.1 == cr.book@ && t.2 == cr.chapter
                        && vs@.contains(t.3) && !explicit_any(c, d, t.1, t.2, t.3)) =~= this) by {
                        assert forall|x: u16| vs@.contains(x) <==> vs@.to_set().contains(x) by {}
                    }
                }
            },
            None => {
                proof {
                    assert(this =~= Set::empty());
                    assert(before.union(Set::empty()) =~= before);
                }
            },
        }
        proof {
            assert(ps[r as int] == *cr);
            assert forall|t: (u16, Seq<char>, u16, u16)| (exists|i: int| 0 <= i < r + 1 && (#[trigger] ps[i]).book@ == t.1 && ps[i].chapter == t.2)
                <==> (exists|i: int| 0 <= i < r && (#[trigger] ps[i]).book@ == t.1 && ps[i].chapter == t.2) || (t.1 == cr.book@ && t.2 == cr.chapter) by {
                if exists|i: int| 0 <= i < r + 1 && (#[trigger] ps[i]).book@ == t.1 && ps[i].chapter == t.2 {
                    let i = choose|i: int| 0 <= i < r + 1 && (#[trigger] ps[i]).book@ == t.1 && ps[i].chapter == t.2;
                    if i < r {
                        assert(exists|i: int| 0 <= i < r && (#[trigger] ps[i]).book@ == t.1 && ps[i].chapter == t.2);
                    }
                }
            }
            assert(item_tuples(items@) =~= item_tuples(old(items)@).union(
                Set::new(|t: (u16, Seq<char>, u16, u16)| t.0 == day && (exists|i: int| 0 <= i < r + 1 && (#[trigger] ps[i]).book@ == t.1 && ps[i].chapter == t.2)
                    && marked_in(c, key_spec(t.1, t.2), t.3) && !explicit_any(c, d, t.1, t.2, t.3)),
            ));
        }
        r += 1;
    }
    proof {
        assert(Set::new(|t: (u16, Seq<char>, u16, u16)| t.0 == day && (exists|i: int| 0 <= i < ps.len() && (#[trigger] ps[i]).book@ == t.1 && ps[i].chapter == t.2)
            && marked_in(c, key_spec(t.1, t.2), t.3) && !explicit_any(c, d, t.1, t.2, t.3))
            =~= Set::new(|t: (u16, Seq<char>, u16, u16)| planned_day(*h, *p, day, t)));
    }
}

/// The highlight archive of `h` under plan `p`: its entries, grouped by day
/// and chapter, in order of day, book name and chapter, verses ascending.
pub fn highlight_items(h: &Highlights, p: &Plan) -> (res: Vec<HighlightItem>)
    requires
        h.wf(),
    ensures
        items_sorted(res@),
        item_tuples(res@) == archive_spec(*h, *p),
{
    let mut items: Vec<HighlightItem> = Vec::new();
    proof {
        assert(item_tuples(items@) =~= Set::empty());
    }
    add_explicit_all(&mut items, h);
    let ghost after_a = item_tuples(items@);
    let mut day: u16 = 1;
    proof {
        assert(Set::new(|t: (u16, Seq<char>, u16, u16)| 1 <= t.0 < 1 && planned_day(*h, *p, t.0, t)) =~= Set::empty());
        assert(after_a.union(Set::empty()) =~= after_a);
    }
    while day <= DAY_COUNT
        invariant
            1 <= day <= DAY_COUNT + 1,
            h.wf(),
            items_sorted(items@),
            item_tuples(items@) == after_a.union(
                Set::new(|t: (u16, Seq<char>, u16, u16)| 1 <= t.0 < day && planned_day(*h, *p, t.0, t)),
            ),
        decreases DAY_COUNT + 1 - day,
    {
        add_planned_day(&mut items, h, p, day);
        proof {
            assert(item_tuples(items@) =~= after_a.union(
                Set::new(|t: (u16, Seq<char>, u16, u16)| 1 <= t.0 < day + 1 && planned_day(*h, *p, t.0, t)),
            ));
        }
        day += 1;
    }
    proof {
        assert(item_tuples(items@) =~= archive_spec(*h, *p));
    }
    items
}

/// The (day, book, chapter) of an item.
pub open spec fn item_key(it: HighlightItem) -> (u16, Seq<char>, u16) {
    (it.day, it.book@, it.chapter)
}

/// The (day, book, chapter) groups of the archive.
pub open spec fn archive_groups(h: Highlights, p: Plan) -> Set<(u16, Seq<char>, u16)> {
    Set::new(
        |g: (u16, Seq<char>, u16)|
            exists|v: u16| #[trigger] archived(h.chapter_map(), h.day_map(), p, (g.0, g.1, g.2, v)),
    )
}

/// A sorted list of items holding the archive has one item per group.
pub proof fn lemma_items_count(items: Seq<HighlightItem>, h: Highlights, p: Plan)
    requires
        items_sorted(items),
        item_tuples(items) == archive_spec(h, p),
    ensures
        items.len() == archive_groups(h, p).len(),
        archive_groups(h, p).finite(),
{
    let keys = items.map_values(|it: HighlightItem| item_key(it));
    assert forall|a: int, b: int| 0 <= a < keys.len() && 0 <= b < keys.len() && a != b implies keys[a] != keys[b] by {
        if a < b {
            assert(item_lt(items[a], items[b]));
        } else {
            assert(item_lt(items[b], items[a]));
        }
        lemma_key_lt_total(items[a].day, items[a].book@, items[a].chapter, items[b].day, items[b].book@, items[b].chapter);
    }
    assert(keys.no_duplicates());
    assert forall|g: (u16, Seq<char>, u16)| keys.to_set().contains(g) <==> archive_groups(h, p).contains(g) by {
        if keys.to_set().contains(g) {
            let i = choose|i: int| 0 <= i < keys.len() && keys[i] == g;
            let v = items[i].verses@[0];
            assert(items[i].verses@.contains(v));
            assert(item_tuples(items).contains((g.0, g.1, g.2, v)));
            assert(archived(h.chapter_map(), h.day_map(), p, (g.0, g.1, g.2, v)));
        }
        if archive_groups(h, p).contains(g) {
            let v = choose|v: u16| #[trigger] archived(h.chapter_map(), h.day_map(), p, (g.0, g.1, g.2, v));
            assert(archive_spec(h, p).contains((g.0, g.1, g.2, v)));
            let i = choose|i: int| 0 <= i < items.len() && (#[trigger] items[i]).day == g.0 && items[i].book@ == g.1 && items[i].chapter == g.2 && items[i].verses@.contains(v);
            assert(keys[i] == g);
        }
    }
    assert(keys.to_set() =~= archive_groups(h, p));
    keys.unique_seq_to_set();
}


/// An entry's key never comes before itself.
proof fn lemma_key_lt_irreflexive(d: u16, b: Seq<char>, c: u16)
    ensures
        !key_lt(d, b, c, d, b, c),
{
    crate::text::lemma_str_lt_irreflexive(b);
}

/// Whether the key of `it` is that of the entry `t`.
spec fn has_key_of(it: HighlightItem, t: (u16, Seq<char>, u16, u16)) -> bool {
    it.day == t.0 && it.book@ == t.1 && it.chapter == t.2
}

/// In a sorted list, an entry with the first item's key belongs to the
/// first item, and the rest hold the entries with other keys.
proof fn lemma_first_item(a: Seq<HighlightItem>, t: (u16, Seq<char>, u16, u16))
    requires
        items_sorted(a),
        a.len() > 0,
    ensures
        item_tuples(a).contains(t) <==> (has_key_of(a[0], t) && a[0].verses@.contains(t.3)) || item_tuples(a.drop_first()).contains(t),
        item_tuples(a.drop_first()).contains(t) ==> !has_key_of(a[0], t),
{
    if item_tuples(a).contains(t) {
        let i = choose|i: int| 0 <= i < a.len() && (#[trigger] a[i]).day == t.0 && a[i].book@ == t.1 && a[i].chapter == t.2 && a[i].verses@.contains(t.3);
        if i > 0 {
            assert(a.drop_first()[i - 1] == a[i]);
        }
    }
    if item_tuples(a.drop_first()).contains(t) {
        let i = choose|i: int| 0 <= i < a.drop_first().len() && (#[trigger] a.drop_first()[i]).day == t.0 && a.drop_first()[i].book@ == t.1 && a.drop_first()[i].chapter == t.2 && a.drop_first()[i].verses@.contains(t.3);
        assert(a[i + 1] == a.drop_first()[i]);
        assert(item_lt(a[0], a[i + 1]));
        if has_key_of(a[0], t) {
            lemma_key_lt_irreflexive(t.0, t.1, t.2);
        }
    }
    if has_key_of(a[0], t) && a[0].verses@.contains(t.3) {
        assert(item_tuples(a).contains(t));
    }
}

/// The archive is determined by its entries: two sorted lists of items that
/// hold the same (day, book, chapter, verse) entries have the same items,
/// in the same order.
pub proof fn law_archive_determined(a: Seq<HighlightItem>, b: Seq<HighlightItem>)
    requires
        items_sorted(a),
        items_sorted(b),
        item_tuples(a) == item_tuples(b),
    ensures
        a.len() == b.len(),
        forall|i: int|
            0 <= i < a.len() ==> (#[trigger] a[i]).day == b[i].day && a[i].book@ == b[i].book@ && a[i].chapter == b[i].chapter
                && a[i].verses@ == b[i].verses@,
    decreases a.len(),
{
    if a.len() == 0 || b.len() == 0 {
        if a.len() > 0 {
            let v = a[0].verses@[0];
            assert(item_tuples(a).contains((a[0].day, a[0].book@, a[0].chapter, v)));
        }
        if b.len() > 0 {
            let v = b[0].verses@[0];
            assert(item_tuples(b).contains((b[0].day, b[0].book@, b[0].chapter, v)));
        }
        return;
    }
    let a0 = a[0];
    let b0 = b[0];
    // The first keys agree: each list holds an entry of the other's first key.
    let va = a0.verses@[0];
    let ta = (a0.day, a0.book@, a0.chapter, va);
    lemma_first_item(a, ta);
    lemma_first_item(b, ta);
    let vb = b0.verses@[0];
    let tb = (b0.day, b0.book@, b0.chapter, vb);
    lemma_first_item(a, tb);
    lemma_first_item(b, tb);
    if !has_key_of(b0, ta) {
        let j = choose|j: int| 0 <= j < b.drop_first().len() && (#[trigger] b.drop_first()[j]).day == ta.0 && b.drop_first()[j].book@ == ta.1 && b.drop_first()[j].chapter == ta.2 && b.drop_first()[j].verses@.contains(ta.3);
        assert(b[j + 1] == b.drop_first()[j]);
        assert(item_lt(b0, b[j + 1]));
        assert(!has_key_of(a0, tb));
        let i = choose|i: int| 0 <= i < a.drop_first().len() && (#[trigger] a.drop_first()[i]).day == tb.0 && a.drop_first()[i].book@ == tb.1 && a.drop_first()[i].chapter == tb.2 && a.drop_first()[i].verses@.contains(tb.3);
        assert(a[i + 1] == a.drop_first()[i]);
        assert(item_lt(a0, a[i + 1]));
        lemma_key_lt_transitive(a0.day, a0.book@, a0.chapter, b0.day, b0.book@, b0.chapter, a0.day, a0.book@, a0.chapter);
        lemma_key_lt_irreflexive(a0.day, a0.book@, a0.chapter);
    }
    assert(has_key_of(b0, ta));
    // The first items hold the same verses.
    assert forall|v: u16| a0.verses@.to_set().contains(v) <==> b0.verses@.to_set().contains(v) by {
        let t = (a0.day, a0.book@, a0.chapter, v);
        lemma_first_item(a, t);
        lemma_first_item(b, t);
        assert(a0.verses@.to_set().contains(v) == a0.verses@.contains(v));
        assert(b0.verses@.to_set().contains(v) == b0.verses@.contains(v));
    }
    assert(a0.verses@.to_set() =~= b0.verses@.to_set());
    crate::view::lemma_increasing_unique(a0.verses@, b0.verses@);
    // The rest hold the same entries.
    let ra = a.drop_first();
    let rb = b.drop_first();
    assert forall|t: (u16, Seq<char>, u16, u16)| item_tuples(ra).contains(t) <==> item_tuples(rb).contains(t) by {
        lemma_first_item(a, t);
        lemma_first_item(b, t);
    }
    assert(item_tuples(ra) =~= item_tuples(rb));
    assert(items_sorted(ra)) by {
        assert forall|x: int, y: int| 0 <= x < y < ra.len() implies item_lt(#[trigger] ra[x], #[trigger] ra[y]) by {
            assert(ra[x] == a[x + 1] && ra[y] == a[y + 1]);
        }
        assert forall|x: int| 0 <= x < ra.len() implies increasing((#[trigger] ra[x]).verses@) && ra[x].verses@.len() > 0 by {
            assert(ra[x] == a[x + 1]);
        }
    }
    assert(items_sorted(rb)) by {
        assert forall|x: int, y: int| 0 <= x < y < rb.len() implies item_lt(#[trigger] rb[x], #[trigger] rb[y]) by {
            assert(rb[x] == b[x + 1] && rb[y] == b[y + 1]);
        }
        assert forall|x: int| 0 <= x < rb.len() implies increasing((#[trigger] rb[x]).verses@) && rb[x].verses@.len() > 0 by {
            assert(rb[x] == b[x + 1]);
        }
    }
    law_archive_determined(ra, rb);
    assert forall|i: int| 0 <= i < a.len() implies (#[trigger] a[i]).day == b[i].day && a[i].book@ == b[i].book@ && a[i].chapter == b[i].chapter
        && a[i].verses@ == b[i].verses@ by {
        if i > 0 {
            assert(a[i] == ra[i - 1] && b[i] == rb[i - 1]);
        }
    }
}

} // verus!
