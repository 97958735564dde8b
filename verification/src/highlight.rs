//! Verse highlights: a global index from chapter key (`"Book:chapter"`) to
//! highlighted verse numbers, and an index by reading day.
use vstd::prelude::*;

use crate::assoc::{
    assoc, has_key, keys_distinct, lemma_assoc_absent, lemma_assoc_at, lemma_assoc_empty,
    lemma_assoc_push, lemma_assoc_remove, lemma_assoc_update,
};
use crate::text::{
    chars_of, compare_chars, dec, lemma_dec, lemma_parse_dec, parse_u16_chars, parse_u16_spec,
    push_chars, push_dec, string_from_range, string_push,
};

verus! {

broadcast use vstd::seq_lib::group_seq_properties;

/// The highlighted verses of one chapter, under its key `"Book:chapter"`.
pub struct VerseMarks {
    pub key: String,
    pub verses: Vec<u16>,
}

/// The chapters highlighted while reading one day of the plan.
pub struct DayMarks {
    pub day: u16,
    pub chapters: Vec<VerseMarks>,
}

/// All highlights: `chapters` decides whether a verse is highlighted; `days`
/// records on which reading day each highlight was made.
pub struct Highlights {
    pub chapters: Vec<VerseMarks>,
    pub days: Vec<DayMarks>,
}

// ---------------------------------------------------------------------------
// The model
// ---------------------------------------------------------------------------
impl VerseMarks {
    pub open spec fn entry(self) -> (Seq<char>, Set<u16>) {
        (self.key@, self.verses@.to_set())
    }
}

pub open spec fn marks_entries(s: Seq<VerseMarks>) -> Seq<(Seq<char>, Set<u16>)> {
    s.map_values(|m: VerseMarks| m.entry())
}

/// A list of chapter marks is well formed when no key occurs twice.
pub open spec fn marks_wf(s: Seq<VerseMarks>) -> bool {
    keys_distinct(marks_entries(s))
}

/// The map from chapter key to highlighted verses that a list stands for.
pub open spec fn marks_map(s: Seq<VerseMarks>) -> Map<Seq<char>, Set<u16>> {
    assoc(marks_entries(s))
}

impl DayMarks {
    pub open spec fn entry(self) -> (u16, Map<Seq<char>, Set<u16>>) {
        (self.day, marks_map(self.chapters@))
    }
}

pub open spec fn day_entries(s: Seq<DayMarks>) -> Seq<(u16, Map<Seq<char>, Set<u16>>)> {
    s.map_values(|d: DayMarks| d.entry())
}

/// No day occurs twice, and each day's chapter list is well formed.
pub open spec fn days_wf(s: Seq<DayMarks>) -> bool {
    &&& keys_distinct(day_entries(s))
    &&& forall|i: int| 0 <= i < s.len() ==> marks_wf(#[trigger] s[i].chapters@)
}

pub open spec fn days_map(s: Seq<DayMarks>) -> Map<u16, Map<Seq<char>, Set<u16>>> {
    assoc(day_entries(s))
}

impl Highlights {
    pub open spec fn wf(self) -> bool {
        marks_wf(self.chapters@) && days_wf(self.days@)
    }

    /// Chapter key to highlighted verses.
    pub open spec fn chapter_map(self) -> Map<Seq<char>, Set<u16>> {
        marks_map(self.chapters@)
    }

    /// Reading day to (chapter key to verses highlighted on that day).
    pub open spec fn day_map(self) -> Map<u16, Map<Seq<char>, Set<u16>>> {
        days_map(self.days@)
    }

    /// Whether `verse` of the chapter with key `k` is highlighted.
    pub open spec fn marked(self, k: Seq<char>, verse: u16) -> bool {
        marked_in(self.chapter_map(), k, verse)
    }

    /// No verse set is empty and no day is empty.
    pub open spec fn tidy(self) -> bool {
        tidy_maps(self.chapter_map(), self.day_map())
    }
}

/// Whether `verse` of the chapter with key `k` is in the index `c`.
pub open spec fn marked_in(c: Map<Seq<char>, Set<u16>>, k: Seq<char>, verse: u16) -> bool {
    c.contains_key(k) && c[k].contains(verse)
}

/// No chapter of `c` has an empty verse set; no day of `d` is empty and no
/// chapter of a day has an empty verse set.
pub open spec fn tidy_maps(c: Map<Seq<char>, Set<u16>>, d: Map<u16, Map<Seq<char>, Set<u16>>>) -> bool {
    &&& forall|k: Seq<char>| #[trigger] c.contains_key(k) ==> !c[k].is_empty()
    &&& forall|x: u16| #[trigger] d.contains_key(x) ==> !d[x].dom().is_empty()
    &&& forall|x: u16, k: Seq<char>| #[trigger] d.contains_key(x) && #[trigger] d[x].contains_key(k)
        ==> !d[x][k].is_empty()
}

/// The global index after toggling `verse` of chapter `k`.
pub open spec fn toggled_chapters(c: Map<Seq<char>, Set<u16>>, k: Seq<char>, verse: u16) -> Map<
    Seq<char>,
    Set<u16>,
> {
    if marked_in(c, k, verse) {
        strip(c, k, set![verse])
    } else {
        add_marks(c, k, set![verse])
    }
}

/// The day index after toggling `verse` of chapter `k` on day `day`, where `c`
/// is the global index before the toggle.
pub open spec fn toggled_days(
    c: Map<Seq<char>, Set<u16>>,
    d: Map<u16, Map<Seq<char>, Set<u16>>>,
    k: Seq<char>,
    verse: u16,
    day: u16,
) -> Map<u16, Map<Seq<char>, Set<u16>>> {
    if marked_in(c, k, verse) {
        days_strip(d, k, set![verse])
    } else {
        days_add(d, day, k, set![verse])
    }
}

/// The key of a chapter: the book's name, a colon, and the chapter number.
pub open spec fn key_spec(book: Seq<char>, chapter: u16) -> Seq<char> {
    book + seq![':'] + dec(chapter as nat)
}

/// The index of the last colon of `k`, or -1.
pub open spec fn last_colon(k: Seq<char>) -> int
    decreases k.len(),
{
    if k.len() == 0 {
        -1
    } else if k.last() == ':' {
        k.len() - 1
    } else {
        last_colon(k.drop_last())
    }
}

/// Splitting a key at its last colon: the book and the parsed chapter number.
pub open spec fn parse_key_spec(k: Seq<char>) -> Option<(Seq<char>, u16)> {
    let i = last_colon(k);
    if i < 0 {
        None
    } else {
        match parse_u16_spec(k.skip(i + 1)) {
            Some(c) => Some((k.take(i), c)),
            None => None,
        }
    }
}

/// `m` with `vs` added to the verses of key `k`.
pub open spec fn add_marks(m: Map<Seq<char>, Set<u16>>, k: Seq<char>, vs: Set<u16>) -> Map<
    Seq<char>,
    Set<u16>,
> {
    m.insert(
        k,
        if m.contains_key(k) {
            m[k].union(vs)
        } else {
            vs
        },
    )
}

/// `m` with `vs` taken out of the verses of key `k`; a key left with no
/// verses goes.
pub open spec fn strip(m: Map<Seq<char>, Set<u16>>, k: Seq<char>, vs: Set<u16>) -> Map<
    Seq<char>,
    Set<u16>,
> {
    if m.contains_key(k) {
        let s = m[k].difference(vs);
        if s.is_empty() {
            m.remove(k)
        } else {
            m.insert(k, s)
        }
    } else {
        m
    }
}

/// The day index with `vs` added to key `k` on day `day`.
pub open spec fn days_add(
    d: Map<u16, Map<Seq<char>, Set<u16>>>,
    day: u16,
    k: Seq<char>,
    vs: Set<u16>,
) -> Map<u16, Map<Seq<char>, Set<u16>>> {
    d.insert(
        day,
        add_marks(
            if d.contains_key(day) {
                d[day]
            } else {
                Map::empty()
            },
            k,
            vs,
        ),
    )
}

/// The day index with `vs` taken out of key `k` on every day; a day left with
/// no chapters goes.
pub open spec fn days_strip(d: Map<u16, Map<Seq<char>, Set<u16>>>, k: Seq<char>, vs: Set<u16>) -> Map<
    u16,
    Map<Seq<char>, Set<u16>>,
> {
    Map::new(
        |x: u16| d.contains_key(x) && !strip(d[x], k, vs).dom().is_empty(),
        |x: u16| strip(d[x], k, vs),
    )
}

// ---------------------------------------------------------------------------
// Lemmas
// ---------------------------------------------------------------------------
proof fn lemma_last_colon_at(k: Seq<char>, p: int)
    requires
        0 <= p < k.len(),
        k[p] == ':',
        forall|j: int| p < j < k.len() ==> k[j] != ':',
    ensures
        last_colon(k) == p,
    decreases k.len(),
{
    if k.last() != ':' {
        assert(p < k.len() - 1);
        lemma_last_colon_at(k.drop_last(), p);
    }
}

proof fn lemma_last_colon_none(k: Seq<char>)
    requires
        forall|j: int| 0 <= j < k.len() ==> k[j] != ':',
    ensures
        last_colon(k) == -1,
    decreases k.len(),
{
    if k.len() > 0 {
        lemma_last_colon_none(k.drop_last());
    }
}

/// Reading back the key of a chapter gives the book and the chapter.
pub proof fn lemma_parse_key_of_key(book: Seq<char>, chapter: u16)
    ensures
        parse_key_spec(key_spec(book, chapter)) == Some((book, chapter)),
{
    let k = key_spec(book, chapter);
    let d = dec(chapter as nat);
    lemma_dec(chapter as nat);
    let p = book.len() as int;
    assert forall|j: int| p < j < k.len() implies k[j] != ':' by {
        assert(k[j] == d[j - p - 1]);
        assert(d.contains(d[j - p - 1]));
    }
    lemma_last_colon_at(k, p);
    assert(k.skip(p + 1) =~= d);
    assert(k.take(p) =~= book);
    lemma_parse_dec(chapter);
}

proof fn lemma_marks_map_empty(s: Seq<VerseMarks>)
    ensures
        marks_map(s).dom().is_empty() <==> s.len() == 0,
{
    if s.len() > 0 {
        assert(marks_entries(s)[0].0 == s[0].key@);
        assert(has_key(marks_entries(s), s[0].key@));
        assert(marks_map(s).dom().contains(s[0].key@));
    } else {
        assert(marks_map(s).dom() =~= Set::<Seq<char>>::empty());
    }
}

proof fn lemma_to_set_empty(s: Seq<u16>)
    ensures
        s.to_set().is_empty() <==> s.len() == 0,
{
    if s.len() > 0 {
        assert(s.to_set().contains(s[0]));
    } else {
        assert(s.to_set() =~= Set::<u16>::empty());
    }
}

/// Taking out one set of verses and then another is taking out both.
proof fn lemma_strip_strip(m: Map<Seq<char>, Set<u16>>, k: Seq<char>, a: Set<u16>, b: Set<u16>)
    ensures
        strip(strip(m, k, a), k, b) == strip(m, k, a.union(b)),
        strip(m, k, a.union(b)).dom().subset_of(strip(m, k, a).dom()),
{
    if m.contains_key(k) {
        let s1 = m[k].difference(a);
        assert(m[k].difference(a.union(b)) =~= s1.difference(b));
        if s1.is_empty() {
            assert(s1.difference(b) =~= Set::<u16>::empty());
            assert(strip(strip(m, k, a), k, b) =~= strip(m, k, a.union(b)));
        } else {
            assert(strip(strip(m, k, a), k, b) =~= strip(m, k, a.union(b)));
        }
    }
}

proof fn lemma_days_strip_twice(
    d: Map<u16, Map<Seq<char>, Set<u16>>>,
    k: Seq<char>,
    a: Set<u16>,
    b: Set<u16>,
)
    ensures
        days_strip(days_strip(d, k, a), k, b) == days_strip(d, k, a.union(b)),
{
    let l = days_strip(days_strip(d, k, a), k, b);
    let r = days_strip(d, k, a.union(b));
    assert forall|x: u16| #[trigger] l.contains_key(x) == r.contains_key(x) by {
        if d.contains_key(x) {
            lemma_strip_strip(d[x], k, a, b);
            if !strip(d[x], k, a.union(b)).dom().is_empty() {
                let w = choose|w: Seq<char>| strip(d[x], k, a.union(b)).dom().contains(w);
                assert(strip(d[x], k, a).dom().contains(w));
            }
        }
    }
    assert forall|x: u16| #[trigger] l.contains_key(x) implies l[x] == r[x] by {
        lemma_strip_strip(d[x], k, a, b);
    }
    assert(l =~= r);
}

// ---------------------------------------------------------------------------
// Verse lists
// ---------------------------------------------------------------------------
/// Whether `v` occurs in `vs`.
pub fn vec_contains(vs: &[u16], v: u16) -> (res: bool)
    ensures
        res == vs@.contains(v),
{
    let mut i: usize = 0;
    while i < vs.len()
        invariant
            i <= vs.len(),
            forall|j: int| 0 <= j < i ==> vs@[j] != v,
        decreases vs.len() - i,
    {
        if vs[i] == v {
            assert(vs@[i as int] == v);
            return true;
        }
        i += 1;
    }
    false
}

/// Adds `v` to the set that `vs` stands for.
fn set_insert(vs: &mut Vec<u16>, v: u16)
    ensures
        final(vs)@.to_set() == old(vs)@.to_set().insert(v),
        final(vs)@.len() > 0,
{
    if !vec_contains(vs.as_slice(), v) {
        vs.push(v);
        assert(vs@.to_set() =~= old(vs)@.to_set().insert(v)) by {
            assert(vs@[vs@.len() - 1] == v);
            assert forall|x: u16| old(vs)@.contains(x) implies vs@.contains(x) by {
                let j = choose|j: int| 0 <= j < old(vs)@.len() && #[trigger] old(vs)@[j] == x;
                assert(vs@[j] == x);
            }
            assert forall|x: u16| vs@.contains(x) implies old(vs)@.contains(x) || x == v by {
                let j = choose|j: int| 0 <= j < vs@.len() && #[trigger] vs@[j] == x;
                if j < old(vs)@.len() {
                    assert(old(vs)@[j] == x);
                }
            }
        }
    } else {
        assert(vs@.to_set() =~= old(vs)@.to_set().insert(v));
    }
}

/// Adds every verse of `more` to the set that `vs` stands for.
fn set_insert_all(vs: &mut Vec<u16>, more: &[u16])
    ensures
        final(vs)@.to_set() == old(vs)@.to_set().union(more@.to_set()),
{
    let mut i: usize = 0;
    while i < more.len()
        invariant
            i <= more.len(),
            vs@.to_set() == old(vs)@.to_set().union(more@.take(i as int).to_set()),
        decreases more.len() - i,
    {
        set_insert(vs, more[i]);
        proof {
            assert(more@.take(i + 1).to_set() =~= more@.take(i as int).to_set().insert(more@[i as int])) by {
                assert(more@.take(i + 1) =~= more@.take(i as int).push(more@[i as int]));
                assert forall|x: u16| more@.take(i + 1).contains(x) implies more@.take(i as int).contains(x) || x == more@[i as int] by {
                    let j = choose|j: int| 0 <= j < i + 1 && #[trigger] more@.take(i + 1)[j] == x;
                    if j < i {
                        assert(more@.take(i as int)[j] == x);
                    }
                }
                assert forall|x: u16| more@.take(i as int).contains(x) implies more@.take(i + 1).contains(x) by {
                    let j = choose|j: int| 0 <= j < i && #[trigger] more@.take(i as int)[j] == x;
                    assert(more@.take(i + 1)[j] == x);
                }
                assert(more@.take(i + 1)[i as int] == more@[i as int]);
            }
            assert(vs@.to_set() =~= old(vs)@.to_set().union(more@.take(i + 1).to_set()));
        }
        i += 1;
    }
    assert(more@.take(more@.len() as int) =~= more@);
}

/// The verses of `vs` that are not in `rm`.
fn set_difference(vs: &Vec<u16>, rm: &[u16]) -> (res: Vec<u16>)
    ensures
        res@.to_set() == vs@.to_set().difference(rm@.to_set()),
{
    let mut out: Vec<u16> = Vec::new();
    let mut i: usize = 0;
    while i < vs.len()
        invariant
            i <= vs.len(),
            out@.to_set() == vs@.take(i as int).to_set().difference(rm@.to_set()),
        decreases vs.len() - i,
    {
        let v = vs[i];
        let inside = vec_contains(rm, v);
        let ghost old_out = out@;
        if !inside {
            out.push(v);
        }
        proof {
            let before = vs@.take(i as int);
            let after = vs@.take(i + 1);
            assert forall|x: u16| after.contains(x) <==> before.contains(x) || x == v by {
                if after.contains(x) {
                    let j = choose|j: int| 0 <= j < after.len() && #[trigger] after[j] == x;
                    if j < i {
                        assert(before[j] == x);
                    }
                }
                if before.contains(x) {
                    let j = choose|j: int| 0 <= j < before.len() && #[trigger] before[j] == x;
                    assert(after[j] == x);
                }
                if x == v {
                    assert(after[i as int] == v);
                }
            }
            assert forall|x: u16| out@.contains(x) <==> old_out.contains(x) || (!inside && x == v) by {
                if out@.contains(x) {
                    let j = choose|j: int| 0 <= j < out@.len() && #[trigger] out@[j] == x;
                    if j < old_out.len() {
                        assert(old_out[j] == x);
                    }
                }
                if old_out.contains(x) {
                    let j = choose|j: int| 0 <= j < old_out.len() && #[trigger] old_out[j] == x;
                    assert(out@[j] == x);
                }
                if !inside && x == v {
                    assert(out@[out@.len() - 1] == v);
                }
            }
            assert forall|x: u16| #[trigger] out@.to_set().contains(x) == after.to_set().difference(rm@.to_set()).contains(x) by {
                assert(old_out.to_set().contains(x) == before.to_set().difference(rm@.to_set()).contains(x));
                assert(out@.to_set().contains(x) == out@.contains(x));
                assert(old_out.to_set().contains(x) == old_out.contains(x));
                assert(after.to_set().contains(x) == after.contains(x));
                assert(before.to_set().contains(x) == before.contains(x));
                assert(rm@.to_set().contains(x) == rm@.contains(x));
            }
            assert(out@.to_set() =~= after.to_set().difference(rm@.to_set()));
        }
        i += 1;
    }
    assert(vs@.take(vs@.len() as int) =~= vs@);
    out
}

// ---------------------------------------------------------------------------
// Chapter mark lists
// ---------------------------------------------------------------------------
/// The position of the marks under `key`, if any.
pub fn find_marks(s: &Vec<VerseMarks>, key: &Vec<char>) -> (res: Option<usize>)
    ensures
        match res {
            Some(i) => i < s@.len() && s@[i as int].key@ == key@,
            None => !has_key(marks_entries(s@), key@),
        },
{
    let mut i: usize = 0;
    while i < s.len()
        invariant
            i <= s.len(),
            forall|j: int| 0 <= j < i ==> s@[j].key@ != key@,
        decreases s.len() - i,
    {
        let k = chars_of(s[i].key.as_str());
        if compare_chars(&k, key) == 0 {
            return Some(i);
        }
        i += 1;
    }
    assert forall|j: int| 0 <= j < s@.len() implies (#[trigger] marks_entries(s@)[j]).0 != key@ by {
        assert(marks_entries(s@)[j] == s@[j].entry());
    }
    None
}

pub proof fn lemma_marks_at(s: Seq<VerseMarks>, i: int)
    requires
        marks_wf(s),
        0 <= i < s.len(),
    ensures
        marks_map(s).contains_key(s[i].key@),
        marks_map(s)[s[i].key@] == s[i].verses@.to_set(),
{
    assert(marks_entries(s)[i] == s[i].entry());
    lemma_assoc_at(marks_entries(s), i);
}

/// Replacing the entry at `i` by one with the same key.
proof fn lemma_marks_replace(s: Seq<VerseMarks>, i: int, m: VerseMarks)
    requires
        marks_wf(s),
        0 <= i < s.len(),
        m.key@ == s[i].key@,
    ensures
        marks_wf(s.update(i, m)),
        marks_map(s.update(i, m)) == marks_map(s).insert(m.key@, m.verses@.to_set()),
{
    let e = marks_entries(s);
    assert(e[i] == s[i].entry());
    assert(marks_entries(s.update(i, m)) =~= e.update(i, (e[i].0, m.verses@.to_set())));
    lemma_assoc_update(e, i, m.verses@.to_set());
}

proof fn lemma_marks_drop(s: Seq<VerseMarks>, i: int)
    requires
        marks_wf(s),
        0 <= i < s.len(),
    ensures
        marks_wf(s.remove(i)),
        marks_map(s.remove(i)) == marks_map(s).remove(s[i].key@),
{
    let e = marks_entries(s);
    assert(e[i] == s[i].entry());
    assert(marks_entries(s.remove(i)) =~= e.remove(i));
    lemma_assoc_remove(e, i);
}

proof fn lemma_marks_append(s: Seq<VerseMarks>, m: VerseMarks)
    requires
        marks_wf(s),
        !has_key(marks_entries(s), m.key@),
    ensures
        marks_wf(s.push(m)),
        marks_map(s.push(m)) == marks_map(s).insert(m.key@, m.verses@.to_set()),
{
    let e = marks_entries(s);
    assert(marks_entries(s.push(m)) =~= e.push(m.entry()));
    lemma_assoc_push(e, m.key@, m.verses@.to_set());
}

/// Adds the verses `vs` to the key `key` (creating it, also when `vs` is empty).
fn marks_add(s: &mut Vec<VerseMarks>, key: &String, vs: &[u16])
    requires
        marks_wf(old(s)@),
    ensures
        marks_wf(final(s)@),
        marks_map(final(s)@) == add_marks(marks_map(old(s)@), key@, vs@.to_set()),
{
    let kc = chars_of(key.as_str());
    match find_marks(s, &kc) {
        Some(i) => {
            let mut m = s.remove(i);
            proof {
                lemma_marks_at(old(s)@, i as int);
            }
            set_insert_all(&mut m.verses, vs);
            s.insert(i, m);
            proof {
                assert(s@ =~= old(s)@.update(i as int, m));
                lemma_marks_replace(old(s)@, i as int, m);
            }
        },
        None => {
            let mut verses: Vec<u16> = Vec::new();
            set_insert_all(&mut verses, vs);
            let m = VerseMarks { key: key.clone(), verses };
            s.push(m);
            proof {
                assert(verses@.to_set() =~= vs@.to_set()) by {
                    assert(Seq::<u16>::empty().to_set() =~= Set::<u16>::empty());
                }
                lemma_marks_append(old(s)@, m);
                assert(!marks_map(old(s)@).contains_key(key@));
            }
        },
    }
}

/// Takes the verses `vs` out of key `key`, dropping the key when it is left
/// with no verses.
fn marks_strip(s: &mut Vec<VerseMarks>, key: &Vec<char>, vs: &[u16])
    requires
        marks_wf(old(s)@),
    ensures
        marks_wf(final(s)@),
        marks_map(final(s)@) == strip(marks_map(old(s)@), key@, vs@.to_set()),
{
    match find_marks(s, key) {
        Some(i) => {
            let m = s.remove(i);
            proof {
                lemma_marks_at(old(s)@, i as int);
            }
            let rest = set_difference(&m.verses, vs);
            proof {
                lemma_to_set_empty(rest@);
            }
            if rest.len() == 0 {
                proof {
                    lemma_marks_drop(old(s)@, i as int);
                }
            } else {
                let m2 = VerseMarks { key: m.key, verses: rest };
                s.insert(i, m2);
                proof {
                    assert(s@ =~= old(s)@.update(i as int, m2));
                    lemma_marks_replace(old(s)@, i as int, m2);
                }
            }
        },
        None => {
            proof {
                lemma_assoc_absent(marks_entries(s@), key@);
            }
        },
    }
}

// ---------------------------------------------------------------------------
// Day lists
// ---------------------------------------------------------------------------
/// The position of the entry for `day`, if any.
fn find_day(s: &Vec<DayMarks>, day: u16) -> (res: Option<usize>)
    ensures
        match res {
            Some(i) => i < s@.len() && s@[i as int].day == day,
            None => !has_key(day_entries(s@), day),
        },
{
    let mut i: usize = 0;
    while i < s.len()
        invariant
            i <= s.len(),
            forall|j: int| 0 <= j < i ==> s@[j].day != day,
        decreases s.len() - i,
    {
        if s[i].day == day {
            return Some(i);
        }
        i += 1;
    }
    assert forall|j: int| 0 <= j < s@.len() implies (#[trigger] day_entries(s@)[j]).0 != day by {
        assert(day_entries(s@)[j] == s@[j].entry());
    }
    None
}

pub proof fn lemma_days_at(s: Seq<DayMarks>, i: int)
    requires
        days_wf(s),
        0 <= i < s.len(),
    ensures
        days_map(s).contains_key(s[i].day),
        days_map(s)[s[i].day] == marks_map(s[i].chapters@),
{
    assert(day_entries(s)[i] == s[i].entry());
    lemma_assoc_at(day_entries(s), i);
}

/// Adds the verses `vs` to key `key` on day `day`.
fn days_add_marks(s: &mut Vec<DayMarks>, day: u16, key: &String, vs: &[u16])
    requires
        days_wf(old(s)@),
    ensures
        days_wf(final(s)@),
        days_map(final(s)@) == days_add(days_map(old(s)@), day, key@, vs@.to_set()),
{
    match find_day(s, day) {
        Some(i) => {
            let mut d = s.remove(i);
            proof {
                lemma_days_at(old(s)@, i as int);
            }
            marks_add(&mut d.chapters, key, vs);
            s.insert(i, d);
            proof {
                let e = day_entries(old(s)@);
                assert(s@ =~= old(s)@.update(i as int, d));
                assert(e[i as int] == old(s)@[i as int].entry());
                assert(day_entries(s@) =~= e.update(i as int, (e[i as int].0, marks_map(d.chapters@))));
                lemma_assoc_update(e, i as int, marks_map(d.chapters@));
                assert forall|j: int| 0 <= j < s@.len() implies marks_wf(#[trigger] s@[j].chapters@) by {
                    if j != i {
                        assert(s@[j] == old(s)@[j]);
                    }
                }
            }
        },
        None => {
            let mut d = DayMarks { day, chapters: Vec::new() };
            proof {
                lemma_assoc_empty(marks_entries(d.chapters@));
                assert(marks_entries(d.chapters@) =~= Seq::empty());
            }
            marks_add(&mut d.chapters, key, vs);
            s.push(d);
            proof {
                let e = day_entries(old(s)@);
                assert(day_entries(s@) =~= e.push(d.entry()));
                lemma_assoc_push(e, day, marks_map(d.chapters@));
                assert(!days_map(old(s)@).contains_key(day));
                assert(marks_map(Seq::<VerseMarks>::empty()) =~= Map::empty());
                assert forall|j: int| 0 <= j < s@.len() implies marks_wf(#[trigger] s@[j].chapters@) by {
                    if j < old(s)@.len() {
                        assert(s@[j] == old(s)@[j]);
                    }
                }
            }
        },
    }
}

/// Takes the verses `vs` out of key `key` on every day, dropping the days that
/// are left empty.
fn days_strip_marks(s: &mut Vec<DayMarks>, key: &Vec<char>, vs: &[u16])
    requires
        days_wf(old(s)@),
    ensures
        days_wf(final(s)@),
        days_map(final(s)@) == days_strip(days_map(old(s)@), key@, vs@.to_set()),
{
    let mut rest: Vec<DayMarks> = Vec::new();
    std::mem::swap(&mut rest, s);
    let ghost orig = rest@;
    let ghost set = vs@.to_set();
    let ghost mut n: int = 0;
    proof {
        lemma_assoc_empty(day_entries(s@));
        assert(day_entries(s@) =~= Seq::empty());
        assert(day_entries(orig.take(0)) =~= Seq::empty());
        lemma_assoc_empty(day_entries(orig.take(0)));
        assert(days_strip(Map::empty(), key@, set) =~= Map::empty());
    }
    while rest.len() > 0
        invariant
            0 <= n <= orig.len(),
            rest@ == orig.skip(n),
            days_wf(orig),
            days_wf(s@),
            set == vs@.to_set(),
            days_map(s@) == days_strip(days_map(orig.take(n)), key@, set),
            forall|j: int| 0 <= j < s@.len() ==> has_key(day_entries(orig.take(n)), #[trigger] s@[j].day),
        decreases rest.len(),
    {
        let mut d = rest.remove(0);
        proof {
            assert(d == orig[n]);
            assert(rest@ =~= orig.skip(n + 1));
        }
        let ghost before = marks_map(d.chapters@);
        marks_strip(&mut d.chapters, key, vs);
        proof {
            lemma_marks_map_empty(d.chapters@);
        }
        let ghost prefix = orig.take(n);
        let ghost next = orig.take(n + 1);
        proof {
            let pe = day_entries(prefix);
            let oe = day_entries(orig);
            assert(day_entries(next) =~= pe.push(orig[n].entry()));
            assert(oe[n] == orig[n].entry());
            assert(keys_distinct(pe)) by {
                assert forall|a: int, b: int| 0 <= a < b < pe.len() implies (#[trigger] pe[a]).0 != (#[trigger] pe[b]).0 by {
                    assert(pe[a] == oe[a] && pe[b] == oe[b]);
                }
            }
            assert(!has_key(pe, orig[n].day)) by {
                if has_key(pe, orig[n].day) {
                    let j = choose|j: int| 0 <= j < pe.len() && (#[trigger] pe[j]).0 == orig[n].day;
                    assert(pe[j] == oe[j]);
                    assert(oe[j].0 != oe[n].0);
                }
            }
            lemma_assoc_push(pe, orig[n].day, before);
        }
        if d.chapters.len() > 0 {
            let ghost old_s = s@;
            proof {
                assert(!has_key(day_entries(old_s), d.day)) by {
                    if has_key(day_entries(old_s), d.day) {
                        let j = choose|j: int| 0 <= j < old_s.len() && (#[trigger] day_entries(old_s)[j]).0 == d.day;
                        assert(day_entries(old_s)[j] == old_s[j].entry());
                        assert(has_key(day_entries(prefix), old_s[j].day));
                    }
                }
            }
            s.push(d);
            proof {
                let ose = day_entries(old_s);
                assert(day_entries(s@) =~= ose.push(d.entry()));
                lemma_assoc_push(ose, d.day, marks_map(d.chapters@));
                assert forall|j: int| 0 <= j < s@.len() implies marks_wf(#[trigger] s@[j].chapters@) by {
                    if j < old_s.len() {
                        assert(s@[j] == old_s[j]);
                    }
                }
                assert forall|j: int| 0 <= j < s@.len() implies has_key(day_entries(next), #[trigger] s@[j].day) by {
                    if j < old_s.len() {
                        assert(s@[j] == old_s[j]);
                        let w = choose|w: int| 0 <= w < prefix.len() && (#[trigger] day_entries(prefix)[w]).0 == old_s[j].day;
                        assert(day_entries(next)[w] == day_entries(prefix)[w]);
                    } else {
                        assert(day_entries(next)[n] == orig[n].entry());
                    }
                }
                let dm = days_map(prefix);
                assert(days_strip(dm.insert(orig[n].day, before), key@, set) =~= days_strip(dm, key@, set).insert(d.day, marks_map(d.chapters@)));
            }
        } else {
            proof {
                assert forall|j: int| 0 <= j < s@.len() implies has_key(day_entries(next), #[trigger] s@[j].day) by {
                    let w = choose|w: int| 0 <= w < prefix.len() && (#[trigger] day_entries(prefix)[w]).0 == s@[j].day;
                    assert(day_entries(next)[w] == day_entries(prefix)[w]);
                }
                let dm = days_map(prefix);
                assert(days_strip(dm.insert(orig[n].day, before), key@, set) =~= days_strip(dm, key@, set));
            }
        }
        proof {
            n = n + 1;
        }
    }
    proof {
        assert(orig.take(n) =~= orig);
    }
}

// ---------------------------------------------------------------------------
// Highlights
// ---------------------------------------------------------------------------
impl Highlights {
    /// No highlights.
    pub fn new() -> (res: Highlights)
        ensures
            res.wf(),
            res.tidy(),
            res.chapter_map() == Map::<Seq<char>, Set<u16>>::empty(),
            res.day_map() == Map::<u16, Map<Seq<char>, Set<u16>>>::empty(),
    {
        let res = Highlights { chapters: Vec::new(), days: Vec::new() };
        proof {
            assert(marks_entries(res.chapters@) =~= Seq::empty());
            assert(day_entries(res.days@) =~= Seq::empty());
            lemma_assoc_empty(marks_entries(res.chapters@));
            lemma_assoc_empty(day_entries(res.days@));
        }
        res
    }

    /// The key of a chapter, `"Book:chapter"`.
    pub fn key(book: &str, chapter: u16) -> (res: String)
        ensures
            res@ == key_spec(book@, chapter),
    {
        let mut s = String::new();
        let chars = chars_of(book);
        push_chars(&mut s, &chars, 0, chars.len());
        string_push(&mut s, ':');
        push_dec(&mut s, chapter as u64);
        proof {
            assert(chars@.subrange(0, chars@.len() as int) =~= book@);
            assert(s@ =~= key_spec(book@, chapter));
        }
        s
    }

    /// Splits a key at its last colon into the book and the chapter number.
    pub fn parse_key(key: &str) -> (res: Option<(String, u16)>)
        ensures
            match res {
                Some((b, c)) => parse_key_spec(key@) == Some((b@, c)),
                None => parse_key_spec(key@) is None,
            },
    {
        let chars = chars_of(key);
        let mut i = chars.len();
        while i > 0
            invariant
                i <= chars.len(),
                chars@ == key@,
                forall|j: int| i <= j < chars.len() ==> chars@[j] != ':',
            decreases i,
        {
            if chars[i - 1] == ':' {
                proof {
                    lemma_last_colon_at(chars@, i - 1);
                }
                let p = i - 1;
                let parsed = parse_u16_chars(&chars, p + 1, chars.len());
                proof {
                    assert(chars@.subrange(p + 1, chars@.len() as int) =~= chars@.skip(p + 1));
                }
                match parsed {
                    Some(c) => {
                        let book = string_from_range(&chars, 0, p);
                        proof {
                            assert(chars@.subrange(0, p as int) =~= chars@.take(p as int));
                        }
                        return Some((book, c));
                    },
                    None => {
                        return None;
                    },
                }
            }
            i -= 1;
        }
        proof {
            lemma_last_colon_none(chars@);
        }
        None
    }

    /// Whether the verse is highlighted.
    pub fn is_highlighted(&self, book: &str, chapter: u16, verse: u16) -> (res: bool)
        requires
            self.wf(),
        ensures
            res == self.marked(key_spec(book@, chapter), verse),
    {
        let key = Self::key(book, chapter);
        let kc = chars_of(key.as_str());
        match find_marks(&self.chapters, &kc) {
            Some(i) => {
                proof {
                    lemma_marks_at(self.chapters@, i as int);
                }
                vec_contains(self.chapters[i].verses.as_slice(), verse)
            },
            None => {
                proof {
                    lemma_assoc_absent(marks_entries(self.chapters@), kc@);
                }
                false
            },
        }
    }

    /// The highlighted verses of a chapter, if it has an entry.
    pub fn highlighted_verses(&self, book: &str, chapter: u16) -> (res: Option<&Vec<u16>>)
        requires
            self.wf(),
        ensures
            match res {
                Some(vs) => self.chapter_map().contains_key(key_spec(book@, chapter))
                    && vs@.to_set() == self.chapter_map()[key_spec(book@, chapter)],
                None => !self.chapter_map().contains_key(key_spec(book@, chapter)),
            },
    {
        let key = Self::key(book, chapter);
        let kc = chars_of(key.as_str());
        match find_marks(&self.chapters, &kc) {
            Some(i) => {
                proof {
                    lemma_marks_at(self.chapters@, i as int);
                }
                Some(&self.chapters[i].verses)
            },
            None => {
                proof {
                    lemma_assoc_absent(marks_entries(self.chapters@), kc@);
                }
                None
            },
        }
    }

    /// The verses of chapter key `key` recorded for day `day`, if any.
    pub fn day_verses(&self, day: u16, key: &str) -> (res: Option<&Vec<u16>>)
        requires
            self.wf(),
        ensures
            match res {
                Some(vs) => self.day_map().contains_key(day) && self.day_map()[day].contains_key(key@)
                    && vs@.to_set() == self.day_map()[day][key@],
                None => !(self.day_map().contains_key(day) && self.day_map()[day].contains_key(key@)),
            },
    {
        match find_day(&self.days, day) {
            Some(i) => {
                proof {
                    lemma_days_at(self.days@, i as int);
                }
                let kc = chars_of(key);
                match find_marks(&self.days[i].chapters, &kc) {
                    Some(j) => {
                        proof {
                            lemma_marks_at(self.days@[i as int].chapters@, j as int);
                        }
                        Some(&self.days[i].chapters[j].verses)
                    },
                    None => {
                        proof {
                            lemma_assoc_absent(marks_entries(self.days@[i as int].chapters@), kc@);
                        }
                        None
                    },
                }
            },
            None => {
                proof {
                    lemma_assoc_absent(day_entries(self.days@), day);
                }
                None
            },
        }
    }

    /// Highlights the verse if it is not, and clears it if it is. A new
    /// highlight is recorded under `day`; a cleared one leaves every day.
    pub fn toggle_for_day(&mut self, book: &str, chapter: u16, verse: u16, day: u16)
        requires
            old(self).wf(),
        ensures
            final(self).wf(),
            final(self).chapter_map() == toggled_chapters(
                old(self).chapter_map(),
                key_spec(book@, chapter),
                verse,
            ),
            final(self).day_map() == toggled_days(
                old(self).chapter_map(),
                old(self).day_map(),
                key_spec(book@, chapter),
                verse,
                day,
            ),
    {
        let key = Self::key(book, chapter);
        let was = self.is_highlighted(book, chapter, verse);
        let one: Vec<u16> = vec![verse];
        proof {
            assert(one@.to_set() =~= set![verse]) by {
                assert(one@[0] == verse);
            }
        }
        let kc = chars_of(key.as_str());
        if was {
            marks_strip(&mut self.chapters, &kc, one.as_slice());
            self.remove_from_days(book, chapter, verse);
        } else {
            marks_add(&mut self.chapters, &key, one.as_slice());
            self.add_day_highlight(book, chapter, verse, day);
        }
        self.remove_empty_chapter(book, chapter);
        proof {
            let k = key_spec(book@, chapter);
            if !was {
                let m = add_marks(old(self).chapter_map(), k, set![verse]);
                assert(m[k].contains(verse));
            } else {
                let m = strip(old(self).chapter_map(), k, set![verse]);
                assert(m.contains_key(k) ==> !m[k].is_empty());
            }
        }
    }

    /// Highlights every verse of `verses` and records them under `day`.
    pub fn highlight_range_for_day(&mut self, book: &str, chapter: u16, verses: &[u16], day: u16)
        requires
            old(self).wf(),
        ensures
            final(self).wf(),
            final(self).chapter_map() == add_marks(
                old(self).chapter_map(),
                key_spec(book@, chapter),
                verses@.to_set(),
            ),
            final(self).day_map() == if verses@.len() == 0 {
                old(self).day_map()
            } else {
                days_add(old(self).day_map(), day, key_spec(book@, chapter), verses@.to_set())
            },
    {
        let key = Self::key(book, chapter);
        marks_add(&mut self.chapters, &key, verses);
        let ghost k = key@;
        let ghost d0 = self.day_map();
        let mut i: usize = 0;
        while i < verses.len()
            invariant
                i <= verses.len(),
                k == key_spec(book@, chapter),
                self.wf(),
                self.chapter_map() == add_marks(old(self).chapter_map(), k, verses@.to_set()),
                d0 == old(self).day_map(),
                self.day_map() == if i == 0 {
                    d0
                } else {
                    days_add(d0, day, k, verses@.take(i as int).to_set())
                },
            decreases verses.len() - i,
        {
            let ghost before = self.day_map();
            self.add_day_highlight(book, chapter, verses[i], day);
            proof {
                let t = verses@.take(i as int);
                assert(verses@.take(i + 1) =~= t.push(verses@[i as int]));
                assert(verses@.take(i + 1).to_set() =~= t.to_set().insert(verses@[i as int])) by {
                    assert forall|x: u16| verses@.take(i + 1).contains(x) implies t.contains(x) || x == verses@[i as int] by {
                        let j = choose|j: int| 0 <= j < i + 1 && #[trigger] verses@.take(i + 1)[j] == x;
                        if j < i {
                            assert(t[j] == x);
                        }
                    }
                    assert forall|x: u16| t.contains(x) implies verses@.take(i + 1).contains(x) by {
                        let j = choose|j: int| 0 <= j < i && #[trigger] t[j] == x;
                        assert(verses@.take(i + 1)[j] == x);
                    }
                    assert(verses@.take(i + 1)[i as int] == verses@[i as int]);
                }
                if i == 0 {
                    assert(t.to_set() =~= Set::<u16>::empty());
                    assert(self.day_map() =~= days_add(d0, day, k, verses@.take(1).to_set()));
                } else {
                    let inner = if d0.contains_key(day) {
                        d0[day]
                    } else {
                        Map::empty()
                    };
                    let a = add_marks(inner, k, t.to_set());
                    let t2 = verses@.take(i + 1).to_set();
                    assert(a[k].union(set![verses@[i as int]]) =~= (if inner.contains_key(k) {
                        inner[k].union(t2)
                    } else {
                        t2
                    }));
                    assert(add_marks(a, k, set![verses@[i as int]]) =~= add_marks(inner, k, verses@.take(i + 1).to_set()));
                    assert(self.day_map() =~= days_add(d0, day, k, verses@.take(i + 1).to_set()));
                }
            }
            i += 1;
        }
        proof {
            assert(verses@.take(verses@.len() as int) =~= verses@);
        }
    }

    /// Clears every verse of `verses`, in the global index and on every day.
    pub fn unhighlight_range(&mut self, book: &str, chapter: u16, verses: &[u16])
        requires
            old(self).wf(),
        ensures
            final(self).wf(),
            final(self).chapter_map() == strip(
                old(self).chapter_map(),
                key_spec(book@, chapter),
                verses@.to_set(),
            ),
            final(self).day_map() == if verses@.len() == 0 {
                old(self).day_map()
            } else {
                days_strip(old(self).day_map(), key_spec(book@, chapter), verses@.to_set())
            },
    {
        let key = Self::key(book, chapter);
        let kc = chars_of(key.as_str());
        marks_strip(&mut self.chapters, &kc, verses);
        let ghost k = key@;
        let ghost d0 = self.day_map();
        let mut i: usize = 0;
        while i < verses.len()
            invariant
                i <= verses.len(),
                k == key_spec(book@, chapter),
                self.wf(),
                self.chapter_map() == strip(old(self).chapter_map(), k, verses@.to_set()),
                d0 == old(self).day_map(),
                self.day_map() == if i == 0 {
                    d0
                } else {
                    days_strip(d0, k, verses@.take(i as int).to_set())
                },
            decreases verses.len() - i,
        {
            self.remove_from_days(book, chapter, verses[i]);
            proof {
                let t = verses@.take(i as int);
                assert(verses@.take(i + 1).to_set() =~= t.to_set().union(set![verses@[i as int]])) by {
                    assert forall|x: u16| verses@.take(i + 1).contains(x) implies t.contains(x) || x == verses@[i as int] by {
                        let j = choose|j: int| 0 <= j < i + 1 && #[trigger] verses@.take(i + 1)[j] == x;
                        if j < i {
                            assert(t[j] == x);
                        }
                    }
                    assert forall|x: u16| t.contains(x) implies verses@.take(i + 1).contains(x) by {
                        let j = choose|j: int| 0 <= j < i && #[trigger] t[j] == x;
                        assert(verses@.take(i + 1)[j] == x);
                    }
                    assert(verses@.take(i + 1)[i as int] == verses@[i as int]);
                }
                if i == 0 {
                    assert(verses@.take(1).to_set() =~= set![verses@[0]]) by {
                        assert(verses@.take(1)[0] == verses@[0]);
                    }
                } else {
                    lemma_days_strip_twice(d0, k, t.to_set(), set![verses@[i as int]]);
                }
            }
            i += 1;
        }
        proof {
            assert(verses@.take(verses@.len() as int) =~= verses@);
        }
    }

    /// Records `verse` under `day`.
    fn add_day_highlight(&mut self, book: &str, chapter: u16, verse: u16, day: u16)
        requires
            old(self).wf(),
        ensures
            final(self).wf(),
            final(self).chapters == old(self).chapters,
            final(self).day_map() == days_add(old(self).day_map(), day, key_spec(book@, chapter), set![verse]),
    {
        let key = Self::key(book, chapter);
        let one: Vec<u16> = vec![verse];
        proof {
            assert(one@.to_set() =~= set![verse]) by {
                assert(one@[0] == verse);
            }
        }
        days_add_marks(&mut self.days, day, &key, one.as_slice());
    }

    /// Clears `verse` on every day, dropping chapters and days left empty.
    fn remove_from_days(&mut self, book: &str, chapter: u16, verse: u16)
        requires
            old(self).wf(),
        ensures
            final(self).wf(),
            final(self).chapters == old(self).chapters,
            final(self).day_map() == days_strip(old(self).day_map(), key_spec(book@, chapter), set![verse]),
    {
        let key = Self::key(book, chapter);
        let kc = chars_of(key.as_str());
        let one: Vec<u16> = vec![verse];
        proof {
            assert(one@.to_set() =~= set![verse]) by {
                assert(one@[0] == verse);
            }
        }
        days_strip_marks(&mut self.days, &kc, one.as_slice());
    }

    /// Drops the chapter's entry when it holds no verse.
    fn remove_empty_chapter(&mut self, book: &str, chapter: u16)
        requires
            old(self).wf(),
        ensures
            final(self).wf(),
            final(self).days == old(self).days,
            ({
                let k = key_spec(book@, chapter);
                let m = old(self).chapter_map();
                final(self).chapter_map() == if m.contains_key(k) && m[k].is_empty() {
                    m.remove(k)
                } else {
                    m
                }
            }),
    {
        let key = Self::key(book, chapter);
        let kc = chars_of(key.as_str());
        match find_marks(&self.chapters, &kc) {
            Some(i) => {
                proof {
                    lemma_marks_at(self.chapters@, i as int);
                    lemma_to_set_empty(self.chapters@[i as int].verses@);
                }
                if self.chapters[i].verses.len() == 0 {
                    let _ = self.chapters.remove(i);
                    proof {
                        lemma_marks_drop(old(self).chapters@, i as int);
                    }
                }
            },
            None => {
                proof {
                    lemma_assoc_absent(marks_entries(self.chapters@), kc@);
                }
            },
        }
    }

    /// Whether the lists are well formed (no chapter key or day occurs twice).
    pub fn is_well_formed(&self) -> (res: bool)
        ensures
            res == self.wf(),
    {
        if !marks_distinct(&self.chapters) {
            return false;
        }
        let mut i: usize = 0;
        while i < self.days.len()
            invariant
                i <= self.days.len(),
                forall|j: int| 0 <= j < i ==> marks_wf(#[trigger] self.days@[j].chapters@),
                forall|a: int, b: int| 0 <= a < b < i ==> self.days@[a].day != self.days@[b].day,
            decreases self.days.len() - i,
        {
            if !marks_distinct(&self.days[i].chapters) {
                return false;
            }
            let mut j: usize = 0;
            while j < i
                invariant
                    j <= i < self.days.len(),
                    forall|a: int| 0 <= a < j ==> self.days@[a].day != self.days@[i as int].day,
                decreases i - j,
            {
                if self.days[j].day == self.days[i].day {
                    proof {
                        let e = day_entries(self.days@);
                        assert(e[j as int] == self.days@[j as int].entry());
                        assert(e[i as int] == self.days@[i as int].entry());
                    }
                    return false;
                }
                j += 1;
            }
            i += 1;
        }
        proof {
            let e = day_entries(self.days@);
            assert forall|a: int, b: int| 0 <= a < b < e.len() implies (#[trigger] e[a]).0 != (#[trigger] e[b]).0 by {
                assert(e[a] == self.days@[a].entry());
                assert(e[b] == self.days@[b].entry());
            }
        }
        true
    }
}

/// Whether no key occurs twice in a list of chapter marks.
fn marks_distinct(s: &Vec<VerseMarks>) -> (res: bool)
    ensures
        res == marks_wf(s@),
{
    let mut i: usize = 0;
    while i < s.len()
        invariant
            i <= s.len(),
            forall|a: int, b: int| 0 <= a < b < i ==> s@[a].key@ != s@[b].key@,
        decreases s.len() - i,
    {
        let ki = chars_of(s[i].key.as_str());
        let mut j: usize = 0;
        while j < i
            invariant
                j <= i < s.len(),
                ki@ == s@[i as int].key@,
                forall|a: int| 0 <= a < j ==> s@[a].key@ != s@[i as int].key@,
            decreases i - j,
        {
            let kj = chars_of(s[j].key.as_str());
            if compare_chars(&kj, &ki) == 0 {
                proof {
                    let e = marks_entries(s@);
                    assert(e[j as int] == s@[j as int].entry());
                    assert(e[i as int] == s@[i as int].entry());
                }
                return false;
            }
            j += 1;
        }
        i += 1;
    }
    proof {
        let e = marks_entries(s@);
        assert forall|a: int, b: int| 0 <= a < b < e.len() implies (#[trigger] e[a]).0 != (#[trigger] e[b]).0 by {
            assert(e[a] == s@[a].entry());
            assert(e[b] == s@[b].entry());
        }
    }
    true
}

// ---------------------------------------------------------------------------
// Laws
// ---------------------------------------------------------------------------
/// Toggling a verse flips whether it is highlighted and leaves every other
/// verse of every chapter as it was.
pub proof fn law_toggle_flips(c: Map<Seq<char>, Set<u16>>, k: Seq<char>, v: u16, k2: Seq<char>, v2: u16)
    ensures
        marked_in(toggled_chapters(c, k, v), k2, v2) == if k2 == k && v2 == v {
            !marked_in(c, k, v)
        } else {
            marked_in(c, k2, v2)
        },
{
    lemma_strip_marked(c, k, set![v], k2, v2);
}

/// What `strip` leaves highlighted.
proof fn lemma_strip_marked(c: Map<Seq<char>, Set<u16>>, k: Seq<char>, vs: Set<u16>, k2: Seq<char>, v2: u16)
    ensures
        marked_in(strip(c, k, vs), k2, v2) == (!(k2 == k && vs.contains(v2)) && marked_in(c, k2, v2)),
{
    if c.contains_key(k) {
        let s = c[k].difference(vs);
        if s.is_empty() {
            assert(!s.contains(v2));
        }
    }
}

/// Toggling keeps the indexes tidy: no empty verse set, no empty day.
pub proof fn law_toggle_keeps_tidy(
    c: Map<Seq<char>, Set<u16>>,
    d: Map<u16, Map<Seq<char>, Set<u16>>>,
    k: Seq<char>,
    v: u16,
    day: u16,
)
    requires
        tidy_maps(c, d),
    ensures
        tidy_maps(toggled_chapters(c, k, v), toggled_days(c, d, k, v, day)),
{
    let c2 = toggled_chapters(c, k, v);
    let d2 = toggled_days(c, d, k, v, day);
    if marked_in(c, k, v) {
        assert forall|x: u16, j: Seq<char>| #[trigger] d2.contains_key(x) && #[trigger] d2[x].contains_key(j)
            implies !d2[x][j].is_empty() by {
            assert(d.contains_key(x));
            if j != k {
                assert(d[x].contains_key(j));
            }
        }
    } else {
        assert(c2[k].contains(v));
        let inner = if d.contains_key(day) {
            d[day]
        } else {
            Map::empty()
        };
        assert(d2[day].contains_key(k));
        assert(d2[day][k].contains(v));
        assert forall|x: u16, j: Seq<char>| #[trigger] d2.contains_key(x) && #[trigger] d2[x].contains_key(j)
            implies !d2[x][j].is_empty() by {
            if x == day && j == k {
                assert(d2[x][j].contains(v));
            } else if x == day {
                assert(inner.contains_key(j));
                assert(d.contains_key(day));
            }
        }
        assert forall|x: u16| #[trigger] d2.contains_key(x) implies !d2[x].dom().is_empty() by {
            if x == day {
                assert(d2[x].dom().contains(k));
            }
        }
    }
}

/// Highlighting a verse that no day records, and then clearing it, gives
/// back the indexes as they were, where they were tidy.
pub proof fn law_toggle_twice_restores(
    c: Map<Seq<char>, Set<u16>>,
    d: Map<u16, Map<Seq<char>, Set<u16>>>,
    k: Seq<char>,
    v: u16,
    day: u16,
)
    requires
        tidy_maps(c, d),
        !marked_in(c, k, v),
        forall|x: u16| #[trigger] d.contains_key(x) && d[x].contains_key(k) ==> !d[x][k].contains(v),
    ensures
        toggled_chapters(toggled_chapters(c, k, v), k, v) == c,
        toggled_days(toggled_chapters(c, k, v), toggled_days(c, d, k, v, day), k, v, day) == d,
{
    let c1 = toggled_chapters(c, k, v);
    assert(marked_in(c1, k, v));
    if c.contains_key(k) {
        assert(c1[k].difference(set![v]) =~= c[k]);
        assert(toggled_chapters(c1, k, v) =~= c);
    } else {
        assert(c1[k].difference(set![v]) =~= Set::<u16>::empty());
        assert(toggled_chapters(c1, k, v) =~= c);
    }
    let d1 = toggled_days(c, d, k, v, day);
    let d2 = toggled_days(c1, d1, k, v, day);
    assert forall|x: u16| #[trigger] d2.contains_key(x) == d.contains_key(x) by {
        if x == day {
            if d.contains_key(day) {
                if d[day].contains_key(k) {
                    assert(d1[day][k].difference(set![v]) =~= d[day][k]);
                    assert(strip(d1[day], k, set![v]) =~= d[day]);
                } else {
                    assert(d1[day][k].difference(set![v]) =~= Set::<u16>::empty());
                    assert(strip(d1[day], k, set![v]) =~= d[day]);
                }
            } else {
                assert(d1[day][k].difference(set![v]) =~= Set::<u16>::empty());
                assert(strip(d1[day], k, set![v]) =~= Map::<Seq<char>, Set<u16>>::empty());
            }
        } else if d.contains_key(x) {
            if d[x].contains_key(k) {
                assert(d[x][k].difference(set![v]) =~= d[x][k]);
                assert(strip(d[x], k, set![v]) =~= d[x]);
            }
        }
    }
    assert forall|x: u16| #[trigger] d2.contains_key(x) implies d2[x] == d[x] by {
        if x == day {
            if d[day].contains_key(k) {
                assert(d1[day][k].difference(set![v]) =~= d[day][k]);
                assert(strip(d1[day], k, set![v]) =~= d[day]);
            } else {
                assert(d1[day][k].difference(set![v]) =~= Set::<u16>::empty());
                assert(strip(d1[day], k, set![v]) =~= d[day]);
            }
        } else {
            if d[x].contains_key(k) {
                assert(d[x][k].difference(set![v]) =~= d[x][k]);
                assert(strip(d[x], k, set![v]) =~= d[x]);
            }
        }
    }
    assert(d2 =~= d);
}

/// After highlighting a range, every verse of it is highlighted, and the
/// other verses and chapters are as they were.
pub proof fn law_highlight_range_marks(c: Map<Seq<char>, Set<u16>>, k: Seq<char>, vs: Set<u16>, k2: Seq<char>, v2: u16)
    ensures
        marked_in(add_marks(c, k, vs), k2, v2) == ((k2 == k && vs.contains(v2)) || marked_in(c, k2, v2)),
{
}

/// After clearing a range, no verse of it is highlighted nor recorded under
/// any day, and the other verses and chapters are as they were.
pub proof fn law_unhighlight_range_clears(
    c: Map<Seq<char>, Set<u16>>,
    d: Map<u16, Map<Seq<char>, Set<u16>>>,
    k: Seq<char>,
    vs: Set<u16>,
    k2: Seq<char>,
    v2: u16,
)
    ensures
        marked_in(strip(c, k, vs), k2, v2) == (!(k2 == k && vs.contains(v2)) && marked_in(c, k2, v2)),
        forall|x: u16| #[trigger] days_strip(d, k, vs).contains_key(x) ==> marked_in(days_strip(d, k, vs)[x], k2, v2)
            == (!(k2 == k && vs.contains(v2)) && marked_in(d[x], k2, v2)),
{
    lemma_strip_marked(c, k, vs, k2, v2);
    assert forall|x: u16| #[trigger] days_strip(d, k, vs).contains_key(x) implies marked_in(days_strip(d, k, vs)[x], k2, v2)
        == (!(k2 == k && vs.contains(v2)) && marked_in(d[x], k2, v2)) by {
        lemma_strip_marked(d[x], k, vs, k2, v2);
    }
}


/// Highlighting a range with at least one verse, and clearing any range,
/// keep the indexes tidy: no empty verse set, no empty day.
pub proof fn law_ranges_keep_tidy(
    c: Map<Seq<char>, Set<u16>>,
    d: Map<u16, Map<Seq<char>, Set<u16>>>,
    k: Seq<char>,
    vs: Set<u16>,
    day: u16,
)
    requires
        tidy_maps(c, d),
    ensures
        !vs.is_empty() ==> tidy_maps(add_marks(c, k, vs), days_add(d, day, k, vs)),
        tidy_maps(strip(c, k, vs), days_strip(d, k, vs)),
{
    if !vs.is_empty() {
        let v = vs.choose();
        let c2 = add_marks(c, k, vs);
        let d2 = days_add(d, day, k, vs);
        assert forall|k2: Seq<char>| #[trigger] c2.contains_key(k2) implies !c2[k2].is_empty() by {
            if k2 == k {
                assert(c2[k2].contains(v));
            } else {
                assert(!c[k2].is_empty());
            }
        }
        assert forall|x: u16| #[trigger] d2.contains_key(x) implies !d2[x].dom().is_empty() by {
            if x == day {
                assert(d2[x].dom().contains(k));
            } else {
                assert(!d[x].dom().is_empty());
            }
        }
        assert forall|x: u16, k2: Seq<char>| #[trigger] d2.contains_key(x) && #[trigger] d2[x].contains_key(k2) implies !d2[x][k2].is_empty() by {
            if x == day && k2 == k {
                assert(d2[x][k2].contains(v));
            } else if x == day {
                assert(d.contains_key(x) && d[x].contains_key(k2));
                assert(!d[x][k2].is_empty());
            } else {
                assert(!d[x][k2].is_empty());
            }
        }
    }
    let c3 = strip(c, k, vs);
    let d3 = days_strip(d, k, vs);
    assert forall|x: u16, k2: Seq<char>| #[trigger] d3.contains_key(x) && #[trigger] d3[x].contains_key(k2) implies !d3[x][k2].is_empty() by {
        assert(d.contains_key(x));
        if d[x].contains_key(k2) {
            assert(!d[x][k2].is_empty());
        }
    }
}


/// Every day's verses of a chapter are highlighted verses of that chapter.
pub open spec fn days_within(c: Map<Seq<char>, Set<u16>>, d: Map<u16, Map<Seq<char>, Set<u16>>>) -> bool {
    forall|x: u16, k: Seq<char>|
        #[trigger] d.contains_key(x) && #[trigger] d[x].contains_key(k) ==> c.contains_key(k) && d[x][k].subset_of(c[k])
}

/// Highlighting a range, and clearing one, keep every day's verses among
/// the highlighted verses of their chapter.
pub proof fn law_ranges_keep_days_within(
    c: Map<Seq<char>, Set<u16>>,
    d: Map<u16, Map<Seq<char>, Set<u16>>>,
    k: Seq<char>,
    vs: Set<u16>,
    day: u16,
)
    requires
        days_within(c, d),
    ensures
        days_within(add_marks(c, k, vs), days_add(d, day, k, vs)),
        days_within(strip(c, k, vs), days_strip(d, k, vs)),
{
    let c2 = add_marks(c, k, vs);
    let d2 = days_add(d, day, k, vs);
    assert forall|x: u16, k2: Seq<char>| #[trigger] d2.contains_key(x) && #[trigger] d2[x].contains_key(k2) implies c2.contains_key(k2)
        && d2[x][k2].subset_of(c2[k2]) by {
        if x == day && k2 == k {
            if d.contains_key(day) && d[day].contains_key(k) {
                assert(d[day][k].subset_of(c[k]));
            }
        } else if x == day {
            assert(d.contains_key(x) && d[x].contains_key(k2));
        } else {
            assert(d.contains_key(x) && d[x].contains_key(k2));
        }
    }
    let c3 = strip(c, k, vs);
    let d3 = days_strip(d, k, vs);
    assert forall|x: u16, k2: Seq<char>| #[trigger] d3.contains_key(x) && #[trigger] d3[x].contains_key(k2) implies c3.contains_key(k2)
        && d3[x][k2].subset_of(c3[k2]) by {
        assert(d.contains_key(x) && d[x].contains_key(k2));
        assert(d[x][k2].subset_of(c[k2]));
        if k2 == k {
            let s = d[x][k].difference(vs);
            assert(!s.is_empty());
            let w = s.choose();
            assert(c[k].difference(vs).contains(w));
        }
    }
}

/// Highlighting a range of verses none of which is highlighted, and then
/// clearing that range, gives back both indexes as they were, where they
/// were tidy and every day's verses were highlighted verses of their
/// chapter.
pub proof fn law_range_highlight_then_clear_restores(
    c: Map<Seq<char>, Set<u16>>,
    d: Map<u16, Map<Seq<char>, Set<u16>>>,
    k: Seq<char>,
    vs: Set<u16>,
    day: u16,
)
    requires
        tidy_maps(c, d),
        days_within(c, d),
        !vs.is_empty(),
        forall|v: u16| vs.contains(v) ==> !marked_in(c, k, v),
    ensures
        strip(add_marks(c, k, vs), k, vs) == c,
        days_strip(days_add(d, day, k, vs), k, vs) == d,
{
    let c1 = add_marks(c, k, vs);
    if c.contains_key(k) {
        assert(c1[k].difference(vs) =~= c[k]);
        assert(strip(c1, k, vs) =~= c);
    } else {
        assert(c1[k].difference(vs) =~= Set::<u16>::empty());
        assert(strip(c1, k, vs) =~= c);
    }
    let d1 = days_add(d, day, k, vs);
    let d2 = days_strip(d1, k, vs);
    // No day records a verse of the range under `k`.
    assert forall|x: u16| #[trigger] d.contains_key(x) && d[x].contains_key(k) implies d[x][k].difference(vs) =~= d[x][k] by {
        assert(d[x][k].subset_of(c[k]));
        assert forall|v: u16| d[x][k].contains(v) implies !vs.contains(v) by {
            assert(c[k].contains(v));
        }
    }
    assert forall|x: u16| #[trigger] d2.contains_key(x) == d.contains_key(x) by {
        if x == day {
            if d.contains_key(day) {
                if d[day].contains_key(k) {
                    assert(d1[day][k].difference(vs) =~= d[day][k]);
                    assert(strip(d1[day], k, vs) =~= d[day]);
                } else {
                    assert(d1[day][k].difference(vs) =~= Set::<u16>::empty());
                    assert(strip(d1[day], k, vs) =~= d[day]);
                }
            } else {
                assert(d1[day][k].difference(vs) =~= Set::<u16>::empty());
                assert(strip(d1[day], k, vs) =~= Map::<Seq<char>, Set<u16>>::empty());
            }
        } else if d.contains_key(x) {
            if d[x].contains_key(k) {
                assert(strip(d[x], k, vs) =~= d[x]);
            }
        }
    }
    assert forall|x: u16| #[trigger] d2.contains_key(x) implies d2[x] == d[x] by {
        if x == day {
            if d[day].contains_key(k) {
                assert(d1[day][k].difference(vs) =~= d[day][k]);
                assert(strip(d1[day], k, vs) =~= d[day]);
            } else {
                assert(d1[day][k].difference(vs) =~= Set::<u16>::empty());
                assert(strip(d1[day], k, vs) =~= d[day]);
            }
        } else {
            if d[x].contains_key(k) {
                assert(strip(d[x], k, vs) =~= d[x]);
            }
        }
    }
    assert(d2 =~= d);
}

} // verus!
