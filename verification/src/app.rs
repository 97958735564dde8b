//! The reader's state: today's chapters, the verse cursor, the visual
//! selection, the highlight archive, theme and translation.
use vstd::prelude::*;

use crate::animation::AnimationState;
use crate::assoc::{first_match, lemma_first_match};
use crate::archive::{
    archive_groups, archive_spec, highlight_items, item_tuples, items_sorted, lemma_items_count,
    HighlightItem,
};
use crate::bible::{Bible, Verse};
use crate::highlight::{add_marks, days_add, days_strip, key_spec, strip, toggled_chapters, toggled_days, Highlights};
use crate::plan::{clamp_day, date_spec, date_string_for_day, ChapterRef, Plan, DAY_COUNT};
use crate::text::{chars_of, compare_chars};
use crate::theme::{cycle_spec, Theme};

verus! {

/// What the keys act on: reading, a visual selection, or the archive.
#[derive(Clone, Copy, PartialEq, Eq, Structural, Debug)]
pub enum Mode {
    Normal,
    Visual,
    Highlights,
}

/// The reader's whole state.
pub struct App {
    pub bible: Bible,
    pub plan: Plan,
    pub highlights: Highlights,
    pub today_chapters: Vec<ChapterRef>,
    pub active_chapter_idx: usize,
    pub cursor_verse: usize,
    pub scroll_offset: u16,
    pub visible_verse_range: Option<(usize, usize)>,
    pub mode: Mode,
    pub visual_anchor: usize,
    pub pending_g: bool,
    pub highlight_cursor: usize,
    pub highlight_scroll_offset: u16,
    pub day: u16,
    pub date_string: String,
    pub should_quit: bool,
    pub theme: Theme,
    pub show_help: bool,
    pub anim: AnimationState,
    pub data_dir: String,
    pub translation: String,
    pub available_translations: Vec<String>,
}

/// The position of the first of `av` equal to `t`, or -1.
pub open spec fn first_index(av: Seq<String>, t: Seq<char>) -> int {
    first_match(av, |s: String| s@ == t)
}

/// The translation after `t` among `av`: the one after its first
/// occurrence, going round to the first after the last, or the second one
/// when `t` is not among them.
pub open spec fn next_after(av: Seq<String>, t: Seq<char>) -> Seq<char> {
    let i = first_index(av, t);
    let pos = if i < 0 {
        0
    } else {
        i
    };
    av[(pos + 1) % (av.len() as int)]@
}

/// The translation after `k` cycles from `t` among `av`.
pub open spec fn cycled(av: Seq<String>, t: Seq<char>, k: nat) -> Seq<char>
    decreases k,
{
    if k == 0 {
        t
    } else {
        next_after(av, cycled(av, t, (k - 1) as nat))
    }
}

/// `t` is `s` after opening the archive item of `day`, `book`, `chapter` and
/// `verses`, the day's text being `bible`: at the item's day (kept within
/// the plan), its chapter when the day reads it, its first verse when the
/// chapter has it, reading from the top with a fade started.
pub open spec fn opened_item(s: App, t: App, day: u16, book: Seq<char>, chapter: u16, verses: Seq<u16>, bible: Bible) -> bool {
    &&& ({
        let d = if day < 1 {
            1u16
        } else if day > DAY_COUNT {
            DAY_COUNT
        } else {
            day
        };
        let chs = s.plan.day_spec(d as int);
        let ci = first_chapter_index(chs, book, chapter);
        let idx: usize = if ci >= 0 {
            ci as usize
        } else {
            0
        };
        let loaded = App {
            bible: bible,
            today_chapters: t.today_chapters,
            active_chapter_idx: idx,
            cursor_verse: 0,
            scroll_offset: 0,
            visible_verse_range: None,
            mode: Mode::Normal,
            visual_anchor: 0,
            pending_g: false,
            day: d,
            date_string: t.date_string,
            anim: t.anim,
            ..s
        };
        let cursor: usize = match (loaded.active_verses_spec(), verses.len() > 0) {
            (Some(vs), true) => if first_verse_index(vs, verses[0]) >= 0 {
                first_verse_index(vs, verses[0]) as usize
            } else {
                0
            },
            _ => 0,
        };
        &&& t.today_chapters@ == chs
        &&& t.date_string@ == date_spec(d as int)
        &&& t == (App { cursor_verse: cursor, ..loaded })
    })
    &&& t.anim.fade_start is Some
    &&& t.anim.flash == s.anim.flash
}

/// The verse numbers of `vs[start..=end]`.
pub open spec fn verse_numbers(vs: Seq<Verse>, start: int, end: int) -> Seq<u16> {
    vs.subrange(start, end + 1).map_values(|v: Verse| v.number)
}

impl App {
    /// The bible and the highlights are well formed.
    pub open spec fn wf(self) -> bool {
        self.bible.wf() && self.highlights.wf()
    }

    /// The chapter being read, if any.
    pub open spec fn active_chapter_spec(self) -> Option<ChapterRef> {
        if self.active_chapter_idx < self.today_chapters@.len() {
            Some(self.today_chapters@[self.active_chapter_idx as int])
        } else {
            None
        }
    }

    /// The verses of the chapter being read, if it is loaded.
    pub open spec fn active_verses_spec(self) -> Option<Seq<Verse>> {
        match self.active_chapter_spec() {
            Some(ch) => self.bible.chapter_spec(ch.book@, ch.chapter),
            None => None,
        }
    }

    /// The number of verses of the chapter being read.
    pub open spec fn verse_count_spec(self) -> nat {
        match self.active_verses_spec() {
            Some(v) => v.len(),
            None => 0,
        }
    }

    /// The ordered selection between anchor and cursor.
    pub open spec fn visual_range_spec(self) -> (usize, usize) {
        if self.visual_anchor <= self.cursor_verse {
            (self.visual_anchor, self.cursor_verse)
        } else {
            (self.cursor_verse, self.visual_anchor)
        }
    }

    /// How far half a page moves: half the visible verses, or half the
    /// visible lines when no verse range is known, and at least one.
    pub open spec fn half_page(self, visible_lines: usize) -> int {
        match self.visible_verse_range {
            Some((first, last)) => {
                let h = (last - first + 1) / 2;
                if h < 1 {
                    1
                } else {
                    h
                }
            },
            None => {
                let h = visible_lines / 2;
                if h < 1 {
                    1
                } else {
                    h as int
                }
            },
        }
    }

    /// The translation that cycling moves to, if there is more than one.
    pub open spec fn next_translation_spec(self) -> Option<Seq<char>> {
        if self.available_translations@.len() <= 1 {
            None
        } else {
            Some(next_after(self.available_translations@, self.translation@))
        }
    }

    /// The number of items of the highlight archive.
    pub open spec fn archive_count(self) -> nat {
        archive_groups(self.highlights, self.plan).len()
    }

    /// The verse cursor is on a verse of the chapter (on the first position
    /// when the chapter has no verses), so is the anchor of a running
    /// selection, and the verses recorded as shown are verses of it.
    pub open spec fn cursor_in_chapter(self) -> bool {
        let n = self.verse_count_spec();
        &&& self.cursor_verse < n || self.cursor_verse == 0
        &&& self.mode == Mode::Visual ==> self.visual_anchor < n || self.visual_anchor == 0
        &&& self.visible_verse_range matches Some((f, l)) ==> f <= l < n
    }

    /// The selection lies within the chapter's verses (selecting from a
    /// chapter with fewer verses cannot be done).
    pub open spec fn selection_in_range(self) -> bool {
        self.active_verses_spec() matches Some(vs) ==> self.visual_anchor < vs.len()
            && self.cursor_verse < vs.len()
    }
}

impl App {
    /// The state on starting: day `today` of `plan`, its first chapter, no
    /// selection, in theme `theme`.
    pub fn new(
        bible: Bible,
        plan: Plan,
        highlights: Highlights,
        data_dir: String,
        translation: String,
        available_translations: Vec<String>,
        today: u16,
        theme: Theme,
    ) -> (res: App)
        ensures
            res.bible == bible,
            res.plan == plan,
            res.highlights == highlights,
            res.today_chapters@ == plan.day_spec(today as int),
            res.active_chapter_idx == 0,
            res.cursor_verse == 0,
            res.scroll_offset == 0,
            res.visible_verse_range is None,
            res.mode == Mode::Normal,
            res.visual_anchor == 0,
            !res.pending_g,
            res.highlight_cursor == 0,
            res.highlight_scroll_offset == 0,
            res.day == today,
            res.date_string@ == date_spec(today as int),
            !res.should_quit,
            res.theme == theme,
            !res.show_help,
            res.anim.fade_start is None,
            res.anim.flash is None,
            res.data_dir == data_dir,
            res.translation == translation,
            res.available_translations == available_translations,
            res.cursor_in_chapter(),
    {
        let date_string = date_string_for_day(today);
        let today_chapters = plan.chapters_for_day(today);
        App {
            bible,
            plan,
            highlights,
            today_chapters,
            active_chapter_idx: 0,
            cursor_verse: 0,
            scroll_offset: 0,
            visible_verse_range: None,
            mode: Mode::Normal,
            visual_anchor: 0,
            pending_g: false,
            highlight_cursor: 0,
            highlight_scroll_offset: 0,
            day: today,
            date_string,
            should_quit: false,
            theme,
            show_help: false,
            anim: AnimationState::new(),
            data_dir,
            translation,
            available_translations,
        }
    }

    /// Moves to the next theme.
    pub fn cycle_theme(&mut self)
        ensures
            step_cycle_theme(*old(self), *final(self)),
    {
        self.theme = self.theme.cycle();
    }

    /// Shows or hides the help overlay.
    pub fn toggle_help(&mut self)
        ensures
            step_toggle_help(*old(self), *final(self)),
    {
        self.show_help = !self.show_help;
    }
}

/// Cycling through translations with distinct names, from one of them,
/// visits each in turn and comes back to it after as many steps as there
/// are translations.
pub proof fn law_translation_cycle(av: Seq<String>, p: int, k: nat)
    requires
        av.len() >= 2,
        0 <= p < av.len(),
        forall|i: int, j: int| 0 <= i < j < av.len() ==> av[i]@ != av[j]@,
    ensures
        cycled(av, av[p]@, k) == av[(p + k) % (av.len() as int)]@,
    decreases k,
{
    let n = av.len() as int;
    if k == 0 {
        assert(p % n == p) by {
            vstd::arithmetic::div_mod::lemma_small_mod(p as nat, n as nat);
        }
    } else {
        law_translation_cycle(av, p, (k - 1) as nat);
        let q = (p + k - 1) % n;
        assert(0 <= q < n) by {
            vstd::arithmetic::div_mod::lemma_mod_bound(p + k - 1, n);
        }
        lemma_first_match(av, |s: String| s@ == av[q]@);
        let j = first_index(av, av[q]@);
        assert(j == q) by {
            if j < q {
                assert(av[j]@ != av[q]@);
            } else if j > q {
                assert(av[q]@ != av[j]@);
            }
        }
        assert((q + 1) % n == (p + k) % n) by {
            vstd::arithmetic::div_mod::lemma_add_mod_noop(p + k - 1, 1, n);
            vstd::arithmetic::div_mod::lemma_small_mod(1, n as nat);
            vstd::arithmetic::div_mod::lemma_mod_bound(p + k - 1, n);
        }
    }
}

/// The position of the first of `av` equal to `t`, if any.
fn position_of(av: &Vec<String>, t: &String) -> (res: Option<usize>)
    ensures
        match res {
            Some(i) => i as int == first_index(av@, t@) && i < av@.len(),
            None => first_index(av@, t@) == -1,
        },
{
    proof {
        lemma_first_match(av@, |s: String| s@ == t@);
    }
    let tc = chars_of(t.as_str());
    let mut i: usize = 0;
    while i < av.len()
        invariant
            i <= av.len(),
            tc@ == t@,
            forall|j: int| 0 <= j < i ==> av@[j]@ != t@,
            first_index(av@, t@) == -1 <==> forall|j: int| 0 <= j < av@.len() ==> av@[j]@ != t@,
            first_index(av@, t@) != -1 ==> {
                let j = first_index(av@, t@);
                &&& 0 <= j < av@.len()
                &&& av@[j]@ == t@
                &&& forall|k: int| 0 <= k < j ==> av@[k]@ != t@
            },
        decreases av.len() - i,
    {
        let c = chars_of(av[i].as_str());
        if compare_chars(&c, &tc) == 0 {
            return Some(i);
        }
        i += 1;
    }
    None
}

impl App {
    /// The translation that cycling moves to, if there is more than one.
    pub fn next_translation(&self) -> (res: Option<String>)
        ensures
            match res {
                Some(t) => self.next_translation_spec() == Some(t@),
                None => self.next_translation_spec() is None,
            },
    {
        let n = self.available_translations.len();
        if n <= 1 {
            return None;
        }
        let idx = match position_of(&self.available_translations, &self.translation) {
            Some(i) => i,
            None => 0,
        };
        let next = (idx + 1) % n;
        Some(self.available_translations[next].clone())
    }

    /// Moves to the next available translation, whose text is `bible`, and
    /// back to the start of the chapter. With one translation or none,
    /// nothing changes.
    pub fn cycle_translation(&mut self, bible: Bible)
        ensures
            old(self).next_translation_spec() is None ==> *final(self) == *old(self),
            old(self).next_translation_spec() matches Some(t) ==> {
                &&& final(self).translation@ == t
                &&& *final(self) == (App {
                    bible: bible,
                    translation: final(self).translation,
                    cursor_verse: 0,
                    scroll_offset: 0,
                    visible_verse_range: None,
                    mode: Mode::Normal,
                    anim: final(self).anim,
                    ..*old(self)
                })
                &&& final(self).anim.fade_start is Some
                &&& final(self).anim.flash == old(self).anim.flash
            },
            old(self).cursor_in_chapter() ==> final(self).cursor_in_chapter(),
    {
        let n = self.available_translations.len();
        if n <= 1 {
            return;
        }
        let idx = match position_of(&self.available_translations, &self.translation) {
            Some(i) => i,
            None => 0,
        };
        let next = (idx + 1) % n;
        self.translation = self.available_translations[next].clone();
        self.bible = bible;
        self.cursor_verse = 0;
        self.scroll_offset = 0;
        self.visible_verse_range = None;
        self.mode = Mode::Normal;
        self.anim.start_fade();
    }

    /// The chapter being read, if any.
    pub fn active_chapter(&self) -> (res: Option<&ChapterRef>)
        ensures
            match res {
                Some(c) => self.active_chapter_spec() == Some(*c),
                None => self.active_chapter_spec() is None,
            },
    {
        if self.active_chapter_idx < self.today_chapters.len() {
            Some(&self.today_chapters[self.active_chapter_idx])
        } else {
            None
        }
    }

    /// The verses of the chapter being read, if it is loaded.
    pub fn active_verses(&self) -> (res: Option<&Vec<Verse>>)
        requires
            self.wf(),
        ensures
            match res {
                Some(vs) => self.active_verses_spec() == Some(vs@),
                None => self.active_verses_spec() is None,
            },
    {
        match self.active_chapter() {
            Some(ch) => self.bible.get_chapter(ch.book.as_str(), ch.chapter),
            None => None,
        }
    }

    /// The number of verses of the chapter being read (0 when it is not
    /// loaded).
    pub fn verse_count(&self) -> (res: usize)
        requires
            self.wf(),
        ensures
            res == self.verse_count_spec(),
    {
        match self.active_verses() {
            Some(v) => v.len(),
            None => 0,
        }
    }

    /// Moves the cursor to the next verse, if there is one.
    pub fn cursor_down(&mut self)
        requires
            old(self).wf(),
        ensures
            step_cursor_down(*old(self), *final(self)),
    {
        let count = self.verse_count();
        if count > 0 && self.cursor_verse < count - 1 {
            self.cursor_verse += 1;
        }
    }

    /// Moves the cursor to the previous verse, if there is one.
    pub fn cursor_up(&mut self)
        ensures
            step_cursor_up(*old(self), *final(self)),
    {
        if self.cursor_verse > 0 {
            self.cursor_verse -= 1;
        }
    }

    /// Moves the cursor to the first verse.
    pub fn goto_first(&mut self)
        ensures
            step_goto_first(*old(self), *final(self)),
    {
        self.cursor_verse = 0;
    }

    /// Moves the cursor to the last verse, if the chapter has verses.
    pub fn goto_last(&mut self)
        requires
            old(self).wf(),
        ensures
            step_goto_last(*old(self), *final(self)),
    {
        let count = self.verse_count();
        if count > 0 {
            self.cursor_verse = count - 1;
        }
    }

    /// Records which verses the screen shows.
    pub fn set_visible_verse_range(&mut self, range: Option<(usize, usize)>)
        ensures
            *final(self) == (App { visible_verse_range: range, ..*old(self) }),
    {
        self.visible_verse_range = range;
    }

    /// Moves the cursor to the first visible verse, if known.
    pub fn goto_visible_first(&mut self)
        ensures
            step_goto_visible_first(*old(self), *final(self)),
    {
        if let Some((first, _)) = self.visible_verse_range {
            self.cursor_verse = first;
        }
    }

    /// Moves the cursor to the last visible verse, if known.
    pub fn goto_visible_last(&mut self)
        ensures
            step_goto_visible_last(*old(self), *final(self)),
    {
        if let Some((_, last)) = self.visible_verse_range {
            self.cursor_verse = last;
        }
    }

    fn half_page_len(&self, visible_lines: usize) -> (res: usize)
        requires
            self.visible_verse_range matches Some((first, last)) ==> first <= last && last - first < usize::MAX,
        ensures
            res == self.half_page(visible_lines),
            res >= 1,
    {
        match self.visible_verse_range {
            Some((first, last)) => {
                let h = (last - first + 1) / 2;
                if h < 1 {
                    1
                } else {
                    h
                }
            },
            None => {
                let h = visible_lines / 2;
                if h < 1 {
                    1
                } else {
                    h
                }
            },
        }
    }

    /// Moves the cursor down by half a page, stopping at the last verse.
    pub fn half_page_down(&mut self, visible_lines: usize)
        requires
            old(self).wf(),
            old(self).visible_verse_range matches Some((first, last)) ==> first <= last && last - first < usize::MAX,
            old(self).cursor_verse + old(self).half_page(visible_lines) <= usize::MAX,
        ensures
            step_half_page_down(*old(self), *final(self), visible_lines),
    {
        let half = self.half_page_len(visible_lines);
        let count = self.verse_count();
        if count > 0 {
            let target = self.cursor_verse + half;
            self.cursor_verse = if target < count - 1 {
                target
            } else {
                count - 1
            };
        }
    }

    /// Moves the cursor up by half a page, stopping at the first verse.
    pub fn half_page_up(&mut self, visible_lines: usize)
        requires
            old(self).visible_verse_range matches Some((first, last)) ==> first <= last && last - first < usize::MAX,
        ensures
            step_half_page_up(*old(self), *final(self), visible_lines),
    {
        let half = self.half_page_len(visible_lines);
        self.cursor_verse = if self.cursor_verse >= half {
            self.cursor_verse - half
        } else {
            0
        };
    }

    /// Moves to day `day` of the plan (kept within the plan's days), whose
    /// text is `bible`, at its first chapter and verse.
    pub fn load_day(&mut self, day: u16, bible: Bible)
        ensures
            ({
                let d = if day < 1 {
                    1u16
                } else if day > DAY_COUNT {
                    DAY_COUNT
                } else {
                    day
                };
                &&& final(self).today_chapters@ == old(self).plan.day_spec(d as int)
                &&& final(self).date_string@ == date_spec(d as int)
                &&& *final(self) == (App {
                    bible: bible,
                    today_chapters: final(self).today_chapters,
                    active_chapter_idx: 0,
                    cursor_verse: 0,
                    scroll_offset: 0,
                    visible_verse_range: None,
                    mode: Mode::Normal,
                    visual_anchor: 0,
                    pending_g: false,
                    day: d,
                    date_string: final(self).date_string,
                    anim: final(self).anim,
                    ..*old(self)
                })
            }),
            final(self).anim.fade_start is Some,
            final(self).anim.flash == old(self).anim.flash,
            final(self).cursor_in_chapter(),
    {
        let d = if day < 1 {
            1u16
        } else if day > DAY_COUNT {
            DAY_COUNT
        } else {
            day
        };
        let chapters = self.plan.chapters_for_day(d);
        self.bible = bible;
        self.today_chapters = chapters;
        self.active_chapter_idx = 0;
        self.cursor_verse = 0;
        self.scroll_offset = 0;
        self.visible_verse_range = None;
        self.mode = Mode::Normal;
        self.visual_anchor = 0;
        self.pending_g = false;
        self.day = d;
        self.date_string = date_string_for_day(d);
        self.anim.start_fade();
    }

    /// Moves to today's readings, `today` being the day of the year, whose
    /// text is `bible`.
    pub fn goto_today(&mut self, today: u16, bible: Bible)
        ensures
            ({
                let d = if today < 1 {
                    1u16
                } else if today > DAY_COUNT {
                    DAY_COUNT
                } else {
                    today
                };
                &&& final(self).today_chapters@ == old(self).plan.day_spec(d as int)
                &&& final(self).date_string@ == date_spec(d as int)
                &&& *final(self) == (App {
                    bible: bible,
                    today_chapters: final(self).today_chapters,
                    active_chapter_idx: 0,
                    cursor_verse: 0,
                    scroll_offset: 0,
                    visible_verse_range: None,
                    mode: Mode::Normal,
                    visual_anchor: 0,
                    pending_g: false,
                    day: d,
                    date_string: final(self).date_string,
                    anim: final(self).anim,
                    ..*old(self)
                })
            }),
            final(self).anim.fade_start is Some,
            final(self).anim.flash == old(self).anim.flash,
            final(self).cursor_in_chapter(),
    {
        let d = if today < DAY_COUNT {
            today
        } else {
            DAY_COUNT
        };
        self.load_day(d, bible);
    }

    /// Moves to the next chapter of the day, if there is one.
    pub fn next_chapter(&mut self)
        ensures
            step_next_chapter(*old(self), *final(self)),
    {
        if self.active_chapter_idx < self.today_chapters.len() && self.active_chapter_idx + 1 < self.today_chapters.len() {
            self.active_chapter_idx += 1;
            self.cursor_verse = 0;
            self.scroll_offset = 0;
            self.visible_verse_range = None;
            self.mode = Mode::Normal;
            self.anim.start_fade();
        }
    }

    /// Moves to the previous chapter of the day, if there is one.
    pub fn prev_chapter(&mut self)
        ensures
            step_prev_chapter(*old(self), *final(self)),
    {
        if self.active_chapter_idx > 0 {
            self.active_chapter_idx -= 1;
            self.cursor_verse = 0;
            self.scroll_offset = 0;
            self.visible_verse_range = None;
            self.mode = Mode::Normal;
            self.anim.start_fade();
        }
    }

    /// Starts a visual selection at the cursor.
    pub fn enter_visual(&mut self)
        ensures
            step_enter_visual(*old(self), *final(self)),
    {
        self.mode = Mode::Visual;
        self.visual_anchor = self.cursor_verse;
    }

    /// Ends the visual selection.
    pub fn cancel_visual(&mut self)
        ensures
            step_cancel_visual(*old(self), *final(self)),
    {
        self.mode = Mode::Normal;
    }

    /// The selected verses, first and last.
    pub fn visual_range(&self) -> (res: (usize, usize))
        ensures
            res == self.visual_range_spec(),
    {
        let a = self.visual_anchor;
        let b = self.cursor_verse;
        if a <= b {
            (a, b)
        } else {
            (b, a)
        }
    }
}

/// The position of the first chapter of `chs` that is (`b`, `c`), or -1.
pub open spec fn first_chapter_index(chs: Seq<ChapterRef>, b: Seq<char>, c: u16) -> int {
    first_match(chs, |ch: ChapterRef| ch.book@ == b && ch.chapter == c)
}

/// The position of the first verse of `vs` numbered `n`, or -1.
pub open spec fn first_verse_index(vs: Seq<Verse>, n: u16) -> int {
    first_match(vs, |v: Verse| v.number == n)
}

fn find_chapter(chs: &Vec<ChapterRef>, b: &String, c: u16) -> (res: Option<usize>)
    ensures
        match res {
            Some(i) => i as int == first_chapter_index(chs@, b@, c),
            None => first_chapter_index(chs@, b@, c) == -1,
        },
{
    proof {
        lemma_first_match(chs@, |ch: ChapterRef| ch.book@ == b@ && ch.chapter == c);
    }
    let bc = chars_of(b.as_str());
    let mut i: usize = 0;
    while i < chs.len()
        invariant
            i <= chs.len(),
            bc@ == b@,
            forall|j: int| 0 <= j < i ==> !(chs@[j].book@ == b@ && chs@[j].chapter == c),
            first_chapter_index(chs@, b@, c) == -1 <==> forall|j: int| 0 <= j < chs@.len() ==> !(chs@[j].book@ == b@ && chs@[j].chapter == c),
            first_chapter_index(chs@, b@, c) != -1 ==> {
                let j = first_chapter_index(chs@, b@, c);
                &&& 0 <= j < chs@.len()
                &&& chs@[j].book@ == b@ && chs@[j].chapter == c
                &&& forall|k: int| 0 <= k < j ==> !(chs@[k].book@ == b@ && chs@[k].chapter == c)
            },
        decreases chs.len() - i,
    {
        if chs[i].chapter == c {
            let k = chars_of(chs[i].book.as_str());
            if compare_chars(&k, &bc) == 0 {
                return Some(i);
            }
        }
        i += 1;
    }
    None
}

fn find_verse(vs: &Vec<Verse>, n: u16) -> (res: Option<usize>)
    ensures
        match res {
            Some(i) => i as int == first_verse_index(vs@, n) && i < vs@.len(),
            None => first_verse_index(vs@, n) == -1,
        },
{
    proof {
        lemma_first_match(vs@, |v: Verse| v.number == n);
    }
    let mut i: usize = 0;
    while i < vs.len()
        invariant
            i <= vs.len(),
            forall|j: int| 0 <= j < i ==> vs@[j].number != n,
            first_verse_index(vs@, n) == -1 <==> forall|j: int| 0 <= j < vs@.len() ==> vs@[j].number != n,
            first_verse_index(vs@, n) != -1 ==> {
                let j = first_verse_index(vs@, n);
                &&& 0 <= j < vs@.len()
                &&& vs@[j].number == n
                &&& forall|k: int| 0 <= k < j ==> vs@[k].number != n
            },
        decreases vs.len() - i,
    {
        if vs[i].number == n {
            return Some(i);
        }
        i += 1;
    }
    None
}

/// The verse numbers of `vs[start..=end]`.
fn numbers_of(vs: &Vec<Verse>, start: usize, end: usize) -> (res: Vec<u16>)
    requires
        start <= end < vs.len(),
    ensures
        res@ == verse_numbers(vs@, start as int, end as int),
{
    let mut out: Vec<u16> = Vec::new();
    let mut i = start;
    while i <= end
        invariant
            start <= i <= end + 1,
            end < vs.len(),
            out@ == vs@.subrange(start as int, i as int).map_values(|v: Verse| v.number),
        decreases end + 1 - i,
    {
        out.push(vs[i].number);
        i += 1;
        assert(out@ =~= vs@.subrange(start as int, i as int).map_values(|v: Verse| v.number));
    }
    out
}

impl App {
    /// Highlights the selected verses under the current day, and ends the
    /// selection.
    pub fn highlight_selection(&mut self)
        requires
            old(self).wf(),
            old(self).selection_in_range(),
        ensures
            step_highlight_selection(*old(self), *final(self)),
    {
        let ch = match self.active_chapter() {
            Some(c) => Some(c.clone()),
            None => None,
        };
        if let Some(ch) = ch {
            let nums = match self.active_verses() {
                Some(verses) => {
                    let (start, end) = self.visual_range();
                    Some(numbers_of(verses, start, end))
                },
                None => None,
            };
            if let Some(nums) = nums {
                self.highlights.highlight_range_for_day(ch.book.as_str(), ch.chapter, nums.as_slice(), self.day);
            }
        }
        self.mode = Mode::Normal;
    }

    /// Clears the selected verses, in the global index and on every day, and
    /// ends the selection.
    pub fn unhighlight_selection(&mut self)
        requires
            old(self).wf(),
            old(self).selection_in_range(),
        ensures
            step_unhighlight_selection(*old(self), *final(self)),
    {
        let ch = match self.active_chapter() {
            Some(c) => Some(c.clone()),
            None => None,
        };
        if let Some(ch) = ch {
            let nums = match self.active_verses() {
                Some(verses) => {
                    let (start, end) = self.visual_range();
                    Some(numbers_of(verses, start, end))
                },
                None => None,
            };
            if let Some(nums) = nums {
                self.highlights.unhighlight_range(ch.book.as_str(), ch.chapter, nums.as_slice());
            }
        }
        self.mode = Mode::Normal;
    }

    /// Toggles the highlight of the verse under the cursor, recording it
    /// under the current day, and flashes it.
    pub fn toggle_highlight(&mut self)
        requires
            old(self).wf(),
        ensures
            step_toggle_highlight(*old(self), *final(self)),
    {
        let ch = match self.active_chapter() {
            Some(c) => Some(c.clone()),
            None => None,
        };
        if let Some(ch) = ch {
            let num = match self.active_verses() {
                Some(verses) => if self.cursor_verse < verses.len() {
                    Some(verses[self.cursor_verse].number)
                } else {
                    None
                },
                None => None,
            };
            if let Some(v) = num {
                self.highlights.toggle_for_day(ch.book.as_str(), ch.chapter, v, self.day);
                self.anim.start_flash(self.cursor_verse);
            }
        }
    }

    /// The highlight archive: one item per (day, book, chapter) with
    /// highlighted verses, in order, verses ascending.
    pub fn highlight_items(&self) -> (res: Vec<HighlightItem>)
        requires
            self.wf(),
        ensures
            items_sorted(res@),
            item_tuples(res@) == archive_spec(self.highlights, self.plan),
            res@.len() == self.archive_count(),
    {
        let items = highlight_items(&self.highlights, &self.plan);
        proof {
            lemma_items_count(items@, self.highlights, self.plan);
        }
        items
    }

    /// Keeps the archive cursor on an item.
    pub fn clamp_highlight_cursor(&mut self)
        requires
            old(self).wf(),
        ensures
            step_clamp_highlight_cursor(*old(self), *final(self)),
    {
        let count = self.highlight_items().len();
        if count == 0 {
            self.highlight_cursor = 0;
            self.highlight_scroll_offset = 0;
        } else if self.highlight_cursor >= count {
            self.highlight_cursor = count - 1;
        }
    }

    /// Opens the highlight archive.
    pub fn enter_highlights(&mut self)
        requires
            old(self).wf(),
        ensures
            step_enter_highlights(*old(self), *final(self)),
    {
        self.mode = Mode::Highlights;
        self.pending_g = false;
        self.clamp_highlight_cursor();
    }

    /// Leaves the highlight archive.
    pub fn exit_highlights(&mut self)
        ensures
            step_exit_highlights(*old(self), *final(self)),
    {
        self.mode = Mode::Normal;
    }

    /// Moves the archive cursor to the next item, if there is one.
    pub fn highlight_cursor_down(&mut self)
        requires
            old(self).wf(),
        ensures
            step_highlight_cursor_down(*old(self), *final(self)),
    {
        let count = self.highlight_items().len();
        if count > 0 && self.highlight_cursor < count - 1 {
            self.highlight_cursor += 1;
        }
    }

    /// Moves the archive cursor to the previous item, if there is one.
    pub fn highlight_cursor_up(&mut self)
        ensures
            step_highlight_cursor_up(*old(self), *final(self)),
    {
        if self.highlight_cursor > 0 {
            self.highlight_cursor -= 1;
        }
    }

    /// The chapters whose text returning to today needs, `today` being the
    /// day of the year: those of that day, kept within the plan.
    pub fn today_reading(&self, today: u16) -> (res: Vec<ChapterRef>)
        ensures
            res@ == self.plan.day_spec(clamp_day(today as int)),
    {
        let d: u16 = if today < 1 {
            1
        } else if today > DAY_COUNT {
            DAY_COUNT
        } else {
            today
        };
        self.plan.chapters_for_day(d)
    }

    /// The chapters whose text opening the archive item under the cursor
    /// needs: those of the item's day, kept within the plan; `None` when the
    /// cursor is on no item.
    pub fn selected_reading(&self) -> (res: Option<Vec<ChapterRef>>)
        requires
            self.wf(),
        ensures
            self.highlight_cursor >= self.archive_count() ==> res is None,
            self.highlight_cursor < self.archive_count() ==> exists|items: Seq<HighlightItem>|
                #[trigger] items_sorted(items) && item_tuples(items) == archive_spec(self.highlights, self.plan)
                    && items.len() == self.archive_count() && (res matches Some(chs)
                    && chs@ == self.plan.day_spec(clamp_day(items[self.highlight_cursor as int].day as int))),
    {
        let items = self.highlight_items();
        if self.highlight_cursor < items.len() {
            let day = items[self.highlight_cursor].day;
            let d: u16 = if day < 1 {
                1
            } else if day > DAY_COUNT {
                DAY_COUNT
            } else {
                day
            };
            let chs = self.plan.chapters_for_day(d);
            proof {
                assert(items_sorted(items@));
            }
            Some(chs)
        } else {
            None
        }
    }

    /// The archive item under the archive cursor, if any.
    pub fn selected_highlight(&self) -> (res: Option<HighlightItem>)
        requires
            self.wf(),
        ensures
            match res {
                Some(it) => self.highlight_cursor < self.archive_count() && exists|items: Seq<HighlightItem>|
                    items_sorted(items) && item_tuples(items) == archive_spec(self.highlights, self.plan)
                        && items.len() == self.archive_count()
                        && #[trigger] items[self.highlight_cursor as int].day == it.day
                        && items[self.highlight_cursor as int].book@ == it.book@
                        && items[self.highlight_cursor as int].chapter == it.chapter
                        && items[self.highlight_cursor as int].verses@ == it.verses@,
                None => self.highlight_cursor >= self.archive_count(),
            },
    {
        let items = self.highlight_items();
        if self.highlight_cursor < items.len() {
            let it = items[self.highlight_cursor].clone();
            proof {
                assert(items@[self.highlight_cursor as int].day == it.day);
            }
            Some(it)
        } else {
            None
        }
    }

    /// Opens an archive item: moves to its day, whose text is `bible`, its
    /// chapter when the day reads it, and its first verse when the chapter
    /// has it.
    pub fn open_highlight(&mut self, item: &HighlightItem, bible: Bible)
        requires
            old(self).wf(),
            bible.wf(),
        ensures
            final(self).wf(),
            opened_item(*old(self), *final(self), item.day, item.book@, item.chapter, item.verses@, bible),
            final(self).cursor_in_chapter(),
    {
        self.load_day(item.day, bible);
        match find_chapter(&self.today_chapters, &item.book, item.chapter) {
            Some(i) => {
                self.active_chapter_idx = i;
            },
            None => {},
        }
        let cursor = if item.verses.len() > 0 {
            match self.active_verses() {
                Some(verses) => find_verse(verses, item.verses[0]),
                None => None,
            }
        } else {
            None
        };
        if let Some(c) = cursor {
            self.cursor_verse = c;
        }
        self.scroll_offset = 0;
        self.visible_verse_range = None;
    }

    /// Opens the archive item under the archive cursor, if any, whose day's
    /// text is `bible`.
    pub fn open_selected_highlight(&mut self, bible: Bible)
        requires
            old(self).wf(),
            bible.wf(),
        ensures
            final(self).wf(),
            old(self).highlight_cursor >= old(self).archive_count() ==> *final(self) == *old(self),
            old(self).highlight_cursor < old(self).archive_count() ==> exists|items: Seq<HighlightItem>|
                #[trigger] items_sorted(items) && item_tuples(items) == archive_spec(old(self).highlights, old(self).plan)
                    && items.len() == old(self).archive_count() && opened_item(
                    *old(self),
                    *final(self),
                    items[old(self).highlight_cursor as int].day,
                    items[old(self).highlight_cursor as int].book@,
                    items[old(self).highlight_cursor as int].chapter,
                    items[old(self).highlight_cursor as int].verses@,
                    bible,
                ),
            old(self).cursor_in_chapter() ==> final(self).cursor_in_chapter(),
    {
        let ghost s = *self;
        match self.selected_highlight() {
            Some(item) => {
                let ghost items = choose|items: Seq<HighlightItem>|
                    items_sorted(items) && item_tuples(items) == archive_spec(s.highlights, s.plan)
                        && items.len() == s.archive_count()
                        && #[trigger] items[s.highlight_cursor as int].day == item.day
                        && items[s.highlight_cursor as int].book@ == item.book@
                        && items[s.highlight_cursor as int].chapter == item.chapter
                        && items[s.highlight_cursor as int].verses@ == item.verses@;
                self.open_highlight(&item, bible);
                proof {
                    assert(items_sorted(items));
                }
            },
            None => {},
        }
    }
}

// ---------------------------------------------------------------------------
// Transitions: what each operation makes of a state `s` (the state after it
// is `t`).
// ---------------------------------------------------------------------------
pub open spec fn step_cycle_theme(s: App, t: App) -> bool {
    t == (App { theme: cycle_spec(s.theme), ..s })
}

pub open spec fn step_toggle_help(s: App, t: App) -> bool {
    t == (App { show_help: !s.show_help, ..s })
}

pub open spec fn step_cursor_down(s: App, t: App) -> bool {
    t == (App {
        cursor_verse: if s.cursor_verse + 1 < s.verse_count_spec() {
            (s.cursor_verse + 1) as usize
        } else {
            s.cursor_verse
        },
        ..s
    })
}

pub open spec fn step_cursor_up(s: App, t: App) -> bool {
    t == (App {
        cursor_verse: if s.cursor_verse > 0 {
            (s.cursor_verse - 1) as usize
        } else {
            0
        },
        ..s
    })
}

pub open spec fn step_goto_first(s: App, t: App) -> bool {
    t == (App { cursor_verse: 0, ..s })
}

pub open spec fn step_goto_last(s: App, t: App) -> bool {
    t == (App {
        cursor_verse: if s.verse_count_spec() > 0 {
            (s.verse_count_spec() - 1) as usize
        } else {
            s.cursor_verse
        },
        ..s
    })
}

pub open spec fn step_goto_visible_first(s: App, t: App) -> bool {
    t == (App {
        cursor_verse: match s.visible_verse_range {
            Some((first, _)) => first,
            None => s.cursor_verse,
        },
        ..s
    })
}

pub open spec fn step_goto_visible_last(s: App, t: App) -> bool {
    t == (App {
        cursor_verse: match s.visible_verse_range {
            Some((_, last)) => last,
            None => s.cursor_verse,
        },
        ..s
    })
}

pub open spec fn step_half_page_down(s: App, t: App, visible_lines: usize) -> bool {
    t == (App {
        cursor_verse: if s.verse_count_spec() > 0 {
            if s.cursor_verse + s.half_page(visible_lines) < s.verse_count_spec() - 1 {
                (s.cursor_verse + s.half_page(visible_lines)) as usize
            } else {
                (s.verse_count_spec() - 1) as usize
            }
        } else {
            s.cursor_verse
        },
        ..s
    })
}

pub open spec fn step_half_page_up(s: App, t: App, visible_lines: usize) -> bool {
    t == (App {
        cursor_verse: if s.cursor_verse >= s.half_page(visible_lines) {
            (s.cursor_verse - s.half_page(visible_lines)) as usize
        } else {
            0
        },
        ..s
    })
}

/// Moving to chapter `idx` of the day: start of the chapter, no selection,
/// fade started.
pub open spec fn moved_to_chapter(s: App, t: App, idx: usize) -> bool {
    &&& t == (App {
        active_chapter_idx: idx,
        cursor_verse: 0,
        scroll_offset: 0,
        visible_verse_range: None,
        mode: Mode::Normal,
        anim: t.anim,
        ..s
    })
    &&& t.anim.fade_start is Some
    &&& t.anim.flash == s.anim.flash
}

pub open spec fn step_next_chapter(s: App, t: App) -> bool {
    if s.active_chapter_idx + 1 < s.today_chapters@.len() {
        moved_to_chapter(s, t, (s.active_chapter_idx + 1) as usize)
    } else {
        t == s
    }
}

pub open spec fn step_prev_chapter(s: App, t: App) -> bool {
    if s.active_chapter_idx > 0 {
        moved_to_chapter(s, t, (s.active_chapter_idx - 1) as usize)
    } else {
        t == s
    }
}

pub open spec fn step_enter_visual(s: App, t: App) -> bool {
    t == (App { mode: Mode::Visual, visual_anchor: s.cursor_verse, ..s })
}

pub open spec fn step_cancel_visual(s: App, t: App) -> bool {
    t == (App { mode: Mode::Normal, ..s })
}

pub open spec fn step_highlight_selection(s: App, t: App) -> bool {
    &&& t.wf()
    &&& match (s.active_chapter_spec(), s.active_verses_spec()) {
        (Some(ch), Some(vs)) => {
            let k = key_spec(ch.book@, ch.chapter);
            let (start, end) = s.visual_range_spec();
            let nums = verse_numbers(vs, start as int, end as int).to_set();
            &&& t.highlights.chapter_map() == add_marks(s.highlights.chapter_map(), k, nums)
            &&& t.highlights.day_map() == days_add(s.highlights.day_map(), s.day, k, nums)
            &&& t == (App { highlights: t.highlights, mode: Mode::Normal, ..s })
        },
        _ => t == (App { mode: Mode::Normal, ..s }),
    }
}

pub open spec fn step_unhighlight_selection(s: App, t: App) -> bool {
    &&& t.wf()
    &&& match (s.active_chapter_spec(), s.active_verses_spec()) {
        (Some(ch), Some(vs)) => {
            let k = key_spec(ch.book@, ch.chapter);
            let (start, end) = s.visual_range_spec();
            let nums = verse_numbers(vs, start as int, end as int).to_set();
            &&& t.highlights.chapter_map() == strip(s.highlights.chapter_map(), k, nums)
            &&& t.highlights.day_map() == days_strip(s.highlights.day_map(), k, nums)
            &&& t == (App { highlights: t.highlights, mode: Mode::Normal, ..s })
        },
        _ => t == (App { mode: Mode::Normal, ..s }),
    }
}

pub open spec fn step_toggle_highlight(s: App, t: App) -> bool {
    &&& t.wf()
    &&& match (s.active_chapter_spec(), s.active_verses_spec()) {
        (Some(ch), Some(vs)) => if s.cursor_verse < vs.len() {
            let k = key_spec(ch.book@, ch.chapter);
            let v = vs[s.cursor_verse as int].number;
            &&& t.highlights.chapter_map() == toggled_chapters(s.highlights.chapter_map(), k, v)
            &&& t.highlights.day_map() == toggled_days(
                s.highlights.chapter_map(),
                s.highlights.day_map(),
                k,
                v,
                s.day,
            )
            &&& t == (App { highlights: t.highlights, anim: t.anim, ..s })
            &&& t.anim.flash matches Some((i, _)) && i == s.cursor_verse
            &&& t.anim.fade_start == s.anim.fade_start
        } else {
            t == s
        },
        _ => t == s,
    }
}

pub open spec fn step_clamp_highlight_cursor(s: App, t: App) -> bool {
    t == (if s.archive_count() == 0 {
        App { highlight_cursor: 0, highlight_scroll_offset: 0, ..s }
    } else if s.highlight_cursor >= s.archive_count() {
        App { highlight_cursor: (s.archive_count() - 1) as usize, ..s }
    } else {
        s
    })
}

pub open spec fn step_enter_highlights(s: App, t: App) -> bool {
    step_clamp_highlight_cursor(App { mode: Mode::Highlights, pending_g: false, ..s }, t)
}

pub open spec fn step_exit_highlights(s: App, t: App) -> bool {
    t == (App { mode: Mode::Normal, ..s })
}

pub open spec fn step_highlight_cursor_down(s: App, t: App) -> bool {
    t == (App {
        highlight_cursor: if s.highlight_cursor + 1 < s.archive_count() {
            (s.highlight_cursor + 1) as usize
        } else {
            s.highlight_cursor
        },
        ..s
    })
}

pub open spec fn step_highlight_cursor_up(s: App, t: App) -> bool {
    t == (App {
        highlight_cursor: if s.highlight_cursor > 0 {
            (s.highlight_cursor - 1) as usize
        } else {
            0
        },
        ..s
    })
}


/// Opening an archive item puts the cursor on the item's first verse: where
/// the opened chapter has a verse numbered as the item's first, the cursor
/// is on the first such verse.
pub proof fn law_open_item_at_first_verse(
    s: App,
    t: App,
    day: u16,
    book: Seq<char>,
    chapter: u16,
    verses: Seq<u16>,
    bible: Bible,
)
    requires
        opened_item(s, t, day, book, chapter, verses, bible),
        verses.len() > 0,
        t.active_verses_spec() matches Some(vs) && exists|j: int| 0 <= j < vs.len() && vs[j].number == verses[0],
        t.verse_count_spec() <= usize::MAX,
    ensures
        ({
            let vs = t.active_verses_spec().unwrap();
            &&& t.cursor_verse < vs.len()
            &&& vs[t.cursor_verse as int].number == verses[0]
            &&& forall|j: int| 0 <= j < t.cursor_verse ==> vs[j].number != verses[0]
        }),
{
    let vs = t.active_verses_spec().unwrap();
    lemma_first_match(vs, |v: Verse| v.number == verses[0]);
    let d = if day < 1 {
        1u16
    } else if day > DAY_COUNT {
        DAY_COUNT
    } else {
        day
    };
    let chs = s.plan.day_spec(d as int);
    let ci = first_chapter_index(chs, book, chapter);
    let idx: usize = if ci >= 0 {
        ci as usize
    } else {
        0
    };
    let loaded = App {
        bible: bible,
        today_chapters: t.today_chapters,
        active_chapter_idx: idx,
        cursor_verse: 0,
        scroll_offset: 0,
        visible_verse_range: None,
        mode: Mode::Normal,
        visual_anchor: 0,
        pending_g: false,
        day: d,
        date_string: t.date_string,
        anim: t.anim,
        ..s
    };
    assert(t.active_chapter_idx == loaded.active_chapter_idx);
    assert(t.bible == loaded.bible);
    assert(loaded.active_verses_spec() == t.active_verses_spec());
    let j = first_verse_index(vs, verses[0]);
    assert(0 <= j < vs.len());
    assert(t.cursor_verse == j as usize);
}

/// Opening the archive item under the cursor puts the verse cursor on the
/// item's smallest verse, where the opened chapter has it.
pub proof fn law_open_selected_at_smallest_verse(
    s: App,
    t: App,
    items: Seq<HighlightItem>,
    bible: Bible,
)
    requires
        items_sorted(items),
        s.highlight_cursor < items.len(),
        opened_item(
            s,
            t,
            items[s.highlight_cursor as int].day,
            items[s.highlight_cursor as int].book@,
            items[s.highlight_cursor as int].chapter,
            items[s.highlight_cursor as int].verses@,
            bible,
        ),
        t.active_verses_spec() matches Some(vs) && exists|j: int|
            0 <= j < vs.len() && vs[j].number == items[s.highlight_cursor as int].verses@[0],
        t.verse_count_spec() <= usize::MAX,
    ensures
        ({
            let vs = t.active_verses_spec().unwrap();
            let it = items[s.highlight_cursor as int];
            &&& t.cursor_verse < vs.len()
            &&& it.verses@.contains(vs[t.cursor_verse as int].number)
            &&& forall|v: u16| it.verses@.contains(v) ==> vs[t.cursor_verse as int].number <= v
        }),
{
    let it = items[s.highlight_cursor as int];
    assert(crate::archive::increasing(it.verses@) && it.verses@.len() > 0);
    law_open_item_at_first_verse(s, t, it.day, it.book@, it.chapter, it.verses@, bible);
    assert(it.verses@.contains(it.verses@[0]));
    assert forall|v: u16| it.verses@.contains(v) implies it.verses@[0] <= v by {
        let j = choose|j: int| 0 <= j < it.verses@.len() && it.verses@[j] == v;
        if j > 0 {
            assert(it.verses@[0] < it.verses@[j]);
        }
    }
}

} // verus!
