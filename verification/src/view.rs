//! Text layout for the screen: word wrapping, fitting to a width, and verse
//! range lists such as "1-3, 5".
use vstd::prelude::*;

use crate::archive::increasing;
use crate::text::{
    char_is_whitespace, chars_of, dec, is_whitespace, push_chars, push_dec, spaces, string_from_chars,
    string_push,
};

verus! {

broadcast use vstd::seq_lib::group_seq_properties;

// ---------------------------------------------------------------------------
// Word wrapping
// ---------------------------------------------------------------------------
/// Splitting on white space, left to right: the words completed so far and
/// the word being read.
pub open spec fn words_state(s: Seq<char>) -> (Seq<Seq<char>>, Seq<char>)
    decreases s.len(),
{
    if s.len() == 0 {
        (Seq::empty(), Seq::empty())
    } else {
        let (ws, cur) = words_state(s.drop_last());
        let c = s.last();
        if is_whitespace(c) {
            if cur.len() > 0 {
                (ws.push(cur), Seq::empty())
            } else {
                (ws, cur)
            }
        } else {
            (ws, cur.push(c))
        }
    }
}

/// The words of `s`: its maximal runs of non-white-space characters, as
/// `str::split_whitespace` gives them.
pub open spec fn words(s: Seq<char>) -> Seq<Seq<char>> {
    let (ws, cur) = words_state(s);
    if cur.len() > 0 {
        ws.push(cur)
    } else {
        ws
    }
}

/// One step of greedy filling: word `w` joins the current line when it fits
/// (with a space) within `max`, else it starts a new line.
pub open spec fn wrap_step(st: (Seq<Seq<char>>, Seq<char>), w: Seq<char>, max: nat) -> (Seq<Seq<char>>, Seq<char>) {
    let (lines, cur) = st;
    if cur.len() == 0 {
        (lines, w)
    } else if cur.len() + 1 + w.len() <= max {
        (lines, cur + seq![' '] + w)
    } else {
        (lines.push(cur), w)
    }
}

/// Greedy filling of words into lines: the finished lines and the current one.
pub open spec fn wrap_state(ws: Seq<Seq<char>>, max: nat) -> (Seq<Seq<char>>, Seq<char>)
    decreases ws.len(),
{
    if ws.len() == 0 {
        (Seq::empty(), Seq::empty())
    } else {
        wrap_step(wrap_state(ws.drop_last(), max), ws.last(), max)
    }
}

/// The lines of `text` wrapped at `max` characters, words kept whole: with
/// width 0 the text as one line; a text without words gives one empty line.
pub open spec fn word_wrap_spec(text: Seq<char>, max: nat) -> Seq<Seq<char>> {
    if max == 0 {
        seq![text]
    } else {
        let (lines, cur) = wrap_state(words(text), max);
        let all = if cur.len() > 0 {
            lines.push(cur)
        } else {
            lines
        };
        if all.len() == 0 {
            seq![Seq::<char>::empty()]
        } else {
            all
        }
    }
}

/// The views of a list of strings.
pub open spec fn string_views(v: Seq<String>) -> Seq<Seq<char>> {
    v.map_values(|s: String| s@)
}

/// Feeds one finished word to the line filler.
fn feed_word(lines: &mut Vec<String>, cur: &mut Vec<char>, w: &Vec<char>, max: usize)
    ensures
        (string_views(final(lines)@), final(cur)@) == wrap_step((string_views(old(lines)@), old(cur)@), w@, max as nat),
{
    if cur.len() == 0 {
        *cur = copy_chars(w);
    } else if cur.len() < max && w.len() <= max - cur.len() - 1 {
        cur.push(' ');
        let mut i: usize = 0;
        let ghost base = cur@;
        while i < w.len()
            invariant
                i <= w.len(),
                cur@ == base + w@.take(i as int),
            decreases w.len() - i,
        {
            cur.push(w[i]);
            i += 1;
            assert(cur@ =~= base + w@.take(i as int));
        }
        assert(w@.take(w@.len() as int) =~= w@);
        assert(cur@ =~= old(cur)@ + seq![' '] + w@);
    } else {
        let line = string_from_chars(cur);
        lines.push(line);
        *cur = copy_chars(w);
        assert(string_views(lines@) =~= string_views(old(lines)@).push(line@));
    }
}

fn copy_chars(w: &Vec<char>) -> (res: Vec<char>)
    ensures
        res@ == w@,
{
    let mut out: Vec<char> = Vec::new();
    let mut i: usize = 0;
    while i < w.len()
        invariant
            i <= w.len(),
            out@ == w@.take(i as int),
        decreases w.len() - i,
    {
        out.push(w[i]);
        i += 1;
        assert(out@ =~= w@.take(i as int));
    }
    assert(w@.take(w@.len() as int) =~= w@);
    out
}

/// Wraps `text` into lines of at most `max_width` characters, words kept
/// whole (a longer word stands alone on its line).
pub fn word_wrap(text: &str, max_width: usize) -> (res: Vec<String>)
    ensures
        string_views(res@) == word_wrap_spec(text@, max_width as nat),
{
    if max_width == 0 {
        let mut v: Vec<String> = Vec::new();
        let t = string_from_chars(&chars_of(text));
        v.push(t);
        assert(string_views(v@) =~= seq![text@]);
        return v;
    }
    let chars = chars_of(text);
    let mut lines: Vec<String> = Vec::new();
    let mut cur: Vec<char> = Vec::new();
    let mut word: Vec<char> = Vec::new();
    let mut i: usize = 0;
    proof {
        assert(string_views(lines@) =~= Seq::empty());
        assert(chars@.take(0) =~= Seq::<char>::empty());
    }
    while i < chars.len()
        invariant
            i <= chars.len(),
            chars@ == text@,
            max_width > 0,
            (string_views(lines@), cur@) == wrap_state(words_state(chars@.take(i as int)).0, max_width as nat),
            word@ == words_state(chars@.take(i as int)).1,
        decreases chars.len() - i,
    {
        let c = chars[i];
        let ghost pre = chars@.take(i as int);
        proof {
            assert(chars@.take(i + 1).drop_last() =~= pre);
            assert(chars@.take(i + 1).last() == c);
        }
        if char_is_whitespace(c) {
            if word.len() > 0 {
                feed_word(&mut lines, &mut cur, &word, max_width);
                proof {
                    let ws = words_state(pre).0.push(word@);
                    assert(ws.drop_last() =~= words_state(pre).0);
                }
                word = Vec::new();
            }
        } else {
            word.push(c);
        }
        i += 1;
    }
    proof {
        assert(chars@.take(chars@.len() as int) =~= chars@);
    }
    let ghost ws_done = words_state(chars@).0;
    if word.len() > 0 {
        feed_word(&mut lines, &mut cur, &word, max_width);
        proof {
            assert(ws_done.push(word@).drop_last() =~= ws_done);
        }
    }
    let ghost before_last = string_views(lines@);
    if cur.len() > 0 {
        let l = string_from_chars(&cur);
        lines.push(l);
        assert(string_views(lines@) =~= before_last.push(cur@));
    }
    if lines.len() == 0 {
        lines.push(String::new());
        assert(string_views(lines@) =~= seq![Seq::<char>::empty()]);
    }
    lines
}

// ---------------------------------------------------------------------------
// What wrapping keeps
// ---------------------------------------------------------------------------
/// The words of each line, one line after another.
pub open spec fn words_of_lines(ls: Seq<Seq<char>>) -> Seq<Seq<char>>
    decreases ls.len(),
{
    if ls.len() == 0 {
        Seq::empty()
    } else {
        words_of_lines(ls.drop_last()) + words(ls.last())
    }
}

/// A word: characters and no white space.
pub open spec fn is_word(w: Seq<char>) -> bool {
    w.len() > 0 && forall|j: int| 0 <= j < w.len() ==> !is_whitespace(#[trigger] w[j])
}

/// What splitting finds is made of words.
proof fn lemma_words_state_words(s: Seq<char>)
    ensures
        forall|j: int| 0 <= j < words_state(s).0.len() ==> is_word(#[trigger] words_state(s).0[j]),
        forall|j: int| 0 <= j < words_state(s).1.len() ==> !is_whitespace(#[trigger] words_state(s).1[j]),
    decreases s.len(),
{
    if s.len() > 0 {
        let s1 = s.drop_last();
        lemma_words_state_words(s1);
        let (ws, cur) = words_state(s1);
        let c = s.last();
        if is_whitespace(c) {
            if cur.len() > 0 {
                let ws2 = ws.push(cur);
                assert forall|j: int| 0 <= j < ws2.len() implies is_word(#[trigger] ws2[j]) by {
                    if j < ws.len() {
                        assert(ws2[j] == ws[j]);
                    } else {
                        assert(ws2[j] == cur);
                        assert forall|k: int| 0 <= k < cur.len() implies !is_whitespace(#[trigger] cur[k]) by {
                            assert(cur[k] == words_state(s1).1[k]);
                        }
                    }
                }
            }
        } else {
            let cur2 = cur.push(c);
            assert forall|j: int| 0 <= j < cur2.len() implies !is_whitespace(#[trigger] cur2[j]) by {
                if j < cur.len() {
                    assert(cur2[j] == cur[j]);
                    assert(cur[j] == words_state(s1).1[j]);
                }
            }
        }
    }
}

/// The words of a text are words.
proof fn lemma_words_are_words(s: Seq<char>)
    ensures
        forall|j: int| 0 <= j < words(s).len() ==> is_word(#[trigger] words(s)[j]),
{
    lemma_words_state_words(s);
}

/// Splitting `a`, a space, then `b` finds the words of `a`, then what
/// splitting `b` alone finds.
proof fn lemma_words_state_after_space(a: Seq<char>, b: Seq<char>)
    ensures
        words_state(a + seq![' '] + b) == (words(a) + words_state(b).0, words_state(b).1),
    decreases b.len(),
{
    if b.len() == 0 {
        assert(a + seq![' '] + b =~= a + seq![' ']);
        assert((a + seq![' ']).drop_last() =~= a);
        assert(is_whitespace(' '));
        assert(words(a) + Seq::<Seq<char>>::empty() =~= words(a));
    } else {
        let b1 = b.drop_last();
        lemma_words_state_after_space(a, b1);
        assert((a + seq![' '] + b).drop_last() =~= a + seq![' '] + b1);
        assert((a + seq![' '] + b).last() == b.last());
        let (ws, cur) = words_state(b1);
        if is_whitespace(b.last()) && cur.len() > 0 {
            assert(words(a) + ws.push(cur) =~= (words(a) + ws).push(cur));
        }
    }
}

/// The words of `a`, a space and `b` are those of `a` and then those of `b`.
proof fn lemma_words_join(a: Seq<char>, b: Seq<char>)
    ensures
        words(a + seq![' '] + b) == words(a) + words(b),
{
    lemma_words_state_after_space(a, b);
    let (ws, cur) = words_state(b);
    if cur.len() > 0 {
        assert(words(a) + ws.push(cur) =~= (words(a) + ws).push(cur));
    }
}

/// A word splits into itself.
proof fn lemma_words_of_word(w: Seq<char>)
    requires
        is_word(w),
    ensures
        words(w) == seq![w],
{
    lemma_words_state_of_word(w);
}

proof fn lemma_words_state_of_word(w: Seq<char>)
    requires
        forall|j: int| 0 <= j < w.len() ==> !is_whitespace(#[trigger] w[j]),
    ensures
        words_state(w) == (Seq::<Seq<char>>::empty(), w),
    decreases w.len(),
{
    if w.len() > 0 {
        let w1 = w.drop_last();
        assert forall|j: int| 0 <= j < w1.len() implies !is_whitespace(#[trigger] w1[j]) by {
            assert(w1[j] == w[j]);
        }
        lemma_words_state_of_word(w1);
        assert(!is_whitespace(w[w.len() - 1]));
        assert(w1.push(w.last()) =~= w);
    }
}

/// Nothing has no words.
proof fn lemma_words_empty()
    ensures
        words(Seq::<char>::empty()) == Seq::<Seq<char>>::empty(),
{
}

/// Filling lines keeps the words: the finished lines' words and then the
/// current line's are the words filled in, and every line fits the width
/// unless it is one of the words.
proof fn lemma_wrap_state_keeps(ws: Seq<Seq<char>>, max: nat)
    requires
        forall|j: int| 0 <= j < ws.len() ==> is_word(#[trigger] ws[j]),
    ensures
        words_of_lines(wrap_state(ws, max).0) + words(wrap_state(ws, max).1) == ws,
        forall|j: int|
            0 <= j < wrap_state(ws, max).0.len() ==> (#[trigger] wrap_state(ws, max).0[j]).len() <= max || ws.contains(
                wrap_state(ws, max).0[j],
            ),
        wrap_state(ws, max).1.len() <= max || ws.contains(wrap_state(ws, max).1),
    decreases ws.len(),
{
    if ws.len() == 0 {
        lemma_words_empty();
        assert(Seq::<Seq<char>>::empty() + Seq::<Seq<char>>::empty() =~= ws);
    } else {
        let ws1 = ws.drop_last();
        assert forall|j: int| 0 <= j < ws1.len() implies is_word(#[trigger] ws1[j]) by {
            assert(ws1[j] == ws[j]);
        }
        lemma_wrap_state_keeps(ws1, max);
        let (lines, cur) = wrap_state(ws1, max);
        let w = ws.last();
        assert(is_word(w));
        lemma_words_of_word(w);
        assert(ws.contains(w)) by {
            assert(ws[ws.len() - 1] == w);
        }
        assert forall|x: Seq<char>| ws1.contains(x) implies ws.contains(x) by {
            let j = choose|j: int| 0 <= j < ws1.len() && ws1[j] == x;
            assert(ws[j] == x);
        }
        assert(ws1.push(w) =~= ws);
        if cur.len() == 0 {
            lemma_words_empty();
            assert(words_of_lines(lines) + Seq::<Seq<char>>::empty() =~= words_of_lines(lines));
            assert(words_of_lines(lines) + seq![w] =~= ws);
        } else if cur.len() + 1 + w.len() <= max {
            lemma_words_join(cur, w);
            assert(words_of_lines(lines) + (words(cur) + seq![w]) =~= (words_of_lines(lines) + words(cur)).push(w));
        } else {
            let lines2 = lines.push(cur);
            assert(lines2.drop_last() =~= lines);
            assert(words_of_lines(lines2) + seq![w] =~= (words_of_lines(lines) + words(cur)).push(w));
            assert forall|j: int| 0 <= j < lines2.len() implies (#[trigger] lines2[j]).len() <= max || ws.contains(lines2[j]) by {
                if j < lines.len() {
                    assert(lines2[j] == lines[j]);
                }
            }
        }
    }
}

/// Wrapping neither loses, adds nor reorders words: the words of the lines,
/// one line after another, are the words of the text.
pub proof fn law_wrap_keeps_words(text: Seq<char>, max: nat)
    ensures
        words_of_lines(word_wrap_spec(text, max)) == words(text),
{
    let none = Seq::<Seq<char>>::empty();
    assert(words_of_lines(none) == none);
    if max == 0 {
        assert(seq![text].drop_last() =~= none);
        assert(seq![text].last() == text);
        assert(none + words(text) =~= words(text));
    } else {
        let ws = words(text);
        lemma_words_are_words(text);
        lemma_wrap_state_keeps(ws, max);
        let (lines, cur) = wrap_state(ws, max);
        lemma_words_empty();
        if cur.len() > 0 {
            assert(lines.push(cur).drop_last() =~= lines);
            assert(lines.push(cur).last() == cur);
            assert(word_wrap_spec(text, max) == lines.push(cur));
        } else {
            assert(words_of_lines(lines) + none =~= words_of_lines(lines));
            if lines.len() == 0 {
                let one = seq![Seq::<char>::empty()];
                assert(one.drop_last() =~= none);
                assert(one.last() == Seq::<char>::empty());
                assert(none + none =~= none);
                assert(word_wrap_spec(text, max) == one);
                assert(words_of_lines(one) == none + words(Seq::<char>::empty()));
            } else {
                assert(word_wrap_spec(text, max) == lines);
            }
        }
    }
}

/// Filling is greedy: a line ends only where the next word would not fit
/// on it.
proof fn lemma_wrap_state_greedy(ws: Seq<Seq<char>>, max: nat)
    requires
        forall|j: int| 0 <= j < ws.len() ==> is_word(#[trigger] ws[j]),
    ensures
        ({
            let (lines, cur) = wrap_state(ws, max);
            &&& lines.len() > 0 ==> cur.len() > 0
            &&& cur.len() > 0 ==> words(cur).len() > 0
            &&& forall|j: int| 0 <= j < lines.len() ==> words(#[trigger] lines[j]).len() > 0
            &&& forall|j: int|
                0 <= j < lines.len() - 1 ==> (#[trigger] lines[j]).len() + 1 + words(lines[j + 1])[0].len() > max
            &&& lines.len() > 0 ==> lines.last().len() + 1 + words(cur)[0].len() > max
        }),
    decreases ws.len(),
{
    if ws.len() > 0 {
        let ws1 = ws.drop_last();
        assert forall|j: int| 0 <= j < ws1.len() implies is_word(#[trigger] ws1[j]) by {
            assert(ws1[j] == ws[j]);
        }
        lemma_wrap_state_greedy(ws1, max);
        let (lines, cur) = wrap_state(ws1, max);
        let w = ws.last();
        assert(is_word(w));
        lemma_words_of_word(w);
        if cur.len() == 0 {
        } else if cur.len() + 1 + w.len() <= max {
            lemma_words_join(cur, w);
            assert((words(cur) + seq![w])[0] == words(cur)[0]);
            assert(cur + seq![' '] + w != Seq::<char>::empty()) by {
                assert((cur + seq![' '] + w).len() > 0);
            }
        } else {
            let lines2 = lines.push(cur);
            assert forall|j: int| 0 <= j < lines2.len() implies words(#[trigger] lines2[j]).len() > 0 by {
                if j < lines.len() {
                    assert(lines2[j] == lines[j]);
                }
            }
            assert forall|j: int| 0 <= j < lines2.len() - 1 implies (#[trigger] lines2[j]).len() + 1 + words(lines2[j + 1])[0].len() > max by {
                assert(lines2[j] == lines[j]);
                if j + 1 < lines.len() {
                    assert(lines2[j + 1] == lines[j + 1]);
                } else {
                    assert(lines2[j + 1] == cur);
                }
            }
        }
    }
}

/// Wrapping is greedy: each line but the last ends only because the first
/// word of the next line would not have fitted on it (after a space).
pub proof fn law_wrap_greedy(text: Seq<char>, max: nat)
    requires
        max > 0,
    ensures
        forall|i: int|
            0 <= i < word_wrap_spec(text, max).len() - 1 ==> words(word_wrap_spec(text, max)[i + 1]).len() > 0
                && (#[trigger] word_wrap_spec(text, max)[i]).len() + 1 + words(word_wrap_spec(text, max)[i + 1])[0].len()
                > max,
{
    let ws = words(text);
    lemma_words_are_words(text);
    lemma_wrap_state_greedy(ws, max);
    let (lines, cur) = wrap_state(ws, max);
    let all = word_wrap_spec(text, max);
    if cur.len() > 0 {
        let l2 = lines.push(cur);
        assert(all == l2);
        assert forall|i: int| 0 <= i < all.len() - 1 implies words(all[i + 1]).len() > 0 && (#[trigger] all[i]).len() + 1
            + words(all[i + 1])[0].len() > max by {
            assert(all[i] == lines[i]);
            if i + 1 < lines.len() {
                assert(all[i + 1] == lines[i + 1]);
            } else {
                assert(all[i + 1] == cur);
            }
        }
    } else {
        assert(lines.len() == 0);
        assert(all.len() == 1);
    }
}

/// Every wrapped line fits the width, but for a word longer than the width,
/// which stands alone on its line.
pub proof fn law_wrap_fits(text: Seq<char>, max: nat)
    requires
        max > 0,
    ensures
        forall|i: int|
            0 <= i < word_wrap_spec(text, max).len() ==> (#[trigger] word_wrap_spec(text, max)[i]).len() <= max || words(
                text,
            ).contains(word_wrap_spec(text, max)[i]),
{
    let ws = words(text);
    lemma_words_are_words(text);
    lemma_wrap_state_keeps(ws, max);
    let (lines, cur) = wrap_state(ws, max);
    let all = word_wrap_spec(text, max);
    assert forall|i: int| 0 <= i < all.len() implies (#[trigger] all[i]).len() <= max || ws.contains(all[i]) by {
        if cur.len() > 0 {
            if i < lines.len() {
                assert(all[i] == lines[i]);
            } else {
                assert(all[i] == cur);
            }
        } else if lines.len() > 0 {
            assert(all[i] == lines[i]);
        }
    }
}

// ---------------------------------------------------------------------------
// Fitting to a width
// ---------------------------------------------------------------------------
/// `text` padded with spaces to `width` characters, or cut to `width`; a
/// cut text ends in "..." when the width leaves room for it.
pub open spec fn fit_spec(text: Seq<char>, width: nat) -> Seq<char> {
    if text.len() <= width {
        text + Seq::new((width - text.len()) as nat, |i: int| ' ')
    } else if width <= 3 {
        text.take(width as int)
    } else {
        text.take(width - 3) + seq!['.', '.', '.']
    }
}

/// Fitting gives exactly `width` characters, and keeps a text that fits as
/// its start.
pub proof fn law_fit_width(text: Seq<char>, width: nat)
    ensures
        fit_spec(text, width).len() == width,
        text.len() <= width ==> fit_spec(text, width).take(text.len() as int) == text,
{
    if text.len() <= width {
        assert(fit_spec(text, width).take(text.len() as int) =~= text);
    }
}

/// Pads or cuts `text` to exactly `width` characters.
pub fn fit_to_width(text: &str, width: usize) -> (res: String)
    ensures
        res@ == fit_spec(text@, width as nat),
{
    let chars = chars_of(text);
    let len = chars.len();
    let mut s = String::new();
    if len <= width {
        push_chars(&mut s, &chars, 0, len);
        let pad = spaces(width - len);
        push_chars(&mut s, &chars_of(pad.as_str()), 0, width - len);
        proof {
            assert(chars@.subrange(0, len as int) =~= text@);
        }
        assert(s@ =~= fit_spec(text@, width as nat));
        return s;
    }
    if width <= 3 {
        push_chars(&mut s, &chars, 0, width);
        assert(s@ =~= fit_spec(text@, width as nat));
        return s;
    }
    push_chars(&mut s, &chars, 0, width - 3);
    string_push(&mut s, '.');
    string_push(&mut s, '.');
    string_push(&mut s, '.');
    assert(s@ =~= fit_spec(text@, width as nat));
    s
}

// ---------------------------------------------------------------------------
// Verse ranges
// ---------------------------------------------------------------------------
/// "5" for a range of one verse, "3-7" otherwise.
pub open spec fn range_text(start: u16, end: u16) -> Seq<char> {
    if start == end {
        dec(start as nat)
    } else {
        dec(start as nat) + seq!['-'] + dec(end as nat)
    }
}

/// Formats a range of verses.
pub fn format_range(start: u16, end: u16) -> (res: String)
    ensures
        res@ == range_text(start, end),
{
    let mut s = String::new();
    push_dec(&mut s, start as u64);
    if start != end {
        string_push(&mut s, '-');
        push_dec(&mut s, end as u64);
    }
    assert(s@ =~= range_text(start, end));
    s
}

/// The runs of consecutive numbers of an increasing list, as (first, last).
pub open spec fn runs(s: Seq<u16>) -> Seq<(u16, u16)>
    decreases s.len(),
{
    if s.len() == 0 {
        Seq::empty()
    } else {
        let r = runs(s.drop_last());
        let v = s.last();
        if r.len() > 0 && r.last().1 + 1 == v {
            r.update(r.len() - 1, (r.last().0, v))
        } else {
            r.push((v, v))
        }
    }
}

/// The texts of ranges, joined by ", ".
pub open spec fn join_ranges(r: Seq<(u16, u16)>) -> Seq<char>
    decreases r.len(),
{
    if r.len() == 0 {
        Seq::empty()
    } else if r.len() == 1 {
        range_text(r[0].0, r[0].1)
    } else {
        join_ranges(r.drop_last()) + seq![',', ' '] + range_text(r.last().0, r.last().1)
    }
}

/// The verses of a set in increasing order.
pub open spec fn sorted_verses(vs: Set<u16>) -> Seq<u16> {
    choose|s: Seq<u16>| increasing(s) && s.to_set() == vs
}

/// A list of verses as ranges of consecutive verses, such as "1-3, 5".
pub open spec fn verse_ranges_spec(vs: Seq<u16>) -> Seq<char> {
    join_ranges(runs(sorted_verses(vs.to_set())))
}

/// Two increasing lists with the same elements are equal.
pub proof fn lemma_increasing_unique(a: Seq<u16>, b: Seq<u16>)
    requires
        increasing(a),
        increasing(b),
        a.to_set() == b.to_set(),
    ensures
        a == b,
    decreases a.len(),
{
    if a.len() == 0 {
        if b.len() > 0 {
            assert(b.to_set().contains(b[0]));
        }
        assert(a =~= b);
    } else if b.len() == 0 {
        assert(a.to_set().contains(a[0]));
    } else {
        assert(a.to_set().contains(b[0]));
        assert(b.to_set().contains(a[0]));
        let i = choose|i: int| 0 <= i < a.len() && a[i] == b[0];
        let j = choose|j: int| 0 <= j < b.len() && b[j] == a[0];
        if i > 0 {
            assert(a[0] < a[i]);
        }
        if j > 0 {
            assert(b[0] < b[j]);
        }
        assert(a[0] == b[0]);
        let a1 = a.drop_first();
        let b1 = b.drop_first();
        assert forall|x: u16| a1.to_set().contains(x) <==> b1.to_set().contains(x) by {
            if a1.contains(x) {
                let k = choose|k: int| 0 <= k < a1.len() && a1[k] == x;
                assert(a[k + 1] == x);
                assert(a[0] < a[k + 1]);
                assert(a.to_set().contains(x));
                let m = choose|m: int| 0 <= m < b.len() && b[m] == x;
                assert(m != 0);
                assert(b1[m - 1] == x);
            }
            if b1.contains(x) {
                let k = choose|k: int| 0 <= k < b1.len() && b1[k] == x;
                assert(b[k + 1] == x);
                assert(b[0] < b[k + 1]);
                assert(b.to_set().contains(x));
                let m = choose|m: int| 0 <= m < a.len() && a[m] == x;
                assert(m != 0);
                assert(a1[m - 1] == x);
            }
        }
        assert(a1.to_set() =~= b1.to_set());
        lemma_increasing_unique(a1, b1);
        assert(a =~= b1.insert(0, b[0]));
        assert(b =~= b1.insert(0, b[0]));
    }
}

/// Adds `v` to a strictly increasing list.
fn insert_sorted(vs: &mut Vec<u16>, v: u16)
    requires
        increasing(old(vs)@),
    ensures
        increasing(final(vs)@),
        final(vs)@.to_set() == old(vs)@.to_set().insert(v),
{
    let mut p: usize = 0;
    while p < vs.len() && vs[p] < v
        invariant
            p <= vs.len(),
            vs@ == old(vs)@,
            forall|a: int| 0 <= a < p ==> vs@[a] < v,
        decreases vs.len() - p,
    {
        p += 1;
    }
    if p < vs.len() && vs[p] == v {
        assert(vs@[p as int] == v);
        assert(vs@.to_set() =~= old(vs)@.to_set().insert(v));
        return ;
    }
    vs.insert(p, v);
    proof {
        let o = old(vs)@;
        let n = vs@;
        assert forall|a: int| 0 <= a < n.len() implies #[trigger] n[a] == (if a < p {
            o[a]
        } else if a == p {
            v
        } else {
            o[a - 1]
        }) by {}
        assert forall|a: int, b: int| 0 <= a < b < n.len() implies n[a] < n[b] by {
            if b == p {
                assert(n[a] == o[a]);
            } else if a == p {
                assert(n[b] == o[b - 1]);
                if b - 1 > p {
                    assert(o[p as int] < o[b - 1]);
                }
            } else if a < p && b > p {
                assert(n[a] == o[a] && n[b] == o[b - 1]);
                if b - 1 > p {
                    assert(o[p as int] < o[b - 1]);
                }
            } else if b < p {
                assert(n[a] == o[a] && n[b] == o[b]);
            } else {
                assert(n[a] == o[a - 1] && n[b] == o[b - 1]);
            }
        }
        assert forall|x: u16| n.contains(x) <==> o.contains(x) || x == v by {
            if n.contains(x) {
                let j = choose|j: int| 0 <= j < n.len() && n[j] == x;
                if j < p {
                    assert(o[j] == x);
                } else if j > p {
                    assert(o[j - 1] == x);
                }
            }
            if o.contains(x) {
                let j = choose|j: int| 0 <= j < o.len() && o[j] == x;
                if j < p {
                    assert(n[j] == x);
                } else {
                    assert(n[j + 1] == x);
                }
            }
            if x == v {
                assert(n[p as int] == v);
            }
        }
        assert(n.to_set() =~= o.to_set().insert(v));
    }
}

/// Formats a list of verses as ranges of consecutive verses, ascending,
/// each verse once: [3, 1, 2, 5] gives "1-3, 5".
pub fn format_verse_ranges(verses: &[u16]) -> (res: String)
    ensures
        res@ == verse_ranges_spec(verses@),
{
    let mut sorted: Vec<u16> = Vec::new();
    let mut i: usize = 0;
    while i < verses.len()
        invariant
            i <= verses.len(),
            increasing(sorted@),
            sorted@.to_set() == verses@.take(i as int).to_set(),
        decreases verses.len() - i,
    {
        insert_sorted(&mut sorted, verses[i]);
        proof {
            assert(verses@.take(i + 1) =~= verses@.take(i as int).push(verses@[i as int]));
            assert(verses@.take(i + 1).to_set() =~= verses@.take(i as int).to_set().insert(verses@[i as int])) by {
                let pre = verses@.take(i as int);
                let post = verses@.take(i + 1);
                assert forall|x: u16| post.contains(x) <==> pre.contains(x) || x == verses@[i as int] by {
                    if post.contains(x) {
                        let j = choose|j: int| 0 <= j < post.len() && post[j] == x;
                        if j < i {
                            assert(pre[j] == x);
                        }
                    }
                    if pre.contains(x) {
                        let j = choose|j: int| 0 <= j < pre.len() && pre[j] == x;
                        assert(post[j] == x);
                    }
                    if x == verses@[i as int] {
                        assert(post[i as int] == x);
                    }
                }
            }
        }
        i += 1;
    }
    proof {
        assert(verses@.take(verses@.len() as int) =~= verses@);
        let u = sorted_verses(verses@.to_set());
        assert(increasing(sorted@) && sorted@.to_set() == verses@.to_set());
        lemma_increasing_unique(u, sorted@);
    }
    let mut out = String::new();
    if sorted.len() == 0 {
        assert(runs(sorted@) =~= Seq::empty());
        return out;
    }
    let mut start = sorted[0];
    let mut end = start;
    let mut k: usize = 1;
    let mut wrote = false;
    proof {
        assert(sorted@.take(1).drop_last() =~= Seq::<u16>::empty());
        assert(sorted@.take(1).last() == start);
        assert(runs(Seq::<u16>::empty()) == Seq::<(u16, u16)>::empty());
        assert(runs(sorted@.take(1)) =~= seq![(start, end)]);
        assert(out@ =~= join_ranges(runs(sorted@.take(1)).drop_last()));
    }
    while k < sorted.len()
        invariant
            1 <= k <= sorted.len(),
            increasing(sorted@),
            runs(sorted@.take(k as int)).len() > 0,
            runs(sorted@.take(k as int)).last() == (start, end),
            end == sorted@[k - 1],
            out@ == join_ranges(runs(sorted@.take(k as int)).drop_last()),
            wrote == (runs(sorted@.take(k as int)).len() > 1),
        decreases sorted.len() - k,
    {
        let v = sorted[k];
        let ghost r = runs(sorted@.take(k as int));
        proof {
            assert(sorted@.take(k + 1).drop_last() =~= sorted@.take(k as int));
            assert(sorted@.take(k + 1).last() == v);
            assert(end < v);
        }
        if end < u16::MAX && end + 1 == v {
            end = v;
            proof {
                let r2 = runs(sorted@.take(k + 1));
                assert(r2 == r.update(r.len() - 1, (start, end)));
                assert(r2.drop_last() =~= r.drop_last());
            }
        } else {
            let piece = format_range(start, end);
            proof {
                let r2 = runs(sorted@.take(k + 1));
                assert(r2 == r.push((v, v)));
                assert(r2.drop_last() =~= r);
                if r.len() == 1 {
                    assert(r.drop_last() =~= Seq::empty());
                    assert(join_ranges(r) == range_text(start, end));
                } else {
                    assert(join_ranges(r) == join_ranges(r.drop_last()) + seq![',', ' '] + range_text(start, end));
                }
            }
            if wrote {
                string_push(&mut out, ',');
                string_push(&mut out, ' ');
            }
            let pc = chars_of(piece.as_str());
            push_chars(&mut out, &pc, 0, pc.len());
            wrote = true;
            proof {
                assert(pc@.subrange(0, pc@.len() as int) =~= pc@);
                if r.len() == 1 {
                    assert(out@ =~= join_ranges(r));
                } else {
                    assert(out@ =~= join_ranges(r));
                }
            }
            start = v;
            end = v;
        }
        k += 1;
    }
    proof {
        assert(sorted@.take(sorted@.len() as int) =~= sorted@);
        let r = runs(sorted@);
        if r.len() == 1 {
            assert(r.drop_last() =~= Seq::empty());
        }
    }
    let piece = format_range(start, end);
    if wrote {
        string_push(&mut out, ',');
        string_push(&mut out, ' ');
    }
    let pc = chars_of(piece.as_str());
    push_chars(&mut out, &pc, 0, pc.len());
    proof {
        assert(pc@.subrange(0, pc@.len() as int) =~= pc@);
        let r = runs(sorted@);
        assert(out@ =~= join_ranges(r));
    }
    out
}

} // verus!
