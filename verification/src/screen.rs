//! What the screen shows, as lines of styled text: the header, the verses of
//! the chapter being read, the highlight archive, the status line and the
//! help overlay. Drawing them is left to the terminal front end.
use vstd::prelude::*;

use crate::app::{App, Mode};
use crate::archive::{archive_groups, archive_spec, item_lt, item_tuples, items_sorted, HighlightItem};
use crate::plan::ChapterRef;
use crate::bible::Verse;
use crate::highlight::key_spec;
use crate::text::{chars_of, dec, push_chars, push_dec, push_str_chars, spaces, string_push};
use crate::plan::{date_spec, date_string_for_day};
use crate::theme::{
    bg_style_spec, chapter_title_style_spec, header_chapter_active_spec, header_chapter_inactive_spec, header_day_style_spec,
    header_separator_style_spec, help_bg_style_spec, help_desc_style_spec, help_key_style_spec,
    help_title_style_spec, status_accent_style_spec, status_style_spec, verse_styles_spec, Style, Theme,
};
use crate::view::{fit_spec, fit_to_width, format_verse_ranges, string_views, verse_ranges_spec, word_wrap, word_wrap_spec};

verus! {

broadcast use vstd::seq_lib::group_seq_properties;

/// A piece of text in one style.
pub struct Span {
    pub text: String,
    pub style: Style,
}

/// The (text, style) pairs of a line.
pub open spec fn line_view(l: Seq<Span>) -> Seq<(Seq<char>, Style)> {
    l.map_values(|s: Span| (s.text@, s.style))
}

/// The views of a list of lines.
pub open spec fn lines_view(ls: Seq<Vec<Span>>) -> Seq<Seq<(Seq<char>, Style)>> {
    ls.map_values(|l: Vec<Span>| line_view(l@))
}

/// `n` spaces.
pub open spec fn blanks(n: nat) -> Seq<char> {
    Seq::new(n, |i: int| ' ')
}

/// `a - b`, or 0 when `b` is larger.
pub open spec fn sat_sub(a: int, b: int) -> nat {
    if a >= b {
        (a - b) as nat
    } else {
        0
    }
}

/// The decimal form of `n`, right-aligned in three columns.
pub open spec fn num3(n: u16) -> Seq<char> {
    blanks(sat_sub(3, dec(n as nat).len() as int)) + dec(n as nat)
}

/// The lines of a verse with a hanging indent: a 4-column margin, the
/// number in 3 columns and a 2-column gap, then the text wrapped to the rest
/// of the width, each line padded to that width and the later ones indented
/// by 9 columns. With no room for text, one line holds number and text.
pub open spec fn verse_lines_spec(num: u16, text: Seq<char>, content_width: u16, num_style: Style, text_style: Style) -> Seq<Seq<(Seq<char>, Style)>> {
    let text_width = sat_sub(content_width as int, 9);
    if text_width == 0 {
        seq![seq![(num3(num) + blanks(2) + text, text_style)]]
    } else {
        let segs = word_wrap_spec(text, text_width);
        Seq::new(
            segs.len(),
            |i: int|
                if i == 0 {
                    seq![
                        (blanks(4) + num3(num) + blanks(2), num_style),
                        (segs[i] + blanks(sat_sub(text_width as int, segs[i].len() as int)), text_style),
                    ]
                } else {
                    seq![
                        (blanks(9), text_style),
                        (segs[i] + blanks(sat_sub(text_width as int, segs[i].len() as int)), text_style),
                    ]
                },
        )
    }
}

/// A span of `text`.
pub fn span(text: String, style: Style) -> (res: Span)
    ensures
        res.text@ == text@,
        res.style == style,
{
    Span { text, style }
}


fn push_spaces(s: &mut String, n: usize)
    ensures
        final(s)@ == old(s)@ + blanks(n as nat),
{
    let sp = spaces(n);
    push_str_chars(s, sp.as_str());
    assert(sp@ =~= blanks(n as nat));
}

/// Appends the verse number right-aligned in three columns.
fn push_num3(s: &mut String, n: u16)
    ensures
        final(s)@ == old(s)@ + num3(n),
{
    let d = crate::text::dec_string(n as u64);
    let dc = chars_of(d.as_str());
    let pad = if dc.len() < 3 {
        3 - dc.len()
    } else {
        0
    };
    push_spaces(s, pad);
    push_chars(s, &dc, 0, dc.len());
    assert(dc@.subrange(0, dc@.len() as int) =~= dc@);
    assert(final(s)@ =~= old(s)@ + num3(n));
}

/// Builds the lines of one verse.
pub fn build_verse_lines(verse_num: u16, text: &str, content_width: u16, num_style: Style, text_style: Style) -> (res: Vec<Vec<Span>>)
    ensures
        lines_view(res@) == verse_lines_spec(verse_num, text@, content_width, num_style, text_style),
{
    let prefix_len: usize = 9;
    let text_width: usize = if (content_width as usize) >= prefix_len {
        content_width as usize - prefix_len
    } else {
        0
    };
    let mut out: Vec<Vec<Span>> = Vec::new();
    if text_width == 0 {
        let mut s = String::new();
        push_num3(&mut s, verse_num);
        push_spaces(&mut s, 2);
        push_str_chars(&mut s, text);
        let mut line: Vec<Span> = Vec::new();
        line.push(span(s, text_style));
        out.push(line);
        proof {
            assert(line_view(line@) =~= seq![(num3(verse_num) + blanks(2) + text@, text_style)]);
            assert(lines_view(out@) =~= verse_lines_spec(verse_num, text@, content_width, num_style, text_style));
        }
        return out;
    }
    let segments = word_wrap(text, text_width);
    let ghost segs = word_wrap_spec(text@, text_width as nat);
    let mut i: usize = 0;
    while i < segments.len()
        invariant
            i <= segments.len(),
            prefix_len == 9,
            text_width > 0,
            text_width as nat == sat_sub(content_width as int, 9),
            string_views(segments@) == segs,
            segs == word_wrap_spec(text@, text_width as nat),
            lines_view(out@) == verse_lines_spec(verse_num, text@, content_width, num_style, text_style).take(i as int),
        decreases segments.len() - i,
    {
        let seg = &segments[i];
        let sc = chars_of(seg.as_str());
        let pad = if sc.len() <= text_width {
            text_width - sc.len()
        } else {
            0
        };
        let mut body = String::new();
        push_chars(&mut body, &sc, 0, sc.len());
        push_spaces(&mut body, pad);
        let mut head = String::new();
        if i == 0 {
            push_spaces(&mut head, 4);
            push_num3(&mut head, verse_num);
            push_spaces(&mut head, 2);
        } else {
            push_spaces(&mut head, prefix_len);
        }
        let hs = if i == 0 {
            num_style
        } else {
            text_style
        };
        let mut line: Vec<Span> = Vec::new();
        line.push(span(head, hs));
        line.push(span(body, text_style));
        let ghost old_out = out@;
        out.push(line);
        proof {
            assert(lines_view(out@) =~= lines_view(old_out).push(line_view(line@)));
            assert(segs.len() == segments@.len());
            assert(segs[i as int] == seg@);
            assert(sc@.subrange(0, sc@.len() as int) =~= sc@);
            let spec = verse_lines_spec(verse_num, text@, content_width, num_style, text_style);
            let tw = sat_sub(content_width as int, 9);
            assert(tw != 0);
            assert(spec.len() == segs.len());
            let expect = if i == 0 {
                seq![
                    (blanks(4) + num3(verse_num) + blanks(2), num_style),
                    (segs[i as int] + blanks(sat_sub(tw as int, segs[i as int].len() as int)), text_style),
                ]
            } else {
                seq![
                    (blanks(9), text_style),
                    (segs[i as int] + blanks(sat_sub(tw as int, segs[i as int].len() as int)), text_style),
                ]
            };
            assert(spec[i as int] == expect);
            assert(pad as nat == sat_sub(tw as int, segs[i as int].len() as int));
            assert(body@ =~= segs[i as int] + blanks(pad as nat));
            if i == 0 {
                assert(head@ =~= blanks(4) + num3(verse_num) + blanks(2));
            } else {
                assert(head@ =~= blanks(9));
            }
            assert(line_view(line@).len() == 2);
            assert(line_view(line@)[0] == (head@, hs));
            assert(line_view(line@)[1] == (body@, text_style));
            assert(line_view(line@) =~= spec[i as int]);
            assert(lines_view(out@) =~= spec.take(i + 1));
        }
        i += 1;
    }
    proof {
        let spec = verse_lines_spec(verse_num, text@, content_width, num_style, text_style);
        assert(spec.take(segments@.len() as int) =~= spec);
    }
    out
}

/// "s" unless `n` is 1.
pub open spec fn plural(n: int) -> Seq<char> {
    if n == 1 {
        Seq::empty()
    } else {
        seq!['s']
    }
}

/// A line of `left` and `right` text with spaces between them filling the
/// width (none when they do not fit).
pub open spec fn spread(left: Seq<char>, ls: Style, right: Seq<char>, rs: Style, bg: Style, width: nat) -> Seq<(Seq<char>, Style)> {
    seq![(left, ls), (blanks(sat_sub(width as int, (left.len() + right.len()) as int)), bg), (right, rs)]
}

/// The status line: in reading, the help hint (or the pending `g`) and the
/// verse position; in a selection, its size and its keys; in the archive,
/// the item position and its keys.
pub open spec fn status_spec(s: App, width: nat) -> Seq<(Seq<char>, Style)> {
    let th = s.theme;
    match s.mode {
        Mode::Normal => {
            let left = if s.pending_g {
                "  g.."@
            } else {
                "  ? help"@
            };
            let right = if s.verse_count_spec() > 0 {
                "verse "@ + dec((s.cursor_verse + 1) as nat) + " of "@ + dec(s.verse_count_spec()) + "  "@
            } else {
                Seq::empty()
            };
            spread(left, status_style_spec(th), right, status_style_spec(th), bg_style_spec(th), width)
        },
        Mode::Visual => {
            let (start, end) = s.visual_range_spec();
            let count = end - start + 1;
            let left = "  VISUAL  "@ + dec(count as nat) + " verse"@ + plural(count);
            spread(
                left,
                status_accent_style_spec(th),
                "y:highlight  d:remove  Esc:cancel  "@,
                status_style_spec(th),
                bg_style_spec(th),
                width,
            )
        },
        Mode::Highlights => {
            let count = s.archive_count();
            let left = if count == 0 {
                "  HIGHLIGHTS"@
            } else {
                "  HIGHLIGHTS  "@ + dec((s.highlight_cursor + 1) as nat) + " of "@ + dec(count)
            };
            spread(
                left,
                status_accent_style_spec(th),
                "Enter:open  j/k:move  Esc:back  "@,
                status_style_spec(th),
                bg_style_spec(th),
                width,
            )
        },
    }
}

/// The line `spread` describes.
pub fn spread_line(left: String, ls: Style, right: String, rs: Style, bg: Style, width: usize) -> (res: Vec<Span>)
    ensures
        line_view(res@) == spread(left@, ls, right@, rs, bg, width as nat),
{
    let ll = chars_of(left.as_str()).len();
    let rl = chars_of(right.as_str()).len();
    let used: usize = if ll <= usize::MAX - rl {
        ll + rl
    } else {
        usize::MAX
    };
    let spacer = if width >= used {
        width - used
    } else {
        0
    };
    let gap = spaces(spacer);
    proof {
        assert(gap@ =~= blanks(sat_sub(width as int, (left@.len() + right@.len()) as int)));
    }
    let mut line: Vec<Span> = Vec::new();
    line.push(span(left, ls));
    line.push(span(gap, bg));
    line.push(span(right, rs));
    assert(line_view(line@) =~= spread(left@, ls, right@, rs, bg, width as nat));
    line
}

/// The status line at the bottom of the screen.
pub fn status_line(app: &App, width: usize) -> (res: Vec<Span>)
    requires
        app.wf(),
        app.mode == Mode::Normal && app.verse_count_spec() > 0 ==> app.cursor_verse < usize::MAX,
        app.mode == Mode::Visual ==> app.visual_range_spec().1 - app.visual_range_spec().0 < usize::MAX,
        app.mode == Mode::Highlights ==> app.highlight_cursor < usize::MAX,
    ensures
        line_view(res@) == status_spec(*app, width as nat),
{
    let th = app.theme;
    match app.mode {
        Mode::Normal => {
            let mut left = String::new();
            if app.pending_g {
                push_str_chars(&mut left, "  g..");
            } else {
                push_str_chars(&mut left, "  ? help");
            }
            let count = app.verse_count();
            let mut right = String::new();
            if count > 0 {
                push_str_chars(&mut right, "verse ");
                push_dec(&mut right, (app.cursor_verse + 1) as u64);
                push_str_chars(&mut right, " of ");
                push_dec(&mut right, count as u64);
                push_str_chars(&mut right, "  ");
            }
            proof {
                assert(left@ =~= (if app.pending_g {
                    "  g.."@
                } else {
                    "  ? help"@
                }));
                if count > 0 {
                    assert(right@ =~= "verse "@ + dec((app.cursor_verse + 1) as nat) + " of "@ + dec(app.verse_count_spec()) + "  "@);
                } else {
                    assert(right@ =~= Seq::<char>::empty());
                }
            }
            spread_line(left, th.status_style(), right, th.status_style(), th.bg_style(), width)
        },
        Mode::Visual => {
            let (start, end) = app.visual_range();
            let count = end - start + 1;
            let mut left = String::new();
            push_str_chars(&mut left, "  VISUAL  ");
            push_dec(&mut left, count as u64);
            push_str_chars(&mut left, " verse");
            if count != 1 {
                string_push(&mut left, 's');
            }
            let mut right = String::new();
            push_str_chars(&mut right, "y:highlight  d:remove  Esc:cancel  ");
            proof {
                assert(left@ =~= "  VISUAL  "@ + dec(count as nat) + " verse"@ + plural(count as int));
                assert(right@ =~= "y:highlight  d:remove  Esc:cancel  "@);
            }
            spread_line(left, th.status_accent_style(), right, th.status_style(), th.bg_style(), width)
        },
        Mode::Highlights => {
            let count = app.highlight_items().len();
            let mut left = String::new();
            if count == 0 {
                push_str_chars(&mut left, "  HIGHLIGHTS");
            } else {
                push_str_chars(&mut left, "  HIGHLIGHTS  ");
                push_dec(&mut left, (app.highlight_cursor + 1) as u64);
                push_str_chars(&mut left, " of ");
                push_dec(&mut left, count as u64);
            }
            let mut right = String::new();
            push_str_chars(&mut right, "Enter:open  j/k:move  Esc:back  ");
            proof {
                if count == 0 {
                    assert(left@ =~= "  HIGHLIGHTS"@);
                } else {
                    assert(left@ =~= "  HIGHLIGHTS  "@ + dec((app.highlight_cursor + 1) as nat) + " of "@ + dec(app.archive_count()));
                }
                assert(right@ =~= "Enter:open  j/k:move  Esc:back  "@);
            }
            spread_line(left, th.status_accent_style(), right, th.status_style(), th.bg_style(), width)
        },
    }
}

/// What `str::to_uppercase` gives for `s` (Unicode upper-casing).
pub uninterp spec fn uppercase(s: Seq<char>) -> Seq<char>;

/// `str::to_uppercase`: its result is named `uppercase` of the argument.
#[verifier::external_body]
fn to_uppercase(s: &str) -> (res: String)
    ensures
        res@ == uppercase(s@),
{
    s.to_uppercase()
}

/// The days that have items in the archive.
pub open spec fn archive_days(h: crate::highlight::Highlights, p: crate::plan::Plan) -> Set<u16> {
    Set::new(|d: u16| exists|g: (u16, Seq<char>, u16)| #[trigger] archive_groups(h, p).contains(g) && g.0 == d)
}

/// The label of a chapter in the header, "Book chapter".
pub open spec fn chapter_label(c: ChapterRef) -> Seq<char> {
    c.book@ + seq![' '] + dec(c.chapter as nat)
}

/// The header's chapter navigation: the day's chapters separated by dots,
/// the one being read in the active style.
pub open spec fn nav_spec(chs: Seq<ChapterRef>, active: int, th: Theme) -> Seq<(Seq<char>, Style)>
    decreases chs.len(),
{
    if chs.len() == 0 {
        Seq::empty()
    } else {
        let i = chs.len() - 1;
        let sep = if i > 0 {
            seq![("  \u{b7}  "@, header_separator_style_spec(th))]
        } else {
            Seq::empty()
        };
        nav_spec(chs.drop_last(), active, th) + sep + seq![
            (chapter_label(chs[i]), if i == active {
                header_chapter_active_spec(th)
            } else {
                header_chapter_inactive_spec(th)
            }),
        ]
    }
}

/// The number of characters of a line.
pub open spec fn width_of(l: Seq<(Seq<char>, Style)>) -> nat
    decreases l.len(),
{
    if l.len() == 0 {
        0
    } else {
        width_of(l.drop_last()) + l.last().0.len()
    }
}

/// The header: in the archive, its title and the numbers of days and items;
/// otherwise the day, its date and the translation on the left, and the
/// day's chapters on the right.
pub open spec fn header_spec(s: App, width: nat) -> Seq<(Seq<char>, Style)> {
    let th = s.theme;
    if s.mode == Mode::Highlights {
        let n = s.archive_count();
        let dc = archive_days(s.highlights, s.plan).len();
        let right = if n == 0 {
            "No highlights  "@
        } else {
            dec(dc) + " day"@ + plural(dc as int) + " - "@ + dec(n) + " reference"@ + plural(n as int) + "  "@
        };
        spread("  Highlights"@, header_chapter_active_spec(th), right, header_day_style_spec(th), bg_style_spec(th), width)
    } else {
        let label = "  Day "@ + dec(s.day as nat) + " \u{b7} "@ + s.date_string@ + " \u{b7} "@ + uppercase(s.translation@);
        let nav = nav_spec(s.today_chapters@, s.active_chapter_idx as int, th);
        seq![(label, header_day_style_spec(th)), (blanks(sat_sub(width as int, (label.len() + width_of(nav) + 2) as int)), bg_style_spec(th))]
            + nav + seq![(blanks(2), bg_style_spec(th))]
    }
}

/// The number of distinct days among sorted archive items.
fn count_days(items: &Vec<HighlightItem>) -> (res: usize)
    requires
        items_sorted(items@),
    ensures
        res == items@.map_values(|it: HighlightItem| it.day).to_set().len(),
{
    let ghost days = items@.map_values(|it: HighlightItem| it.day);
    if items.len() == 0 {
        assert(days.to_set() =~= Set::empty());
        return 0;
    }
    let mut count: usize = 1;
    let mut last = items[0].day;
    let mut i: usize = 1;
    proof {
        assert(days.take(1).to_set() =~= set![last]) by {
            assert(days.take(1)[0] == last);
        }
    }
    while i < items.len()
        invariant
            1 <= i <= items.len(),
            days == items@.map_values(|it: HighlightItem| it.day),
            items_sorted(items@),
            last == days[i - 1],
            forall|j: int| 0 <= j < i ==> days[j] <= last,
            count as nat == days.take(i as int).to_set().len(),
            days.take(i as int).to_set().finite(),
            count <= i,
        decreases items.len() - i,
    {
        let d = items[i].day;
        proof {
            assert(item_lt(items@[i - 1], items@[i as int]));
            assert(days.take(i + 1) =~= days.take(i as int).push(d));
            assert(days.take(i + 1).to_set() =~= days.take(i as int).to_set().insert(d)) by {
                let pre = days.take(i as int);
                let post = days.take(i + 1);
                assert forall|x: u16| post.contains(x) <==> pre.contains(x) || x == d by {
                    if post.contains(x) {
                        let j = choose|j: int| 0 <= j < post.len() && post[j] == x;
                        if j < i {
                            assert(pre[j] == x);
                        }
                    }
                    if pre.contains(x) {
                        let j = choose|j: int| 0 <= j < pre.len() && pre[j] == x;
                        assert(post[j] == x);
                    }
                    if x == d {
                        assert(post[i as int] == x);
                    }
                }
            }
        }
        if d != last {
            proof {
                assert(!days.take(i as int).to_set().contains(d)) by {
                    if days.take(i as int).contains(d) {
                        let j = choose|j: int| 0 <= j < i && days.take(i as int)[j] == d;
                        assert(days[j] <= last);
                    }
                }
            }
            count += 1;
            last = d;
        } else {
            proof {
                assert(days.take(i as int)[i - 1] == d);
                assert(days.take(i as int).to_set().insert(d) =~= days.take(i as int).to_set());
            }
        }
        i += 1;
    }
    proof {
        assert(days.take(items@.len() as int) =~= days);
    }
    count
}

/// The header line at the top of the screen.
pub fn header_line(app: &App, width: usize) -> (res: Vec<Span>)
    requires
        app.wf(),
    ensures
        line_view(res@) == header_spec(*app, width as nat),
{
    let th = app.theme;
    if app.mode == Mode::Highlights {
        let items = app.highlight_items();
        let dc = count_days(&items);
        proof {
            let days = items@.map_values(|it: HighlightItem| it.day);
            let ad = archive_days(app.highlights, app.plan);
            assert forall|d: u16| days.to_set().contains(d) <==> ad.contains(d) by {
                if days.contains(d) {
                    let j = choose|j: int| 0 <= j < days.len() && days[j] == d;
                    let it = items@[j];
                    let v = it.verses@[0];
                    assert(it.verses@.contains(v));
                    assert(item_tuples(items@).contains((it.day, it.book@, it.chapter, v)));
                    assert(archive_spec(app.highlights, app.plan).contains((it.day, it.book@, it.chapter, v)));
                    assert(crate::archive::archived(app.highlights.chapter_map(), app.highlights.day_map(), app.plan, (it.day, it.book@, it.chapter, v)));
                    let g = (it.day, it.book@, it.chapter);
                    assert(crate::archive::archived(app.highlights.chapter_map(), app.highlights.day_map(), app.plan, (g.0, g.1, g.2, v)));
                    assert(archive_groups(app.highlights, app.plan).contains(g));
                }
                if ad.contains(d) {
                    let g = choose|g: (u16, Seq<char>, u16)| #[trigger] archive_groups(app.highlights, app.plan).contains(g) && g.0 == d;
                    let v = choose|v: u16| #[trigger] crate::archive::archived(app.highlights.chapter_map(), app.highlights.day_map(), app.plan, (g.0, g.1, g.2, v));
                    assert(archive_spec(app.highlights, app.plan).contains((g.0, g.1, g.2, v)));
                    let j = choose|j: int| 0 <= j < items@.len() && (#[trigger] items@[j]).day == g.0 && items@[j].book@ == g.1 && items@[j].chapter == g.2 && items@[j].verses@.contains(v);
                    assert(days[j] == d);
                }
            }
            assert(days.to_set() =~= ad);
        }
        let n = items.len();
        let mut left = String::new();
        push_str_chars(&mut left, "  Highlights");
        let mut right = String::new();
        if n == 0 {
            push_str_chars(&mut right, "No highlights  ");
        } else {
            push_dec(&mut right, dc as u64);
            push_str_chars(&mut right, " day");
            if dc != 1 {
                string_push(&mut right, 's');
            }
            push_str_chars(&mut right, " - ");
            push_dec(&mut right, n as u64);
            push_str_chars(&mut right, " reference");
            if n != 1 {
                string_push(&mut right, 's');
            }
            push_str_chars(&mut right, "  ");
        }
        proof {
            assert(left@ =~= "  Highlights"@);
            let dcs = archive_days(app.highlights, app.plan).len();
            if n == 0 {
                assert(right@ =~= "No highlights  "@);
            } else {
                assert(right@ =~= dec(dcs) + " day"@ + plural(dcs as int) + " - "@ + dec(app.archive_count()) + " reference"@ + plural(app.archive_count() as int) + "  "@);
            }
        }
        return spread_line(left, th.header_chapter_active(), right, th.header_day_style(), th.bg_style(), width);
    }
    let mut label = String::new();
    push_str_chars(&mut label, "  Day ");
    push_dec(&mut label, app.day as u64);
    push_str_chars(&mut label, " \u{b7} ");
    push_str_chars(&mut label, app.date_string.as_str());
    push_str_chars(&mut label, " \u{b7} ");
    let up = to_uppercase(app.translation.as_str());
    push_str_chars(&mut label, up.as_str());
    let ghost label_spec = "  Day "@ + dec(app.day as nat) + " \u{b7} "@ + app.date_string@ + " \u{b7} "@ + uppercase(app.translation@);
    assert(label@ =~= label_spec);
    let mut nav: Vec<Span> = Vec::new();
    let mut nav_width: usize = 0;
    let mut i: usize = 0;
    let chs = &app.today_chapters;
    proof {
        assert(chs@.take(0) =~= Seq::<ChapterRef>::empty());
        assert(line_view(nav@) =~= Seq::empty());
    }
    while i < chs.len()
        invariant
            i <= chs.len(),
            *chs == app.today_chapters,
            line_view(nav@) == nav_spec(chs@.take(i as int), app.active_chapter_idx as int, th),
            nav_width as nat == width_of(line_view(nav@)) || nav_width == usize::MAX,
            nav_width == usize::MAX ==> width_of(line_view(nav@)) >= usize::MAX,
            th == app.theme,
        decreases chs.len() - i,
    {
        let ghost before = line_view(nav@);
        let ghost bw = width_of(before);
        let ghost pre = chs@.take(i as int);
        let ghost post = chs@.take(i + 1);
        proof {
            assert(post.drop_last() =~= pre);
            assert(post.last() == chs@[i as int]);
        }
        if i > 0 {
            let mut sep = String::new();
            push_str_chars(&mut sep, "  \u{b7}  ");
            let sl = chars_of(sep.as_str()).len();
            nav_width = if nav_width <= usize::MAX - sl {
                nav_width + sl
            } else {
                usize::MAX
            };
            nav.push(span(sep, th.header_separator_style()));
            proof {
                assert(line_view(nav@) =~= before.push(("  \u{b7}  "@, crate::theme::header_separator_style_spec(th))));
                assert(line_view(nav@).drop_last() =~= before);
            }
        }
        let ghost mid = line_view(nav@);
        let ghost mw = width_of(mid);
        let mut lab = String::new();
        push_str_chars(&mut lab, chs[i].book.as_str());
        string_push(&mut lab, ' ');
        push_dec(&mut lab, chs[i].chapter as u64);
        let ll = chars_of(lab.as_str()).len();
        nav_width = if nav_width <= usize::MAX - ll {
            nav_width + ll
        } else {
            usize::MAX
        };
        let st = if i == app.active_chapter_idx {
            th.header_chapter_active()
        } else {
            th.header_chapter_inactive()
        };
        nav.push(span(lab, st));
        proof {
            assert(lab@ =~= chapter_label(chs@[i as int]));
            assert(line_view(nav@) =~= mid.push((lab@, st)));
            assert(line_view(nav@).drop_last() =~= mid);
            let sep = if i > 0 {
                seq![("  \u{b7}  "@, header_separator_style_spec(th))]
            } else {
                Seq::empty()
            };
            assert(mid =~= before + sep);
            assert(line_view(nav@) =~= nav_spec(post, app.active_chapter_idx as int, th));
        }
        i += 1;
    }
    proof {
        assert(chs@.take(chs@.len() as int) =~= chs@);
    }
    let lw = chars_of(label.as_str()).len();
    let used: usize = if lw <= usize::MAX - 2 && nav_width <= usize::MAX - 2 - lw {
        lw + nav_width + 2
    } else {
        usize::MAX
    };
    let spacer = if width >= used {
        width - used
    } else {
        0
    };
    let gap = spaces(spacer);
    let pad = spaces(2);
    let mut line: Vec<Span> = Vec::new();
    line.push(span(label, th.header_day_style()));
    line.push(span(gap, th.bg_style()));
    let ghost head = line_view(line@);
    let mut k: usize = 0;
    while k < nav.len()
        invariant
            k <= nav.len(),
            line_view(line@) == head + line_view(nav@).take(k as int),
        decreases nav.len() - k,
    {
        let sp = span(copy_string(&nav[k].text), nav[k].style);
        let ghost old_line = line_view(line@);
        line.push(sp);
        proof {
            assert(line_view(line@) =~= old_line.push((nav@[k as int].text@, nav@[k as int].style)));
            assert(line_view(nav@).take(k + 1) =~= line_view(nav@).take(k as int).push(line_view(nav@)[k as int]));
        }
        k += 1;
    }
    line.push(span(pad, th.bg_style()));
    proof {
        assert(line_view(nav@).take(nav@.len() as int) =~= line_view(nav@));
        let nv = nav_spec(app.today_chapters@, app.active_chapter_idx as int, th);
        assert(gap@ =~= blanks(sat_sub(width as int, (label_spec.len() + width_of(nv) + 2) as int)));
        assert(pad@ =~= blanks(2));
        assert(line_view(nav@) == nv);
        assert(head =~= seq![(label@, crate::theme::header_day_style_spec(th)), (gap@, bg_style_spec(th))]);
        assert(line_view(line@) =~= head + line_view(nav@) + seq![(pad@, bg_style_spec(th))]);
        assert(app.mode != Mode::Highlights);
        assert(line_view(line@) =~= header_spec(*app, width as nat));
    }
    line
}

/// A copy of a string.
fn copy_string(s: &String) -> (res: String)
    ensures
        res@ == s@,
{
    s.clone()
}

/// The keybinding list of the help overlay.
pub open spec fn help_spec(th: Theme) -> Seq<Seq<(Seq<char>, Style)>> {
    seq![
        seq![(""@, help_bg_style_spec(th))],
        seq![("  Navigation"@, help_title_style_spec(th))],
        seq![(""@, help_bg_style_spec(th))],
        seq![("    j / k       "@, help_key_style_spec(th)), ("Move up / down"@, help_desc_style_spec(th))],
        seq![("    h / l       "@, help_key_style_spec(th)), ("Prev / next chapter"@, help_desc_style_spec(th))],
        seq![("    gg / G      "@, help_key_style_spec(th)), ("First / last verse"@, help_desc_style_spec(th))],
        seq![("    H / L       "@, help_key_style_spec(th)), ("Top / bottom visible verse"@, help_desc_style_spec(th))],
        seq![("    Ctrl+d / u  "@, help_key_style_spec(th)), ("Half-page down / up"@, help_desc_style_spec(th))],
        seq![(""@, help_bg_style_spec(th))],
        seq![("  Highlighting"@, help_title_style_spec(th))],
        seq![(""@, help_bg_style_spec(th))],
        seq![("    Enter       "@, help_key_style_spec(th)), ("Toggle highlight"@, help_desc_style_spec(th))],
        seq![("    v           "@, help_key_style_spec(th)), ("Visual selection"@, help_desc_style_spec(th))],
        seq![("    y / d       "@, help_key_style_spec(th)), ("Highlight / remove (visual)"@, help_desc_style_spec(th))],
        seq![("    a           "@, help_key_style_spec(th)), ("Highlight archive"@, help_desc_style_spec(th))],
        seq![(""@, help_bg_style_spec(th))],
        seq![("    r           "@, help_key_style_spec(th)), ("Return to today"@, help_desc_style_spec(th))],
        seq![("    t           "@, help_key_style_spec(th)), ("Cycle theme"@, help_desc_style_spec(th))],
        seq![("    T           "@, help_key_style_spec(th)), ("Cycle translation"@, help_desc_style_spec(th))],
        seq![("    q           "@, help_key_style_spec(th)), ("Quit"@, help_desc_style_spec(th))],
    ]
}

/// The width of the help overlay in an area `w` wide: at most 52, leaving a
/// margin of 2 columns on each side.
pub open spec fn popup_width(w: u16) -> u16 {
    if sat_sub(w as int, 4) < 52 {
        sat_sub(w as int, 4) as u16
    } else {
        52u16
    }
}

/// The height of the help overlay in an area `h` high: at most 22, leaving
/// a margin of 1 row above and below.
pub open spec fn popup_height(h: u16) -> u16 {
    if sat_sub(h as int, 2) < 22 {
        sat_sub(h as int, 2) as u16
    } else {
        22u16
    }
}

/// Where the help overlay goes in an area (x, y, width, height): at most
/// 52 by 22, leaving a margin of 2 columns and 1 row, centred.
pub open spec fn help_popup_spec(x: u16, y: u16, w: u16, h: u16) -> (u16, u16, u16, u16) {
    let pw = popup_width(w);
    let ph = popup_height(h);
    ((x + (w - pw) / 2) as u16, (y + (h - ph) / 2) as u16, pw, ph)
}

/// The rectangle of the help overlay.
pub fn help_popup(x: u16, y: u16, w: u16, h: u16) -> (res: (u16, u16, u16, u16))
    requires
        x + (w - popup_width(w)) / 2 <= u16::MAX,
        y + (h - popup_height(h)) / 2 <= u16::MAX,
    ensures
        res == help_popup_spec(x, y, w, h),
{
    let sw: u16 = if w >= 4 {
        w - 4
    } else {
        0
    };
    let sh: u16 = if h >= 2 {
        h - 2
    } else {
        0
    };
    let pw: u16 = if sw < 52 {
        sw
    } else {
        52
    };
    let ph: u16 = if sh < 22 {
        sh
    } else {
        22
    };
    (x + (w - pw) / 2, y + (h - ph) / 2, pw, ph)
}

fn one_span(t: &str, st: Style) -> (res: Vec<Span>)
    ensures
        line_view(res@) == seq![(t@, st)],
{
    let mut s = String::new();
    push_str_chars(&mut s, t);
    let mut l: Vec<Span> = Vec::new();
    l.push(span(s, st));
    assert(line_view(l@) =~= seq![(t@, st)]);
    l
}

fn two_spans(a: &str, sa: Style, b: &str, sb: Style) -> (res: Vec<Span>)
    ensures
        line_view(res@) == seq![(a@, sa), (b@, sb)],
{
    let mut s = String::new();
    push_str_chars(&mut s, a);
    let mut t = String::new();
    push_str_chars(&mut t, b);
    let mut l: Vec<Span> = Vec::new();
    l.push(span(s, sa));
    l.push(span(t, sb));
    assert(line_view(l@) =~= seq![(a@, sa), (b@, sb)]);
    l
}

/// The lines of the help overlay.
pub fn help_lines(th: Theme) -> (res: Vec<Vec<Span>>)
    ensures
        lines_view(res@) == help_spec(th),
{
    let mut out: Vec<Vec<Span>> = Vec::new();
    out.push(one_span("", th.help_bg_style()));
    out.push(one_span("  Navigation", th.help_title_style()));
    out.push(one_span("", th.help_bg_style()));
    out.push(two_spans("    j / k       ", th.help_key_style(), "Move up / down", th.help_desc_style()));
    out.push(two_spans("    h / l       ", th.help_key_style(), "Prev / next chapter", th.help_desc_style()));
    out.push(two_spans("    gg / G      ", th.help_key_style(), "First / last verse", th.help_desc_style()));
    out.push(two_spans("    H / L       ", th.help_key_style(), "Top / bottom visible verse", th.help_desc_style()));
    out.push(two_spans("    Ctrl+d / u  ", th.help_key_style(), "Half-page down / up", th.help_desc_style()));
    out.push(one_span("", th.help_bg_style()));
    out.push(one_span("  Highlighting", th.help_title_style()));
    out.push(one_span("", th.help_bg_style()));
    out.push(two_spans("    Enter       ", th.help_key_style(), "Toggle highlight", th.help_desc_style()));
    out.push(two_spans("    v           ", th.help_key_style(), "Visual selection", th.help_desc_style()));
    out.push(two_spans("    y / d       ", th.help_key_style(), "Highlight / remove (visual)", th.help_desc_style()));
    out.push(two_spans("    a           ", th.help_key_style(), "Highlight archive", th.help_desc_style()));
    out.push(one_span("", th.help_bg_style()));
    out.push(two_spans("    r           ", th.help_key_style(), "Return to today", th.help_desc_style()));
    out.push(two_spans("    t           ", th.help_key_style(), "Cycle theme", th.help_desc_style()));
    out.push(two_spans("    T           ", th.help_key_style(), "Cycle translation", th.help_desc_style()));
    out.push(two_spans("    q           ", th.help_key_style(), "Quit", th.help_desc_style()));
    assert(lines_view(out@) =~= help_spec(th));
    out
}

/// The title of the help overlay's frame.
pub fn help_title() -> (res: String)
    ensures
        res@ == " Keybindings "@,
{
    let mut s = String::new();
    push_str_chars(&mut s, " Keybindings ");
    assert(s@ =~= " Keybindings "@);
    s
}


// ---------------------------------------------------------------------------
// The reading column and scrolling
// ---------------------------------------------------------------------------
/// The reading column of an area `width` wide: at most 80 columns, centred.
/// Gives (left offset, column width).
pub open spec fn column_spec(width: u16) -> (u16, u16) {
    let cw: u16 = if width < 80 {
        width
    } else {
        80u16
    };
    (((width - cw) / 2) as u16, cw)
}

/// The reading column of an area.
pub fn reading_column(width: u16) -> (res: (u16, u16))
    ensures
        res == column_spec(width),
{
    let cw: u16 = if width < 80 {
        width
    } else {
        80
    };
    ((width - cw) / 2, cw)
}

/// The `height` items from position `scroll` on (fewer at the end, none
/// past it).
pub open spec fn window<T>(s: Seq<T>, scroll: int, height: int) -> Seq<T> {
    if scroll >= s.len() {
        Seq::empty()
    } else if height <= s.len() - scroll {
        s.subrange(scroll, scroll + height)
    } else {
        s.subrange(scroll, s.len() as int)
    }
}

/// The lines that a view `height` rows high shows, scrolled by `scroll`.
pub fn visible_lines(lines: Vec<Vec<Span>>, scroll: usize, height: usize) -> (res: Vec<Vec<Span>>)
    ensures
        lines_view(res@) == window(lines_view(lines@), scroll as int, height as int),
{
    let mut lines = lines;
    if scroll >= lines.len() {
        let empty: Vec<Vec<Span>> = Vec::new();
        assert(lines_view(empty@) =~= Seq::empty());
        return empty;
    }
    let ghost all = lines@;
    let mut tail = lines.split_off(scroll);
    tail.truncate(height);
    proof {
        let lv = lines_view(all);
        if height <= all.len() - scroll {
            assert(lines_view(tail@) =~= lv.subrange(scroll as int, scroll + height));
        } else {
            assert(lines_view(tail@) =~= lv.subrange(scroll as int, lv.len() as int));
        }
    }
    tail
}

/// The line of `n` blank columns.
pub open spec fn blank_line(n: nat, th: Theme) -> Seq<(Seq<char>, Style)> {
    seq![(blanks(n), bg_style_spec(th))]
}

fn blank_row(n: usize, th: Theme) -> (res: Vec<Span>)
    ensures
        line_view(res@) == blank_line(n as nat, th),
{
    let mut l: Vec<Span> = Vec::new();
    l.push(span(spaces(n), th.bg_style()));
    assert(line_view(l@) =~= blank_line(n as nat, th));
    l
}

fn single(text: String, st: Style) -> (res: Vec<Span>)
    ensures
        line_view(res@) == seq![(text@, st)],
{
    let mut l: Vec<Span> = Vec::new();
    l.push(span(text, st));
    assert(line_view(l@) =~= seq![(text@, st)]);
    l
}

// ---------------------------------------------------------------------------
// The highlight archive page
// ---------------------------------------------------------------------------
/// The text of an archive item: a marker ("  > " under the cursor), the
/// book, the chapter and the verses as ranges.
pub open spec fn item_text(it: HighlightItem, is_cursor: bool) -> Seq<char> {
    (if is_cursor {
        "  > "@
    } else {
        "    "@
    }) + it.book@ + seq![' '] + dec(it.chapter as nat) + seq![':'] + verse_ranges_spec(it.verses@)
}

/// The line of an archive item, fitted to the width, styled as a
/// highlighted verse (under the cursor or not).
pub open spec fn item_line_spec(it: HighlightItem, is_cursor: bool, w: nat, th: Theme) -> Seq<(Seq<char>, Style)> {
    seq![(fit_spec(item_text(it, is_cursor), w), verse_styles_spec(th, is_cursor, true, false).1)]
}

/// The heading of a day in the archive, "  Day 54 - February 23".
pub open spec fn day_heading_spec(day: u16, w: nat, th: Theme) -> Seq<(Seq<char>, Style)> {
    seq![(fit_spec("  Day "@ + dec(day as nat) + " - "@ + date_spec(day as int), w), status_accent_style_spec(th))]
}

/// The lines of the archive and, for each item, the position of its line:
/// each day opens with its heading, set off from the day before by a blank
/// line, and is followed by its items.
pub open spec fn archive_body(items: Seq<HighlightItem>, cursor: int, w: nat, th: Theme) -> (Seq<Seq<(Seq<char>, Style)>>, Seq<int>)
    decreases items.len(),
{
    if items.len() == 0 {
        (Seq::empty(), Seq::empty())
    } else {
        let i = items.len() - 1;
        let (ls, idx) = archive_body(items.drop_last(), cursor, w, th);
        let new_day = i == 0 || items[i - 1].day != items[i].day;
        let sep = if new_day && i > 0 {
            seq![blank_line(w, th)]
        } else {
            Seq::empty()
        };
        let head = if new_day {
            seq![day_heading_spec(items[i].day, w, th)]
        } else {
            Seq::empty()
        };
        let ls2 = ls + sep + head;
        (ls2.push(item_line_spec(items[i], i == cursor, w, th)), idx.push(ls2.len() as int))
    }
}

/// Builds the archive's lines and the positions of its items' lines.
pub fn archive_lines(items: &Vec<HighlightItem>, cursor: usize, width: usize, th: Theme) -> (res: (Vec<Vec<Span>>, Vec<usize>))
    ensures
        lines_view(res.0@) == archive_body(items@, cursor as int, width as nat, th).0,
        res.1@.len() == archive_body(items@, cursor as int, width as nat, th).1.len(),
        forall|j: int| 0 <= j < res.1@.len() ==> res.1@[j] == archive_body(items@, cursor as int, width as nat, th).1[j],
{
    let mut lines: Vec<Vec<Span>> = Vec::new();
    let mut idx: Vec<usize> = Vec::new();
    let mut i: usize = 0;
    proof {
        assert(items@.take(0) =~= Seq::<HighlightItem>::empty());
        assert(lines_view(lines@) =~= Seq::empty());
    }
    while i < items.len()
        invariant
            i <= items.len(),
            lines_view(lines@) == archive_body(items@.take(i as int), cursor as int, width as nat, th).0,
            idx@.len() == archive_body(items@.take(i as int), cursor as int, width as nat, th).1.len(),
            forall|j: int| 0 <= j < idx@.len() ==> idx@[j] == archive_body(items@.take(i as int), cursor as int, width as nat, th).1[j],
        decreases items.len() - i,
    {
        let ghost pre = items@.take(i as int);
        let ghost post = items@.take(i + 1);
        let ghost before = lines_view(lines@);
        proof {
            lemma_archive_body_len(pre, cursor as int, width as nat, th);
            assert(post.drop_last() =~= pre);
            assert(post[i as int] == items@[i as int]);
            if i > 0 {
                assert(post[i - 1] == items@[i - 1]);
            }
        }
        let it = &items[i];
        let new_day = i == 0 || items[i - 1].day != it.day;
        if new_day {
            if i > 0 {
                lines.push(blank_row(width, th));
            }
            let mut h = String::new();
            push_str_chars(&mut h, "  Day ");
            push_dec(&mut h, it.day as u64);
            push_str_chars(&mut h, " - ");
            let ds = date_string_for_day(it.day);
            push_str_chars(&mut h, ds.as_str());
            assert(h@ =~= "  Day "@ + dec(it.day as nat) + " - "@ + date_spec(it.day as int));
            lines.push(single(fit_to_width(h.as_str(), width), th.status_accent_style()));
        }
        let ghost mid = lines_view(lines@);
        proof {
            let sep = if new_day && i > 0 {
                seq![blank_line(width as nat, th)]
            } else {
                Seq::empty()
            };
            let head = if new_day {
                seq![day_heading_spec(it.day, width as nat, th)]
            } else {
                Seq::empty()
            };
            assert(mid =~= before + sep + head);
        }
        idx.push(lines.len());
        let mut t = String::new();
        if i == cursor {
            push_str_chars(&mut t, "  > ");
        } else {
            push_str_chars(&mut t, "    ");
        }
        push_str_chars(&mut t, it.book.as_str());
        string_push(&mut t, ' ');
        push_dec(&mut t, it.chapter as u64);
        string_push(&mut t, ':');
        let r = format_verse_ranges(it.verses.as_slice());
        push_str_chars(&mut t, r.as_str());
        proof {
            assert(t@ =~= item_text(*it, i == cursor));
        }
        let st = th.verse_styles(i == cursor, true, false).1;
        lines.push(single(fit_to_width(t.as_str(), width), st));
        proof {
            assert(lines_view(lines@) =~= mid.push(item_line_spec(*it, i == cursor, width as nat, th)));
            let ab = archive_body(post, cursor as int, width as nat, th);
            assert(lines_view(lines@) == ab.0);
            assert forall|j: int| 0 <= j < idx@.len() implies idx@[j] == ab.1[j] by {
                if j < i {
                } else {
                    assert(j == i);
                }
            }
        }
        i += 1;
    }
    proof {
        assert(items@.take(items@.len() as int) =~= items@);
    }
    (lines, idx)
}

/// Where the archive view scrolls to keep the selected line in view: to
/// that line when it is above the view, so that it is the last one when it
/// is below.
pub open spec fn follow_selected(selected: int, scroll: u16, height: nat) -> u16 {
    if height > 0 && selected < scroll {
        selected as u16
    } else if height > 0 && selected >= scroll + height {
        sat_sub(selected + 1, height as int) as u16
    } else {
        scroll
    }
}

/// The archive page of state `s` among `items` (the archive in order) in an
/// area `width` by `height`: the new state (cursor clamped to the items,
/// view scrolled to the cursor's item, no visible verse range) and the lines
/// shown.
pub open spec fn archive_page(s: App, items: Seq<HighlightItem>, width: u16, height: u16) -> (App, Seq<Seq<(Seq<char>, Style)>>) {
    let th = s.theme;
    if items.len() == 0 {
        (
            App { highlight_cursor: 0, highlight_scroll_offset: 0, visible_verse_range: None, ..s },
            seq![seq![("  No highlights yet."@, bg_style_spec(th))]],
        )
    } else {
        let c = if s.highlight_cursor >= items.len() {
            (items.len() - 1) as usize
        } else {
            s.highlight_cursor
        };
        let w = column_spec(width).1;
        let (ls, idx) = archive_body(items, c as int, w as nat, th);
        let sc = follow_selected(idx[c as int], s.highlight_scroll_offset, height as nat);
        (
            App { highlight_cursor: c, highlight_scroll_offset: sc, visible_verse_range: None, ..s },
            window(ls, sc as int, height as int),
        )
    }
}

/// The scroll offset and the lines shown of a non-empty archive, the cursor
/// on an item.
fn archive_view(items: &Vec<HighlightItem>, cursor: usize, scroll: u16, width: u16, height: u16, th: Theme) -> (res: (u16, Vec<Vec<Span>>))
    requires
        cursor < items@.len(),
    ensures
        ({
            let (ls, idx) = archive_body(items@, cursor as int, column_spec(width).1 as nat, th);
            &&& res.0 == follow_selected(idx[cursor as int], scroll, height as nat)
            &&& lines_view(res.1@) == window(ls, res.0 as int, height as int)
        }),
{
    let (_, cw) = reading_column(width);
    let w = cw as usize;
    let (lines, idx) = archive_lines(items, cursor, w, th);
    let n = lines.len();
    proof {
        lemma_archive_body_len(items@, cursor as int, w as nat, th);
        assert(lines_view(lines@).len() == lines@.len());
    }
    let selected = idx[cursor];
    let view_height = height as usize;
    let mut sc = scroll;
    assert(selected < n);
    if view_height > 0 {
        if selected < scroll as usize {
            sc = #[verifier::truncate] (selected as u16);
        } else if selected >= scroll as usize + view_height {
            sc = #[verifier::truncate] ((selected + 1 - view_height) as u16);
        }
    }
    let shown = visible_lines(lines, sc as usize, view_height);
    (sc, shown)
}

/// Lays out the highlight archive in an area `width` by `height` (the
/// reading column of it): keeps the cursor on an item and its line in view,
/// and gives the lines to show.
pub fn draw_highlights(app: &mut App, width: u16, height: u16) -> (res: Vec<Vec<Span>>)
    requires
        old(app).wf(),
    ensures
        exists|items: Seq<HighlightItem>|
            #[trigger] items_sorted(items) && item_tuples(items) == archive_spec(old(app).highlights, old(app).plan)
                && items.len() == old(app).archive_count()
                && *final(app) == archive_page(*old(app), items, width, height).0
                && lines_view(res@) == archive_page(*old(app), items, width, height).1,
{
    let th = app.theme;
    let items = app.highlight_items();
    let ghost s = *app;
    app.visible_verse_range = None;
    if items.len() == 0 {
        app.highlight_cursor = 0;
        app.highlight_scroll_offset = 0;
        let mut m = String::new();
        push_str_chars(&mut m, "  No highlights yet.");
        let mut out: Vec<Vec<Span>> = Vec::new();
        out.push(single(m, th.bg_style()));
        proof {
            assert(lines_view(out@) =~= archive_page(s, items@, width, height).1);
        }
        return out;
    }
    if app.highlight_cursor >= items.len() {
        app.highlight_cursor = items.len() - 1;
    }
    let (sc, shown) = archive_view(&items, app.highlight_cursor, app.highlight_scroll_offset, width, height, th);
    app.highlight_scroll_offset = sc;
    proof {
        let page = archive_page(s, items@, width, height);
        assert(*app == page.0);
        assert(lines_view(shown@) == page.1);
    }
    shown
}

/// The archive's item positions lie within its lines, one per item.
pub proof fn lemma_archive_body_len(items: Seq<HighlightItem>, cursor: int, w: nat, th: Theme)
    ensures
        archive_body(items, cursor, w, th).1.len() == items.len(),
        forall|j: int|
            0 <= j < items.len() ==> 0 <= #[trigger] archive_body(items, cursor, w, th).1[j] < archive_body(items, cursor, w, th).0.len(),
    decreases items.len(),
{
    if items.len() > 0 {
        lemma_archive_body_len(items.drop_last(), cursor, w, th);
    }
}


// ---------------------------------------------------------------------------
// The reading page
// ---------------------------------------------------------------------------
/// What a line of the reading page belongs to: the chapter's title, the gap
/// under it, one of its verses (by position), or a message in place of the
/// chapter.
#[derive(Clone, Copy, PartialEq, Eq, Structural, Debug)]
pub enum LineKind {
    Title,
    Blank,
    Verse(usize),
    Message,
}

/// A line of the reading page.
pub struct PageLine {
    pub kind: LineKind,
    pub spans: Vec<Span>,
}

/// The (kind, line) pairs of page lines.
pub open spec fn page_view(ps: Seq<PageLine>) -> Seq<(LineKind, Seq<(Seq<char>, Style)>)> {
    ps.map_values(|p: PageLine| (p.kind, line_view(p.spans@)))
}

/// Lines, each of kind `k`.
pub open spec fn tagged(k: LineKind, ls: Seq<Seq<(Seq<char>, Style)>>) -> Seq<(LineKind, Seq<(Seq<char>, Style)>)> {
    ls.map_values(|l: Seq<(Seq<char>, Style)>| (k, l))
}

/// The chapter's title, "Book chapter", centred in the width.
pub open spec fn title_line(ch: ChapterRef, w: nat, th: Theme) -> Seq<(Seq<char>, Style)> {
    let title = chapter_label(ch);
    let lp = sat_sub(w as int, title.len() as int) / 2;
    let rp = sat_sub(w as int, (lp + title.len()) as int);
    seq![(blanks(lp), bg_style_spec(th)), (title, chapter_title_style_spec(th)), (blanks(rp), bg_style_spec(th))]
}

/// The (number, text) styles of verse `idx`: under the cursor or not,
/// highlighted or not, in the visual selection or not.
pub open spec fn verse_look(s: App, ch: ChapterRef, vs: Seq<Verse>, idx: int) -> (Style, Style) {
    let (a, b) = s.visual_range_spec();
    verse_styles_spec(
        s.theme,
        idx == s.cursor_verse,
        s.highlights.marked(key_spec(ch.book@, ch.chapter), vs[idx].number),
        s.mode == Mode::Visual && a <= idx <= b,
    )
}

/// The lines of the reading page down to verse `n`: the title, a blank
/// line, then the lines of each verse.
pub open spec fn reading_lines(s: App, ch: ChapterRef, vs: Seq<Verse>, w: u16, n: nat) -> Seq<(LineKind, Seq<(Seq<char>, Style)>)>
    decreases n,
{
    if n == 0 {
        seq![(LineKind::Title, title_line(ch, w as nat, s.theme)), (LineKind::Blank, blank_line(w as nat, s.theme))]
    } else {
        let i = (n - 1) as nat;
        let (ns, ts) = verse_look(s, ch, vs, i as int);
        reading_lines(s, ch, vs, w, i) + tagged(
            LineKind::Verse(i as usize),
            verse_lines_spec(vs[i as int].number, vs[i as int].text@, w, ns, ts),
        )
    }
}

/// Where the reading view scrolls to keep the cursor's verse in view: to one
/// line above its first line when that is above the view, so that its last
/// line is the last one when that is below.
pub open spec fn follow_cursor(s: App, ch: ChapterRef, vs: Seq<Verse>, w: u16, height: nat) -> u16 {
    let n = vs.len();
    let c = s.cursor_verse;
    if height > 0 && n > 0 {
        let start = if c < n {
            reading_lines(s, ch, vs, w, c as nat).len() as int
        } else {
            0
        };
        let end = if c + 1 < n {
            reading_lines(s, ch, vs, w, (c + 1) as nat).len() as int
        } else {
            reading_lines(s, ch, vs, w, n).len() as int
        };
        if start < s.scroll_offset {
            sat_sub(start, 1) as u16
        } else if end > s.scroll_offset + height {
            sat_sub(end, height as int) as u16
        } else {
            s.scroll_offset
        }
    } else {
        s.scroll_offset
    }
}

/// The first and last of the first `k` verses whose first line lies in
/// rows `top..bottom`, if any does.
pub open spec fn shown_verses(s: App, ch: ChapterRef, vs: Seq<Verse>, w: u16, top: int, bottom: int, k: nat) -> Option<(usize, usize)>
    decreases k,
{
    if k == 0 {
        None
    } else {
        let i = (k - 1) as nat;
        let r = shown_verses(s, ch, vs, w, top, bottom, i);
        let start = reading_lines(s, ch, vs, w, i).len();
        if top <= start < bottom {
            match r {
                Some((f, _)) => Some((f, i as usize)),
                None => Some((i as usize, i as usize)),
            }
        } else {
            r
        }
    }
}

/// The reading page of state `s` in an area `width` by `height`: the new
/// state (scrolled to the cursor's verse, with the verses shown recorded)
/// and the lines shown; a message when there is no chapter to read or it is
/// not loaded.
pub open spec fn reading_page(s: App, width: u16, height: u16) -> (App, Seq<(LineKind, Seq<(Seq<char>, Style)>)>) {
    let th = s.theme;
    match s.active_chapter_spec() {
        None => (
            App { visible_verse_range: None, ..s },
            seq![(LineKind::Message, seq![("  No readings for today."@, bg_style_spec(th))])],
        ),
        Some(ch) => match s.active_verses_spec() {
            None => (
                App { visible_verse_range: None, ..s },
                seq![(LineKind::Message, seq![("  Chapter not found: "@ + chapter_label(ch), bg_style_spec(th))])],
            ),
            Some(vs) => {
                let w = column_spec(width).1;
                let all = reading_lines(s, ch, vs, w, vs.len());
                let sc = follow_cursor(s, ch, vs, w, height as nat);
                let range = shown_verses(s, ch, vs, w, sc as int, sc + height, vs.len());
                (App { scroll_offset: sc, visible_verse_range: range, ..s }, window(all, sc as int, height as int))
            },
        },
    }
}

/// Gives each line the kind `kind`.
fn tag_lines(lines: Vec<Vec<Span>>, kind: LineKind) -> (res: Vec<PageLine>)
    ensures
        page_view(res@) == tagged(kind, lines_view(lines@)),
{
    let ghost all = lines@;
    let mut rest = lines;
    let mut out: Vec<PageLine> = Vec::new();
    proof {
        assert(all.subrange(0, 0) =~= Seq::<Vec<Span>>::empty());
        assert(all.subrange(0, all.len() as int) =~= rest@);
    }
    while rest.len() > 0
        invariant
            out@.len() + rest@.len() == all.len(),
            rest@ == all.subrange(out@.len() as int, all.len() as int),
            page_view(out@) == tagged(kind, lines_view(all.subrange(0, out@.len() as int))),
        decreases rest@.len(),
    {
        let ghost k: int = out@.len() as int;
        let l = rest.remove(0);
        let ghost before = page_view(out@);
        out.push(PageLine { kind, spans: l });
        proof {
            assert(rest@ =~= all.subrange(k + 1, all.len() as int));
            assert(all.subrange(0, k + 1) =~= all.subrange(0, k).push(l));
            assert(page_view(out@) =~= before.push((kind, line_view(l@))));
            assert(tagged(kind, lines_view(all.subrange(0, k + 1))) =~= tagged(kind, lines_view(all.subrange(0, k))).push((kind, line_view(l@))));
        }
    }
    proof {
        assert(all.subrange(0, all.len() as int) =~= all);
    }
    out
}

/// The title line of a chapter.
fn title_row(ch: &ChapterRef, w: usize, th: Theme) -> (res: Vec<Span>)
    ensures
        line_view(res@) == title_line(*ch, w as nat, th),
{
    let mut title = String::new();
    push_str_chars(&mut title, ch.book.as_str());
    string_push(&mut title, ' ');
    push_dec(&mut title, ch.chapter as u64);
    assert(title@ =~= chapter_label(*ch));
    let tl = chars_of(title.as_str()).len();
    let lp = if w >= tl {
        (w - tl) / 2
    } else {
        0
    };
    let rp = if w >= lp + tl {
        w - (lp + tl)
    } else {
        0
    };
    let mut l: Vec<Span> = Vec::new();
    l.push(span(spaces(lp), th.bg_style()));
    l.push(span(title, th.chapter_title_style()));
    l.push(span(spaces(rp), th.bg_style()));
    assert(line_view(l@) =~= title_line(*ch, w as nat, th));
    l
}

/// The lines of a chapter's page and the position of each verse's first
/// line.
fn reading_layout(app: &App, ch: &ChapterRef, vs: &Vec<Verse>, w: u16) -> (res: (Vec<PageLine>, Vec<usize>))
    requires
        app.wf(),
    ensures
        page_view(res.0@) == reading_lines(*app, *ch, vs@, w, vs@.len()),
        res.1@.len() == vs@.len(),
        forall|j: int| 0 <= j < vs@.len() ==> res.1@[j] == reading_lines(*app, *ch, vs@, w, j as nat).len(),
{
    let th = app.theme;
    let mut all: Vec<PageLine> = Vec::new();
    all.push(PageLine { kind: LineKind::Title, spans: title_row(ch, w as usize, th) });
    all.push(PageLine { kind: LineKind::Blank, spans: blank_row(w as usize, th) });
    assert(page_view(all@) =~= reading_lines(*app, *ch, vs@, w, 0));
    let visual = app.mode == Mode::Visual;
    let (vlo, vhi) = app.visual_range();
    let mut starts: Vec<usize> = Vec::new();
    let mut i: usize = 0;
    while i < vs.len()
        invariant
            i <= vs@.len(),
            app.wf(),
            th == app.theme,
            visual == (app.mode == Mode::Visual),
            (vlo, vhi) == app.visual_range_spec(),
            page_view(all@) == reading_lines(*app, *ch, vs@, w, i as nat),
            starts@.len() == i,
            forall|j: int| 0 <= j < i ==> starts@[j] == reading_lines(*app, *ch, vs@, w, j as nat).len(),
        decreases vs@.len() - i,
    {
        starts.push(all.len());
        let v = &vs[i];
        let hl = app.highlights.is_highlighted(ch.book.as_str(), ch.chapter, v.number);
        let in_sel = visual && vlo <= i && i <= vhi;
        let (ns, ts) = th.verse_styles(i == app.cursor_verse, hl, in_sel);
        let lines = build_verse_lines(v.number, v.text.as_str(), w, ns, ts);
        let mut tagged_lines = tag_lines(lines, LineKind::Verse(i));
        let ghost before = page_view(all@);
        let ghost more = page_view(tagged_lines@);
        all.append(&mut tagged_lines);
        proof {
            assert(page_view(all@) =~= before + more);
            assert(verse_look(*app, *ch, vs@, i as int) == (ns, ts));
        }
        i += 1;
    }
    (all, starts)
}

/// Keeps the page lines in rows `scroll..scroll + height`.
fn visible_page(lines: Vec<PageLine>, scroll: usize, height: usize) -> (res: Vec<PageLine>)
    ensures
        page_view(res@) == window(page_view(lines@), scroll as int, height as int),
{
    let mut lines = lines;
    if scroll >= lines.len() {
        let empty: Vec<PageLine> = Vec::new();
        assert(page_view(empty@) =~= Seq::empty());
        return empty;
    }
    let ghost all = lines@;
    let mut tail = lines.split_off(scroll);
    tail.truncate(height);
    proof {
        let pv = page_view(all);
        if height <= all.len() - scroll {
            assert(page_view(tail@) =~= pv.subrange(scroll as int, scroll + height));
        } else {
            assert(page_view(tail@) =~= pv.subrange(scroll as int, pv.len() as int));
        }
    }
    tail
}

/// A page of one message line.
fn message_page(text: String, th: Theme) -> (res: Vec<PageLine>)
    ensures
        page_view(res@) == seq![(LineKind::Message, seq![(text@, bg_style_spec(th))])],
{
    let mut out: Vec<PageLine> = Vec::new();
    out.push(PageLine { kind: LineKind::Message, spans: single(text, th.bg_style()) });
    assert(page_view(out@) =~= seq![(LineKind::Message, seq![(text@, bg_style_spec(th))])]);
    out
}


/// The scroll offset that keeps the cursor's verse in view, from the
/// positions of the verses' first lines and the number of lines.
fn cursor_scroll(
    starts: &Vec<usize>,
    total: usize,
    c: usize,
    scroll: u16,
    height: u16,
    Ghost(s): Ghost<App>,
    Ghost(ch): Ghost<ChapterRef>,
    Ghost(vs): Ghost<Seq<Verse>>,
    Ghost(w): Ghost<u16>,
) -> (res: u16)
    requires
        starts@.len() == vs.len(),
        forall|j: int| 0 <= j < vs.len() ==> starts@[j] == reading_lines(s, ch, vs, w, j as nat).len(),
        total == reading_lines(s, ch, vs, w, vs.len()).len(),
        c == s.cursor_verse,
        scroll == s.scroll_offset,
    ensures
        res == follow_cursor(s, ch, vs, w, height as nat),
{
    let n = starts.len();
    let view_height = height as usize;
    let sc = scroll as usize;
    if view_height > 0 && n > 0 {
        let start = if c < n {
            starts[c]
        } else {
            0
        };
        let end = if c < n - 1 {
            starts[c + 1]
        } else {
            total
        };
        if start < sc {
            return #[verifier::truncate] ((if start >= 1 {
                start - 1
            } else {
                0
            }) as u16);
        } else if end > sc + view_height {
            return #[verifier::truncate] ((end - view_height) as u16);
        }
    }
    scroll
}

/// The first and last verses whose first line lies in rows `top..bottom`.
fn shown_range(
    starts: &Vec<usize>,
    top: usize,
    bottom: usize,
    Ghost(s): Ghost<App>,
    Ghost(ch): Ghost<ChapterRef>,
    Ghost(vs): Ghost<Seq<Verse>>,
    Ghost(w): Ghost<u16>,
) -> (res: Option<(usize, usize)>)
    requires
        starts@.len() == vs.len(),
        forall|j: int| 0 <= j < vs.len() ==> starts@[j] == reading_lines(s, ch, vs, w, j as nat).len(),
    ensures
        res == shown_verses(s, ch, vs, w, top as int, bottom as int, vs.len()),
{
    let n = starts.len();
    let mut first: Option<usize> = None;
    let mut last: Option<usize> = None;
    let mut k: usize = 0;
    while k < n
        invariant
            k <= n,
            n == starts@.len(),
            n == vs.len(),
            forall|j: int| 0 <= j < vs.len() ==> starts@[j] == reading_lines(s, ch, vs, w, j as nat).len(),
            (match (first, last) {
                (Some(f), Some(l)) => Some((f, l)),
                _ => None,
            }) == shown_verses(s, ch, vs, w, top as int, bottom as int, k as nat),
            first is Some <==> last is Some,
        decreases n - k,
    {
        let st = starts[k];
        if st >= top && st < bottom {
            if first.is_none() {
                first = Some(k);
            }
            last = Some(k);
        }
        k += 1;
    }
    match (first, last) {
        (Some(f), Some(l)) => Some((f, l)),
        _ => None,
    }
}

/// Lays out the chapter being read in an area `width` by `height` (the
/// reading column of it): scrolls to keep the cursor's verse in view,
/// records which verses show, and gives the lines to show with what each
/// belongs to.
pub fn draw_verses(app: &mut App, width: u16, height: u16) -> (res: Vec<PageLine>)
    requires
        old(app).wf(),
    ensures
        *final(app) == reading_page(*old(app), width, height).0,
        page_view(res@) == reading_page(*old(app), width, height).1,
{
    let th = app.theme;
    let ghost s = *app;
    let ch = match app.active_chapter() {
        Some(c) => c.clone(),
        None => {
            app.set_visible_verse_range(None);
            let mut m = String::new();
            push_str_chars(&mut m, "  No readings for today.");
            return message_page(m, th);
        },
    };
    let (_, w) = reading_column(width);
    let (all, starts) = match app.active_verses() {
        Some(vs) => reading_layout(app, &ch, vs, w),
        None => {
            app.set_visible_verse_range(None);
            let mut m = String::new();
            push_str_chars(&mut m, "  Chapter not found: ");
            push_str_chars(&mut m, ch.book.as_str());
            string_push(&mut m, ' ');
            push_dec(&mut m, ch.chapter as u64);
            assert(m@ =~= "  Chapter not found: "@ + chapter_label(ch));
            return message_page(m, th);
        },
    };
    let ghost vs = s.active_verses_spec().unwrap();
    proof {
        assert(page_view(all@).len() == all@.len());
    }
    let sc = cursor_scroll(&starts, all.len(), app.cursor_verse, app.scroll_offset, height, Ghost(s), Ghost(ch), Ghost(vs), Ghost(w));
    app.scroll_offset = sc;
    let range = shown_range(&starts, sc as usize, sc as usize + height as usize, Ghost(s), Ghost(ch), Ghost(vs), Ghost(w));
    app.set_visible_verse_range(range);
    let view_height = height as usize;
    let shown = visible_page(all, sc as usize, view_height);
    proof {
        assert(s.active_chapter_spec() == Some(ch));
        let page = reading_page(s, width, height);
        assert(app.scroll_offset == follow_cursor(s, ch, vs, w, height as nat));
        assert(*app == page.0);
    }
    shown
}


/// The verses found shown are among the first `k`, the first before the
/// last.
proof fn lemma_shown_verses_bounds(s: App, ch: ChapterRef, vs: Seq<Verse>, w: u16, top: int, bottom: int, k: nat)
    requires
        k <= usize::MAX,
    ensures
        shown_verses(s, ch, vs, w, top, bottom, k) matches Some((f, l)) ==> f <= l < k,
    decreases k,
{
    if k > 0 {
        lemma_shown_verses_bounds(s, ch, vs, w, top, bottom, (k - 1) as nat);
    }
}

/// Laying out the page keeps the verse cursor and the verses recorded as
/// shown within the chapter (whose verses, held in memory, number at most
/// `usize::MAX`).
pub proof fn law_pages_keep_cursor_in_chapter(s: App, width: u16, height: u16)
    requires
        s.cursor_in_chapter(),
        s.verse_count_spec() <= usize::MAX,
    ensures
        reading_page(s, width, height).0.cursor_in_chapter(),
        forall|items: Seq<HighlightItem>| (#[trigger] archive_page(s, items, width, height)).0.cursor_in_chapter(),
{
    match (s.active_chapter_spec(), s.active_verses_spec()) {
        (Some(ch), Some(vs)) => {
            let w = column_spec(width).1;
            let sc = follow_cursor(s, ch, vs, w, height as nat);
            lemma_shown_verses_bounds(s, ch, vs, w, sc as int, sc + height, vs.len());
        },
        _ => {},
    }
}


/// The page grows with each verse.
proof fn lemma_reading_lines_grow(s: App, ch: ChapterRef, vs: Seq<Verse>, w: u16, i: nat, j: nat)
    requires
        i <= j,
    ensures
        reading_lines(s, ch, vs, w, i).len() <= reading_lines(s, ch, vs, w, j).len(),
    decreases j,
{
    if i < j {
        lemma_reading_lines_grow(s, ch, vs, w, i, (j - 1) as nat);
    }
}

/// After laying out the page, the verse under the cursor is in view: all of
/// its lines, when they are fewer than the rows of the view (and the page
/// has at most `u16::MAX` lines, which the scroll offset can reach).
pub proof fn law_cursor_verse_in_view(s: App, width: u16, height: u16)
    requires
        height > 0,
        s.cursor_verse < s.verse_count_spec(),
        ({
            let ch = s.active_chapter_spec().unwrap();
            let vs = s.active_verses_spec().unwrap();
            let w = column_spec(width).1;
            let c = s.cursor_verse as nat;
            &&& reading_lines(s, ch, vs, w, vs.len()).len() <= u16::MAX
            &&& reading_lines(s, ch, vs, w, c + 1).len() - reading_lines(s, ch, vs, w, c).len() < height
        }),
    ensures
        ({
            let ch = s.active_chapter_spec().unwrap();
            let vs = s.active_verses_spec().unwrap();
            let w = column_spec(width).1;
            let c = s.cursor_verse as nat;
            let sc = reading_page(s, width, height).0.scroll_offset;
            &&& sc <= reading_lines(s, ch, vs, w, c).len()
            &&& reading_lines(s, ch, vs, w, c + 1).len() <= sc + height
        }),
{
    let ch = s.active_chapter_spec().unwrap();
    let vs = s.active_verses_spec().unwrap();
    let w = column_spec(width).1;
    let c = s.cursor_verse as nat;
    lemma_reading_lines_grow(s, ch, vs, w, c, c + 1);
    lemma_reading_lines_grow(s, ch, vs, w, c + 1, vs.len());
    let start = reading_lines(s, ch, vs, w, c).len() as int;
    let end = reading_lines(s, ch, vs, w, c + 1).len() as int;
    assert(start >= 2) by {
        lemma_reading_lines_grow(s, ch, vs, w, 0, c);
    }
    let sc = follow_cursor(s, ch, vs, w, height as nat);
    if start < s.scroll_offset {
        assert(sc as int == start - 1);
    } else if end > s.scroll_offset + height {
        assert(sc as int == end - height) by {
            assert(0 <= end - height <= 0xffff);
        }
    }
}


/// Where the cursor is does not change how many lines the archive has, nor
/// where each item's line is.
proof fn lemma_archive_body_shape(items: Seq<HighlightItem>, c1: int, c2: int, w: nat, th: Theme)
    ensures
        archive_body(items, c1, w, th).0.len() == archive_body(items, c2, w, th).0.len(),
        archive_body(items, c1, w, th).1 == archive_body(items, c2, w, th).1,
    decreases items.len(),
{
    if items.len() > 0 {
        lemma_archive_body_shape(items.drop_last(), c1, c2, w, th);
    }
}

/// After laying out the archive, the line of the item under the cursor is in
/// view (where the archive has at most `u16::MAX` lines, which the scroll
/// offset can reach).
pub proof fn law_selected_item_in_view(s: App, items: Seq<HighlightItem>, width: u16, height: u16)
    requires
        height > 0,
        items.len() > 0,
        archive_body(items, 0, column_spec(width).1 as nat, s.theme).0.len() <= u16::MAX,
    ensures
        ({
            let t = archive_page(s, items, width, height).0;
            let line = archive_body(items, t.highlight_cursor as int, column_spec(width).1 as nat, s.theme).1[t.highlight_cursor as int];
            t.highlight_scroll_offset <= line < t.highlight_scroll_offset + height
        }),
{
    let t = archive_page(s, items, width, height).0;
    let c = t.highlight_cursor as int;
    let w = column_spec(width).1 as nat;
    lemma_archive_body_len(items, c, w, s.theme);
    lemma_archive_body_shape(items, c, 0, w, s.theme);
    let line = archive_body(items, c, w, s.theme).1[c];
    if line < s.highlight_scroll_offset {
        assert(t.highlight_scroll_offset as int == line);
    } else if line >= s.highlight_scroll_offset + height {
        assert(t.highlight_scroll_offset as int == line + 1 - height);
    }
}


/// The chapter navigation holds each chapter's label at every other place,
/// with separators between.
proof fn lemma_nav_layout(chs: Seq<ChapterRef>, active: int, th: Theme)
    ensures
        nav_spec(chs, active, th).len() == if chs.len() == 0 {
            0
        } else {
            2 * chs.len() - 1
        },
        forall|i: int|
            0 <= i < chs.len() ==> #[trigger] nav_spec(chs, active, th)[2 * i] == (
                chs[i].book@ + seq![' '] + dec(chs[i].chapter as nat),
                if i == active {
                    header_chapter_active_spec(th)
                } else {
                    header_chapter_inactive_spec(th)
                },
            ),
    decreases chs.len(),
{
    if chs.len() > 0 {
        let d = chs.drop_last();
        lemma_nav_layout(d, active, th);
        assert forall|i: int| 0 <= i < chs.len() implies #[trigger] nav_spec(chs, active, th)[2 * i] == (
            chs[i].book@ + seq![' '] + dec(chs[i].chapter as nat),
            if i == active {
                header_chapter_active_spec(th)
            } else {
                header_chapter_inactive_spec(th)
            },
        ) by {
            if i < d.len() {
                assert(d[i] == chs[i]);
                assert(nav_spec(chs, active, th)[2 * i] == nav_spec(d, active, th)[2 * i]);
            }
        }
    }
}

/// While reading, the header shows each of the day's chapters by book and
/// number, in order after the day and a gap, and marks the chapter being
/// read in the active style and every other one in the inactive style.
pub proof fn law_header_marks_active_chapter(s: App, width: nat)
    requires
        s.mode != Mode::Highlights,
    ensures
        forall|i: int|
            0 <= i < s.today_chapters@.len() ==> #[trigger] header_spec(s, width)[2 + 2 * i] == (
                s.today_chapters@[i].book@ + seq![' '] + dec(s.today_chapters@[i].chapter as nat),
                if i == s.active_chapter_idx {
                    header_chapter_active_spec(s.theme)
                } else {
                    header_chapter_inactive_spec(s.theme)
                },
            ),
{
    let chs = s.today_chapters@;
    lemma_nav_layout(chs, s.active_chapter_idx as int, s.theme);
    assert forall|i: int| 0 <= i < chs.len() implies #[trigger] header_spec(s, width)[2 + 2 * i] == nav_spec(
        chs,
        s.active_chapter_idx as int,
        s.theme,
    )[2 * i] by {}
}


/// In the archive, the status line counts the item under the cursor from one
/// out of all the items: "  HIGHLIGHTS  p of n" with p the cursor's place
/// and n the number of items, so p never exceeds n when the cursor is on an
/// item; with no items it says "  HIGHLIGHTS" alone.
pub proof fn law_archive_status_counts(s: App, width: nat)
    requires
        s.mode == Mode::Highlights,
    ensures
        s.archive_count() > 0 ==> exists|p: nat, n: nat|
            #![trigger dec(p), dec(n)]
            status_spec(s, width)[0].0 == "  HIGHLIGHTS  "@ + dec(p) + " of "@ + dec(n) && p == s.highlight_cursor + 1
                && n == s.archive_count() && (s.highlight_cursor < s.archive_count() ==> 1 <= p <= n),
        s.archive_count() == 0 ==> status_spec(s, width)[0].0 == "  HIGHLIGHTS"@,
{
    if s.archive_count() > 0 {
        let p = (s.highlight_cursor + 1) as nat;
        let n = s.archive_count();
        assert(status_spec(s, width)[0].0 == "  HIGHLIGHTS  "@ + dec(p) + " of "@ + dec(n));
    }
}

/// While reading a chapter with verses, the status line counts the verse
/// under the cursor from one out of the chapter's verses.
pub proof fn law_reading_status_counts(s: App, width: nat)
    requires
        s.mode == Mode::Normal,
        s.verse_count_spec() > 0,
    ensures
        exists|p: nat, n: nat|
            #![trigger dec(p), dec(n)]
            status_spec(s, width)[2].0 == "verse "@ + dec(p) + " of "@ + dec(n) + "  "@ && p == s.cursor_verse + 1 && n
                == s.verse_count_spec() && (s.cursor_verse < s.verse_count_spec() ==> 1 <= p <= n),
{
    let p = (s.cursor_verse + 1) as nat;
    let n = s.verse_count_spec();
    assert(status_spec(s, width)[2].0 == "verse "@ + dec(p) + " of "@ + dec(n) + "  "@);
}


/// Every line of a verse is non-empty and ends in the text style.
proof fn lemma_verse_lines_end_in_text_style(num: u16, text: Seq<char>, w: u16, ns: Style, ts: Style)
    ensures
        forall|m: int|
            0 <= m < verse_lines_spec(num, text, w, ns, ts).len() ==> (#[trigger] verse_lines_spec(num, text, w, ns, ts)[m]).len()
                > 0 && verse_lines_spec(num, text, w, ns, ts)[m].last().1 == ts,
{
}

/// The verse a line of the reading page belongs to, if any.
pub open spec fn verse_of(k: LineKind) -> Option<usize> {
    match k {
        LineKind::Verse(i) => Some(i),
        _ => None,
    }
}

/// Each line of the reading page that belongs to a verse is one of that
/// verse's lines, laid out in the verse's styles.
proof fn lemma_reading_lines_of_verse(s: App, ch: ChapterRef, vs: Seq<Verse>, w: u16, n: nat)
    requires
        n <= vs.len(),
        n <= usize::MAX + 1,
    ensures
        forall|j: int|
            0 <= j < reading_lines(s, ch, vs, w, n).len() && (verse_of(#[trigger] reading_lines(s, ch, vs, w, n)[j].0) is Some)
                ==> {
                let i = verse_of(reading_lines(s, ch, vs, w, n)[j].0).unwrap();
                let (ns, ts) = verse_look(s, ch, vs, i as int);
                &&& i < n
                &&& exists|m: int|
                    0 <= m < verse_lines_spec(vs[i as int].number, vs[i as int].text@, w, ns, ts).len()
                        && reading_lines(s, ch, vs, w, n)[j].1 == #[trigger] verse_lines_spec(vs[i as int].number, vs[i as int].text@, w, ns, ts)[m]
            },
    decreases n,
{
    if n > 0 {
        let k = (n - 1) as nat;
        lemma_reading_lines_of_verse(s, ch, vs, w, k);
        let prev = reading_lines(s, ch, vs, w, k);
        let (ns, ts) = verse_look(s, ch, vs, k as int);
        let vl = verse_lines_spec(vs[k as int].number, vs[k as int].text@, w, ns, ts);
        let all = reading_lines(s, ch, vs, w, n);
        assert(all == prev + tagged(LineKind::Verse(k as usize), vl));
        assert forall|j: int| 0 <= j < all.len() && (verse_of(#[trigger] all[j].0) is Some) implies {
            let i = verse_of(all[j].0).unwrap();
            let (ns2, ts2) = verse_look(s, ch, vs, i as int);
            &&& i < n
            &&& exists|m: int|
                0 <= m < verse_lines_spec(vs[i as int].number, vs[i as int].text@, w, ns2, ts2).len()
                    && all[j].1 == #[trigger] verse_lines_spec(vs[i as int].number, vs[i as int].text@, w, ns2, ts2)[m]
        } by {
            if j < prev.len() {
                assert(all[j] == prev[j]);
            } else {
                let m = j - prev.len();
                assert(all[j] == (LineKind::Verse(k as usize), vl[m]));
                assert(verse_of(all[j].0).unwrap() as int == k as int);
                assert(all[j].1 == vl[m]);
            }
        }
    } else {
        let all = reading_lines(s, ch, vs, w, 0);
        assert forall|j: int| 0 <= j < all.len() implies verse_of(#[trigger] all[j].0) is None by {}
    }
}

/// Whether verse `i` lies in the visual selection of `s`: between the
/// selection's anchor and the cursor, whichever of the two comes first.
pub open spec fn between_anchor_and_cursor(s: App, i: int) -> bool {
    (s.visual_anchor <= i <= s.cursor_verse) || (s.cursor_verse <= i <= s.visual_anchor)
}

/// While reading, every line of a verse ends in that verse's text style in
/// its state: under the cursor or not, highlighted or not, and in a visual
/// selection selected exactly when the verse lies between the selection's
/// anchor and the cursor, in either order. So the verses drawn as selected
/// are those that `y` and `d` act on.
pub proof fn law_selection_drawn(s: App, ch: ChapterRef, vs: Seq<Verse>, w: u16)
    requires
        vs.len() <= usize::MAX,
    ensures
        forall|j: int|
            0 <= j < reading_lines(s, ch, vs, w, vs.len()).len() && (verse_of(#[trigger] reading_lines(s, ch, vs, w, vs.len())[j].0) is Some)
                ==> {
                let i = verse_of(reading_lines(s, ch, vs, w, vs.len())[j].0).unwrap();
                let line = reading_lines(s, ch, vs, w, vs.len())[j].1;
                &&& i < vs.len()
                &&& line.len() > 0
                &&& line.last().1 == verse_styles_spec(
                    s.theme,
                    i == s.cursor_verse,
                    s.highlights.marked(key_spec(ch.book@, ch.chapter), vs[i as int].number),
                    s.mode == Mode::Visual && between_anchor_and_cursor(s, i as int),
                ).1
            },
{
    lemma_reading_lines_of_verse(s, ch, vs, w, vs.len());
    let all = reading_lines(s, ch, vs, w, vs.len());
    assert forall|j: int| 0 <= j < all.len() && (verse_of(#[trigger] all[j].0) is Some) implies {
        let i = verse_of(all[j].0).unwrap();
        let line = all[j].1;
        &&& i < vs.len()
        &&& line.len() > 0
        &&& line.last().1 == verse_styles_spec(
            s.theme,
            i == s.cursor_verse,
            s.highlights.marked(key_spec(ch.book@, ch.chapter), vs[i as int].number),
            s.mode == Mode::Visual && between_anchor_and_cursor(s, i as int),
        ).1
    } by {
        let i = verse_of(all[j].0).unwrap();
        let (ns, ts) = verse_look(s, ch, vs, i as int);
        lemma_verse_lines_end_in_text_style(vs[i as int].number, vs[i as int].text@, w, ns, ts);
        let m = choose|m: int|
            0 <= m < verse_lines_spec(vs[i as int].number, vs[i as int].text@, w, ns, ts).len() && all[j].1
                == #[trigger] verse_lines_spec(vs[i as int].number, vs[i as int].text@, w, ns, ts)[m];
        assert(all[j].1 == verse_lines_spec(vs[i as int].number, vs[i as int].text@, w, ns, ts)[m]);
    }
}


/// On the page laid out for drawing, every line of a verse ends in that
/// verse's text style in its state, selected exactly when the verse lies
/// between the selection's anchor and the cursor (in either order).
pub proof fn law_selection_drawn_on_page(s: App, width: u16, height: u16)
    requires
        s.active_verses_spec() is Some,
        s.verse_count_spec() <= usize::MAX,
    ensures
        ({
            let ch = s.active_chapter_spec().unwrap();
            let vs = s.active_verses_spec().unwrap();
            let page = reading_page(s, width, height).1;
            forall|j: int|
                0 <= j < page.len() && (verse_of(#[trigger] page[j].0) is Some) ==> {
                    let i = verse_of(page[j].0).unwrap();
                    &&& i < vs.len()
                    &&& page[j].1.len() > 0
                    &&& page[j].1.last().1 == verse_styles_spec(
                        s.theme,
                        i == s.cursor_verse,
                        s.highlights.marked(key_spec(ch.book@, ch.chapter), vs[i as int].number),
                        s.mode == Mode::Visual && between_anchor_and_cursor(s, i as int),
                    ).1
                }
        }),
{
    let ch = s.active_chapter_spec().unwrap();
    let vs = s.active_verses_spec().unwrap();
    let w = column_spec(width).1;
    let all = reading_lines(s, ch, vs, w, vs.len());
    let sc = follow_cursor(s, ch, vs, w, height as nat);
    let page = reading_page(s, width, height).1;
    assert(page == window(all, sc as int, height as int));
    law_selection_drawn(s, ch, vs, w);
    assert forall|j: int| 0 <= j < page.len() && (verse_of(#[trigger] page[j].0) is Some) implies {
        let i = verse_of(page[j].0).unwrap();
        &&& i < vs.len()
        &&& page[j].1.len() > 0
        &&& page[j].1.last().1 == verse_styles_spec(
            s.theme,
            i == s.cursor_verse,
            s.highlights.marked(key_spec(ch.book@, ch.chapter), vs[i as int].number),
            s.mode == Mode::Visual && between_anchor_and_cursor(s, i as int),
        ).1
    } by {
        assert(page[j] == all[sc + j]);
        assert(verse_of(all[sc + j].0) is Some);
    }
}

} // verus!
