//! Colour themes: a palette per theme and the styles that the screen's
//! parts are drawn in.
use vstd::prelude::*;

use crate::text::{chars_eq_str, trim_chars, trim_spec};

verus! {

/// A colour: an RGB triple, or the terminal's white.
#[derive(Clone, Copy, PartialEq, Eq, Structural, Debug)]
pub enum Color {
    Rgb(u8, u8, u8),
    White,
}

/// A text style: optional foreground and background colours, and boldness.
#[derive(Clone, Copy, PartialEq, Eq, Structural, Debug)]
pub struct Style {
    pub fg: Option<Color>,
    pub bg: Option<Color>,
    pub bold: bool,
}

/// The colour themes, in the order `t` cycles through them.
#[derive(Clone, Copy, PartialEq, Eq, Structural, Debug)]
pub enum Theme {
    Midnight,
    Parchment,
    Vesper,
}

/// The colours of a theme.
#[derive(Clone, Copy, PartialEq, Eq, Structural, Debug)]
pub struct Palette {
    pub bg: Color,
    pub fg: Color,
    pub muted: Color,
    pub accent: Color,
    pub cursor_bg: Color,
    pub cursor_fg: Color,
    pub highlight_bg: Color,
    pub highlight_fg: Color,
    pub cursor_highlight_bg: Color,
    pub cursor_highlight_fg: Color,
    pub visual_bg: Color,
    pub visual_cursor_bg: Color,
    pub header_sep: Color,
    pub help_bg: Color,
    pub help_border: Color,
}

/// The colours of each theme.
pub open spec fn palette_spec(t: Theme) -> Palette {
    match t {
        Theme::Midnight => Palette {
            bg: Color::Rgb(20, 20, 28),
            fg: Color::Rgb(188, 182, 170),
            muted: Color::Rgb(70, 68, 62),
            accent: Color::Rgb(210, 170, 90),
            cursor_bg: Color::Rgb(30, 30, 40),
            cursor_fg: Color::Rgb(230, 225, 215),
            highlight_bg: Color::Rgb(42, 40, 25),
            highlight_fg: Color::Rgb(225, 200, 120),
            cursor_highlight_bg: Color::Rgb(50, 48, 30),
            cursor_highlight_fg: Color::Rgb(240, 215, 130),
            visual_bg: Color::Rgb(35, 50, 80),
            visual_cursor_bg: Color::Rgb(45, 65, 100),
            header_sep: Color::Rgb(50, 48, 44),
            help_bg: Color::Rgb(28, 28, 38),
            help_border: Color::Rgb(55, 53, 48),
        },
        Theme::Parchment => Palette {
            bg: Color::Rgb(248, 243, 230),
            fg: Color::Rgb(55, 48, 38),
            muted: Color::Rgb(175, 165, 148),
            accent: Color::Rgb(160, 110, 30),
            cursor_bg: Color::Rgb(238, 232, 216),
            cursor_fg: Color::Rgb(30, 25, 15),
            highlight_bg: Color::Rgb(252, 242, 200),
            highlight_fg: Color::Rgb(120, 85, 10),
            cursor_highlight_bg: Color::Rgb(248, 235, 185),
            cursor_highlight_fg: Color::Rgb(100, 70, 5),
            visual_bg: Color::Rgb(180, 200, 230),
            visual_cursor_bg: Color::Rgb(150, 175, 215),
            header_sep: Color::Rgb(200, 192, 178),
            help_bg: Color::Rgb(242, 236, 222),
            help_border: Color::Rgb(190, 180, 162),
        },
        Theme::Vesper => Palette {
            bg: Color::Rgb(28, 26, 22),
            fg: Color::Rgb(198, 190, 172),
            muted: Color::Rgb(78, 74, 65),
            accent: Color::Rgb(195, 155, 75),
            cursor_bg: Color::Rgb(38, 36, 30),
            cursor_fg: Color::Rgb(235, 228, 210),
            highlight_bg: Color::Rgb(48, 44, 25),
            highlight_fg: Color::Rgb(220, 195, 110),
            cursor_highlight_bg: Color::Rgb(55, 50, 30),
            cursor_highlight_fg: Color::Rgb(235, 210, 120),
            visual_bg: Color::Rgb(40, 55, 70),
            visual_cursor_bg: Color::Rgb(50, 70, 90),
            header_sep: Color::Rgb(55, 52, 46),
            help_bg: Color::Rgb(36, 34, 28),
            help_border: Color::Rgb(60, 56, 48),
        },
    }
}

/// A style with both colours set.
pub open spec fn style_of(fg: Color, bg: Color, bold: bool) -> Style {
    Style { fg: Some(fg), bg: Some(bg), bold }
}

/// The theme after `t`.
pub open spec fn cycle_spec(t: Theme) -> Theme {
    match t {
        Theme::Midnight => Theme::Parchment,
        Theme::Parchment => Theme::Vesper,
        Theme::Vesper => Theme::Midnight,
    }
}

/// The name a theme is saved under.
pub open spec fn label_spec(t: Theme) -> Seq<char> {
    match t {
        Theme::Midnight => "midnight"@,
        Theme::Parchment => "parchment"@,
        Theme::Vesper => "vesper"@,
    }
}

/// The theme a saved name stands for; older names "dark" and "light" are
/// kept, and anything else gives the default theme.
pub open spec fn theme_named(n: Seq<char>) -> Theme {
    if n == "midnight"@ || n == "dark"@ {
        Theme::Midnight
    } else if n == "parchment"@ || n == "light"@ {
        Theme::Parchment
    } else if n == "vesper"@ {
        Theme::Vesper
    } else {
        Theme::Midnight
    }
}

/// The style of each part of the screen.
pub open spec fn bg_style_spec(t: Theme) -> Style {
    Style { fg: None, bg: Some(palette_spec(t).bg), bold: false }
}

pub open spec fn header_day_style_spec(t: Theme) -> Style {
    style_of(palette_spec(t).muted, palette_spec(t).bg, false)
}

pub open spec fn header_chapter_active_spec(t: Theme) -> Style {
    style_of(palette_spec(t).accent, palette_spec(t).bg, true)
}

pub open spec fn header_chapter_inactive_spec(t: Theme) -> Style {
    style_of(palette_spec(t).muted, palette_spec(t).bg, false)
}

pub open spec fn header_separator_style_spec(t: Theme) -> Style {
    style_of(palette_spec(t).header_sep, palette_spec(t).bg, false)
}

pub open spec fn chapter_title_style_spec(t: Theme) -> Style {
    style_of(palette_spec(t).fg, palette_spec(t).bg, true)
}

pub open spec fn status_style_spec(t: Theme) -> Style {
    style_of(palette_spec(t).muted, palette_spec(t).bg, false)
}

pub open spec fn status_accent_style_spec(t: Theme) -> Style {
    style_of(palette_spec(t).accent, palette_spec(t).bg, false)
}

pub open spec fn help_border_style_spec(t: Theme) -> Style {
    style_of(palette_spec(t).help_border, palette_spec(t).help_bg, false)
}

pub open spec fn help_title_style_spec(t: Theme) -> Style {
    style_of(palette_spec(t).accent, palette_spec(t).help_bg, true)
}

pub open spec fn help_key_style_spec(t: Theme) -> Style {
    style_of(palette_spec(t).accent, palette_spec(t).help_bg, false)
}

pub open spec fn help_desc_style_spec(t: Theme) -> Style {
    style_of(palette_spec(t).fg, palette_spec(t).help_bg, false)
}

pub open spec fn help_bg_style_spec(t: Theme) -> Style {
    Style { fg: None, bg: Some(palette_spec(t).help_bg), bold: false }
}

/// The (number, text) styles of a verse line.
pub open spec fn verse_styles_spec(t: Theme, is_cursor: bool, is_highlighted: bool, is_visual: bool) -> (Style, Style) {
    let p = palette_spec(t);
    if is_visual && is_cursor {
        (style_of(Color::White, p.visual_cursor_bg, true), style_of(Color::White, p.visual_cursor_bg, true))
    } else if is_visual {
        (style_of(Color::White, p.visual_bg, false), style_of(Color::White, p.visual_bg, false))
    } else if is_cursor && is_highlighted {
        (
            style_of(p.accent, p.cursor_highlight_bg, true),
            style_of(p.cursor_highlight_fg, p.cursor_highlight_bg, true),
        )
    } else if is_cursor {
        (style_of(p.accent, p.cursor_bg, true), style_of(p.cursor_fg, p.cursor_bg, false))
    } else if is_highlighted {
        (style_of(p.accent, p.highlight_bg, false), style_of(p.highlight_fg, p.highlight_bg, false))
    } else {
        (style_of(p.muted, p.bg, false), style_of(p.fg, p.bg, false))
    }
}

fn styled(fg: Color, bg: Color, bold: bool) -> (res: Style)
    ensures
        res == style_of(fg, bg, bold),
{
    Style { fg: Some(fg), bg: Some(bg), bold }
}

impl Theme {
    fn palette(self) -> (res: Palette)
        ensures
            res == palette_spec(self),
    {
        match self {
            Theme::Midnight => Palette {
                bg: Color::Rgb(20, 20, 28),
                fg: Color::Rgb(188, 182, 170),
                muted: Color::Rgb(70, 68, 62),
                accent: Color::Rgb(210, 170, 90),
                cursor_bg: Color::Rgb(30, 30, 40),
                cursor_fg: Color::Rgb(230, 225, 215),
                highlight_bg: Color::Rgb(42, 40, 25),
                highlight_fg: Color::Rgb(225, 200, 120),
                cursor_highlight_bg: Color::Rgb(50, 48, 30),
                cursor_highlight_fg: Color::Rgb(240, 215, 130),
                visual_bg: Color::Rgb(35, 50, 80),
                visual_cursor_bg: Color::Rgb(45, 65, 100),
                header_sep: Color::Rgb(50, 48, 44),
                help_bg: Color::Rgb(28, 28, 38),
                help_border: Color::Rgb(55, 53, 48),
            },
            Theme::Parchment => Palette {
                bg: Color::Rgb(248, 243, 230),
                fg: Color::Rgb(55, 48, 38),
                muted: Color::Rgb(175, 165, 148),
                accent: Color::Rgb(160, 110, 30),
                cursor_bg: Color::Rgb(238, 232, 216),
                cursor_fg: Color::Rgb(30, 25, 15),
                highlight_bg: Color::Rgb(252, 242, 200),
                highlight_fg: Color::Rgb(120, 85, 10),
                cursor_highlight_bg: Color::Rgb(248, 235, 185),
                cursor_highlight_fg: Color::Rgb(100, 70, 5),
                visual_bg: Color::Rgb(180, 200, 230),
                visual_cursor_bg: Color::Rgb(150, 175, 215),
                header_sep: Color::Rgb(200, 192, 178),
                help_bg: Color::Rgb(242, 236, 222),
                help_border: Color::Rgb(190, 180, 162),
            },
            Theme::Vesper => Palette {
                bg: Color::Rgb(28, 26, 22),
                fg: Color::Rgb(198, 190, 172),
                muted: Color::Rgb(78, 74, 65),
                accent: Color::Rgb(195, 155, 75),
                cursor_bg: Color::Rgb(38, 36, 30),
                cursor_fg: Color::Rgb(235, 228, 210),
                highlight_bg: Color::Rgb(48, 44, 25),
                highlight_fg: Color::Rgb(220, 195, 110),
                cursor_highlight_bg: Color::Rgb(55, 50, 30),
                cursor_highlight_fg: Color::Rgb(235, 210, 120),
                visual_bg: Color::Rgb(40, 55, 70),
                visual_cursor_bg: Color::Rgb(50, 70, 90),
                header_sep: Color::Rgb(55, 52, 46),
                help_bg: Color::Rgb(36, 34, 28),
                help_border: Color::Rgb(60, 56, 48),
            },
        }
    }

    /// The next theme.
    pub fn cycle(self) -> (res: Theme)
        ensures
            res == cycle_spec(self),
    {
        match self {
            Theme::Midnight => Theme::Parchment,
            Theme::Parchment => Theme::Vesper,
            Theme::Vesper => Theme::Midnight,
        }
    }

    /// The name the theme is saved under.
    pub fn label(self) -> (res: &'static str)
        ensures
            res@ == label_spec(self),
    {
        match self {
            Theme::Midnight => "midnight",
            Theme::Parchment => "parchment",
            Theme::Vesper => "vesper",
        }
    }

    /// The theme that saved text names, white space around it ignored.
    pub fn from_saved(text: &str) -> (res: Theme)
        ensures
            res == theme_named(trim_spec(text@)),
    {
        let t = trim_chars(text);
        if chars_eq_str(&t, "midnight") || chars_eq_str(&t, "dark") {
            Theme::Midnight
        } else if chars_eq_str(&t, "parchment") || chars_eq_str(&t, "light") {
            Theme::Parchment
        } else if chars_eq_str(&t, "vesper") {
            Theme::Vesper
        } else {
            Theme::Midnight
        }
    }

    /// The background colour.
    pub fn bg(self) -> (res: Color)
        ensures
            res == palette_spec(self).bg,
    {
        self.palette().bg
    }

    /// The background style: background colour only.
    pub fn bg_style(self) -> (res: Style)
        ensures
            res == bg_style_spec(self),
    {
        Style { fg: None, bg: Some(self.palette().bg), bold: false }
    }

    pub fn header_day_style(self) -> (res: Style)
        ensures
            res == header_day_style_spec(self),
    {
        let p = self.palette();
        styled(p.muted, p.bg, false)
    }

    pub fn header_chapter_active(self) -> (res: Style)
        ensures
            res == header_chapter_active_spec(self),
    {
        let p = self.palette();
        styled(p.accent, p.bg, true)
    }

    pub fn header_chapter_inactive(self) -> (res: Style)
        ensures
            res == header_chapter_inactive_spec(self),
    {
        let p = self.palette();
        styled(p.muted, p.bg, false)
    }

    pub fn header_separator_style(self) -> (res: Style)
        ensures
            res == header_separator_style_spec(self),
    {
        let p = self.palette();
        styled(p.header_sep, p.bg, false)
    }

    pub fn chapter_title_style(self) -> (res: Style)
        ensures
            res == chapter_title_style_spec(self),
    {
        let p = self.palette();
        styled(p.fg, p.bg, true)
    }

    /// The (number, text) styles of a verse line in its state.
    pub fn verse_styles(self, is_cursor: bool, is_highlighted: bool, is_visual: bool) -> (res: (Style, Style))
        ensures
            res == verse_styles_spec(self, is_cursor, is_highlighted, is_visual),
    {
        let p = self.palette();
        if is_visual && is_cursor {
            let bg = p.visual_cursor_bg;
            (styled(Color::White, bg, true), styled(Color::White, bg, true))
        } else if is_visual {
            let bg = p.visual_bg;
            (styled(Color::White, bg, false), styled(Color::White, bg, false))
        } else if is_cursor && is_highlighted {
            (
                styled(p.accent, p.cursor_highlight_bg, true),
                styled(p.cursor_highlight_fg, p.cursor_highlight_bg, true),
            )
        } else if is_cursor {
            (styled(p.accent, p.cursor_bg, true), styled(p.cursor_fg, p.cursor_bg, false))
        } else if is_highlighted {
            (styled(p.accent, p.highlight_bg, false), styled(p.highlight_fg, p.highlight_bg, false))
        } else {
            (styled(p.muted, p.bg, false), styled(p.fg, p.bg, false))
        }
    }

    pub fn status_style(self) -> (res: Style)
        ensures
            res == status_style_spec(self),
    {
        let p = self.palette();
        styled(p.muted, p.bg, false)
    }

    pub fn status_accent_style(self) -> (res: Style)
        ensures
            res == status_accent_style_spec(self),
    {
        let p = self.palette();
        styled(p.accent, p.bg, false)
    }

    pub fn help_border_style(self) -> (res: Style)
        ensures
            res == help_border_style_spec(self),
    {
        let p = self.palette();
        styled(p.help_border, p.help_bg, false)
    }

    pub fn help_title_style(self) -> (res: Style)
        ensures
            res == help_title_style_spec(self),
    {
        let p = self.palette();
        styled(p.accent, p.help_bg, true)
    }

    pub fn help_key_style(self) -> (res: Style)
        ensures
            res == help_key_style_spec(self),
    {
        let p = self.palette();
        styled(p.accent, p.help_bg, false)
    }

    pub fn help_desc_style(self) -> (res: Style)
        ensures
            res == help_desc_style_spec(self),
    {
        let p = self.palette();
        styled(p.fg, p.help_bg, false)
    }

    pub fn help_bg_style(self) -> (res: Style)
        ensures
            res == help_bg_style_spec(self),
    {
        Style { fg: None, bg: Some(self.palette().help_bg), bold: false }
    }
}

// ---------------------------------------------------------------------------
// Laws
// ---------------------------------------------------------------------------
/// Cycling through the themes comes back to the start after three steps,
/// visiting every theme on the way.
pub proof fn law_cycle_period(t: Theme)
    ensures
        cycle_spec(cycle_spec(cycle_spec(t))) == t,
        cycle_spec(t) != t,
        cycle_spec(cycle_spec(t)) != t,
{
}

/// A saved theme loads back as itself.
pub proof fn law_label_loads_back(t: Theme)
    ensures
        theme_named(trim_spec(label_spec(t))) == t,
{
    reveal_strlit("midnight");
    reveal_strlit("parchment");
    reveal_strlit("vesper");
    reveal_strlit("dark");
    reveal_strlit("light");
    let l = label_spec(t);
    assert(!crate::text::is_whitespace(l[0]));
    assert(!crate::text::is_whitespace(l.last()));
    assert(crate::text::trim_start_spec(l) == l);
    assert(crate::text::trim_end_spec(l) == l);
    assert("midnight"@ != "parchment"@) by {
        assert("midnight"@.len() != "parchment"@.len());
    }
    assert("midnight"@ != "light"@) by {
        assert("midnight"@.len() != "light"@.len());
    }
    assert("midnight"@ != "vesper"@) by {
        assert("midnight"@.len() != "vesper"@.len());
    }
    assert("parchment"@ != "dark"@) by {
        assert("parchment"@.len() != "dark"@.len());
    }
    assert("vesper"@ != "dark"@) by {
        assert("vesper"@.len() != "dark"@.len());
    }
    assert("vesper"@ != "light"@) by {
        assert("vesper"@[0] != "light"@[0]);
    }
    assert("vesper"@ != "parchment"@) by {
        assert("vesper"@.len() != "parchment"@.len());
    }
}

} // verus!
