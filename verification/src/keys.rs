//! Key bindings: which operation a key press performs in each mode, and what
//! outside work (saving, loading text) it asks for.
use vstd::prelude::*;

use crate::app::{
    step_cancel_visual, step_cursor_down, step_cursor_up, step_cycle_theme, step_enter_highlights,
    step_enter_visual, step_exit_highlights, step_goto_first, step_goto_last, step_goto_visible_first,
    step_goto_visible_last, step_half_page_down, step_half_page_up, step_highlight_cursor_down,
    step_highlight_cursor_up, step_highlight_selection, step_next_chapter, step_prev_chapter,
    step_toggle_help, step_toggle_highlight, step_unhighlight_selection, App, Mode,
};

verus! {

/// A key.
#[derive(Clone, Copy, PartialEq, Eq, Structural, Debug)]
pub enum KeyCode {
    Char(char),
    Up,
    Down,
    Left,
    Right,
    Tab,
    BackTab,
    Enter,
    Esc,
    Other,
}

/// A key press: the key, and whether Control was held.
#[derive(Clone, Copy, PartialEq, Eq, Structural, Debug)]
pub struct KeyInput {
    pub code: KeyCode,
    pub ctrl: bool,
}

/// Outside work that a key press asks of the program around the library.
#[derive(Clone, Copy, PartialEq, Eq, Structural, Debug)]
pub enum Request {
    Nothing,
    /// The highlights changed and are to be saved.
    SaveHighlights,
    /// The theme changed and is to be saved.
    SaveTheme,
    /// Move to the next translation: save its name, load its text and call
    /// `App::cycle_translation`.
    ChangeTranslation,
    /// Load today's text and call `App::goto_today`.
    GotoToday,
    /// Load the text of the selected archive item's day and call
    /// `App::open_selected_highlight`.
    OpenHighlight,
}

/// The operation a key press performs.
#[derive(Clone, Copy, PartialEq, Eq, Structural, Debug)]
pub enum Action {
    DismissHelp,
    EndPendingG,
    GotoFirst,
    Quit,
    CursorDown,
    CursorUp,
    StartG,
    GotoLast,
    VisibleFirst,
    VisibleLast,
    HalfPageDown,
    HalfPageUp,
    NextChapter,
    PrevChapter,
    OpenArchive,
    ReturnToToday,
    EnterVisual,
    ToggleHighlight,
    CycleTheme,
    CycleTranslation,
    ToggleHelp,
    HighlightSelection,
    RemoveSelection,
    CancelVisual,
    ArchiveDown,
    ArchiveUp,
    OpenSelected,
    ExitArchive,
    Ignore,
}

/// Key bindings while reading.
pub open spec fn normal_action(k: KeyInput) -> Action {
    if k.ctrl && k.code == KeyCode::Char('d') {
        Action::HalfPageDown
    } else if k.ctrl && k.code == KeyCode::Char('u') {
        Action::HalfPageUp
    } else {
        match k.code {
            KeyCode::Char('q') => Action::Quit,
            KeyCode::Char('j') | KeyCode::Down => Action::CursorDown,
            KeyCode::Char('k') | KeyCode::Up => Action::CursorUp,
            KeyCode::Char('g') => Action::StartG,
            KeyCode::Char('G') => Action::GotoLast,
            KeyCode::Char('H') => Action::VisibleFirst,
            KeyCode::Char('L') => Action::VisibleLast,
            KeyCode::Char('l') | KeyCode::Right | KeyCode::Tab => Action::NextChapter,
            KeyCode::Char('h') | KeyCode::Left | KeyCode::BackTab => Action::PrevChapter,
            KeyCode::Char('a') => Action::OpenArchive,
            KeyCode::Char('r') => Action::ReturnToToday,
            KeyCode::Char('v') => Action::EnterVisual,
            KeyCode::Enter => Action::ToggleHighlight,
            KeyCode::Char('t') => Action::CycleTheme,
            KeyCode::Char('T') => Action::CycleTranslation,
            KeyCode::Char('?') => Action::ToggleHelp,
            _ => Action::Ignore,
        }
    }
}

/// Key bindings during a visual selection.
pub open spec fn visual_action(k: KeyInput) -> Action {
    match k.code {
        KeyCode::Char('j') | KeyCode::Down => Action::CursorDown,
        KeyCode::Char('k') | KeyCode::Up => Action::CursorUp,
        KeyCode::Char('y') => Action::HighlightSelection,
        KeyCode::Char('d') => Action::RemoveSelection,
        KeyCode::Esc => Action::CancelVisual,
        KeyCode::Char('?') => Action::ToggleHelp,
        _ => Action::Ignore,
    }
}

/// Key bindings in the highlight archive.
pub open spec fn archive_action(k: KeyInput) -> Action {
    match k.code {
        KeyCode::Char('j') | KeyCode::Down => Action::ArchiveDown,
        KeyCode::Char('k') | KeyCode::Up => Action::ArchiveUp,
        KeyCode::Enter => Action::OpenSelected,
        KeyCode::Esc => Action::ExitArchive,
        KeyCode::Char('q') => Action::Quit,
        _ => Action::Ignore,
    }
}

/// The operation key `k` performs in state `s`: any key closes the help
/// overlay; after `g`, a second `g` goes to the first verse and any other key
/// cancels; otherwise the bindings of the mode.
pub open spec fn action_for(s: App, k: KeyInput) -> Action {
    if s.show_help {
        Action::DismissHelp
    } else if s.pending_g {
        if k.code == KeyCode::Char('g') {
            Action::GotoFirst
        } else {
            Action::EndPendingG
        }
    } else {
        match s.mode {
            Mode::Normal => normal_action(k),
            Mode::Visual => visual_action(k),
            Mode::Highlights => archive_action(k),
        }
    }
}

/// The outside work an operation asks for.
pub open spec fn request_for(a: Action) -> Request {
    match a {
        Action::ToggleHighlight | Action::HighlightSelection | Action::RemoveSelection => Request::SaveHighlights,
        Action::CycleTheme => Request::SaveTheme,
        Action::CycleTranslation => Request::ChangeTranslation,
        Action::ReturnToToday => Request::GotoToday,
        Action::OpenSelected => Request::OpenHighlight,
        _ => Request::Nothing,
    }
}

/// The key press does not ask for an operation that cannot be done in state
/// `s`: a half-page move whose arithmetic overflows, or a selection outside
/// the chapter's verses.
pub open spec fn key_safe(s: App, k: KeyInput, visible_lines: usize) -> bool {
    match action_for(s, k) {
        Action::HalfPageDown => {
            &&& s.visible_verse_range matches Some((first, last)) ==> first <= last && last - first < usize::MAX
            &&& s.cursor_verse + s.half_page(visible_lines) <= usize::MAX
        },
        Action::HalfPageUp => s.visible_verse_range matches Some((first, last)) ==> first <= last && last
            - first < usize::MAX,
        Action::HighlightSelection | Action::RemoveSelection => s.selection_in_range(),
        _ => true,
    }
}

/// What operation `a` makes of state `s`: state `t`.
pub open spec fn performs(s: App, t: App, a: Action, visible_lines: usize) -> bool {
    match a {
        Action::DismissHelp => t == (App { show_help: false, ..s }),
        Action::EndPendingG => t == (App { pending_g: false, ..s }),
        Action::GotoFirst => step_goto_first(App { pending_g: false, ..s }, t),
        Action::Quit => t == (App { should_quit: true, ..s }),
        Action::CursorDown => step_cursor_down(s, t),
        Action::CursorUp => step_cursor_up(s, t),
        Action::StartG => t == (App { pending_g: true, ..s }),
        Action::GotoLast => step_goto_last(s, t),
        Action::VisibleFirst => step_goto_visible_first(s, t),
        Action::VisibleLast => step_goto_visible_last(s, t),
        Action::HalfPageDown => step_half_page_down(s, t, visible_lines),
        Action::HalfPageUp => step_half_page_up(s, t, visible_lines),
        Action::NextChapter => step_next_chapter(s, t),
        Action::PrevChapter => step_prev_chapter(s, t),
        Action::OpenArchive => step_enter_highlights(s, t),
        Action::EnterVisual => step_enter_visual(s, t),
        Action::ToggleHighlight => step_toggle_highlight(s, t),
        Action::CycleTheme => step_cycle_theme(s, t),
        Action::ToggleHelp => step_toggle_help(s, t),
        Action::HighlightSelection => step_highlight_selection(s, t),
        Action::RemoveSelection => step_unhighlight_selection(s, t),
        Action::CancelVisual => step_cancel_visual(s, t),
        Action::ArchiveDown => step_highlight_cursor_down(s, t),
        Action::ArchiveUp => step_highlight_cursor_up(s, t),
        Action::ExitArchive => step_exit_highlights(s, t),
        Action::ReturnToToday | Action::CycleTranslation | Action::OpenSelected | Action::Ignore => t == s,
    }
}

fn normal_key(app: &mut App, key: KeyInput, visible_lines: usize) -> (res: Request)
    requires
        old(app).wf(),
        !old(app).show_help,
        !old(app).pending_g,
        old(app).mode == Mode::Normal,
        key_safe(*old(app), key, visible_lines),
    ensures
        final(app).wf(),
        res == request_for(normal_action(key)),
        performs(*old(app), *final(app), normal_action(key), visible_lines),
{
    if key.ctrl && key.code == KeyCode::Char('d') {
        app.half_page_down(visible_lines);
        return Request::Nothing;
    }
    if key.ctrl && key.code == KeyCode::Char('u') {
        app.half_page_up(visible_lines);
        return Request::Nothing;
    }
    match key.code {
        KeyCode::Char('q') => {
            app.should_quit = true;
            Request::Nothing
        },
        KeyCode::Char('j') | KeyCode::Down => {
            app.cursor_down();
            Request::Nothing
        },
        KeyCode::Char('k') | KeyCode::Up => {
            app.cursor_up();
            Request::Nothing
        },
        KeyCode::Char('g') => {
            app.pending_g = true;
            Request::Nothing
        },
        KeyCode::Char('G') => {
            app.goto_last();
            Request::Nothing
        },
        KeyCode::Char('H') => {
            app.goto_visible_first();
            Request::Nothing
        },
        KeyCode::Char('L') => {
            app.goto_visible_last();
            Request::Nothing
        },
        KeyCode::Char('l') | KeyCode::Right | KeyCode::Tab => {
            app.next_chapter();
            Request::Nothing
        },
        KeyCode::Char('h') | KeyCode::Left | KeyCode::BackTab => {
            app.prev_chapter();
            Request::Nothing
        },
        KeyCode::Char('a') => {
            app.enter_highlights();
            Request::Nothing
        },
        KeyCode::Char('r') => Request::GotoToday,
        KeyCode::Char('v') => {
            app.enter_visual();
            Request::Nothing
        },
        KeyCode::Enter => {
            app.toggle_highlight();
            Request::SaveHighlights
        },
        KeyCode::Char('t') => {
            app.cycle_theme();
            Request::SaveTheme
        },
        KeyCode::Char('T') => Request::ChangeTranslation,
        KeyCode::Char('?') => {
            app.toggle_help();
            Request::Nothing
        },
        _ => Request::Nothing,
    }
}

fn visual_key(app: &mut App, key: KeyInput) -> (res: Request)
    requires
        old(app).wf(),
        !old(app).show_help,
        !old(app).pending_g,
        old(app).mode == Mode::Visual,
        key_safe(*old(app), key, 0),
    ensures
        final(app).wf(),
        res == request_for(visual_action(key)),
        performs(*old(app), *final(app), visual_action(key), 0),
{
    match key.code {
        KeyCode::Char('j') | KeyCode::Down => {
            app.cursor_down();
            Request::Nothing
        },
        KeyCode::Char('k') | KeyCode::Up => {
            app.cursor_up();
            Request::Nothing
        },
        KeyCode::Char('y') => {
            app.highlight_selection();
            Request::SaveHighlights
        },
        KeyCode::Char('d') => {
            app.unhighlight_selection();
            Request::SaveHighlights
        },
        KeyCode::Esc => {
            app.cancel_visual();
            Request::Nothing
        },
        KeyCode::Char('?') => {
            app.toggle_help();
            Request::Nothing
        },
        _ => Request::Nothing,
    }
}

fn archive_key(app: &mut App, key: KeyInput) -> (res: Request)
    requires
        old(app).wf(),
        old(app).mode == Mode::Highlights,
    ensures
        final(app).wf(),
        res == request_for(archive_action(key)),
        performs(*old(app), *final(app), archive_action(key), 0),
{
    match key.code {
        KeyCode::Char('j') | KeyCode::Down => {
            app.highlight_cursor_down();
            Request::Nothing
        },
        KeyCode::Char('k') | KeyCode::Up => {
            app.highlight_cursor_up();
            Request::Nothing
        },
        KeyCode::Enter => Request::OpenHighlight,
        KeyCode::Esc => {
            app.exit_highlights();
            Request::Nothing
        },
        KeyCode::Char('q') => {
            app.should_quit = true;
            Request::Nothing
        },
        _ => Request::Nothing,
    }
}

/// Performs the operation bound to `key` in the current state, and says what
/// outside work it asks for. `visible_lines` is the height of the verse area,
/// for half-page moves when the visible verses are not known.
pub fn handle_key(app: &mut App, key: KeyInput, visible_lines: usize) -> (res: Request)
    requires
        old(app).wf(),
        key_safe(*old(app), key, visible_lines),
    ensures
        final(app).wf(),
        res == request_for(action_for(*old(app), key)),
        performs(*old(app), *final(app), action_for(*old(app), key), visible_lines),
{
    if app.show_help {
        app.show_help = false;
        return Request::Nothing;
    }
    if app.pending_g {
        app.pending_g = false;
        if key.code == KeyCode::Char('g') {
            app.goto_first();
        }
        return Request::Nothing;
    }
    match app.mode {
        Mode::Normal => normal_key(app, key, visible_lines),
        Mode::Visual => visual_key(app, key),
        Mode::Highlights => archive_key(app, key),
    }
}


/// Every key keeps the verse cursor on a verse of the chapter (at the first
/// position when the chapter has no verses), the anchor of a running
/// selection likewise, and the verses recorded as shown within the chapter.
pub proof fn law_keys_keep_cursor_in_chapter(s: App, t: App, k: KeyInput, visible_lines: usize)
    requires
        s.cursor_in_chapter(),
        performs(s, t, action_for(s, k), visible_lines),
    ensures
        t.cursor_in_chapter(),
{
}

/// Where the cursor is on a verse of a chapter with verses, a running
/// selection lies within the chapter, so that `y` and `d` can act on it.
pub proof fn law_selection_in_chapter(s: App)
    requires
        s.cursor_in_chapter(),
        s.mode == Mode::Visual,
        s.verse_count_spec() > 0,
    ensures
        s.selection_in_range(),
{
}


/// While reading, `l`, the Right arrow and Tab move to the next chapter of
/// the day, and `h`, the Left arrow and Shift-Tab to the previous one,
/// each at the chapter's first verse; at the last (first) chapter they do
/// nothing.
pub proof fn law_chapter_keys(s: App, t: App, k: KeyInput, visible_lines: usize)
    requires
        !s.show_help,
        !s.pending_g,
        s.mode == Mode::Normal,
        performs(s, t, action_for(s, k), visible_lines),
    ensures
        k.code == KeyCode::Char('l') || k.code == KeyCode::Right || k.code == KeyCode::Tab ==> {
            if s.active_chapter_idx + 1 < s.today_chapters@.len() {
                &&& t.active_chapter_idx == s.active_chapter_idx + 1
                &&& t.cursor_verse == 0
                &&& t.today_chapters == s.today_chapters
            } else {
                t == s
            }
        },
        k.code == KeyCode::Char('h') || k.code == KeyCode::Left || k.code == KeyCode::BackTab ==> {
            if s.active_chapter_idx > 0 {
                &&& t.active_chapter_idx == s.active_chapter_idx - 1
                &&& t.cursor_verse == 0
                &&& t.today_chapters == s.today_chapters
            } else {
                t == s
            }
        },
{
    if k.code == KeyCode::Char('l') || k.code == KeyCode::Right || k.code == KeyCode::Tab {
        assert(normal_action(k) == Action::NextChapter);
        assert(s.today_chapters@.len() == s.today_chapters.len());
    }
    if k.code == KeyCode::Char('h') || k.code == KeyCode::Left || k.code == KeyCode::BackTab {
        assert(normal_action(k) == Action::PrevChapter);
    }
}

} // verus!
