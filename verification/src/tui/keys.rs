//! What keys and submitted lines do to the screen, and what the caller is to do
//! about them.
use vstd::prelude::*;
use vstd::string::StringExecFns;
use crate::agent::calls::PermissionResponse;
use crate::commands::{self, all_commands, command_views, completions, CommandView, SlashCommand};
use crate::config::{mode_description, mode_name, mode_named, PermissionMode};
use crate::text;
use crate::tui::input::{
    broken, cleared, edited, erased, erased_forward, line_at, moved, pasted, recalled, remembered,
    returned, showing, stepped_down, stepped_left, stepped_right, stepped_up, typed, word_after,
    word_before, word_erased, AreaView, TextArea,
};
use crate::tui::{
    at_bottom, entry_views, next_mode, noticed, request_view, same_frame, scrolled_down,
    scrolled_up, App, AppView, EntryView, ItemView, NoticeLevel, Overlay, OverlayView, PickerEntry,
    PickerKind,
};

verus! {

/// A key of the keyboard.
#[derive(Debug, Clone, Copy, PartialEq, Eq, Structural)]
pub enum KeyCode {
    Esc,
    Enter,
    Tab,
    BackTab,
    Backspace,
    Delete,
    Left,
    Right,
    Up,
    Down,
    Home,
    End,
    PageUp,
    PageDown,
    Char(char),
    Other,
}

/// A key, with the modifiers that are held.
#[derive(Debug, Clone, Copy, PartialEq, Eq, Structural)]
pub struct Key {
    pub code: KeyCode,
    pub ctrl: bool,
    pub shift: bool,
    pub alt: bool,
}

/// What the caller is to do about a key.
#[derive(Debug)]
pub enum Effect {
    Nothing,
    /// Interrupt the current turn.
    Cancel,
    /// Put a permission mode in force.
    StoreMode(PermissionMode),
    /// Submit a line.
    Submit(String),
    /// Answer the question that was open.
    Answer(PermissionResponse),
}

/// What the caller is to do about a key, as text.
pub enum EffectView {
    Nothing,
    Cancel,
    StoreMode(PermissionMode),
    Submit(Seq<char>),
    Answer(PermissionResponse),
}

impl View for Effect {
    type V = EffectView;

    open spec fn view(&self) -> EffectView {
        match *self {
            Effect::Nothing => EffectView::Nothing,
            Effect::Cancel => EffectView::Cancel,
            Effect::StoreMode(m) => EffectView::StoreMode(m),
            Effect::Submit(t) => EffectView::Submit(t@),
            Effect::Answer(a) => EffectView::Answer(a),
        }
    }
}

/// How long a Ctrl+C stays armed before a second press stops meaning quit, in
/// nanoseconds.
pub const QUIT_WINDOW: u64 = 2_000_000_000;

// ---------------------------------------------------------------------------
// Editing
// ---------------------------------------------------------------------------

/// The text area after a key that edits it or moves its cursor. Up and Down stay
/// within a prompt of several lines, and recall the history at its edges.
pub open spec fn area_after(a: AreaView, key: Key) -> Option<AreaView> {
    let line = line_at(a);
    let word = key.ctrl || key.alt;
    match key.code {
        KeyCode::Enter => if key.shift || key.alt {
            Some(broken(a))
        } else {
            None
        },
        KeyCode::Backspace => Some(
            if word {
                word_erased(a)
            } else {
                erased(a)
            },
        ),
        KeyCode::Delete => Some(erased_forward(a)),
        KeyCode::Char(c) => if !key.ctrl {
            None
        } else if c == 'w' {
            Some(word_erased(a))
        } else if c == 'k' {
            Some(edited(a, a.lines.update(a.row, line.take(a.col)), a.row, a.col))
        } else if c == 'u' {
            Some(edited(a, a.lines.update(a.row, line.skip(a.col)), a.row, 0))
        } else if c == 'a' {
            Some(moved(a, a.row, 0))
        } else if c == 'e' {
            Some(moved(a, a.row, line.len() as int))
        } else {
            None
        },
        KeyCode::Left => Some(
            if word {
                moved(a, a.row, word_before(line, a.col))
            } else {
                stepped_left(a)
            },
        ),
        KeyCode::Right => Some(
            if word {
                moved(a, a.row, word_after(line, a.col))
            } else {
                stepped_right(a)
            },
        ),
        KeyCode::Home => if key.ctrl {
            None
        } else {
            Some(moved(a, a.row, 0))
        },
        KeyCode::End => if key.ctrl {
            None
        } else {
            Some(moved(a, a.row, line.len() as int))
        },
        KeyCode::Up => Some(
            if a.row > 0 {
                stepped_up(a)
            } else {
                recalled(a)
            },
        ),
        KeyCode::Down => Some(
            if a.row + 1 < a.lines.len() {
                stepped_down(a)
            } else {
                returned(a)
            },
        ),
        _ => None,
    }
}

/// Edits the text area, where the key does. Returns whether it did.
fn edit(area: &mut TextArea, key: Key) -> (r: bool)
    requires
        old(area).wf(),
    ensures
        final(area).wf(),
        r == (area_after(old(area)@, key) is Some),
        final(area)@ == (match area_after(old(area)@, key) {
            Some(a) => a,
            None => old(area)@,
        }),
{
    let word = key.ctrl || key.alt;
    match key.code {
        KeyCode::Enter => {
            if key.shift || key.alt {
                area.insert_newline();
                true
            } else {
                false
            }
        },
        KeyCode::Backspace => {
            if word {
                area.delete_word_before();
            } else {
                area.backspace();
            }
            true
        },
        KeyCode::Delete => {
            area.delete();
            true
        },
        KeyCode::Char(c) => {
            if !key.ctrl {
                false
            } else if c == 'w' {
                area.delete_word_before();
                true
            } else if c == 'k' {
                area.kill_to_end();
                true
            } else if c == 'u' {
                area.kill_to_start();
                true
            } else if c == 'a' {
                area.move_home();
                true
            } else if c == 'e' {
                area.move_end();
                true
            } else {
                false
            }
        },
        KeyCode::Left => {
            if word {
                area.move_word_left();
            } else {
                area.move_left();
            }
            true
        },
        KeyCode::Right => {
            if word {
                area.move_word_right();
            } else {
                area.move_right();
            }
            true
        },
        KeyCode::Home => {
            if key.ctrl {
                false
            } else {
                area.move_home();
                true
            }
        },
        KeyCode::End => {
            if key.ctrl {
                false
            } else {
                area.move_end();
                true
            }
        },
        KeyCode::Up => {
            if !area.move_up() {
                area.history_prev();
            }
            true
        },
        KeyCode::Down => {
            if !area.move_down() {
                area.history_next();
            }
            true
        },
        _ => false,
    }
}

// ---------------------------------------------------------------------------
// Keys
// ---------------------------------------------------------------------------

/// Whether nothing is typed.
pub open spec fn nothing_typed(a: AreaView) -> bool {
    forall|i: int| 0 <= i < a.lines.len() ==> (#[trigger] a.lines[i]).len() == 0
}

/// What is typed.
pub open spec fn typed_text(a: AreaView) -> Seq<char> {
    text::joined(a.lines, "\n"@)
}

/// What is shown of a permission mode that is now in force.
pub open spec fn mode_notice(mode: PermissionMode) -> Seq<char> {
    "Mode: "@ + mode_name(mode) + " — "@ + mode_description(mode)
}

/// The screen with another text area.
pub open spec fn with_area(a: AppView, area: AreaView) -> AppView {
    AppView { area, ..a }
}

/// What a completion types.
pub open spec fn completed(name: Seq<char>) -> Seq<char> {
    "/"@ + name + " "@
}

/// After Tab, which completes a slash command.
pub open spec fn tabbed(a: AppView) -> AppView {
    let t = typed_text(a.area);
    if text::starts_with(t, "/"@) && text::first_space(t, 0) is None {
        let entries = completions(t, a.custom);
        if entries.len() == 0 {
            a
        } else if entries.len() == 1 {
            with_area(a, showing(a.area, completed(entries[0].name)))
        } else {
            AppView { overlay: OverlayView::Palette { entries, selected: 0 }, ..a }
        }
    } else {
        a
    }
}

/// After a character was typed. A slash on an empty line offers the commands.
pub open spec fn wrote(a: AppView, c: char) -> AppView {
    let b = with_area(a, typed(a.area, c));
    if c == '/' && typed_text(b.area) == "/"@ {
        AppView {
            overlay: OverlayView::Palette { entries: all_commands(a.custom), selected: 0 },
            ..b
        }
    } else {
        b
    }
}

pub open spec fn interrupting(a: AppView) -> AppView {
    AppView { status: "interrupting…"@, ..a }
}

pub open spec fn page(a: AppView) -> u16 {
    if a.viewport_height > 1 {
        a.viewport_height
    } else {
        1
    }
}

/// After Ctrl+C: it interrupts a turn, or discards what is typed, or quits where
/// it is pressed twice within the window.
pub open spec fn control_c(a: AppView, now: u64) -> (AppView, EffectView) {
    if a.busy {
        (AppView { quit_armed_at: None, ..interrupting(a) }, EffectView::Cancel)
    } else if !nothing_typed(a.area) {
        (with_area(a, cleared(a.area)), EffectView::Nothing)
    } else if a.quit_armed_at matches Some(at) && now < at + QUIT_WINDOW {
        (AppView { should_quit: true, ..a }, EffectView::Nothing)
    } else {
        (
            noticed(
                AppView { quit_armed_at: Some(now), ..a },
                "Press Ctrl+C again to exit."@,
                NoticeLevel::Info,
            ),
            EffectView::Nothing,
        )
    }
}

/// After a key other than Ctrl+C, with no overlay open.
pub open spec fn plain_key(a: AppView, key: Key) -> (AppView, EffectView) {
    match area_after(a.area, key) {
        Some(area) => (with_area(a, area), EffectView::Nothing),
        None => match key.code {
            KeyCode::Esc => if a.busy {
                (interrupting(a), EffectView::Cancel)
            } else {
                (with_area(a, cleared(a.area)), EffectView::Nothing)
            },
            KeyCode::PageUp => (scrolled_up(a, page(a)), EffectView::Nothing),
            KeyCode::PageDown => (scrolled_down(a, page(a)), EffectView::Nothing),
            KeyCode::Home => (scrolled_up(a, u16::MAX), EffectView::Nothing),
            KeyCode::End => (at_bottom(a), EffectView::Nothing),
            KeyCode::BackTab => {
                let mode = next_mode(a.mode);
                (
                    noticed(AppView { mode, ..a }, mode_notice(mode), NoticeLevel::Info),
                    EffectView::StoreMode(mode),
                )
            },
            KeyCode::Enter => {
                let t = typed_text(a.area);
                (
                    with_area(
                        a,
                        cleared(
                            AreaView { history: remembered(a.area.history, t), ..a.area },
                        ),
                    ),
                    EffectView::Submit(t),
                )
            },
            KeyCode::Tab => (tabbed(a), EffectView::Nothing),
            KeyCode::Char(c) => if key.ctrl && c == 'd' && nothing_typed(a.area) {
                (AppView { should_quit: true, ..a }, EffectView::Nothing)
            } else if key.ctrl && c == 'l' {
                (at_bottom(AppView { transcript: Seq::empty(), ..a }), EffectView::Nothing)
            } else {
                (wrote(a, c), EffectView::Nothing)
            },
            _ => (a, EffectView::Nothing),
        },
    }
}

/// After a key, with no overlay open. Any key other than `c` disarms the quit
/// prompt.
pub open spec fn pressed(a: AppView, key: Key, now: u64) -> (AppView, EffectView) {
    if key.code == KeyCode::Char('c') && key.ctrl {
        control_c(a, now)
    } else if key.code == KeyCode::Enter && !key.shift && !key.alt && (a.busy || nothing_typed(
        a.area,
    )) {
        (a, EffectView::Nothing)
    } else {
        let (b, effect) = plain_key(a, key);
        if key.code matches KeyCode::Char(c) && c == 'c' {
            (b, effect)
        } else {
            (AppView { quit_armed_at: None, ..b }, effect)
        }
    }
}

/// What an answer key answers.
pub open spec fn answer_of(code: KeyCode) -> Option<PermissionResponse> {
    match code {
        KeyCode::Enter => Some(PermissionResponse::Once),
        KeyCode::Esc => Some(PermissionResponse::Reject),
        KeyCode::Char(c) => if c == 'y' || c == 'Y' || c == '1' {
            Some(PermissionResponse::Once)
        } else if c == 'a' || c == 'A' || c == '2' {
            Some(PermissionResponse::Always)
        } else if c == 'n' || c == 'N' || c == '3' {
            Some(PermissionResponse::Reject)
        } else {
            None
        },
        _ => None,
    }
}

/// How an answer is shown.
pub open spec fn answer_label(answer: PermissionResponse) -> Seq<char> {
    match answer {
        PermissionResponse::Once => "approved"@,
        PermissionResponse::Always => "approved for this session"@,
        PermissionResponse::Reject => "declined"@,
    }
}

pub open spec fn above(selected: usize) -> usize {
    if selected > 0 {
        (selected - 1) as usize
    } else {
        0
    }
}

pub open spec fn below(selected: usize, count: nat) -> usize {
    if count == 0 {
        0
    } else if selected + 1 < count {
        (selected + 1) as usize
    } else {
        (count - 1) as usize
    }
}

/// Whether some command has a name.
pub open spec fn is_named(list: Seq<CommandView>, name: Seq<char>) -> bool {
    exists|i: int| 0 <= i < list.len() && (#[trigger] list[i]).name == name
}

/// After a key, with the palette open. Once what is typed is a command, the
/// palette gets out of the way, so that Enter sends it.
pub open spec fn palette_key(
    a: AppView,
    entries: Seq<CommandView>,
    selected: usize,
    code: KeyCode,
) -> AppView {
    let hidden = AppView { overlay: OverlayView::Closed, ..a };
    match code {
        KeyCode::Up => AppView {
            overlay: OverlayView::Palette { entries, selected: above(selected) },
            ..a
        },
        KeyCode::Down => AppView {
            overlay: OverlayView::Palette { entries, selected: below(selected, entries.len()) },
            ..a
        },
        KeyCode::Esc => hidden,
        KeyCode::Enter | KeyCode::Tab => if selected < entries.len() {
            with_area(hidden, showing(a.area, completed(entries[selected as int].name)))
        } else {
            hidden
        },
        KeyCode::Backspace => with_area(hidden, erased(a.area)),
        KeyCode::Char(c) => {
            let area = typed(a.area, c);
            let t = typed_text(area);
            let found = completions(t, a.custom);
            if found.len() == 0 || is_named(found, text::without_start(t, '/')) {
                with_area(hidden, area)
            } else {
                AppView {
                    overlay: OverlayView::Palette { entries: found, selected: 0 },
                    ..with_area(a, area)
                }
            }
        },
        _ => a,
    }
}

/// After an entry of a picker was chosen.
pub open spec fn picked(a: AppView, kind: PickerKind, value: Seq<char>) -> (AppView, EffectView) {
    match kind {
        PickerKind::Model => (
            noticed(AppView { model: value, ..a }, "Model: "@ + value, NoticeLevel::Success),
            EffectView::Nothing,
        ),
        PickerKind::Mode => match mode_named(text::trimmed(value)) {
            Some(mode) => (
                noticed(AppView { mode, ..a }, mode_notice(mode), NoticeLevel::Success),
                EffectView::StoreMode(mode),
            ),
            None => (a, EffectView::Nothing),
        },
        PickerKind::Session => (
            noticed(
                a,
                "Run `grok --resume "@ + value + "` to continue that session."@,
                NoticeLevel::Info,
            ),
            EffectView::Nothing,
        ),
    }
}

/// After a key, with a picker open.
pub open spec fn picker_key(
    a: AppView,
    kind: PickerKind,
    title: Seq<char>,
    entries: Seq<EntryView>,
    selected: usize,
    code: KeyCode,
) -> (AppView, EffectView) {
    let hidden = AppView { overlay: OverlayView::Closed, ..a };
    match code {
        KeyCode::Up => (
            AppView {
                overlay: OverlayView::Picker { kind, title, entries, selected: above(selected) },
                ..a
            },
            EffectView::Nothing,
        ),
        KeyCode::Down => (
            AppView {
                overlay: OverlayView::Picker {
                    kind,
                    title,
                    entries,
                    selected: below(selected, entries.len()),
                },
                ..a
            },
            EffectView::Nothing,
        ),
        KeyCode::Esc => (hidden, EffectView::Nothing),
        KeyCode::Enter => if selected < entries.len() {
            picked(hidden, kind, entries[selected as int].value)
        } else {
            (hidden, EffectView::Nothing)
        },
        _ => (a, EffectView::Nothing),
    }
}

/// After a key. An open overlay takes every key: a modal that leaks keystrokes
/// to the input box behind it is how people accidentally send half a prompt.
pub open spec fn after_key(a: AppView, key: Key, now: u64) -> (AppView, EffectView) {
    match a.overlay {
        OverlayView::Closed => pressed(a, key, now),
        OverlayView::Permission(request) => match answer_of(key.code) {
            Some(answer) => (
                noticed(
                    AppView { overlay: OverlayView::Closed, ..a },
                    request.summary + " — "@ + answer_label(answer),
                    NoticeLevel::Info,
                ),
                EffectView::Answer(answer),
            ),
            None => (a, EffectView::Nothing),
        },
        OverlayView::Palette { entries, selected } => (
            palette_key(a, entries, selected, key.code),
            EffectView::Nothing,
        ),
        OverlayView::Picker { kind, title, entries, selected } => picker_key(
            a,
            kind,
            title,
            entries,
            selected,
            key.code,
        ),
    }
}

pub(crate) fn mode_line(mode: PermissionMode) -> (r: String)
    ensures
        r@ == mode_notice(mode),
{
    let mut s = "Mode: ".to_owned();
    s.append(mode.as_str());
    s.append(" — ");
    s.append(mode.describe());
    s
}

fn completion(name: &str) -> (r: String)
    ensures
        r@ == completed(name@),
{
    let mut s = "/".to_owned();
    s.append(name);
    s.append(" ");
    s
}

impl App {
    fn on_control_c(&mut self, now: u64) -> (r: Effect)
        requires
            old(self).wf(),
        ensures
            final(self).wf(),
            same_frame(*old(self), *final(self)),
            (final(self)@, r@) == control_c(old(self)@, now),
    {
        if self.busy {
            self.status = "interrupting…".to_owned();
            self.quit_armed_at = None;
            return Effect::Cancel;
        }
        if !self.textarea.is_empty() {
            self.textarea.clear();
            return Effect::Nothing;
        }
        let again = match self.quit_armed_at {
            Some(at) => now < at || now - at < QUIT_WINDOW,
            None => false,
        };
        if again {
            self.should_quit = true;
        } else {
            self.quit_armed_at = Some(now);
            self.notice("Press Ctrl+C again to exit.", NoticeLevel::Info);
        }
        Effect::Nothing
    }

    fn on_tab(&mut self)
        requires
            old(self).wf(),
        ensures
            final(self).wf(),
            same_frame(*old(self), *final(self)),
            final(self)@ == tabbed(old(self)@),
    {
        let t = self.textarea.text();
        if text::begins(&t, "/") && text::split_at_space(&t).is_none() {
            let entries = commands::complete(&t, &self.custom);
            assert(command_views(entries@).len() == entries@.len());
            if entries.len() == 1 {
                assert(command_views(entries@)[0] == entries@[0]@);
                self.textarea.set_text(&completion(&entries[0].name));
            } else if entries.len() > 1 {
                self.overlay = Overlay::Palette { entries, selected: 0 };
            }
        }
    }

    fn on_char(&mut self, c: char)
        requires
            old(self).wf(),
        ensures
            final(self).wf(),
            same_frame(*old(self), *final(self)),
            final(self)@ == wrote(old(self)@, c),
    {
        self.textarea.insert_char(c);
        if c == '/' && text::same(&self.textarea.text(), "/") {
            let entries = commands::all(&self.custom);
            self.overlay = Overlay::Palette { entries, selected: 0 };
        }
    }

    fn on_plain_key(&mut self, key: Key) -> (r: Effect)
        requires
            old(self).wf(),
        ensures
            final(self).wf(),
            same_frame(*old(self), *final(self)),
            (final(self)@, r@) == plain_key(old(self)@, key),
    {
        if edit(&mut self.textarea, key) {
            return Effect::Nothing;
        }
        let rows: u16 = if self.viewport_height > 1 {
            self.viewport_height
        } else {
            1
        };
        match key.code {
            KeyCode::Esc => {
                if self.busy {
                    self.status = "interrupting…".to_owned();
                    return Effect::Cancel;
                }
                self.textarea.clear();
            },
            KeyCode::PageUp => self.scroll_up(rows),
            KeyCode::PageDown => self.scroll_down(rows),
            KeyCode::Home => self.scroll_up(u16::MAX),
            KeyCode::End => self.scroll_to_bottom(),
            KeyCode::BackTab => {
                let mode = self.cycle_mode();
                self.notice(&mode_line(mode), NoticeLevel::Info);
                return Effect::StoreMode(mode);
            },
            KeyCode::Enter => {
                let t = self.textarea.take();
                return Effect::Submit(t);
            },
            KeyCode::Tab => self.on_tab(),
            KeyCode::Char(c) => {
                if key.ctrl && c == 'd' && self.textarea.is_empty() {
                    self.should_quit = true;
                } else if key.ctrl && c == 'l' {
                    self.transcript = Vec::new();
                    assert(self@.transcript =~= Seq::<ItemView>::empty());
                    self.scroll_to_bottom();
                } else {
                    self.on_char(c);
                }
            },
            _ => {},
        }
        Effect::Nothing
    }

    /// A key, with no overlay open.
    fn press(&mut self, key: Key, now: u64) -> (r: Effect)
        requires
            old(self).wf(),
        ensures
            final(self).wf(),
            same_frame(*old(self), *final(self)),
            (final(self)@, r@) == pressed(old(self)@, key, now),
    {
        let is_c = match key.code {
            KeyCode::Char(c) => c == 'c',
            _ => false,
        };
        if is_c && key.ctrl {
            return self.on_control_c(now);
        }
        let is_enter = match key.code {
            KeyCode::Enter => true,
            _ => false,
        };
        if is_enter && !key.shift && !key.alt && (self.busy || self.textarea.is_empty()) {
            return Effect::Nothing;
        }
        let effect = self.on_plain_key(key);
        if !is_c {
            self.quit_armed_at = None;
        }
        effect
    }

    fn on_palette_key(&mut self, entries: Vec<SlashCommand>, selected: usize, code: KeyCode)
        requires
            old(self).wf(),
            old(self)@.overlay is Closed,
        ensures
            final(self).wf(),
            same_frame(*old(self), *final(self)),
            final(self)@ == palette_key(
                AppView {
                    overlay: OverlayView::Palette { entries: command_views(entries@), selected },
                    ..old(self)@
                },
                command_views(entries@),
                selected,
                code,
            ),
    {
        let ghost list = command_views(entries@);
        assert(list.len() == entries@.len());
        match code {
            KeyCode::Up => {
                let up: usize = if selected > 0 {
                    selected - 1
                } else {
                    0
                };
                self.overlay = Overlay::Palette { entries, selected: up };
            },
            KeyCode::Down => {
                let down: usize = if entries.len() == 0 {
                    0
                } else if selected < entries.len() - 1 {
                    selected + 1
                } else {
                    entries.len() - 1
                };
                self.overlay = Overlay::Palette { entries, selected: down };
            },
            KeyCode::Esc => {},
            KeyCode::Enter | KeyCode::Tab => {
                if selected < entries.len() {
                    assert(list[selected as int] == entries@[selected as int]@);
                    self.textarea.set_text(&completion(&entries[selected].name));
                }
            },
            KeyCode::Backspace => {
                self.textarea.backspace();
            },
            KeyCode::Char(c) => {
                self.textarea.insert_char(c);
                let t = self.textarea.text();
                let found = commands::complete(&t, &self.custom);
                assert(command_views(found@).len() == found@.len());
                if found.len() > 0 && !has_name(&found, &text::trim_start_char(&t, '/')) {
                    self.overlay = Overlay::Palette { entries: found, selected: 0 };
                }
            },
            _ => {
                self.overlay = Overlay::Palette { entries, selected };
            },
        }
    }

    fn on_picked(&mut self, kind: PickerKind, value: &str) -> (r: Effect)
        requires
            old(self).wf(),
        ensures
            final(self).wf(),
            same_frame(*old(self), *final(self)),
            (final(self)@, r@) == picked(old(self)@, kind, value@),
    {
        match kind {
            PickerKind::Model => {
                self.model = value.to_owned();
                let mut s = "Model: ".to_owned();
                s.append(value);
                self.notice(&s, NoticeLevel::Success);
                Effect::Nothing
            },
            PickerKind::Mode => match PermissionMode::parse(value) {
                Some(mode) => {
                    self.mode = mode;
                    self.notice(&mode_line(mode), NoticeLevel::Success);
                    Effect::StoreMode(mode)
                },
                None => Effect::Nothing,
            },
            PickerKind::Session => {
                let mut s = "Run `grok --resume ".to_owned();
                s.append(value);
                s.append("` to continue that session.");
                self.notice(&s, NoticeLevel::Info);
                Effect::Nothing
            },
        }
    }

    fn on_picker_key(
        &mut self,
        kind: PickerKind,
        title: String,
        entries: Vec<PickerEntry>,
        selected: usize,
        code: KeyCode,
    ) -> (r: Effect)
        requires
            old(self).wf(),
            old(self)@.overlay is Closed,
        ensures
            final(self).wf(),
            same_frame(*old(self), *final(self)),
            (final(self)@, r@) == picker_key(
                AppView {
                    overlay: OverlayView::Picker {
                        kind,
                        title: title@,
                        entries: entry_views(entries@),
                        selected,
                    },
                    ..old(self)@
                },
                kind,
                title@,
                entry_views(entries@),
                selected,
                code,
            ),
    {
        let ghost list = entry_views(entries@);
        assert(list.len() == entries@.len());
        match code {
            KeyCode::Up => {
                let up: usize = if selected > 0 {
                    selected - 1
                } else {
                    0
                };
                self.overlay = Overlay::Picker { kind, title, entries, selected: up };
            },
            KeyCode::Down => {
                let down: usize = if entries.len() == 0 {
                    0
                } else if selected < entries.len() - 1 {
                    selected + 1
                } else {
                    entries.len() - 1
                };
                self.overlay = Overlay::Picker { kind, title, entries, selected: down };
            },
            KeyCode::Esc => {},
            KeyCode::Enter => {
                if selected < entries.len() {
                    assert(list[selected as int] == entries@[selected as int]@);
                    return self.on_picked(kind, &entries[selected].value);
                }
            },
            _ => {
                self.overlay = Overlay::Picker { kind, title, entries, selected };
            },
        }
        Effect::Nothing
    }

    fn on_answer_key(&mut self, request: crate::agent::PermissionRequest, code: KeyCode) -> (r: Effect)
        requires
            old(self).wf(),
            old(self)@.overlay is Closed,
        ensures
            final(self).wf(),
            same_frame(*old(self), *final(self)),
            match answer_of(code) {
                Some(answer) => {
                    &&& r@ == EffectView::Answer(answer)
                    &&& final(self)@ == noticed(
                        old(self)@,
                        request.summary@ + " — "@ + answer_label(answer),
                        NoticeLevel::Info,
                    )
                },
                None => {
                    &&& r@ == EffectView::Nothing
                    &&& final(self)@ == (AppView {
                        overlay: OverlayView::Permission(request_view(request)),
                        ..old(self)@
                    })
                },
            },
    {
        let answer: Option<PermissionResponse> = match code {
            KeyCode::Enter => Some(PermissionResponse::Once),
            KeyCode::Esc => Some(PermissionResponse::Reject),
            KeyCode::Char(c) => if c == 'y' || c == 'Y' || c == '1' {
                Some(PermissionResponse::Once)
            } else if c == 'a' || c == 'A' || c == '2' {
                Some(PermissionResponse::Always)
            } else if c == 'n' || c == 'N' || c == '3' {
                Some(PermissionResponse::Reject)
            } else {
                None
            },
            _ => None,
        };
        match answer {
            Some(a) => {
                let mut s = request.summary.clone();
                s.append(" — ");
                s.append(
                    match a {
                        PermissionResponse::Once => "approved",
                        PermissionResponse::Always => "approved for this session",
                        PermissionResponse::Reject => "declined",
                    },
                );
                self.notice(&s, NoticeLevel::Info);
                Effect::Answer(a)
            },
            None => {
                self.overlay = Overlay::Permission(request);
                Effect::Nothing
            },
        }
    }

    /// A key was pressed.
    pub fn handle_key(&mut self, key: Key, now: u64) -> (r: Effect)
        requires
            old(self).wf(),
        ensures
            final(self).wf(),
            same_frame(*old(self), *final(self)),
            (final(self)@, r@) == after_key(old(self)@, key, now),
    {
        let mut overlay = Overlay::Closed;
        std::mem::swap(&mut overlay, &mut self.overlay);
        match overlay {
            Overlay::Closed => {
                assert(self@ =~= old(self)@);
                self.press(key, now)
            },
            Overlay::Permission(request) => {
                assert(self@ =~= AppView { overlay: OverlayView::Closed, ..old(self)@ });
                self.on_answer_key(request, key.code)
            },
            Overlay::Palette { entries, selected } => {
                self.on_palette_key(entries, selected, key.code);
                Effect::Nothing
            },
            Overlay::Picker { kind, title, entries, selected } => {
                self.on_picker_key(kind, title, entries, selected, key.code)
            },
        }
    }
}

/// Whether some command has a name.
fn has_name(list: &Vec<SlashCommand>, name: &str) -> (r: bool)
    ensures
        r == is_named(command_views(list@), name@),
{
    let ghost all = command_views(list@);
    let mut i: usize = 0;
    while i < list.len()
        invariant
            i <= list.len(),
            all == command_views(list@),
            forall|j: int| 0 <= j < i ==> (#[trigger] all[j]).name != name@,
        decreases list.len() - i,
    {
        assert(all[i as int] == list@[i as int]@);
        if text::same(&list[i].name, name) {
            return true;
        }
        i += 1;
    }
    false
}

// ---------------------------------------------------------------------------
// Everything else that a terminal reports
// ---------------------------------------------------------------------------

/// Something that a terminal reports.
#[derive(Debug)]
pub enum Incoming {
    Key(Key),
    /// The mouse wheel was turned.
    WheelUp,
    WheelDown,
    /// Text was pasted.
    Paste(String),
    /// The terminal has a new size.
    Resized,
}

/// The lines that a turn of the mouse wheel scrolls.
pub const WHEEL_LINES: u16 = 3;

/// The screen once a report is in, and what the caller is to do about it.
pub open spec fn after_report(a: AppView, incoming: Incoming, now: u64) -> (AppView, EffectView) {
    match incoming {
        Incoming::Key(key) => after_key(a, key, now),
        Incoming::WheelUp => (scrolled_up(a, WHEEL_LINES), EffectView::Nothing),
        Incoming::WheelDown => (scrolled_down(a, WHEEL_LINES), EffectView::Nothing),
        Incoming::Paste(t) => (AppView { area: pasted(a.area, t@), ..a }, EffectView::Nothing),
        Incoming::Resized => (at_bottom(a), EffectView::Nothing),
    }
}

impl App {
    /// The terminal has reported something.
    pub fn handle_terminal_event(&mut self, incoming: Incoming, now: u64) -> (r: Effect)
        requires
            old(self).wf(),
        ensures
            final(self).wf(),
            same_frame(*old(self), *final(self)),
            (final(self)@, r@) == after_report(old(self)@, incoming, now),
    {
        match incoming {
            Incoming::Key(key) => self.handle_key(key, now),
            Incoming::WheelUp => {
                self.scroll_up(WHEEL_LINES);
                Effect::Nothing
            },
            Incoming::WheelDown => {
                self.scroll_down(WHEEL_LINES);
                Effect::Nothing
            },
            Incoming::Paste(t) => {
                let ghost before = self@;
                self.textarea.insert_str(&t);
                assert(self@ =~= AppView { area: pasted(before.area, t@), ..before });
                Effect::Nothing
            },
            Incoming::Resized => {
                self.scroll_to_bottom();
                Effect::Nothing
            },
        }
    }
}

} // verus!
