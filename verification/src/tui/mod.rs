//! The terminal interface: what is on the screen, and what keys do to it.
//!
//! The caller reads the terminal, runs the turns and draws. What an event or a
//! key changes, and what the caller is to do about it, is decided here.
pub mod figures;
pub mod input;
pub mod keys;
pub mod markdown;
pub mod render;
pub mod reports;
pub mod submit;

use vstd::prelude::*;
use vstd::string::StringExecFns;
use crate::agent::{Agent, AgentEvent, PermissionRequest, StopReason};
use crate::api::types::{no_usage, usage_fits, usage_sum, Message, MessageView, Role, Usage};
use crate::commands::{command_views, CommandView, SlashCommand};
use crate::config::PermissionMode;
use crate::session::{context_size, has_role, measurable};
use crate::text;
use crate::tools::misc::todo_views;
use crate::tools::{TodoItem, ToolDisplay};
use crate::tui::input::{AreaView, TextArea};
use crate::tui::markdown::{is_light, dark_theme, light_theme, Theme};
use crate::util::Duration;

verus! {

// ---------------------------------------------------------------------------
// The scrollback
// ---------------------------------------------------------------------------

/// One entry in the scrollback.
#[derive(Debug)]
pub enum TranscriptItem {
    User(String),
    /// `done` flips when the turn ends, which stops the caret being drawn.
    Assistant { text: String, done: bool },
    Reasoning { text: String, collapsed: bool },
    Tool { id: String, name: String, summary: String, state: ToolState },
    /// Harness output: warnings, command results, notices.
    Notice { text: String, level: NoticeLevel },
}

/// What has become of a tool call.
#[derive(Debug)]
pub enum ToolState {
    /// Since a moment, in nanoseconds on the caller's clock.
    Running { started: u64 },
    Finished { summary: Option<String>, display: ToolDisplay, is_error: bool, duration: Duration },
    Denied { reason: String },
}

#[derive(Debug, Clone, Copy, PartialEq, Eq, Structural)]
pub enum NoticeLevel {
    Info,
    Warning,
    Error,
    Success,
}

/// What has become of a tool call, as text.
pub enum StateView {
    Running(u64),
    Finished { summary: Option<Seq<char>>, display: ToolDisplay, is_error: bool, duration: Duration },
    Denied(Seq<char>),
}

impl View for ToolState {
    type V = StateView;

    open spec fn view(&self) -> StateView {
        match *self {
            ToolState::Running { started } => StateView::Running(started),
            ToolState::Finished { summary, display, is_error, duration } => StateView::Finished {
                summary: text::opt_view(summary),
                display,
                is_error,
                duration,
            },
            ToolState::Denied { reason } => StateView::Denied(reason@),
        }
    }
}

/// One entry in the scrollback, as text.
pub enum ItemView {
    User(Seq<char>),
    Assistant(Seq<char>, bool),
    Reasoning(Seq<char>, bool),
    Tool { id: Seq<char>, name: Seq<char>, summary: Seq<char>, state: StateView },
    Notice(Seq<char>, NoticeLevel),
}

impl View for TranscriptItem {
    type V = ItemView;

    open spec fn view(&self) -> ItemView {
        match *self {
            TranscriptItem::User(t) => ItemView::User(t@),
            TranscriptItem::Assistant { text, done } => ItemView::Assistant(text@, done),
            TranscriptItem::Reasoning { text, collapsed } => ItemView::Reasoning(text@, collapsed),
            TranscriptItem::Tool { id, name, summary, state } => ItemView::Tool {
                id: id@,
                name: name@,
                summary: summary@,
                state: state@,
            },
            TranscriptItem::Notice { text, level } => ItemView::Notice(text@, level),
        }
    }
}

/// The entries of a list, as text.
pub open spec fn item_views(items: Seq<TranscriptItem>) -> Seq<ItemView> {
    items.map_values(|i: TranscriptItem| i@)
}

// ---------------------------------------------------------------------------
// Overlays
// ---------------------------------------------------------------------------

/// A modal covering the transcript.
#[derive(Debug)]
pub enum Overlay {
    Closed,
    /// Waiting for the user to approve a tool call.
    Permission(PermissionRequest),
    /// A list to choose from.
    Picker { kind: PickerKind, title: String, entries: Vec<PickerEntry>, selected: usize },
    /// Slash-command completion.
    Palette { entries: Vec<SlashCommand>, selected: usize },
}

#[derive(Debug, Clone, Copy, PartialEq, Eq, Structural)]
pub enum PickerKind {
    Model,
    Mode,
    Session,
}

#[derive(Debug)]
pub struct PickerEntry {
    pub label: String,
    pub detail: String,
    /// Opaque value the action handler interprets.
    pub value: String,
}

/// An entry of a picker, as text: its label, its detail and its value.
pub struct EntryView {
    pub label: Seq<char>,
    pub detail: Seq<char>,
    pub value: Seq<char>,
}

impl View for PickerEntry {
    type V = EntryView;

    open spec fn view(&self) -> EntryView {
        EntryView { label: self.label@, detail: self.detail@, value: self.value@ }
    }
}

/// The entries of a picker, as text.
pub open spec fn entry_views(list: Seq<PickerEntry>) -> Seq<EntryView> {
    list.map_values(|e: PickerEntry| e@)
}

/// A question to the user, as text.
pub struct RequestView {
    pub tool_name: Seq<char>,
    pub summary: Seq<char>,
    pub argument: Seq<char>,
    pub preview: Option<Seq<char>>,
}

pub open spec fn request_view(r: PermissionRequest) -> RequestView {
    RequestView {
        tool_name: r.tool_name@,
        summary: r.summary@,
        argument: r.argument@,
        preview: text::opt_view(r.preview),
    }
}

/// A modal covering the transcript, as text.
pub enum OverlayView {
    Closed,
    Permission(RequestView),
    Picker { kind: PickerKind, title: Seq<char>, entries: Seq<EntryView>, selected: usize },
    Palette { entries: Seq<CommandView>, selected: usize },
}

impl View for Overlay {
    type V = OverlayView;

    open spec fn view(&self) -> OverlayView {
        match *self {
            Overlay::Closed => OverlayView::Closed,
            Overlay::Permission(r) => OverlayView::Permission(request_view(r)),
            Overlay::Picker { kind, title, entries, selected } => OverlayView::Picker {
                kind,
                title: title@,
                entries: entry_views(entries@),
                selected,
            },
            Overlay::Palette { entries, selected } => OverlayView::Palette {
                entries: command_views(entries@),
                selected,
            },
        }
    }
}

// ---------------------------------------------------------------------------
// The application
// ---------------------------------------------------------------------------

/// Everything the screen shows.
pub struct App {
    pub workspace: String,
    /// The user's home directory, which paths are shortened against.
    pub home: Option<String>,
    pub theme: Theme,
    pub transcript: Vec<TranscriptItem>,
    pub textarea: TextArea,
    pub overlay: Overlay,
    /// The row of the transcript that is shown first. The greatest value means
    /// pinned to the newest output, which is what the user wants unless they
    /// deliberately scrolled.
    pub scroll: u16,
    /// Set once the user scrolls up, so incoming tokens stop yanking the view.
    pub scroll_locked: bool,
    /// Total rendered height of the transcript, updated each draw.
    pub content_height: u16,
    pub viewport_height: u16,
    pub busy: bool,
    pub spinner_frame: usize,
    pub status: String,
    pub usage: Usage,
    pub model: String,
    pub mode: PermissionMode,
    pub todos: Vec<TodoItem>,
    pub session_id: String,
    pub context_tokens: u64,
    pub should_quit: bool,
    /// Set by a first Ctrl+C so a second one within the window exits.
    pub quit_armed_at: Option<u64>,
    pub tool_count: usize,
    pub mcp_count: usize,
    pub subagent_count: usize,
    /// The branch that is checked out, where the workspace has one.
    pub branch: Option<String>,
    /// The custom commands of the user and of the project.
    pub custom: Vec<SlashCommand>,
}

/// The part of the screen that events and keys change, as text.
#[verifier::ext_equal]
pub struct AppView {
    pub transcript: Seq<ItemView>,
    pub area: AreaView,
    pub overlay: OverlayView,
    pub scroll: u16,
    pub scroll_locked: bool,
    pub content_height: u16,
    pub viewport_height: u16,
    pub busy: bool,
    pub status: Seq<char>,
    pub usage: Usage,
    pub model: Seq<char>,
    pub mode: PermissionMode,
    pub context_tokens: u64,
    pub should_quit: bool,
    pub quit_armed_at: Option<u64>,
    pub custom: Seq<CommandView>,
}

impl View for App {
    type V = AppView;

    open spec fn view(&self) -> AppView {
        AppView {
            transcript: item_views(self.transcript@),
            area: self.textarea@,
            overlay: self.overlay@,
            scroll: self.scroll,
            scroll_locked: self.scroll_locked,
            content_height: self.content_height,
            viewport_height: self.viewport_height,
            busy: self.busy,
            status: self.status@,
            usage: self.usage,
            model: self.model@,
            mode: self.mode,
            context_tokens: self.context_tokens,
            should_quit: self.should_quit,
            quit_armed_at: self.quit_armed_at,
            custom: command_views(self.custom@),
        }
    }
}

/// What no event and no key changes.
pub open spec fn same_frame(a: App, b: App) -> bool {
    &&& a.workspace == b.workspace
    &&& a.home == b.home
    &&& a.theme == b.theme
    &&& a.spinner_frame == b.spinner_frame
    &&& a.todos == b.todos
    &&& a.session_id == b.session_id
    &&& a.tool_count == b.tool_count
    &&& a.mcp_count == b.mcp_count
    &&& a.subagent_count == b.subagent_count
    &&& a.branch == b.branch
    &&& a.custom == b.custom
}

/// With the newest output in view, unless the user has scrolled away.
pub open spec fn followed(a: AppView) -> AppView {
    if a.scroll_locked {
        a
    } else {
        AppView { scroll: u16::MAX, ..a }
    }
}

/// With one more entry.
pub open spec fn with_item(a: AppView, item: ItemView) -> AppView {
    AppView { transcript: a.transcript.push(item), ..a }
}

/// With a notice.
pub open spec fn noticed(a: AppView, text: Seq<char>, level: NoticeLevel) -> AppView {
    followed(with_item(a, ItemView::Notice(text, level)))
}

/// With streamed text: appended to the assistant's message that is still in
/// progress, or the start of one.
pub open spec fn streamed(a: AppView, chunk: Seq<char>) -> AppView {
    followed(
        if a.transcript.len() > 0 && (a.transcript.last() matches ItemView::Assistant(_, done)
            && !done) {
            AppView {
                transcript: a.transcript.update(
                    a.transcript.len() - 1,
                    ItemView::Assistant(a.transcript.last()->Assistant_0 + chunk, false),
                ),
                ..a
            }
        } else {
            with_item(a, ItemView::Assistant(chunk, false))
        },
    )
}

/// With streamed reasoning.
pub open spec fn reasoned(a: AppView, chunk: Seq<char>) -> AppView {
    followed(
        if a.transcript.len() > 0 && a.transcript.last() is Reasoning {
            AppView {
                transcript: a.transcript.update(
                    a.transcript.len() - 1,
                    ItemView::Reasoning(
                        a.transcript.last()->Reasoning_0 + chunk,
                        a.transcript.last()->Reasoning_1,
                    ),
                ),
                ..a
            }
        } else {
            with_item(a, ItemView::Reasoning(chunk, false))
        },
    )
}

/// The last message of the assistant among the first entries.
pub open spec fn last_assistant(items: Seq<ItemView>, end: int) -> Option<int>
    decreases end,
{
    if end <= 0 || end > items.len() {
        None
    } else if items[end - 1] is Assistant {
        Some(end - 1)
    } else {
        last_assistant(items, end - 1)
    }
}

/// With the last message of the assistant marked finished.
pub open spec fn closed(a: AppView) -> AppView {
    match last_assistant(a.transcript, a.transcript.len() as int) {
        Some(i) => AppView {
            transcript: a.transcript.update(
                i,
                ItemView::Assistant(a.transcript[i]->Assistant_0, true),
            ),
            ..a
        },
        None => a,
    }
}

/// The last entry of a tool call among the first entries.
pub open spec fn last_tool(items: Seq<ItemView>, wanted: Seq<char>, end: int) -> Option<int>
    decreases end,
{
    if end <= 0 || end > items.len() {
        None
    } else if items[end - 1] matches ItemView::Tool { id, .. } && id == wanted {
        Some(end - 1)
    } else {
        last_tool(items, wanted, end - 1)
    }
}

/// With another state of a tool call.
pub open spec fn restated(a: AppView, i: int, state: StateView) -> AppView {
    AppView {
        transcript: a.transcript.update(
            i,
            ItemView::Tool {
                id: a.transcript[i]->id,
                name: a.transcript[i]->name,
                summary: a.transcript[i]->summary,
                state,
            },
        ),
        ..a
    }
}

/// What is shown of a turn that made too many calls.
pub open spec fn limit_notice(limit: u32) -> Seq<char> {
    "Stopped after "@ + text::decimal(limit as nat)
        + " tool calls in one turn. That usually means a loop — check the last few steps, then say how to continue."@
}

/// What is shown of a compaction.
pub open spec fn compaction_notice(dropped: usize) -> Seq<char> {
    "Compacted the conversation: "@ + text::decimal(dropped as nat)
        + " earlier messages replaced by a summary."@
}

/// After an event of the agent.
pub open spec fn after_event(a: AppView, event: AgentEvent, now: u64) -> AppView {
    match event {
        AgentEvent::Text(chunk) => streamed(a, chunk@),
        AgentEvent::Reasoning(chunk) => reasoned(a, chunk@),
        AgentEvent::ToolStarted { id, name, summary } => followed(
            with_item(
                closed(a),
                ItemView::Tool {
                    id: id@,
                    name: name@,
                    summary: summary@,
                    state: StateView::Running(now),
                },
            ),
        ),
        AgentEvent::ToolFinished { id, outcome_summary, display, is_error, duration, .. } => followed(
            match last_tool(a.transcript, id@, a.transcript.len() as int) {
                Some(i) => restated(
                    a,
                    i,
                    StateView::Finished {
                        summary: text::opt_view(outcome_summary),
                        display,
                        is_error,
                        duration,
                    },
                ),
                None => a,
            },
        ),
        AgentEvent::ToolDenied { id, name, reason } => followed(
            match last_tool(a.transcript, id@, a.transcript.len() as int) {
                Some(i) => restated(a, i, StateView::Denied(reason@)),
                None => with_item(
                    closed(a),
                    ItemView::Tool {
                        id: id@,
                        name: name@,
                        summary: name@,
                        state: StateView::Denied(reason@),
                    },
                ),
            },
        ),
        AgentEvent::Usage(usage) => AppView {
            usage: usage_sum(a.usage, usage),
            context_tokens: if usage.prompt_tokens > 0 {
                (usage.prompt_tokens + usage.completion_tokens) as u64
            } else {
                a.context_tokens
            },
            ..a
        },
        AgentEvent::Compacted { dropped, .. } => noticed(
            a,
            compaction_notice(dropped),
            NoticeLevel::Info,
        ),
        AgentEvent::SubagentProgress { agent, text } => AppView {
            status: agent@ + ": "@ + text@,
            ..a
        },
        AgentEvent::Warning(text) => noticed(a, text@, NoticeLevel::Warning),
        AgentEvent::TurnComplete { stop_reason } => {
            let done = AppView { busy: false, status: Seq::empty(), ..closed(a) };
            followed(
                match stop_reason {
                    StopReason::Complete => done,
                    StopReason::Interrupted => noticed(
                        done,
                        "Interrupted."@,
                        NoticeLevel::Warning,
                    ),
                    StopReason::ToolLimitReached { limit } => noticed(
                        done,
                        limit_notice(limit),
                        NoticeLevel::Warning,
                    ),
                    StopReason::Error(e) => noticed(done, e@, NoticeLevel::Error),
                },
            )
        },
    }
}

/// With what is wrong from the start.
pub open spec fn announced(a: AppView, invalid: Seq<Seq<char>>, unsaved: Option<Seq<char>>) -> AppView {
    let told = if invalid.len() > 0 {
        noticed(
            a,
            "Ignoring malformed permission rules: "@ + text::joined(invalid, ", "@),
            NoticeLevel::Warning,
        )
    } else {
        a
    };
    match unsaved {
        Some(e) => noticed(told, "This session will not be saved: "@ + e, NoticeLevel::Warning),
        None => told,
    }
}

/// Whether the usage that an event reports fits the counters.
pub open spec fn event_fits(a: AppView, event: AgentEvent) -> bool {
    event matches AgentEvent::Usage(u) ==> usage_fits(a.usage, u) && u.prompt_tokens
        + u.completion_tokens <= u64::MAX
}

/// Spinner frames. Quarter circles are in every monospace font that draws the
/// borders around them.
pub open spec fn spinner_frame(n: nat) -> Seq<char> {
    if n % 4 == 0 {
        "◐"@
    } else if n % 4 == 1 {
        "◓"@
    } else if n % 4 == 2 {
        "◑"@
    } else {
        "◒"@
    }
}

/// How far the view can be scrolled.
pub open spec fn furthest(a: AppView) -> u16 {
    if a.content_height > a.viewport_height {
        (a.content_height - a.viewport_height) as u16
    } else {
        0
    }
}

/// After scrolling up, which also pins the view.
pub open spec fn scrolled_up(a: AppView, lines: u16) -> AppView {
    AppView {
        scroll_locked: true,
        scroll: if a.scroll > lines {
            (a.scroll - lines) as u16
        } else {
            0
        },
        ..a
    }
}

/// After scrolling down. Reaching the bottom releases the view.
pub open spec fn scrolled_down(a: AppView, lines: u16) -> AppView {
    let wanted = if a.scroll + lines > u16::MAX {
        u16::MAX
    } else {
        (a.scroll + lines) as u16
    };
    let scroll = if wanted < furthest(a) {
        wanted
    } else {
        furthest(a)
    };
    AppView {
        scroll,
        scroll_locked: a.scroll_locked && scroll < furthest(a),
        ..a
    }
}

/// With the newest output in view.
pub open spec fn at_bottom(a: AppView) -> AppView {
    AppView { scroll_locked: false, scroll: u16::MAX, ..a }
}

/// The next permission mode in the cycle. Turning off every safety check should
/// be deliberate, not one stray keystroke, so that mode is skipped.
pub open spec fn next_mode(mode: PermissionMode) -> PermissionMode {
    match mode {
        PermissionMode::Default => PermissionMode::AcceptEdits,
        PermissionMode::AcceptEdits => PermissionMode::Plan,
        PermissionMode::Plan => PermissionMode::Default,
        PermissionMode::BypassPermissions => PermissionMode::Default,
    }
}

/// Adds an entry to a list.
pub(crate) fn push_item(items: &mut Vec<TranscriptItem>, item: TranscriptItem)
    ensures
        item_views(final(items)@) == item_views(old(items)@).push(item@),
{
    let ghost before = item_views(items@);
    let ghost iv = item@;
    items.push(item);
    assert(item_views(items@) =~= before.push(iv));
}

/// Replaces an entry of a list.
fn set_item(items: &mut Vec<TranscriptItem>, i: usize, item: TranscriptItem)
    requires
        i < old(items)@.len(),
    ensures
        item_views(final(items)@) == item_views(old(items)@).update(i as int, item@),
{
    let ghost before = item_views(items@);
    let ghost iv = item@;
    items.set(i, item);
    assert(item_views(items@) =~= before.update(i as int, iv));
}

/// A copy of a list of tasks.
fn copy_todos(todos: &Vec<TodoItem>) -> (r: Vec<TodoItem>)
    ensures
        todo_views(r@) == todo_views(todos@),
{
    let ghost all = todo_views(todos@);
    let mut out: Vec<TodoItem> = Vec::new();
    let mut i: usize = 0;
    assert(todo_views(out@) =~= all.take(0));
    while i < todos.len()
        invariant
            i <= todos.len(),
            all == todo_views(todos@),
            todo_views(out@) == all.take(i as int),
        decreases todos.len() - i,
    {
        let ghost before = todo_views(out@);
        out.push(TodoItem { content: todos[i].content.clone(), status: todos[i].status });
        assert(todo_views(out@) =~= before.push(all[i as int]));
        i += 1;
        assert(todo_views(out@) =~= all.take(i as int));
    }
    assert(all.take(all.len() as int) =~= all);
    out
}

impl App {
    /// The text area is a proper one.
    pub open spec fn wf(&self) -> bool {
        self.textarea.wf()
    }

    pub fn new(
        workspace: &str,
        home: Option<&str>,
        theme: &str,
        model: &str,
        mode: PermissionMode,
        session_id: &str,
    ) -> (r: Self)
        ensures
            r.wf(),
            r.workspace@ == workspace@,
            text::opt_view(r.home) == crate::config::opt_str(home),
            r.theme == (if is_light(theme@) {
                light_theme()
            } else {
                dark_theme()
            }),
            r.session_id@ == session_id@,
            r.todos@.len() == 0,
            r.spinner_frame == 0,
            r.tool_count == 0 && r.mcp_count == 0 && r.subagent_count == 0,
            r.branch is None,
            r@ == fresh_app(model@, mode),
    {
        let r = App {
            workspace: workspace.to_owned(),
            home: match home {
                Some(h) => Some(h.to_owned()),
                None => None,
            },
            theme: Theme::named(theme),
            transcript: Vec::new(),
            textarea: TextArea::new(),
            overlay: Overlay::Closed,
            scroll: 0,
            scroll_locked: false,
            content_height: 0,
            viewport_height: 0,
            busy: false,
            spinner_frame: 0,
            status: String::new(),
            usage: Usage::default(),
            model: model.to_owned(),
            mode,
            todos: Vec::new(),
            session_id: session_id.to_owned(),
            context_tokens: 0,
            should_quit: false,
            quit_armed_at: None,
            tool_count: 0,
            mcp_count: 0,
            subagent_count: 0,
            branch: None,
            custom: Vec::new(),
        };
        assert(r@ =~= fresh_app(model@, mode));
        r
    }

    pub fn spinner(&self) -> (r: &'static str)
        ensures
            r@ == spinner_frame(self.spinner_frame as nat),
    {
        match self.spinner_frame % 4 {
            0 => "◐",
            1 => "◓",
            2 => "◑",
            _ => "◒",
        }
    }

    pub fn notice(&mut self, text: &str, level: NoticeLevel)
        ensures
            same_frame(*old(self), *final(self)),
            final(self)@ == noticed(old(self)@, text@, level),
            old(self).wf() ==> final(self).wf(),
    {
        push_item(
            &mut self.transcript,
            TranscriptItem::Notice { text: text.to_owned(), level },
        );
        self.follow_tail();
    }

    /// Scroll to the newest output unless the user has scrolled away.
    fn follow_tail(&mut self)
        ensures
            same_frame(*old(self), *final(self)),
            final(self)@ == followed(old(self)@),
            final(self).textarea == old(self).textarea,
    {
        if !self.scroll_locked {
            self.scroll = u16::MAX;
        }
    }

    /// Append streamed text to the open assistant message, starting one if the
    /// last item is not an assistant message still in progress.
    fn append_assistant(&mut self, chunk: &str)
        ensures
            same_frame(*old(self), *final(self)),
            final(self)@ == streamed(old(self)@, chunk@),
            final(self).textarea == old(self).textarea,
    {
        let n: usize = self.transcript.len();
        assert(self@.transcript.len() == n);
        let open: Option<String> = if n > 0 {
            assert(self@.transcript.last() == self.transcript@[n - 1]@);
            match &self.transcript[n - 1] {
                TranscriptItem::Assistant { text, done } => if *done {
                    None
                } else {
                    Some(text.clone())
                },
                _ => None,
            }
        } else {
            None
        };
        match open {
            Some(t) => {
                let mut text = t;
                text.append(chunk);
                set_item(
                    &mut self.transcript,
                    n - 1,
                    TranscriptItem::Assistant { text, done: false },
                );
            },
            None => {
                push_item(
                    &mut self.transcript,
                    TranscriptItem::Assistant { text: chunk.to_owned(), done: false },
                );
            },
        }
        self.follow_tail();
    }

    fn append_reasoning(&mut self, chunk: &str)
        ensures
            same_frame(*old(self), *final(self)),
            final(self)@ == reasoned(old(self)@, chunk@),
            final(self).textarea == old(self).textarea,
    {
        let n: usize = self.transcript.len();
        assert(self@.transcript.len() == n);
        let open: Option<(String, bool)> = if n > 0 {
            assert(self@.transcript.last() == self.transcript@[n - 1]@);
            match &self.transcript[n - 1] {
                TranscriptItem::Reasoning { text, collapsed } => Some((text.clone(), *collapsed)),
                _ => None,
            }
        } else {
            None
        };
        match open {
            Some((t, collapsed)) => {
                let mut text = t;
                text.append(chunk);
                set_item(
                    &mut self.transcript,
                    n - 1,
                    TranscriptItem::Reasoning { text, collapsed },
                );
            },
            None => {
                push_item(
                    &mut self.transcript,
                    TranscriptItem::Reasoning { text: chunk.to_owned(), collapsed: false },
                );
            },
        }
        self.follow_tail();
    }

    /// Mark the last assistant message finished.
    fn close_assistant(&mut self)
        ensures
            same_frame(*old(self), *final(self)),
            final(self)@ == closed(old(self)@),
            final(self).textarea == old(self).textarea,
    {
        let ghost items = self@.transcript;
        let mut end: usize = self.transcript.len();
        while end > 0
            invariant
                end <= self.transcript.len(),
                *self == *old(self),
                items == item_views(self.transcript@),
                items == old(self)@.transcript,
                last_assistant(items, items.len() as int) == last_assistant(items, end as int),
            decreases end,
        {
            assert(items[end - 1] == self.transcript@[end - 1]@);
            let found: Option<String> = match &self.transcript[end - 1] {
                TranscriptItem::Assistant { text, .. } => Some(text.clone()),
                _ => None,
            };
            match found {
                Some(text) => {
                    set_item(
                        &mut self.transcript,
                        end - 1,
                        TranscriptItem::Assistant { text, done: true },
                    );
                    return;
                },
                None => {},
            }
            end -= 1;
        }
    }

    /// The last entry of a tool call.
    fn find_tool(&self, wanted: &str) -> (r: Option<usize>)
        ensures
            match r {
                Some(i) => {
                    &&& i < self.transcript@.len()
                    &&& last_tool(self@.transcript, wanted@, self@.transcript.len() as int) == Some(
                        i as int,
                    )
                    &&& self@.transcript[i as int] is Tool
                },
                None => last_tool(
                    self@.transcript,
                    wanted@,
                    self@.transcript.len() as int,
                ) is None,
            },
    {
        let ghost items = self@.transcript;
        let mut end: usize = self.transcript.len();
        while end > 0
            invariant
                end <= self.transcript.len(),
                items == item_views(self.transcript@),
                last_tool(items, wanted@, items.len() as int) == last_tool(
                    items,
                    wanted@,
                    end as int,
                ),
            decreases end,
        {
            assert(items[end - 1] == self.transcript@[end - 1]@);
            match &self.transcript[end - 1] {
                TranscriptItem::Tool { id, .. } => {
                    if text::same(id, wanted) {
                        return Some(end - 1);
                    }
                },
                _ => {},
            }
            end -= 1;
        }
        None
    }

    /// Gives a tool call another state.
    fn set_state(&mut self, i: usize, state: ToolState)
        requires
            i < old(self).transcript@.len(),
            old(self)@.transcript[i as int] is Tool,
        ensures
            same_frame(*old(self), *final(self)),
            final(self)@ == restated(old(self)@, i as int, state@),
            final(self).textarea == old(self).textarea,
    {
        assert(self@.transcript[i as int] == self.transcript@[i as int]@);
        let parts: Option<(String, String, String)> = match &self.transcript[i] {
            TranscriptItem::Tool { id, name, summary, .. } => Some(
                (id.clone(), name.clone(), summary.clone()),
            ),
            _ => None,
        };
        match parts {
            Some((id, name, summary)) => {
                set_item(
                    &mut self.transcript,
                    i,
                    TranscriptItem::Tool { id, name, summary, state },
                );
            },
            None => {},
        }
    }

    /// How a turn ended.
    fn turn_complete(&mut self, stop_reason: &StopReason)
        ensures
            same_frame(*old(self), *final(self)),
            final(self)@ == after_event(
                old(self)@,
                (AgentEvent::TurnComplete { stop_reason: *stop_reason }),
                0,
            ),
            final(self).textarea == old(self).textarea,
    {
        self.close_assistant();
        self.busy = false;
        self.status = String::new();
        assert(self@.status =~= Seq::<char>::empty());
        assert(self@ =~= AppView { busy: false, status: Seq::empty(), ..closed(old(self)@) });
        match stop_reason {
            StopReason::Complete => {},
            StopReason::Interrupted => {
                self.notice_only("Interrupted.", NoticeLevel::Warning);
            },
            StopReason::ToolLimitReached { limit } => {
                let mut s = "Stopped after ".to_owned();
                s.append(&text::number(*limit as u64));
                s.append(
                    " tool calls in one turn. That usually means a loop — check the last few steps, then say how to continue.",
                );
                self.notice_only(&s, NoticeLevel::Warning);
            },
            StopReason::Error(e) => {
                self.notice_only(e, NoticeLevel::Error);
            },
        }
        self.follow_tail();
    }

    /// Adds a notice, leaving the text area as it is.
    fn notice_only(&mut self, text: &str, level: NoticeLevel)
        ensures
            same_frame(*old(self), *final(self)),
            final(self)@ == noticed(old(self)@, text@, level),
            final(self).textarea == old(self).textarea,
    {
        push_item(
            &mut self.transcript,
            TranscriptItem::Notice { text: text.to_owned(), level },
        );
        self.follow_tail();
    }

    /// Whether an event can be folded in: usage that no counter holds cannot.
    pub fn takes(&self, event: &AgentEvent) -> (r: bool)
        ensures
            r == event_fits(self@, *event),
    {
        match event {
            AgentEvent::Usage(u) => self.usage.can_add(u) && u.prompt_tokens <= u64::MAX
                - u.completion_tokens,
            _ => true,
        }
    }

    /// Say what is wrong with a session from its start: rules that were passed
    /// over, and a transcript that is not written.
    pub fn announce(&mut self, invalid: &Vec<String>, unsaved: &Option<String>)
        ensures
            same_frame(*old(self), *final(self)),
            final(self)@ == announced(
                old(self)@,
                text::views(invalid@),
                text::opt_view(*unsaved),
            ),
            old(self).wf() ==> final(self).wf(),
    {
        if invalid.len() > 0 {
            let mut t = "Ignoring malformed permission rules: ".to_owned();
            t.append(&text::join(invalid, ", "));
            self.notice(&t, NoticeLevel::Warning);
        }
        if let Some(e) = unsaved {
            let mut t = "This session will not be saved: ".to_owned();
            t.append(e);
            self.notice(&t, NoticeLevel::Warning);
        }
    }

    /// Fold one agent event into the view.
    pub fn apply(&mut self, event: AgentEvent, now: u64)
        requires
            event_fits(old(self)@, event),
        ensures
            same_frame(*old(self), *final(self)),
            final(self)@ == after_event(old(self)@, event, now),
            old(self).wf() ==> final(self).wf(),
    {
        match event {
            AgentEvent::Text(chunk) => self.append_assistant(&chunk),
            AgentEvent::Reasoning(chunk) => self.append_reasoning(&chunk),
            AgentEvent::ToolStarted { id, name, summary } => {
                self.close_assistant();
                push_item(
                    &mut self.transcript,
                    TranscriptItem::Tool {
                        id,
                        name,
                        summary,
                        state: ToolState::Running { started: now },
                    },
                );
                self.follow_tail();
            },
            AgentEvent::ToolFinished { id, outcome_summary, display, is_error, duration, .. } => {
                match self.find_tool(&id) {
                    Some(i) => {
                        self.set_state(
                            i,
                            ToolState::Finished {
                                summary: outcome_summary,
                                display,
                                is_error,
                                duration,
                            },
                        );
                    },
                    None => {},
                }
                self.follow_tail();
            },
            AgentEvent::ToolDenied { id, name, reason } => {
                match self.find_tool(&id) {
                    Some(i) => {
                        self.set_state(i, ToolState::Denied { reason });
                    },
                    None => {
                        // The call was refused before it was ever announced.
                        self.close_assistant();
                        let summary = name.clone();
                        push_item(
                            &mut self.transcript,
                            TranscriptItem::Tool {
                                id,
                                name,
                                summary,
                                state: ToolState::Denied { reason },
                            },
                        );
                    },
                }
                self.follow_tail();
            },
            AgentEvent::Usage(usage) => {
                self.usage.add(&usage);
                // The provider's own prompt count is ground truth for how full
                // the window is.
                if usage.prompt_tokens > 0 {
                    self.context_tokens = usage.prompt_tokens + usage.completion_tokens;
                }
            },
            AgentEvent::Compacted { dropped, .. } => {
                let mut s = "Compacted the conversation: ".to_owned();
                s.append(&text::number(dropped as u64));
                s.append(" earlier messages replaced by a summary.");
                self.notice_only(&s, NoticeLevel::Info);
            },
            AgentEvent::SubagentProgress { agent, text } => {
                let mut s = agent;
                s.append(": ");
                s.append(&text);
                self.status = s;
            },
            AgentEvent::Warning(text) => {
                self.notice_only(&text, NoticeLevel::Warning);
            },
            AgentEvent::TurnComplete { stop_reason } => {
                self.turn_complete(&stop_reason);
            },
        }
    }

    /// Scroll up, which also pins the view so streaming output stops chasing it.
    pub fn scroll_up(&mut self, lines: u16)
        ensures
            same_frame(*old(self), *final(self)),
            final(self)@ == scrolled_up(old(self)@, lines),
            final(self).textarea == old(self).textarea,
    {
        self.scroll_locked = true;
        self.scroll = if self.scroll > lines {
            self.scroll - lines
        } else {
            0
        };
    }

    pub fn scroll_down(&mut self, lines: u16)
        ensures
            same_frame(*old(self), *final(self)),
            final(self)@ == scrolled_down(old(self)@, lines),
            final(self).textarea == old(self).textarea,
    {
        let max: u16 = self.max_scroll();
        let wanted: u16 = if lines > u16::MAX - self.scroll {
            u16::MAX
        } else {
            self.scroll + lines
        };
        self.scroll = if wanted < max {
            wanted
        } else {
            max
        };
        if self.scroll >= max {
            self.scroll_locked = false;
        }
    }

    pub fn scroll_to_bottom(&mut self)
        ensures
            same_frame(*old(self), *final(self)),
            final(self)@ == at_bottom(old(self)@),
            final(self).textarea == old(self).textarea,
    {
        self.scroll_locked = false;
        self.scroll = u16::MAX;
    }

    pub fn max_scroll(&self) -> (r: u16)
        ensures
            r == furthest(self@),
    {
        if self.content_height > self.viewport_height {
            self.content_height - self.viewport_height
        } else {
            0
        }
    }

    /// Clamp the pending scroll once the rendered height is known.
    pub fn clamp_scroll(&mut self)
        ensures
            same_frame(*old(self), *final(self)),
            final(self)@ == (AppView {
                scroll: if old(self)@.scroll > furthest(old(self)@) {
                    furthest(old(self)@)
                } else {
                    old(self)@.scroll
                },
                ..old(self)@
            }),
            final(self).textarea == old(self).textarea,
    {
        let max: u16 = self.max_scroll();
        if self.scroll > max {
            self.scroll = max;
        }
    }

    /// Copies what the screen mirrors out of an agent that is idle.
    pub fn sync(&mut self, agent: &Agent, mode: PermissionMode)
        requires
            measurable(agent.session@),
        ensures
            final(self)@ == (AppView {
                model: agent.session@.model,
                mode,
                context_tokens: if old(self)@.context_tokens == 0 {
                    context_size(agent.session@) as u64
                } else {
                    old(self)@.context_tokens
                },
                ..old(self)@
            }),
            final(self).session_id@ == agent.session@.id,
            todo_views(final(self).todos@) == todo_views(agent.tool_context.todos@),
            final(self).textarea == old(self).textarea,
            final(self).workspace == old(self).workspace,
            final(self).home == old(self).home,
            final(self).theme == old(self).theme,
            final(self).branch == old(self).branch,
            final(self).spinner_frame == old(self).spinner_frame,
            final(self).tool_count == old(self).tool_count,
            final(self).mcp_count == old(self).mcp_count,
            final(self).subagent_count == old(self).subagent_count,
            final(self).custom == old(self).custom,
    {
        self.model = agent.session.model.clone();
        self.mode = mode;
        self.session_id = agent.session.id.clone();
        if self.context_tokens == 0 {
            self.context_tokens = agent.session.estimated_context_tokens();
        }
        self.todos = copy_todos(&agent.tool_context.todos);
    }

    /// Cycle permission mode, as Shift+Tab does.
    pub fn cycle_mode(&mut self) -> (r: PermissionMode)
        ensures
            same_frame(*old(self), *final(self)),
            r == next_mode(old(self)@.mode),
            final(self)@ == (AppView { mode: r, ..old(self)@ }),
            final(self).textarea == old(self).textarea,
    {
        self.mode = match self.mode {
            PermissionMode::Default => PermissionMode::AcceptEdits,
            PermissionMode::AcceptEdits => PermissionMode::Plan,
            PermissionMode::Plan => PermissionMode::Default,
            PermissionMode::BypassPermissions => PermissionMode::Default,
        };
        self.mode
    }
}

/// The screen before anything happens.
pub open spec fn fresh_app(model: Seq<char>, mode: PermissionMode) -> AppView {
    AppView {
        transcript: Seq::empty(),
        area: AreaView {
            lines: seq![Seq::empty()],
            row: 0,
            col: 0,
            history: Seq::empty(),
            index: None,
            draft: None,
        },
        overlay: OverlayView::Closed,
        scroll: 0,
        scroll_locked: false,
        content_height: 0,
        viewport_height: 0,
        busy: false,
        status: Seq::empty(),
        usage: no_usage(),
        model,
        mode,
        context_tokens: 0,
        should_quit: false,
        quit_armed_at: None,
        custom: Seq::empty(),
    }
}

// ---------------------------------------------------------------------------
// Resuming
// ---------------------------------------------------------------------------

/// What the summary of a compaction begins with.
pub const SUMMARY_MARK: &'static str = "<summary-of-earlier-conversation>";

/// After one message of a resumed session.
pub open spec fn replayed_message(a: AppView, m: MessageView) -> AppView {
    match m.content {
        None => a,
        Some(c) => if text::trimmed(c).len() == 0 {
            a
        } else if has_role(m, Role::User) {
            if text::starts_with(c, SUMMARY_MARK@) {
                noticed(a, "Resumed after an earlier compaction."@, NoticeLevel::Info)
            } else {
                with_item(a, ItemView::User(c))
            }
        } else if has_role(m, Role::Assistant) {
            with_item(a, ItemView::Assistant(c, true))
        } else {
            a
        },
    }
}

/// After the messages of a resumed session.
pub open spec fn replayed_messages(a: AppView, messages: Seq<MessageView>) -> AppView
    decreases messages.len(),
{
    if messages.len() == 0 {
        a
    } else {
        replayed_message(replayed_messages(a, messages.drop_last()), messages.last())
    }
}

/// The prompts of a session, without the summaries of compactions.
pub open spec fn prompts_of(messages: Seq<MessageView>) -> Seq<Seq<char>>
    decreases messages.len(),
{
    if messages.len() == 0 {
        Seq::empty()
    } else {
        let before = prompts_of(messages.drop_last());
        let m = messages.last();
        match m.content {
            Some(c) => if has_role(m, Role::User) && !text::starts_with(c, SUMMARY_MARK@) {
                before.push(c)
            } else {
                before
            },
            None => before,
        }
    }
}

/// What is said of a resumed session.
pub open spec fn resume_notice(id: Seq<char>, count: nat) -> Seq<char> {
    "Resumed session "@ + crate::session::short_id(id) + " ("@ + text::decimal(count)
        + " messages)."@
}

/// After a session was resumed.
pub open spec fn resumed(a: AppView, id: Seq<char>, messages: Seq<MessageView>) -> AppView {
    let b = replayed_messages(a, messages);
    let c = AppView {
        area: AreaView { history: input::seeded(prompts_of(messages)), ..b.area },
        ..b
    };
    at_bottom(
        if c.transcript.len() > 0 {
            noticed(c, resume_notice(id, messages.len()), NoticeLevel::Info)
        } else {
            c
        },
    )
}

proof fn lemma_replay_keeps_area(a: AppView, messages: Seq<MessageView>)
    ensures
        replayed_messages(a, messages).area == a.area,
    decreases messages.len(),
{
    if messages.len() > 0 {
        lemma_replay_keeps_area(a, messages.drop_last());
    }
}

/// Rebuild the transcript from a resumed session's messages.
pub fn replay_session(app: &mut App, session_id: &str, messages: &Vec<Message>)
    requires
        old(app).wf(),
        replayed_messages(
            old(app)@,
            crate::api::types::message_views(messages@),
        ).transcript.len() > 0 ==> text::byte_count(crate::session::short_id(session_id@)) == 8,
    ensures
        old(app)@.area.index is None ==> final(app).wf(),
        same_frame(*old(app), *final(app)),
        final(app)@ == resumed(
            old(app)@,
            session_id@,
            crate::api::types::message_views(messages@),
        ),
{
    let ghost start = app@;
    let ghost all = crate::api::types::message_views(messages@);
    let mut prompts: Vec<String> = Vec::new();
    let mut i: usize = 0;
    assert(text::views(prompts@) =~= Seq::<Seq<char>>::empty());
    assert(all.take(0) =~= Seq::<MessageView>::empty());
    while i < messages.len()
        invariant
            i <= messages.len(),
            all == crate::api::types::message_views(messages@),
            start == old(app)@,
            app.textarea == old(app).textarea,
            same_frame(*old(app), *app),
            app@ == replayed_messages(start, all.take(i as int)),
            text::views(prompts@) == prompts_of(all.take(i as int)),
        decreases messages.len() - i,
    {
        assert(all.take(i + 1).drop_last() =~= all.take(i as int));
        assert(all[i as int] == messages@[i as int]@);
        let m = &messages[i];
        match &m.content {
            None => {},
            Some(c) => {
                let user = m.is_role(Role::User);
                let marker = text::begins(c, SUMMARY_MARK);
                if user && !marker {
                    let ghost before = text::views(prompts@);
                    prompts.push(c.clone());
                    assert(text::views(prompts@) =~= before.push(c@));
                }
                if !text::trim(c).as_str().is_empty() {
                    if user {
                        if marker {
                            app.notice_only(
                                "Resumed after an earlier compaction.",
                                NoticeLevel::Info,
                            );
                        } else {
                            push_item(&mut app.transcript, TranscriptItem::User(c.clone()));
                        }
                    } else if m.is_role(Role::Assistant) {
                        push_item(
                            &mut app.transcript,
                            TranscriptItem::Assistant { text: c.clone(), done: true },
                        );
                    }
                }
            },
        }
        i += 1;
    }
    assert(all.take(all.len() as int) =~= all);
    app.textarea.load_history(prompts);
    assert(app@.transcript.len() == app.transcript@.len());
    if app.transcript.len() > 0 {
        let mut s = "Resumed session ".to_owned();
        s.append(&text::fit(session_id, 8));
        s.append(" (");
        s.append(&text::number(messages.len() as u64));
        s.append(" messages).");
        app.notice_only(&s, NoticeLevel::Info);
    }
    app.scroll_to_bottom();
    proof {
        lemma_replay_keeps_area(start, all);
    }
}

// ---------------------------------------------------------------------------
// Laws
// ---------------------------------------------------------------------------

/// Reading scrollback is not interrupted: while the view is pinned, no event
/// moves it.
pub proof fn law_pinned_views_stay(a: AppView, event: AgentEvent, now: u64)
    requires
        a.scroll_locked,
    ensures
        after_event(a, event, now).scroll == a.scroll,
        after_event(a, event, now).scroll_locked,
{
}

/// While the view is not pinned, output that appears is in view: whatever an
/// event changes in the transcript, the view is at its end.
pub proof fn law_new_output_is_followed(a: AppView, event: AgentEvent, now: u64)
    requires
        !a.scroll_locked,
    ensures
        after_event(a, event, now).transcript != a.transcript ==> after_event(
            a,
            event,
            now,
        ).scroll == u16::MAX,
        !after_event(a, event, now).scroll_locked,
{
}

/// Scrolling up pins the view, and returning to the bottom releases it.
pub proof fn law_the_bottom_releases(a: AppView, up: u16)
    ensures
        scrolled_up(a, up).scroll_locked,
        !scrolled_down(scrolled_up(a, up), u16::MAX).scroll_locked,
        !at_bottom(a).scroll_locked,
{
}

/// No number of keystrokes of the mode cycle turns every safety check off.
pub proof fn law_cycling_never_bypasses(mode: PermissionMode)
    ensures
        next_mode(mode) != PermissionMode::BypassPermissions,
{
}

/// Chunks of a stream become one message.
pub proof fn law_chunks_become_one_message(a: AppView, x: Seq<char>, y: Seq<char>)
    ensures
        streamed(streamed(a, x), y) == streamed(a, x + y),
{
    let s = streamed(a, x);
    let n = s.transcript.len();
    assert(s.transcript.last() is Assistant);
    if a.transcript.len() > 0 && (a.transcript.last() matches ItemView::Assistant(_, done)
        && !done) {
        let old = a.transcript.last()->Assistant_0;
        assert(old + x + y =~= old + (x + y));
        assert(streamed(s, y).transcript =~= streamed(a, x + y).transcript);
    } else {
        assert(streamed(s, y).transcript =~= streamed(a, x + y).transcript);
    }
    assert(streamed(s, y) =~= streamed(a, x + y));
}

/// The end of a turn is always shown as one: the screen is not busy, and an
/// ending that is no answer leaves a notice.
pub proof fn law_turns_end_visibly(a: AppView, reason: StopReason, now: u64)
    ensures
        ({
            let b = after_event(a, (AgentEvent::TurnComplete { stop_reason: reason }), now);
            &&& !b.busy
            &&& !(reason is Complete) ==> b.transcript.len() > 0 && b.transcript.last() is Notice
        }),
{
}

} // verus!
