//! What a submitted line does: a slash command, or a prompt for the model.
use vstd::prelude::*;
use vstd::string::StringExecFns;
use crate::api::types::{no_usage, Usage};
use crate::commands::{self, dispatched, ActionView, CommandAction, INIT_PROMPT};
use crate::config::{
    self, mode_description, mode_name, model_table, model_view, ModelInfo, PermissionMode,
};
use crate::session::{short_id, summary_views, SessionSummary, SummaryView};
use crate::text;
use crate::tui::keys::{mode_line, mode_notice};
use crate::tui::{
    at_bottom, entry_views, noticed, push_item, same_frame, with_item, App, AppView, EntryView,
    ItemView, NoticeLevel, Overlay, OverlayView, PickerEntry, PickerKind, TranscriptItem,
};

verus! {

/// What the caller is to do about a submitted line.
#[derive(Debug)]
pub enum Submitted {
    Nothing,
    /// Show a report that needs the agent.
    Report(String),
    /// Drop the conversation, keeping the system prompt.
    Clear,
    /// Put a permission mode in force.
    StoreMode(PermissionMode),
    /// Offer the stored sessions.
    Sessions,
    /// Compact the conversation.
    Compact,
    /// Start a turn with a prompt.
    StartTurn(String),
}

/// What the caller is to do about a submitted line, as text.
pub enum SubmittedView {
    Nothing,
    Report(Seq<char>),
    Clear,
    StoreMode(PermissionMode),
    Sessions,
    Compact,
    StartTurn(Seq<char>),
}

impl View for Submitted {
    type V = SubmittedView;

    open spec fn view(&self) -> SubmittedView {
        match *self {
            Submitted::Nothing => SubmittedView::Nothing,
            Submitted::Report(n) => SubmittedView::Report(n@),
            Submitted::Clear => SubmittedView::Clear,
            Submitted::StoreMode(m) => SubmittedView::StoreMode(m),
            Submitted::Sessions => SubmittedView::Sessions,
            Submitted::Compact => SubmittedView::Compact,
            Submitted::StartTurn(p) => SubmittedView::StartTurn(p@),
        }
    }
}

// ---------------------------------------------------------------------------
// Pickers
// ---------------------------------------------------------------------------

/// How a model is offered.
pub open spec fn model_choice(m: (Seq<char>, u64, bool)) -> EntryView {
    EntryView {
        label: m.0,
        detail: text::decimal((m.1 / 1000) as nat) + "k context"@ + (if m.2 {
            ", reasoning"@
        } else {
            ""@
        }),
        value: m.0,
    }
}

/// The first entry with a value, at or after `from`.
pub open spec fn entry_from(list: Seq<EntryView>, value: Seq<char>, from: int) -> Option<int>
    decreases list.len() - from,
{
    if from < 0 || from >= list.len() {
        None
    } else if list[from].value == value {
        Some(from)
    } else {
        entry_from(list, value, from + 1)
    }
}

pub open spec fn or_first(i: Option<int>) -> usize {
    match i {
        Some(n) => n as usize,
        None => 0,
    }
}

/// The models on offer. One that was set by hand may not be known; it stays
/// selectable.
pub open spec fn model_choices(current: Seq<char>) -> Seq<EntryView> {
    let known = model_table().map_values(|m: (Seq<char>, u64, bool)| model_choice(m));
    if entry_from(known, current, 0) is Some {
        known
    } else {
        seq![EntryView { label: current, detail: "configured"@, value: current }] + known
    }
}

/// The picker of models.
pub open spec fn model_picker(current: Seq<char>) -> OverlayView {
    OverlayView::Picker {
        kind: PickerKind::Model,
        title: "Model"@,
        entries: model_choices(current),
        selected: or_first(entry_from(model_choices(current), current, 0)),
    }
}

/// How a mode is offered.
pub open spec fn mode_choice(m: PermissionMode) -> EntryView {
    EntryView { label: mode_name(m), detail: mode_description(m), value: mode_name(m) }
}

/// The modes on offer.
pub open spec fn mode_choices() -> Seq<EntryView> {
    seq![
        mode_choice(PermissionMode::Default),
        mode_choice(PermissionMode::AcceptEdits),
        mode_choice(PermissionMode::Plan),
        mode_choice(PermissionMode::BypassPermissions),
    ]
}

/// The picker of modes.
pub open spec fn mode_picker(current: PermissionMode) -> OverlayView {
    OverlayView::Picker {
        kind: PickerKind::Mode,
        title: "Permission mode"@,
        entries: mode_choices(),
        selected: or_first(entry_from(mode_choices(), mode_name(current), 0)),
    }
}

/// How a stored session is offered.
pub open spec fn session_choice(s: SummaryView) -> EntryView {
    EntryView {
        label: match s.title {
            Some(t) => t,
            None => "session "@ + short_id(s.id),
        },
        detail: text::decimal(s.message_count) + " messages · "@ + s.model,
        value: s.id,
    }
}

/// The most sessions that are offered.
pub const SESSION_CHOICES: usize = 30;

/// The sessions on offer.
pub open spec fn session_choices(list: Seq<SummaryView>) -> Seq<EntryView> {
    let shown = if list.len() > SESSION_CHOICES {
        list.take(SESSION_CHOICES as int)
    } else {
        list
    };
    shown.map_values(|s: SummaryView| session_choice(s))
}

fn push_entry(list: &mut Vec<PickerEntry>, e: PickerEntry)
    ensures
        entry_views(final(list)@) == entry_views(old(list)@).push(e@),
{
    let ghost before = entry_views(list@);
    let ghost ev = e@;
    list.push(e);
    assert(entry_views(list@) =~= before.push(ev));
}

/// The first entry with a value.
fn find_entry(list: &Vec<PickerEntry>, value: &str) -> (r: Option<usize>)
    ensures
        match r {
            Some(i) => i < list@.len() && entry_from(entry_views(list@), value@, 0) == Some(
                i as int,
            ),
            None => entry_from(entry_views(list@), value@, 0) is None,
        },
{
    let ghost all = entry_views(list@);
    let mut i: usize = 0;
    while i < list.len()
        invariant
            i <= list.len(),
            all == entry_views(list@),
            entry_from(all, value@, 0) == entry_from(all, value@, i as int),
        decreases list.len() - i,
    {
        assert(all[i as int] == list@[i as int]@);
        if text::same(&list[i].value, value) {
            return Some(i);
        }
        i += 1;
    }
    None
}

/// The models on offer.
fn offer_models(current: &str) -> (r: Vec<PickerEntry>)
    ensures
        entry_views(r@) == model_choices(current@),
{
    let list = config::models();
    let ghost table = model_table();
    let ghost known = table.map_values(|m: (Seq<char>, u64, bool)| model_choice(m));
    let mut out: Vec<PickerEntry> = Vec::new();
    let mut i: usize = 0;
    assert(entry_views(out@) =~= known.take(0));
    while i < list.len()
        invariant
            i <= list.len(),
            table == model_table(),
            table == list@.map_values(|m: ModelInfo| model_view(m)),
            known == table.map_values(|m: (Seq<char>, u64, bool)| model_choice(m)),
            entry_views(out@) == known.take(i as int),
        decreases list.len() - i,
    {
        assert(table[i as int] == model_view(list@[i as int]));
        let mut detail = text::number(list[i].context_window / 1000);
        detail.append("k context");
        if list[i].reasoning {
            detail.append(", reasoning");
        } else {
            detail.append("");
        }
        let ghost before = entry_views(out@);
        push_entry(
            &mut out,
            PickerEntry {
                label: list[i].id.to_owned(),
                detail,
                value: list[i].id.to_owned(),
            },
        );
        assert(known[i as int] == model_choice(table[i as int]));
        i += 1;
        assert(entry_views(out@) =~= known.take(i as int));
    }
    assert(known.take(known.len() as int) =~= known);
    if find_entry(&out, current).is_none() {
        let ghost before = entry_views(out@);
        let e = PickerEntry {
            label: current.to_owned(),
            detail: "configured".to_owned(),
            value: current.to_owned(),
        };
        let ghost ev = e@;
        out.insert(0, e);
        assert(entry_views(out@) =~= seq![ev] + before);
    }
    out
}

fn offer_mode(list: &mut Vec<PickerEntry>, mode: PermissionMode)
    ensures
        entry_views(final(list)@) == entry_views(old(list)@).push(mode_choice(mode)),
{
    push_entry(
        list,
        PickerEntry {
            label: mode.as_str().to_owned(),
            detail: mode.describe().to_owned(),
            value: mode.as_str().to_owned(),
        },
    );
}

// ---------------------------------------------------------------------------
// Lines
// ---------------------------------------------------------------------------

/// With a turn under way.
pub open spec fn under_way(a: AppView) -> AppView {
    at_bottom(AppView { busy: true, status: Seq::empty(), ..a })
}

/// After a report was shown.
pub open spec fn reported(a: AppView, line: Seq<char>, body: Seq<char>) -> AppView {
    noticed(with_item(a, ItemView::User(line)), body, NoticeLevel::Info)
}

/// After a line was submitted.
pub open spec fn after_submit(a: AppView, line: Seq<char>) -> (AppView, SubmittedView) {
    match dispatched(line, a.custom) {
        ActionView::Show(body) => (reported(a, line, body), SubmittedView::Nothing),
        ActionView::Report(name) => (a, SubmittedView::Report(name)),
        ActionView::Quit => (AppView { should_quit: true, ..a }, SubmittedView::Nothing),
        ActionView::Clear => (
            noticed(
                AppView {
                    transcript: Seq::empty(),
                    usage: no_usage(),
                    context_tokens: 0,
                    ..a
                },
                "Started a fresh conversation."@,
                NoticeLevel::Success,
            ),
            SubmittedView::Clear,
        ),
        ActionView::SetModel(model) => (
            noticed(AppView { model, ..a }, "Model: "@ + model, NoticeLevel::Success),
            SubmittedView::Nothing,
        ),
        ActionView::SetMode(mode) => (
            noticed(AppView { mode, ..a }, mode_notice(mode), NoticeLevel::Success),
            SubmittedView::StoreMode(mode),
        ),
        ActionView::PickModel => (
            AppView { overlay: model_picker(a.model), ..a },
            SubmittedView::Nothing,
        ),
        ActionView::PickMode => (
            AppView { overlay: mode_picker(a.mode), ..a },
            SubmittedView::Nothing,
        ),
        ActionView::PickSession => (a, SubmittedView::Sessions),
        ActionView::Compact => (
            AppView {
                busy: true,
                status: "compacting…"@,
                ..with_item(a, ItemView::User(line))
            },
            SubmittedView::Compact,
        ),
        ActionView::InitProject => (
            under_way(with_item(a, ItemView::User(line))),
            SubmittedView::StartTurn(INIT_PROMPT@),
        ),
        ActionView::Prompt(prompt) => (
            under_way(with_item(a, ItemView::User(line))),
            SubmittedView::StartTurn(prompt),
        ),
        ActionView::Unknown(name) => (
            noticed(
                a,
                "Unknown command `/"@ + name + "`. Type /help to see what is available."@,
                NoticeLevel::Error,
            ),
            SubmittedView::Nothing,
        ),
    }
}

/// After the stored sessions were offered.
pub open spec fn after_sessions(a: AppView, list: Seq<SummaryView>) -> AppView {
    if list.len() == 0 {
        noticed(a, "No earlier sessions in this project."@, NoticeLevel::Info)
    } else {
        AppView {
            overlay: OverlayView::Picker {
                kind: PickerKind::Session,
                title: "Sessions"@,
                entries: session_choices(list),
                selected: 0,
            },
            ..a
        }
    }
}

impl App {
    /// Shows what was asked for.
    pub fn show_report(&mut self, line: &str, body: &str)
        ensures
            same_frame(*old(self), *final(self)),
            final(self)@ == reported(old(self)@, line@, body@),
            old(self).wf() ==> final(self).wf(),
    {
        push_item(&mut self.transcript, TranscriptItem::User(line.to_owned()));
        self.notice(body, NoticeLevel::Info);
    }

    fn pick_model(&mut self)
        ensures
            same_frame(*old(self), *final(self)),
            final(self)@ == (AppView {
                overlay: model_picker(old(self)@.model),
                ..old(self)@
            }),
            final(self).textarea == old(self).textarea,
    {
        let entries = offer_models(&self.model);
        let selected: usize = match find_entry(&entries, &self.model) {
            Some(i) => i,
            None => 0,
        };
        self.overlay = Overlay::Picker {
            kind: PickerKind::Model,
            title: "Model".to_owned(),
            entries,
            selected,
        };
    }

    fn pick_mode(&mut self)
        ensures
            same_frame(*old(self), *final(self)),
            final(self)@ == (AppView { overlay: mode_picker(old(self)@.mode), ..old(self)@ }),
            final(self).textarea == old(self).textarea,
    {
        let mut entries: Vec<PickerEntry> = Vec::new();
        offer_mode(&mut entries, PermissionMode::Default);
        offer_mode(&mut entries, PermissionMode::AcceptEdits);
        offer_mode(&mut entries, PermissionMode::Plan);
        offer_mode(&mut entries, PermissionMode::BypassPermissions);
        assert(entry_views(entries@) =~= mode_choices());
        let selected: usize = match find_entry(&entries, self.mode.as_str()) {
            Some(i) => i,
            None => 0,
        };
        self.overlay = Overlay::Picker {
            kind: PickerKind::Mode,
            title: "Permission mode".to_owned(),
            entries,
            selected,
        };
    }

    /// With a turn under way.
    fn begin(&mut self)
        ensures
            same_frame(*old(self), *final(self)),
            final(self)@ == under_way(old(self)@),
            final(self).textarea == old(self).textarea,
    {
        self.busy = true;
        self.status = String::new();
        assert(self@.status =~= Seq::<char>::empty());
        self.scroll_to_bottom();
    }

    /// A line was submitted.
    pub fn submit(&mut self, line: &str) -> (r: Submitted)
        requires
            old(self).wf(),
        ensures
            final(self).wf(),
            same_frame(*old(self), *final(self)),
            (final(self)@, r@) == after_submit(old(self)@, line@),
    {
        match commands::dispatch(line, &self.custom) {
            CommandAction::Show(body) => {
                self.show_report(line, &body);
                Submitted::Nothing
            },
            CommandAction::Report(name) => Submitted::Report(name),
            CommandAction::Quit => {
                self.should_quit = true;
                Submitted::Nothing
            },
            CommandAction::Clear => {
                self.transcript = Vec::new();
                assert(self@.transcript =~= Seq::<ItemView>::empty());
                self.usage = Usage::default();
                self.context_tokens = 0;
                self.notice("Started a fresh conversation.", NoticeLevel::Success);
                Submitted::Clear
            },
            CommandAction::SetModel(model) => {
                let mut s = "Model: ".to_owned();
                s.append(&model);
                self.model = model;
                self.notice(&s, NoticeLevel::Success);
                Submitted::Nothing
            },
            CommandAction::SetMode(mode) => {
                self.mode = mode;
                self.notice(&mode_line(mode), NoticeLevel::Success);
                Submitted::StoreMode(mode)
            },
            CommandAction::PickModel => {
                self.pick_model();
                Submitted::Nothing
            },
            CommandAction::PickMode => {
                self.pick_mode();
                Submitted::Nothing
            },
            CommandAction::PickSession => Submitted::Sessions,
            CommandAction::Compact => {
                push_item(&mut self.transcript, TranscriptItem::User(line.to_owned()));
                self.busy = true;
                self.status = "compacting…".to_owned();
                Submitted::Compact
            },
            CommandAction::InitProject => {
                push_item(&mut self.transcript, TranscriptItem::User(line.to_owned()));
                self.begin();
                Submitted::StartTurn(INIT_PROMPT.to_owned())
            },
            CommandAction::Prompt(prompt) => {
                push_item(&mut self.transcript, TranscriptItem::User(line.to_owned()));
                self.begin();
                Submitted::StartTurn(prompt)
            },
            CommandAction::Unknown(name) => {
                let mut s = "Unknown command `/".to_owned();
                s.append(&name);
                s.append("`. Type /help to see what is available.");
                self.notice(&s, NoticeLevel::Error);
                Submitted::Nothing
            },
        }
    }

    /// Offers the stored sessions.
    pub fn pick_session(&mut self, list: &Vec<SessionSummary>)
        requires
            old(self).wf(),
            forall|i: int|
                0 <= i < list@.len() && i < SESSION_CHOICES ==> (#[trigger] list@[i]).title is Some
                    || text::byte_count(short_id(list@[i].id@)) == 8 || short_id(list@[i].id@)
                    == list@[i].id@,
        ensures
            final(self).wf(),
            same_frame(*old(self), *final(self)),
            final(self)@ == after_sessions(old(self)@, summary_views(list@)),
    {
        let ghost all = summary_views(list@);
        assert(all.len() == list@.len());
        if list.len() == 0 {
            self.notice("No earlier sessions in this project.", NoticeLevel::Info);
            return;
        }
        let n: usize = if list.len() > SESSION_CHOICES {
            SESSION_CHOICES
        } else {
            list.len()
        };
        let ghost choices = session_choices(all);
        let mut entries: Vec<PickerEntry> = Vec::new();
        let mut i: usize = 0;
        assert(entry_views(entries@) =~= choices.take(0));
        while i < n
            invariant
                i <= n,
                n <= list.len(),
                n == choices.len(),
                all == summary_views(list@),
                choices == session_choices(all),
                forall|k: int|
                    0 <= k < n ==> (#[trigger] list@[k]).title is Some
                        || text::byte_count(short_id(list@[k].id@)) == 8 || short_id(
                        list@[k].id@,
                    ) == list@[k].id@,
                entry_views(entries@) == choices.take(i as int),
            decreases n - i,
        {
            assert(all[i as int] == list@[i as int]@);
            let s = &list[i];
            let mut detail = text::number(s.message_count as u64);
            detail.append(" messages · ");
            detail.append(&s.model);
            push_entry(
                &mut entries,
                PickerEntry { label: s.label(), detail, value: s.id.clone() },
            );
            assert(choices[i as int] == session_choice(all[i as int]));
            i += 1;
            assert(entry_views(entries@) =~= choices.take(i as int));
        }
        assert(choices.take(choices.len() as int) =~= choices);
        self.overlay = Overlay::Picker {
            kind: PickerKind::Session,
            title: "Sessions".to_owned(),
            entries,
            selected: 0,
        };
    }
}

/// What is said of a report while the agent is busy.
pub fn busy_report(name: &str) -> (r: String)
    ensures
        r@ == "/"@ + name@
            + " needs the agent, which is busy with the current turn. Try again once it finishes."@,
{
    let mut s = "/".to_owned();
    s.append(name);
    s.append(" needs the agent, which is busy with the current turn. Try again once it finishes.");
    s
}

/// No line is swallowed: whatever is submitted changes the screen or asks
/// something of the caller.
pub proof fn law_no_line_is_swallowed(a: AppView, line: Seq<char>)
    requires
        !a.should_quit,
        a.overlay is Closed,
    ensures
        ({
            let (b, effect) = after_submit(a, line);
            b != a || !(effect is Nothing)
        }),
{
    let (b, effect) = after_submit(a, line);
    match dispatched(line, a.custom) {
        ActionView::Show(body) => {
            assert(b.transcript.len() == a.transcript.len() + 2);
        },
        ActionView::SetModel(m) => {
            assert(b.transcript.len() == a.transcript.len() + 1);
        },
        ActionView::Unknown(n) => {
            assert(b.transcript.len() == a.transcript.len() + 1);
        },
        _ => {},
    }
}

} // verus!
