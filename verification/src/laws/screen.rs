//! What the screen shows.
use vstd::prelude::*;
use crate::agent::AgentEvent;
use crate::api::types::{role_name, MessageView, Role};
use crate::commands::{dispatched, displayed, ActionView, CommandView};
use crate::laws::text::{is_blank, law_blank_text_trims_to_nothing};
use crate::session::SummaryView;
use crate::text;
use crate::tools::{TodoItem, TodoStatus};
use crate::tui::input::cell_width;
use crate::tui::markdown::{coloured, line_text, LineView, Style, Theme};
use crate::tui::render::{
    banner_path, diff_rows, first_shown, input_rows, item_lines, item_rows, justified, left_to_do,
    line_rows, lines_rows, marked_lines, measured, outcome_text, palette_from, palette_rows,
    permission_rows, preview_rows, segment_rows, segments_rows, spans_width,
};
use crate::tui::submit::{
    after_submit, entry_from, model_choices, model_picker, session_choices, SubmittedView,
};
use crate::tui::{
    after_event, furthest, last_assistant, last_tool, prompts_of, replayed_message, scrolled_down,
    scrolled_up, AppView, ItemView, NoticeLevel, RequestView, StateView, SUMMARY_MARK,
};
use crate::util::{DiffKind, DiffLine, Duration};

verus! {

// ---------------------------------------------------------------------------
// Events
// ---------------------------------------------------------------------------

/// Words go on with the answer that is under way, or begin one.
pub proof fn law_words_are_shown(a: AppView, chunk: String, now: u64)
    ensures
        ({
            let b = after_event(a, AgentEvent::Text(chunk), now);
            let n = a.transcript.len() as int;
            &&& n > 0 && (a.transcript.last() matches ItemView::Assistant(_, done) && !done) ==> {
                &&& b.transcript.len() == n
                &&& b.transcript.last() == ItemView::Assistant(
                    a.transcript.last()->Assistant_0 + chunk@,
                    false,
                )
                &&& b.transcript.drop_last() == a.transcript.drop_last()
            }
            &&& !(n > 0 && (a.transcript.last() matches ItemView::Assistant(_, done) && !done)) ==> b.transcript
                == a.transcript.push(ItemView::Assistant(chunk@, false))
        }),
{
    let b = after_event(a, AgentEvent::Text(chunk), now);
    if a.transcript.len() > 0 && (a.transcript.last() matches ItemView::Assistant(_, done)
        && !done) {
        assert(b.transcript.drop_last() =~= a.transcript.drop_last());
    }
}

/// A tool that starts is shown last, as running since now.
pub proof fn law_started_tools_are_shown(
    a: AppView,
    id: String,
    name: String,
    summary: String,
    now: u64,
)
    ensures
        ({
            let b = after_event(a, (AgentEvent::ToolStarted { id, name, summary }), now);
            &&& b.transcript.len() == a.transcript.len() + 1
            &&& b.transcript.last() == (ItemView::Tool {
                id: id@,
                name: name@,
                summary: summary@,
                state: StateView::Running(now),
            })
            &&& forall|i: int|
                0 <= i < a.transcript.len() ==> (#[trigger] b.transcript[i] == a.transcript[i] || (
                a.transcript[i] matches ItemView::Assistant(t, _) && b.transcript[i]
                    == ItemView::Assistant(t, true)))
        }),
{
    lemma_last_assistant(a.transcript, a.transcript.len() as int);
}

proof fn lemma_last_assistant(items: Seq<ItemView>, end: int)
    requires
        0 <= end <= items.len(),
    ensures
        last_assistant(items, end) matches Some(i) ==> 0 <= i < end && items[i] is Assistant
            && forall|k: int| i < k < end ==> !((#[trigger] items[k]) is Assistant),
        last_assistant(items, end) is None ==> forall|k: int|
            0 <= k < end ==> !((#[trigger] items[k]) is Assistant),
    decreases end,
{
    if end > 0 && !(items[end - 1] is Assistant) {
        lemma_last_assistant(items, end - 1);
    }
}

/// Whether an entry is that of a call.
pub open spec fn is_call(item: ItemView, wanted: Seq<char>) -> bool {
    item matches ItemView::Tool { id, .. } && id == wanted
}

proof fn lemma_last_tool(items: Seq<ItemView>, wanted: Seq<char>, end: int, k: int)
    requires
        0 <= k < end <= items.len(),
        is_call(items[k], wanted),
        forall|i: int| k < i < end ==> !is_call(#[trigger] items[i], wanted),
    ensures
        last_tool(items, wanted, end) == Some(k),
    decreases end,
{
    if k < end - 1 {
        assert(!is_call(items[end - 1], wanted));
        lemma_last_tool(items, wanted, end - 1, k);
    }
}

/// A tool that ends or is refused keeps its place, and only its state changes.
pub proof fn law_tools_end_in_their_place(a: AppView, event: AgentEvent, k: int, now: u64)
    requires
        event is ToolFinished || event is ToolDenied,
        0 <= k < a.transcript.len(),
        ({
            let id = match event {
                AgentEvent::ToolFinished { id, .. } => id@,
                AgentEvent::ToolDenied { id, .. } => id@,
                _ => Seq::empty(),
            };
            &&& is_call(a.transcript[k], id)
            &&& forall|i: int| k < i < a.transcript.len() ==> !is_call(#[trigger] a.transcript[i], id)
        }),
    ensures
        ({
            let b = after_event(a, event, now);
            &&& b.transcript.len() == a.transcript.len()
            &&& forall|i: int|
                0 <= i < a.transcript.len() && i != k ==> #[trigger] b.transcript[i]
                    == a.transcript[i]
            &&& b.transcript[k] is Tool
            &&& b.transcript[k]->id == a.transcript[k]->id
            &&& b.transcript[k]->name == a.transcript[k]->name
            &&& b.transcript[k]->Tool_summary == a.transcript[k]->Tool_summary
            &&& event matches AgentEvent::ToolDenied { reason, .. } ==> b.transcript[k]->state
                == StateView::Denied(reason@)
            &&& event matches AgentEvent::ToolFinished {
                outcome_summary,
                display,
                is_error,
                duration,
                ..
            } ==> b.transcript[k]->state == (StateView::Finished {
                summary: text::opt_view(outcome_summary),
                display,
                is_error,
                duration,
            })
        }),
{
    let id = match event {
        AgentEvent::ToolFinished { id, .. } => id@,
        AgentEvent::ToolDenied { id, .. } => id@,
        _ => Seq::empty(),
    };
    lemma_last_tool(a.transcript, id, a.transcript.len() as int, k);
}

/// A warning is shown as one, last.
pub proof fn law_warnings_are_shown(a: AppView, words: String, now: u64)
    ensures
        after_event(a, AgentEvent::Warning(words), now).transcript == a.transcript.push(
            ItemView::Notice(words@, NoticeLevel::Warning),
        ),
{
}

/// What the provider counted is added up, and the last count says how full the
/// context is.
pub proof fn law_counts_are_shown(a: AppView, event: AgentEvent, now: u64)
    requires
        event is Usage,
        crate::tui::event_fits(a, event),
    ensures
        ({
            let b = after_event(a, event, now);
            let u = event->Usage_0;
            &&& b.usage.prompt_tokens == a.usage.prompt_tokens + u.prompt_tokens
            &&& b.usage.completion_tokens == a.usage.completion_tokens + u.completion_tokens
            &&& b.usage.total_tokens == a.usage.total_tokens + u.total_tokens
            &&& u.prompt_tokens > 0 ==> b.context_tokens == u.prompt_tokens + u.completion_tokens
            &&& u.prompt_tokens == 0 ==> b.context_tokens == a.context_tokens
            &&& b.transcript == a.transcript
        }),
{
}

/// Scrolling moves the view by the lines asked for, as far as there are lines.
pub proof fn law_scrolling_goes_by_lines(a: AppView, lines: u16)
    ensures
        a.scroll >= lines ==> scrolled_up(a, lines).scroll == a.scroll - lines,
        a.scroll < lines ==> scrolled_up(a, lines).scroll == 0,
        a.scroll + lines <= furthest(a) ==> scrolled_down(a, lines).scroll == a.scroll + lines,
        a.scroll + lines > furthest(a) ==> scrolled_down(a, lines).scroll == furthest(a),
        scrolled_up(a, lines).transcript == a.transcript,
        scrolled_down(a, lines).transcript == a.transcript,
{
}

/// The view can be scrolled as far as the text is longer than the box, whose
/// border takes two rows.
pub proof fn law_boxes_have_borders(a: AppView, rows: nat, height: u16)
    requires
        rows <= u16::MAX,
        height >= 2,
    ensures
        ({
            let b = measured(a, rows, height);
            &&& b.content_height == rows
            &&& b.viewport_height == height - 2
            &&& rows >= height - 2 ==> furthest(b) == rows - (height - 2)
            &&& rows < height - 2 ==> furthest(b) == 0
        }),
{
}

// ---------------------------------------------------------------------------
// Heights
// ---------------------------------------------------------------------------

/// A piece of text takes as many rows as are needed for its width, and at least
/// one.
pub proof fn law_rows_have_room(s: Seq<char>, width: nat)
    requires
        width > 0,
    ensures
        segment_rows(s, width) >= 1,
        cell_width(s) <= segment_rows(s, width) * width,
        cell_width(s) > 0 ==> (segment_rows(s, width) - 1) * width < cell_width(s),
{
    let w = cell_width(s) as int;
    let n = width as int;
    if w > 0 {
        let q = (w + n - 1) / n;
        assert(q * n <= w + n - 1 < q * n + n && q >= 1) by (nonlinear_arith)
            requires
                w > 0,
                n > 0,
                q == (w + n - 1) / n,
        ;
        assert((q - 1) * n == q * n - n) by (nonlinear_arith);
        assert(segment_rows(s, width) == q);
    }
}

/// The rows of lines add up, and so do those of the pieces of a line.
pub proof fn law_rows_add_up(
    lines: Seq<LineView>,
    line: LineView,
    pieces: Seq<Seq<char>>,
    piece: Seq<char>,
    width: nat,
)
    ensures
        lines_rows(lines.push(line), width) == lines_rows(lines, width) + line_rows(line, width),
        lines_rows(Seq::empty(), width) == 0,
        segments_rows(pieces.push(piece), width) == segments_rows(pieces, width) + segment_rows(
            piece,
            width,
        ),
        segments_rows(Seq::empty(), width) == 0,
{
    assert(lines.push(line).drop_last() =~= lines);
    assert(pieces.push(piece).drop_last() =~= pieces);
}

/// A line without breaks takes the rows of its text.
pub proof fn law_lines_take_the_rows_of_their_text(line: LineView, width: nat)
    requires
        width > 0,
        line_text(line).len() > 0,
        !line_text(line).contains('\n'),
    ensures
        line_rows(line, width) == segment_rows(line_text(line), width),
{
    let s = line_text(line);
    text::lemma_pieces_single(s, '\n');
    let none = Seq::<Seq<char>>::empty();
    assert(seq![s].drop_last() =~= none);
    assert(segments_rows(none, width) == 0);
}

// ---------------------------------------------------------------------------
// The transcript
// ---------------------------------------------------------------------------

/// Each line of a text is shown on its own, with the mark of the first or of the
/// rest before it.
pub proof fn law_lines_are_marked(
    lines: Seq<Seq<char>>,
    first: Seq<char>,
    rest: Seq<char>,
    mark: Style,
    style: Style,
    i: int,
)
    requires
        0 <= i < lines.len(),
    ensures
        marked_lines(lines, first, rest, mark, style).len() == lines.len(),
        i == 0 ==> marked_lines(lines, first, rest, mark, style)[i] == seq![
            (first, mark),
            (lines[i], style),
        ],
        i > 0 ==> marked_lines(lines, first, rest, mark, style)[i] == seq![
            (rest, mark),
            (lines[i], style),
        ],
{
}

/// The entries follow each other, an empty line between each two.
pub proof fn law_entries_are_set_apart(
    theme: Theme,
    items: Seq<ItemView>,
    item: ItemView,
    width: u16,
    now: u64,
)
    ensures
        ({
            let before = item_lines(theme, items, width, now);
            let r = item_lines(theme, items.push(item), width, now);
            &&& before.len() > 0 ==> r == before.push(Seq::empty()) + item_rows(
                theme,
                item,
                width,
                now,
            )
            &&& before.len() == 0 ==> r == item_rows(theme, item, width, now)
        }),
{
    assert(items.push(item).drop_last() =~= items);
    let before = item_lines(theme, items, width, now);
    if before.len() == 0 {
        assert(before + item_rows(theme, item, width, now) =~= item_rows(theme, item, width, now));
    }
}

/// The sign of a line of a diff.
pub open spec fn sign(kind: DiffKind) -> Seq<char> {
    match kind {
        DiffKind::Added => "+"@,
        DiffKind::Removed => "-"@,
        DiffKind::Context => " "@,
    }
}

/// The first fourteen lines of a change are shown, each with its sign, and it is
/// said how many more there are.
pub proof fn law_changes_are_shown(theme: Theme, diff: Seq<DiffLine>, i: int)
    requires
        0 <= i < diff.len(),
        i < 14,
    ensures
        diff.len() <= 14 ==> diff_rows(theme, diff).len() == diff.len(),
        diff.len() > 14 ==> diff_rows(theme, diff).len() == 15,
        diff_rows(theme, diff)[i].len() == 3,
        diff_rows(theme, diff)[i][1].0 == sign(diff[i].kind),
        diff_rows(theme, diff)[i][2].0 == diff[i].text@,
        diff.len() > 14 ==> diff_rows(theme, diff)[14] == seq![
            ("    … "@ + text::decimal((diff.len() - 14) as nat) + " more lines"@, coloured(theme.dim)),
        ],
{
}

/// A tool that has ended says what it has to say, and how long it took where that
/// was more than half a second.
pub proof fn law_outcomes_are_shown(said: Seq<char>, is_error: bool, duration: Duration)
    ensures
        duration.total_nanos() <= 500_000_000 ==> {
            &&& outcome_text(Some(said), is_error, duration) == said
            &&& outcome_text(None, true, duration) == "failed"@
            &&& outcome_text(None, false, duration) == "done"@
        },
        duration.total_nanos() >= 501_000_000 ==> outcome_text(Some(said), is_error, duration)
            == said + " · "@ + crate::util::duration_text(duration.total_nanos()),
{
}

/// A path below the home directory is shown from there.
pub proof fn law_homes_are_abbreviated(home: Seq<char>, rest: Seq<char>, path: Seq<char>)
    requires
        home.len() > 0,
    ensures
        banner_path(home + rest, Some(home)) == seq!['~'] + rest,
        !home.is_prefix_of(path) ==> banner_path(path, Some(home)) == path,
        banner_path(path, None) == path,
{
    reveal_strlit("~");
    assert("~"@ =~= seq!['~']);
    let s = home + rest;
    assert(s.subrange(0, home.len() as int) =~= home);
    assert(s.skip(home.len() as int) =~= rest);
    if text::starts_with(path, home) {
        assert(path.subrange(0, home.len() as int) == home);
        assert(home.is_prefix_of(path));
    }
}

// ---------------------------------------------------------------------------
// The input box and the bars
// ---------------------------------------------------------------------------

/// The input box shows the line of the cursor, and up to ten lines in their order.
pub proof fn law_the_line_of_the_cursor_is_shown(
    theme: Theme,
    lines: Seq<Seq<char>>,
    row: int,
    i: int,
)
    requires
        0 <= row < lines.len(),
    ensures
        ({
            let r = input_rows(theme, lines, row);
            let from = first_shown(row);
            &&& 0 <= from <= row < from + r.len()
            &&& r.len() <= 10
            &&& lines.len() <= 10 ==> r.len() == lines.len() - from
            &&& row < 10 ==> from == 0
            &&& 0 <= i < r.len() ==> r[i] == seq![(lines[from + i], coloured(theme.text))]
        }),
{
}

/// Two parts of a row stand at its two ends, as far as there is room.
pub proof fn law_bars_reach_both_ends(left: LineView, right: LineView, width: nat)
    ensures
        ({
            let r = justified(left, right, width);
            let used = spans_width(left) + spans_width(right);
            let n = left.len() as int;
            &&& r.len() == left.len() + 1 + right.len()
            &&& r.take(n) == left
            &&& r.skip(n + 1) == right
            &&& width >= used ==> r[n].0.len() == width - used
            &&& width < used ==> r[n].0.len() == 0
            &&& forall|i: int| 0 <= i < r[n].0.len() ==> #[trigger] r[n].0[i] == ' '
        }),
{
    let used = spans_width(left) + spans_width(right);
    let gap = if width > used {
        (width - used) as nat
    } else {
        0
    };
    let r = justified(left, right, width);
    let n = left.len() as int;
    assert(r.take(n) =~= left);
    assert(r.skip(n + 1) =~= right);
    lemma_spaces(gap);
}

proof fn lemma_spaces(n: nat)
    ensures
        text::repeated(" "@, n).len() == n,
        forall|i: int| 0 <= i < n ==> #[trigger] text::repeated(" "@, n)[i] == ' ',
    decreases n,
{
    reveal_strlit(" ");
    if n > 0 {
        lemma_spaces((n - 1) as nat);
    }
}

/// What is left to do is what is not completed.
pub proof fn law_open_tasks_are_counted(todos: Seq<TodoItem>, t: TodoItem)
    ensures
        left_to_do(Seq::empty()) == 0,
        t.status == TodoStatus::Completed ==> left_to_do(todos.push(t)) == left_to_do(todos),
        t.status != TodoStatus::Completed ==> left_to_do(todos.push(t)) == left_to_do(todos) + 1,
{
    assert(todos.push(t).drop_last() =~= todos);
}

// ---------------------------------------------------------------------------
// Questions and lists
// ---------------------------------------------------------------------------

/// A question shows the call first and what the change is, line by line, as far as
/// there is room.
pub proof fn law_questions_show_the_change(
    theme: Theme,
    request: RequestView,
    preview: Seq<char>,
    height: u16,
    i: int,
)
    requires
        request.preview == Some(preview),
        0 <= i < text::lines_of(preview).len(),
        height >= 8,
    ensures
        ({
            let r = permission_rows(theme, request, height);
            let lines = text::lines_of(preview);
            &&& r[0] == seq![(request.summary, (Style { bold: true, ..coloured(theme.text) }))]
            &&& i < height - 8 ==> r[2 + i].len() == 1 && r[2 + i][0].0 == lines[i]
            &&& lines.len() <= height - 8 ==> r.len() == lines.len() + 4
            &&& lines.len() > height - 8 ==> r.len() == height - 8 + 4
        }),
{
}

/// Lines that a change adds and takes away have their colours.
pub proof fn law_changes_have_their_colours(theme: Theme, lines: Seq<Seq<char>>, rows: nat, i: int)
    requires
        0 <= i < lines.len(),
        i < rows,
        lines[i].len() > 0,
    ensures
        lines[i][0] == '+' ==> preview_rows(theme, lines, rows)[i][0].1 == coloured(theme.added),
        lines[i][0] == '-' ==> preview_rows(theme, lines, rows)[i][0].1 == coloured(theme.removed),
        lines[i][0] != '+' && lines[i][0] != '-' ==> preview_rows(theme, lines, rows)[i][0].1
            == coloured(theme.dim),
{
}

/// Of a list to choose from, the entry that is selected is marked, and no other.
pub proof fn law_the_selected_row_is_marked(
    theme: Theme,
    entries: Seq<CommandView>,
    selected: usize,
    i: int,
)
    requires
        selected < entries.len(),
        palette_from(entries.len(), selected) <= i < entries.len(),
    ensures
        ({
            let k = i - palette_from(entries.len(), selected);
            let r = palette_rows(theme, entries, selected);
            &&& 0 <= k < r.len()
            &&& i == selected ==> r[k][0].0 == "▸ "@
            &&& i != selected ==> r[k][0].0 == "  "@
            &&& r[k][1].0 == text::left_aligned(displayed(entries[i]), 24)
            &&& r[k][2].0 == entries[i].description
        }),
{
}

// ---------------------------------------------------------------------------
// Lines that are sent
// ---------------------------------------------------------------------------

/// A prompt is shown, and begins a turn.
pub proof fn law_prompts_begin_turns(a: AppView, line: Seq<char>, prompt: Seq<char>)
    requires
        dispatched(line, a.custom) == ActionView::Prompt(prompt),
    ensures
        ({
            let (b, r) = after_submit(a, line);
            &&& r == SubmittedView::StartTurn(prompt)
            &&& b.busy
            &&& b.transcript == a.transcript.push(ItemView::User(line))
            &&& b.mode == a.mode && b.model == a.model
        }),
{
}

/// The other lines do what they are for.
pub proof fn law_commands_act_on_the_screen(a: AppView, line: Seq<char>)
    ensures
        ({
            let (b, r) = after_submit(a, line);
            let action = dispatched(line, a.custom);
            &&& action is Quit ==> b.should_quit
            &&& !(action is Quit) ==> b.should_quit == a.should_quit
            &&& action is Clear ==> {
                &&& r is Clear
                &&& b.transcript.len() == 1
                &&& b.context_tokens == 0
                &&& b.usage.total_tokens == 0
            }
            &&& action matches ActionView::SetModel(m) ==> b.model == m
            &&& !(action is SetModel) ==> b.model == a.model
            &&& action matches ActionView::SetMode(m) ==> b.mode == m && r
                == SubmittedView::StoreMode(m)
            &&& !(action is SetMode) ==> b.mode == a.mode
            &&& action is Compact <==> r is Compact
            &&& action is PickModel ==> b.overlay == model_picker(a.model)
            &&& action is Unknown ==> r is Nothing && b.transcript.len() == a.transcript.len() + 1
            &&& r is StartTurn ==> b.busy
        }),
{
}

/// The model in use is among those on offer, and selected.
pub proof fn law_the_model_in_use_is_offered(current: Seq<char>)
    ensures
        ({
            let p = model_picker(current);
            &&& p is Picker
            &&& p->Picker_selected < p->Picker_entries.len()
            &&& p->Picker_entries[p->Picker_selected as int].value == current
        }),
{
    let list = model_choices(current);
    lemma_entry_from(list, current, 0);
    if entry_from(list, current, 0) is None {
        assert(list[0].value == current);
    }
    let known = crate::config::model_table().map_values(
        |m: (Seq<char>, u64, bool)| crate::tui::submit::model_choice(m),
    );
    assert(list.len() <= known.len() + 1);
}

proof fn lemma_entry_from(
    list: Seq<crate::tui::EntryView>,
    value: Seq<char>,
    from: int,
)
    requires
        0 <= from,
    ensures
        entry_from(list, value, from) matches Some(i) ==> from <= i < list.len() && list[i].value
            == value,
        entry_from(list, value, from) is None ==> forall|i: int|
            from <= i < list.len() ==> (#[trigger] list[i]).value != value,
    decreases list.len() - from,
{
    if from < list.len() && list[from].value != value {
        lemma_entry_from(list, value, from + 1);
    }
}

/// The latest thirty sessions are on offer, in their order, each by its id.
pub proof fn law_the_latest_sessions_are_offered(list: Seq<SummaryView>, i: int)
    requires
        0 <= i < list.len(),
        i < 30,
    ensures
        list.len() <= 30 ==> session_choices(list).len() == list.len(),
        list.len() > 30 ==> session_choices(list).len() == 30,
        session_choices(list)[i].value == list[i].id,
        list[i].title matches Some(t) ==> session_choices(list)[i].label == t,
{
}

// ---------------------------------------------------------------------------
// Resuming
// ---------------------------------------------------------------------------

/// A resumed session shows what was said, and leaves out what is blank and what
/// tools and the harness said.
pub proof fn law_what_was_said_is_shown_again(a: AppView, m: MessageView, said: Seq<char>)
    requires
        m.content == Some(said),
    ensures
        is_blank(said) ==> replayed_message(a, m) == a,
        !is_blank(said) && m.role == role_name(Role::User) && !SUMMARY_MARK@.is_prefix_of(said)
            ==> replayed_message(a, m).transcript == a.transcript.push(ItemView::User(said)),
        !is_blank(said) && m.role == role_name(Role::Assistant) ==> replayed_message(
            a,
            m,
        ).transcript == a.transcript.push(ItemView::Assistant(said, true)),
        m.role == role_name(Role::Tool) || m.role == role_name(Role::System) ==> replayed_message(
            a,
            m,
        ) == a,
{
    law_blank_text_trims_to_nothing(said);
    reveal_strlit("system");
    reveal_strlit("user");
    reveal_strlit("assistant");
    reveal_strlit("tool");
    assert("system"@.len() == 6 && "user"@.len() == 4 && "assistant"@.len() == 9);
    assert("tool"@.len() == 4 && "tool"@[0] == 't' && "user"@[0] == 'u');
    if text::starts_with(said, SUMMARY_MARK@) {
        assert(said.subrange(0, SUMMARY_MARK@.len() as int) == SUMMARY_MARK@);
        assert(SUMMARY_MARK@.is_prefix_of(said));
    }
}

/// The prompts of a session can be recalled, in their order.
pub proof fn law_prompts_can_be_recalled(messages: Seq<MessageView>, m: MessageView, said: Seq<char>)
    requires
        m.content == Some(said),
    ensures
        m.role == role_name(Role::User) && !SUMMARY_MARK@.is_prefix_of(said) ==> prompts_of(
            messages.push(m),
        ) == prompts_of(messages).push(said),
        m.role != role_name(Role::User) ==> prompts_of(messages.push(m)) == prompts_of(messages),
        prompts_of(Seq::empty()).len() == 0,
{
    assert(messages.push(m).drop_last() =~= messages);
    if text::starts_with(said, SUMMARY_MARK@) {
        assert(said.subrange(0, SUMMARY_MARK@.len() as int) == SUMMARY_MARK@);
        assert(SUMMARY_MARK@.is_prefix_of(said));
    }
}

/// What the user said is shown line by line behind an arrow, a notice behind its
/// mark, and of what the model thinks at most forty lines.
pub proof fn law_entries_are_shown_by_kind(
    theme: Theme,
    said: Seq<char>,
    level: NoticeLevel,
    width: u16,
    now: u64,
    i: int,
)
    requires
        0 <= i < text::lines_of(said).len(),
    ensures
        ({
            let lines = text::lines_of(said);
            let user = item_rows(theme, ItemView::User(said), width, now);
            let notice = item_rows(theme, ItemView::Notice(said, level), width, now);
            let open = item_rows(theme, ItemView::Reasoning(said, false), width, now);
            let shut = item_rows(theme, ItemView::Reasoning(said, true), width, now);
            &&& user.len() == lines.len() && user[i][1].0 == lines[i]
            &&& notice.len() == lines.len() && notice[i][1].0 == lines[i]
            &&& shut.len() == 1
            &&& lines.len() <= 40 ==> open.len() == lines.len() + 1
            &&& lines.len() > 40 ==> open.len() == 41
            &&& i < 40 ==> open[i + 1][0].0 == "  "@ + lines[i]
        }),
{
}

/// The model's answer is shown as the document that it is, and marked as long as
/// it grows.
pub proof fn law_answers_are_shown_as_documents(theme: Theme, said: Seq<char>, width: u16, now: u64)
    ensures
        ({
            let lines = crate::tui::markdown::document_lines(
                crate::tui::markdown::parsed_markdown(said, true, true),
                theme,
            );
            let done = item_rows(theme, ItemView::Assistant(said, true), width, now);
            let open = item_rows(theme, ItemView::Assistant(said, false), width, now);
            &&& done == lines
            &&& lines.len() > 0 ==> open.len() == lines.len() && open.drop_last()
                == lines.drop_last() && open.last().drop_last() == lines.last()
            &&& lines.len() == 0 ==> open.len() == 1
        }),
{
    let lines = crate::tui::markdown::document_lines(
        crate::tui::markdown::parsed_markdown(said, true, true),
        theme,
    );
    let open = item_rows(theme, ItemView::Assistant(said, false), width, now);
    if lines.len() > 0 {
        assert(open.drop_last() =~= lines.drop_last());
        assert(open.last().drop_last() =~= lines.last());
    }
}

/// The light theme goes by its name, in whatever case.
pub proof fn law_themes_go_by_name(name: Seq<char>)
    ensures
        crate::tui::markdown::is_light(name) <==> crate::laws::tools::is_same_word(name, "light"@),
{
    reveal_strlit("light");
    let lower = name.map_values(|c: char| crate::tui::markdown::ascii_lower(c));
    let light = "light"@;
    if crate::tui::markdown::is_light(name) {
        assert(lower.len() == 5);
        assert forall|i: int| 0 <= i < name.len() implies crate::laws::tools::is_letter_pair(
            #[trigger] name[i],
            light[i],
        ) by {
            assert(lower[i] == light[i]);
        }
    }
    if crate::laws::tools::is_same_word(name, light) {
        assert forall|i: int| 0 <= i < 5 implies lower[i] == light[i] by {
            assert(crate::laws::tools::is_letter_pair(name[i], light[i]));
        }
        assert(lower =~= light);
    }
}

} // verus!
