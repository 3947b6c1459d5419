//! What each part of the screen shows, as styled lines.
//!
//! The transcript is rendered in full and then scrolled. That costs a rebuild
//! per frame and keeps scrolling exact. The caller draws the lines in their
//! boxes.
use vstd::prelude::*;
use vstd::string::StringExecFns;
use crate::agent::PermissionRequest;
use crate::commands::{command_views, displayed, CommandView, SlashCommand};
use crate::config::{
    law_every_model_has_a_window, mode_description, mode_name, model_entry, model_info, model_table,
    PermissionMode,
};
use crate::text;
use crate::tools::{TodoItem, TodoStatus};
use crate::tui::figures::{
    exceeds, format_tokens, is_over, meter, meter_text, no_decimals, percent, percentage,
    tokens_text, without_decimals,
};
use crate::tui::input::{cell_width, display_width, line_at, MAX_VISIBLE_LINES};
use crate::tui::markdown::{
    coloured, document_lines, line_text, line_views, parsed_markdown, push_line, render,
    span_views, text_of, unstyled, Color, Line, LineView, Span, SpanView, Style, Theme,
};
use crate::tui::{
    entry_views, furthest, item_views, request_view, same_frame, spinner_frame, App, AppView,
    EntryView, ItemView, NoticeLevel, Overlay, PickerEntry, RequestView, StateView, ToolState,
    TranscriptItem,
};
use crate::util::{self, DiffKind, DiffLine, Duration};
use crate::{APP_NAME, VERSION};

verus! {

/// Diff lines shown under a tool result before it is elided.
pub const MAX_DIFF_LINES: usize = 14;

/// Lines of reasoning that are shown.
pub const MAX_REASONING_LINES: usize = 40;

/// Lines of an argument that a permission prompt shows.
pub const MAX_ARGUMENT_LINES: usize = 8;

/// Marker before a tool's detail line. Box-drawing characters are present in
/// every monospace font that can draw the borders around it.
pub const DETAIL_PREFIX: char = '└';

// ---------------------------------------------------------------------------
// Heights
// ---------------------------------------------------------------------------

/// The rows that a piece of a line takes up in a box of a width.
pub open spec fn segment_rows(s: Seq<char>, width: nat) -> nat {
    if cell_width(s) == 0 {
        1
    } else {
        (cell_width(s) + width - 1) as nat / width
    }
}

/// The rows that pieces take up.
pub open spec fn segments_rows(segments: Seq<Seq<char>>, width: nat) -> nat
    decreases segments.len(),
{
    if segments.len() == 0 {
        0
    } else {
        segments_rows(segments.drop_last(), width) + segment_rows(segments.last(), width)
    }
}

/// How many terminal rows a line occupies once wrapped.
pub open spec fn line_rows(line: LineView, width: nat) -> nat {
    if width == 0 || line_text(line).len() == 0 {
        1
    } else {
        segments_rows(text::pieces(line_text(line), '\n'), width)
    }
}

/// How many terminal rows lines occupy once wrapped.
pub open spec fn lines_rows(lines: Seq<LineView>, width: nat) -> nat
    decreases lines.len(),
{
    if lines.len() == 0 {
        0
    } else {
        lines_rows(lines.drop_last(), width) + line_rows(lines.last(), width)
    }
}

/// A number of rows, or the greatest that can be held.
pub open spec fn capped(n: nat) -> nat {
    if n > usize::MAX {
        usize::MAX as nat
    } else {
        n
    }
}

/// The sum of two numbers of rows, or the greatest that can be held.
fn plus(a: usize, b: usize) -> (r: usize)
    ensures
        r == capped((a + b) as nat),
{
    if b > usize::MAX - a {
        usize::MAX
    } else {
        a + b
    }
}

/// How many terminal rows a line occupies once wrapped.
pub fn wrapped_height(line: &Line, width: usize) -> (r: usize)
    ensures
        r == capped(line_rows(line@, width as nat)),
{
    if width == 0 {
        return 1;
    }
    let t = text_of(line);
    if text::chars_of(&t).len() == 0 {
        return 1;
    }
    let segments = text::split(&t, '\n');
    let ghost all = text::pieces(t@, '\n');
    let mut n: usize = 0;
    let mut i: usize = 0;
    while i < segments.len()
        invariant
            i <= segments.len(),
            width > 0,
            all == text::views(segments@),
            n == capped(segments_rows(all.take(i as int), width as nat)),
        decreases segments.len() - i,
    {
        assert(all.take(i + 1).drop_last() =~= all.take(i as int));
        assert(all[i as int] == segments@[i as int]@);
        let w: usize = display_width(&segments[i]);
        let rows: usize = if w == 0 {
            1
        } else {
            proof {
                assert((w + width - 1) / width as int == 1 + (w - 1) / width as int)
                    by (nonlinear_arith)
                    requires
                        width > 0,
                        w > 0,
                ;
                assert(0 <= (w - 1) / width as int <= w - 1) by (nonlinear_arith)
                    requires
                        width > 0,
                        w > 0,
                ;
            }
            1 + (w - 1) / width
        };
        n = plus(n, rows);
        i += 1;
    }
    assert(all.take(all.len() as int) =~= all);
    n
}

/// How many terminal rows lines occupy once wrapped.
fn wrapped_heights(lines: &Vec<Line>, width: usize) -> (r: usize)
    ensures
        r == capped(lines_rows(line_views(lines@), width as nat)),
{
    let ghost all = line_views(lines@);
    let mut n: usize = 0;
    let mut i: usize = 0;
    while i < lines.len()
        invariant
            i <= lines.len(),
            all == line_views(lines@),
            n == capped(lines_rows(all.take(i as int), width as nat)),
        decreases lines.len() - i,
    {
        assert(all.take(i + 1).drop_last() =~= all.take(i as int));
        assert(all[i as int] == lines@[i as int]@);
        n = plus(n, wrapped_height(&lines[i], width));
        i += 1;
    }
    assert(all.take(all.len() as int) =~= all);
    n
}

/// The width of the inside of a box.
pub open spec fn inner_width(width: u16) -> u16 {
    if width > 3 {
        (width - 2) as u16
    } else {
        1
    }
}

/// The height of the inside of a box.
pub open spec fn inner_height(height: u16) -> u16 {
    if height > 2 {
        (height - 2) as u16
    } else {
        0
    }
}

/// Whether a screen of a size can be drawn on. A terminal may report a size that
/// nothing fits in, while it is resized or for good.
pub fn is_drawable(width: u16, height: u16) -> (r: bool)
    ensures
        r == (width >= 4 && height >= 4),
{
    width >= 4 && height >= 4
}

/// The width of the inside of a box.
pub fn width_inside(width: u16) -> (r: u16)
    ensures
        r == inner_width(width),
{
    if width > 3 {
        width - 2
    } else {
        1
    }
}

/// The screen once the transcript is measured: the view is at the newest
/// output unless the user has scrolled away, and never beyond the end.
pub open spec fn measured(a: AppView, rows: nat, height: u16) -> AppView {
    let sized = AppView {
        content_height: if rows > u16::MAX {
            u16::MAX
        } else {
            rows as u16
        },
        viewport_height: inner_height(height),
        ..a
    };
    let max = furthest(sized);
    AppView {
        scroll: if a.scroll == u16::MAX || !a.scroll_locked || a.scroll > max {
            max
        } else {
            a.scroll
        },
        ..sized
    }
}

impl App {
    /// Takes the heights of the transcript and of its box into account, and
    /// says whether there is more below what is shown.
    pub fn measure(&mut self, lines: &Vec<Line>, width: u16, height: u16) -> (r: bool)
        ensures
            same_frame(*old(self), *final(self)),
            final(self)@ == measured(
                old(self)@,
                lines_rows(line_views(lines@), inner_width(width) as nat),
                height,
            ),
            r == (final(self)@.scroll < furthest(final(self)@)),
            old(self).wf() ==> final(self).wf(),
    {
        let ghost before = self@;
        let rows: usize = wrapped_heights(lines, width_inside(width) as usize);
        self.content_height = if rows > u16::MAX as usize {
            u16::MAX
        } else {
            rows as u16
        };
        self.viewport_height = if height > 2 {
            height - 2
        } else {
            0
        };
        let max: u16 = self.max_scroll();
        if self.scroll == u16::MAX || !self.scroll_locked || self.scroll > max {
            self.scroll = max;
        }
        self.scroll < max
    }
}

// ---------------------------------------------------------------------------
// The transcript
// ---------------------------------------------------------------------------

/// Text line by line, with one mark before the first line and another before
/// each of the rest.
pub open spec fn marked_lines(
    segments: Seq<Seq<char>>,
    first: Seq<char>,
    rest: Seq<char>,
    mark: Style,
    style: Style,
) -> Seq<LineView> {
    Seq::new(
        segments.len(),
        |i: int|
            seq![
                (
                    if i == 0 {
                        first
                    } else {
                        rest
                    },
                    mark,
                ),
                (segments[i], style),
            ],
    )
}

/// The first lines of a text, each indented.
pub open spec fn indented_lines(
    segments: Seq<Seq<char>>,
    margin: Seq<char>,
    max: nat,
    style: Style,
) -> Seq<LineView> {
    Seq::new(
        if segments.len() > max {
            max
        } else {
            segments.len()
        },
        |i: int| seq![(margin + segments[i], style)],
    )
}

/// The glyph and the colour of a notice.
pub open spec fn notice_look(theme: Theme, level: NoticeLevel) -> (Seq<char>, Color) {
    match level {
        NoticeLevel::Info => ("· "@, theme.dim),
        NoticeLevel::Success => ("✓ "@, theme.success),
        NoticeLevel::Warning => ("! "@, theme.warning),
        NoticeLevel::Error => ("✗ "@, theme.error),
    }
}

/// With a block caret, which marks the live edge of the stream.
pub open spec fn with_caret(lines: Seq<LineView>, theme: Theme) -> Seq<LineView> {
    let caret = ("▌"@, coloured(theme.accent));
    if lines.len() == 0 {
        seq![seq![caret]]
    } else {
        lines.update(lines.len() - 1, lines.last().push(caret))
    }
}

/// The glyph and the colour of a tool call.
pub open spec fn state_look(theme: Theme, state: StateView) -> (Seq<char>, Color) {
    match state {
        StateView::Running(_) => ("● "@, theme.warning),
        StateView::Finished { is_error, .. } => if is_error {
            ("● "@, theme.error)
        } else {
            ("● "@, theme.tool)
        },
        StateView::Denied(_) => ("○ "@, theme.dim),
    }
}

/// The mark and the colour of a diff line.
pub open spec fn diff_look(theme: Theme, kind: DiffKind) -> (Seq<char>, Color) {
    match kind {
        DiffKind::Added => ("+"@, theme.added),
        DiffKind::Removed => ("-"@, theme.removed),
        DiffKind::Context => (" "@, theme.dim),
    }
}

/// The first lines of a diff, and how many are left out.
pub open spec fn diff_rows(theme: Theme, diff: Seq<DiffLine>) -> Seq<LineView> {
    let shown: Seq<LineView> = Seq::new(
        if diff.len() > MAX_DIFF_LINES {
            MAX_DIFF_LINES as nat
        } else {
            diff.len()
        },
        |i: int|
            seq![
                ("    "@, unstyled()),
                (diff_look(theme, diff[i].kind).0, coloured(diff_look(theme, diff[i].kind).1)),
                (diff[i].text@, coloured(diff_look(theme, diff[i].kind).1)),
            ],
    );
    if diff.len() > MAX_DIFF_LINES {
        shown.push(
            seq![
                (
                    "    … "@ + text::decimal((diff.len() - MAX_DIFF_LINES) as nat)
                        + " more lines"@,
                    coloured(theme.dim),
                ),
            ],
        )
    } else {
        shown
    }
}

/// What a finished call says of itself. Timing is mentioned only where it is
/// long enough for the user to have noticed it.
pub open spec fn outcome_text(
    summary: Option<Seq<char>>,
    is_error: bool,
    duration: Duration,
) -> Seq<char> {
    let said = match summary {
        Some(s) => s,
        None => if is_error {
            "failed"@
        } else {
            "done"@
        },
    };
    if duration.total_nanos() / 1_000_000 > 500 {
        said + " · "@ + util::duration_text(duration.total_nanos())
    } else {
        said
    }
}

/// The nanoseconds since a moment.
pub open spec fn elapsed(started: u64, now: u64) -> nat {
    if now > started {
        (now - started) as nat
    } else {
        0
    }
}

/// The bytes that a tool's summary may take up in a box of a width.
pub open spec fn header_room(width: u16) -> nat {
    if width > 4 {
        ((width - 4) * 2) as nat
    } else {
        0
    }
}

/// The header of a tool call.
pub open spec fn tool_header(
    theme: Theme,
    summary: Seq<char>,
    state: StateView,
    width: u16,
) -> LineView {
    seq![
        (state_look(theme, state).0, coloured(state_look(theme, state).1)),
        (
            text::replaced(util::truncated(summary, header_room(width)), "\n"@, " "@),
            Style { bold: true, ..coloured(theme.text) },
        ),
    ]
}

/// How a tool call is shown.
pub open spec fn tool_rows(
    theme: Theme,
    summary: Seq<char>,
    state: StateView,
    width: u16,
    now: u64,
) -> Seq<LineView> {
    let header = tool_header(theme, summary, state, width);
    match state {
        StateView::Running(started) => seq![
            header,
            seq![
                (
                    "  └ running… "@ + util::duration_text(elapsed(started, now)),
                    coloured(theme.dim),
                ),
            ],
        ],
        StateView::Denied(reason) => seq![header, seq![("  └ "@ + reason, coloured(theme.dim))]],
        StateView::Finished { summary, display, is_error, duration } => seq![
            header,
            seq![
                (
                    "  └ "@ + outcome_text(summary, is_error, duration),
                    coloured(
                        if is_error {
                            theme.error
                        } else {
                            theme.dim
                        },
                    ),
                ),
            ],
        ] + diff_rows(theme, display.diff@),
    }
}

/// How an entry of the scrollback is shown.
pub open spec fn item_rows(theme: Theme, item: ItemView, width: u16, now: u64) -> Seq<LineView> {
    match item {
        ItemView::User(t) => marked_lines(
            text::lines_of(t),
            "› "@,
            "  "@,
            Style { bold: true, ..coloured(theme.user) },
            coloured(theme.user),
        ),
        ItemView::Assistant(t, done) => {
            let lines = document_lines(parsed_markdown(t, true, true), theme);
            if done {
                lines
            } else {
                with_caret(lines, theme)
            }
        },
        ItemView::Reasoning(t, collapsed) => {
            let style = Style { italic: true, ..coloured(theme.dim) };
            let head: Seq<LineView> = seq![seq![("thinking"@, style)]];
            if collapsed {
                head
            } else {
                head + indented_lines(text::lines_of(t), "  "@, MAX_REASONING_LINES as nat, style)
            }
        },
        ItemView::Tool { id: _, name: _, summary, state } => tool_rows(
            theme,
            summary,
            state,
            width,
            now,
        ),
        ItemView::Notice(t, level) => marked_lines(
            text::lines_of(t),
            notice_look(theme, level).0,
            "  "@,
            coloured(notice_look(theme, level).1),
            coloured(notice_look(theme, level).1),
        ),
    }
}

/// The scrollback, with an empty line between entries.
pub open spec fn item_lines(
    theme: Theme,
    items: Seq<ItemView>,
    width: u16,
    now: u64,
) -> Seq<LineView>
    decreases items.len(),
{
    if items.len() == 0 {
        Seq::empty()
    } else {
        let before = item_lines(theme, items.drop_last(), width, now);
        let apart = if before.len() == 0 {
            before
        } else {
            before.push(Seq::empty())
        };
        apart + item_rows(theme, items.last(), width, now)
    }
}

/// Whether the time that a call took is a valid one.
pub open spec fn is_timed(state: StateView) -> bool {
    state matches StateView::Finished { duration, .. } ==> duration.wf()
}

/// Whether the times that calls took are valid ones.
pub open spec fn all_timed(items: Seq<ItemView>) -> bool {
    forall|i: int|
        0 <= i < items.len() ==> ((#[trigger] items[i]) matches ItemView::Tool { state, .. }
            ==> is_timed(state))
}

/// Adds lines to a list.
fn extend(lines: &mut Vec<Line>, more: Vec<Line>)
    ensures
        line_views(final(lines)@) == line_views(old(lines)@) + line_views(more@),
{
    let ghost before = line_views(lines@);
    let ghost added = line_views(more@);
    let mut more = more;
    lines.append(&mut more);
    assert(line_views(lines@) =~= before + added);
}

/// A line of two pieces.
fn pair(a: &str, a_style: Style, b: &str, b_style: Style) -> (r: Line)
    ensures
        r@ == seq![(a@, a_style), (b@, b_style)],
{
    let mut line = Line::of(a, a_style);
    line.push(b, b_style);
    line
}

/// Text line by line, with one mark before the first line and another before
/// each of the rest.
fn mark_lines(t: &str, first: &str, rest: &str, mark: Style, style: Style) -> (r: Vec<Line>)
    ensures
        line_views(r@) == marked_lines(text::lines_of(t@), first@, rest@, mark, style),
{
    let segments = text::lines(t);
    let ghost all = text::lines_of(t@);
    let ghost want = marked_lines(all, first@, rest@, mark, style);
    let mut out: Vec<Line> = Vec::new();
    let mut i: usize = 0;
    assert(line_views(out@) =~= want.take(0));
    while i < segments.len()
        invariant
            i <= segments.len(),
            all == text::views(segments@),
            want == marked_lines(all, first@, rest@, mark, style),
            line_views(out@) == want.take(i as int),
        decreases segments.len() - i,
    {
        assert(all[i as int] == segments@[i as int]@);
        let prefix = if i == 0 {
            first
        } else {
            rest
        };
        push_line(&mut out, pair(prefix, mark, &segments[i], style));
        i += 1;
        assert(line_views(out@) =~= want.take(i as int));
    }
    assert(want.take(want.len() as int) =~= want);
    out
}

/// The first lines of a text, each indented.
fn indent_lines(t: &str, margin: &str, max: usize, style: Style) -> (r: Vec<Line>)
    ensures
        line_views(r@) == indented_lines(text::lines_of(t@), margin@, max as nat, style),
{
    let segments = text::lines(t);
    let ghost all = text::lines_of(t@);
    let ghost want = indented_lines(all, margin@, max as nat, style);
    let mut out: Vec<Line> = Vec::new();
    let mut i: usize = 0;
    assert(line_views(out@) =~= want.take(0));
    while i < segments.len() && i < max
        invariant
            i <= segments.len(),
            i <= max,
            all == text::views(segments@),
            want == indented_lines(all, margin@, max as nat, style),
            line_views(out@) == want.take(i as int),
        decreases segments.len() - i,
    {
        assert(all[i as int] == segments@[i as int]@);
        let mut row = margin.to_owned();
        row.append(&segments[i]);
        push_line(&mut out, Line::of(&row, style));
        i += 1;
        assert(line_views(out@) =~= want.take(i as int));
    }
    assert(want.take(want.len() as int) =~= want);
    out
}

/// The first lines of a diff, and how many are left out.
fn diff_lines(theme: &Theme, diff: &Vec<DiffLine>) -> (r: Vec<Line>)
    ensures
        line_views(r@) == diff_rows(*theme, diff@),
{
    let n: usize = if diff.len() > MAX_DIFF_LINES {
        MAX_DIFF_LINES
    } else {
        diff.len()
    };
    let ghost want = diff_rows(*theme, diff@);
    let mut out: Vec<Line> = Vec::new();
    let mut i: usize = 0;
    assert(line_views(out@) =~= want.take(0));
    while i < n
        invariant
            i <= n,
            n <= diff@.len(),
            n <= want.len(),
            n == (if diff@.len() > MAX_DIFF_LINES {
                MAX_DIFF_LINES as nat
            } else {
                diff@.len()
            }),
            want == diff_rows(*theme, diff@),
            line_views(out@) == want.take(i as int),
        decreases n - i,
    {
        let (mark, colour) = match diff[i].kind {
            DiffKind::Added => ("+", theme.added),
            DiffKind::Removed => ("-", theme.removed),
            DiffKind::Context => (" ", theme.dim),
        };
        let mut line = Line::of("    ", Style::plain());
        line.push(mark, Style::of(colour));
        line.push(&diff[i].text, Style::of(colour));
        assert(line@ == want[i as int]);
        push_line(&mut out, line);
        i += 1;
        assert(line_views(out@) =~= want.take(i as int));
    }
    if diff.len() > MAX_DIFF_LINES {
        let mut row = "    … ".to_owned();
        row.append(&text::number((diff.len() - MAX_DIFF_LINES) as u64));
        row.append(" more lines");
        push_line(&mut out, Line::of(&row, Style::of(theme.dim)));
    }
    assert(line_views(out@) =~= want);
    out
}

/// What a finished call says of itself.
fn describe_outcome(summary: &Option<String>, is_error: bool, duration: Duration) -> (r: String)
    requires
        duration.wf(),
    ensures
        r@ == outcome_text(text::opt_view(*summary), is_error, duration),
{
    let mut said = match summary {
        Some(s) => s.clone(),
        None => if is_error {
            "failed".to_owned()
        } else {
            "done".to_owned()
        },
    };
    assert(duration.total_nanos() / 1_000_000 == duration.secs * 1000 + duration.nanos / 1_000_000);
    if duration.secs > 0 || duration.nanos / 1_000_000 > 500 {
        said.append(" · ");
        said.append(&util::format_duration(duration));
    }
    said
}

/// How a tool call is shown, in a box of a width, at a moment on the caller's
/// clock.
pub fn tool_lines(theme: &Theme, summary: &str, state: &ToolState, width: u16, now: u64) -> (r: Vec<
    Line,
>)
    requires
        is_timed(state@),
    ensures
        line_views(r@) == tool_rows(*theme, summary@, state@, width, now),
{
    let ghost want = tool_rows(*theme, summary@, state@, width, now);
    let (glyph, colour) = match state {
        ToolState::Running { .. } => ("● ", theme.warning),
        ToolState::Finished { is_error, .. } => if *is_error {
            ("● ", theme.error)
        } else {
            ("● ", theme.tool)
        },
        ToolState::Denied { .. } => ("○ ", theme.dim),
    };
    let room: usize = if width > 4 {
        (width - 4) as usize * 2
    } else {
        0
    };
    proof {
        reveal_strlit("\n");
    }
    let header = text::replace(&util::truncate_text(summary, room), "\n", " ");
    let mut lines: Vec<Line> = Vec::new();
    assert(line_views(lines@) =~= Seq::<LineView>::empty());
    push_line(
        &mut lines,
        pair(glyph, Style::of(colour), &header, Style::of(theme.text).bold()),
    );
    assert(room as nat == header_room(width));
    assert((glyph@, colour) == state_look(*theme, state@));
    assert(line_views(lines@)[0] =~= tool_header(*theme, summary@, state@, width));
    assert(line_views(lines@) =~= seq![tool_header(*theme, summary@, state@, width)]);
    match state {
        ToolState::Running { started } => {
            let since: u64 = if now > *started {
                now - *started
            } else {
                0
            };
            let d = Duration {
                secs: since / 1_000_000_000,
                nanos: (since % 1_000_000_000) as u32,
            };
            let mut row = "  └ running… ".to_owned();
            row.append(&util::format_duration(d));
            push_line(&mut lines, Line::of(&row, Style::of(theme.dim)));
            assert(d.total_nanos() == since);
            assert(line_views(lines@) =~= want);
        },
        ToolState::Denied { reason } => {
            let mut row = "  └ ".to_owned();
            row.append(reason);
            push_line(&mut lines, Line::of(&row, Style::of(theme.dim)));
            assert(line_views(lines@) =~= want);
        },
        ToolState::Finished { summary, display, is_error, duration } => {
            let mut row = "  └ ".to_owned();
            row.append(&describe_outcome(summary, *is_error, *duration));
            let colour = if *is_error {
                theme.error
            } else {
                theme.dim
            };
            push_line(&mut lines, Line::of(&row, Style::of(colour)));
            extend(&mut lines, diff_lines(theme, &display.diff));
        },
    }
    assert(line_views(lines@) =~= want);
    lines
}

/// A message of the assistant.
fn reply_lines(theme: &Theme, t: &str, done: bool) -> (r: Vec<Line>)
    ensures
        line_views(r@) == item_rows(*theme, ItemView::Assistant(t@, done), 0, 0),
{
    let mut lines = render(t, theme);
    if done {
        return lines;
    }
    let ghost before = line_views(lines@);
    match lines.pop() {
        Some(last) => {
            let mut last = last;
            assert(before.last() == last@);
            last.push("▌", Style::of(theme.accent));
            push_line(&mut lines, last);
        },
        None => {
            push_line(&mut lines, Line::of("▌", Style::of(theme.accent)));
        },
    }
    assert(line_views(lines@) =~= with_caret(before, *theme));
    lines
}

/// How an entry of the scrollback is shown.
fn entry_lines(theme: &Theme, item: &TranscriptItem, width: u16, now: u64) -> (r: Vec<Line>)
    requires
        item@ matches ItemView::Tool { state, .. } ==> is_timed(state),
    ensures
        line_views(r@) == item_rows(*theme, item@, width, now),
{
    match item {
        TranscriptItem::User(t) => mark_lines(
            t,
            "› ",
            "  ",
            Style::of(theme.user).bold(),
            Style::of(theme.user),
        ),
        TranscriptItem::Assistant { text, done } => reply_lines(theme, text, *done),
        TranscriptItem::Reasoning { text, collapsed } => {
            let style = Style::of(theme.dim).italic();
            let mut lines: Vec<Line> = Vec::new();
            push_line(&mut lines, Line::of("thinking", style));
            assert(line_views(lines@) =~= seq![seq![("thinking"@, style)]]);
            if !*collapsed {
                extend(&mut lines, indent_lines(text, "  ", MAX_REASONING_LINES, style));
            }
            lines
        },
        TranscriptItem::Tool { summary, state, .. } => tool_lines(theme, summary, state, width, now),
        TranscriptItem::Notice { text, level } => {
            let (glyph, colour) = match level {
                NoticeLevel::Info => ("· ", theme.dim),
                NoticeLevel::Success => ("✓ ", theme.success),
                NoticeLevel::Warning => ("! ", theme.warning),
                NoticeLevel::Error => ("✗ ", theme.error),
            };
            mark_lines(text, glyph, "  ", Style::of(colour), Style::of(colour))
        },
    }
}

// ---------------------------------------------------------------------------
// The banner
// ---------------------------------------------------------------------------

/// A path, with the home directory abbreviated.
pub open spec fn abbreviated(path: Seq<char>, home: Seq<char>) -> Seq<char> {
    match text::stripped_prefix(path, home) {
        Some(rest) => "~"@ + rest,
        None => path,
    }
}

/// `~`-abbreviated workspace path.
pub open spec fn short_path_text(path: Seq<char>, home: Option<Seq<char>>) -> Seq<char> {
    match home {
        Some(h) => abbreviated(path, h),
        None => path,
    }
}

/// The workspace as the banner shows it.
pub open spec fn banner_path(path: Seq<char>, home: Option<Seq<char>>) -> Seq<char> {
    match home {
        Some(h) => if h.len() > 0 {
            abbreviated(path, h)
        } else {
            path
        },
        None => path,
    }
}

/// The letter that makes a word plural, where it is.
pub open spec fn plural(n: usize) -> Seq<char> {
    if n == 1 {
        ""@
    } else {
        "s"@
    }
}

/// Colour for a permission mode, shared by the banner, input border and status.
pub open spec fn mode_look(theme: Theme, mode: PermissionMode) -> Color {
    match mode {
        PermissionMode::Plan => theme.accent,
        PermissionMode::BypassPermissions => theme.error,
        PermissionMode::AcceptEdits => theme.success,
        PermissionMode::Default => theme.success,
    }
}

/// A labelled row of the banner.
pub open spec fn banner_row(
    theme: Theme,
    label: Seq<char>,
    value: LineView,
    hint: Seq<char>,
) -> LineView {
    let dim = coloured(theme.dim);
    let row = seq![("   "@, dim), (text::left_aligned(label, 12), dim)] + value;
    if hint.len() > 0 {
        row.push(("  "@ + hint, dim))
    } else {
        row
    }
}

/// Where the agent works.
pub open spec fn banner_location(app: App) -> LineView {
    let accent = coloured(app.theme.accent);
    let here: LineView = seq![
        (
            banner_path(app.workspace@, text::opt_view(app.home)),
            coloured(app.theme.text),
        ),
    ];
    match app.branch {
        Some(branch) => here.push(("  ▸ "@, accent)).push((branch@, accent)),
        None => here,
    }
}

/// What the agent has at hand.
pub open spec fn banner_tools(app: App) -> LineView {
    let value = coloured(app.theme.text);
    let built_in: LineView = seq![(text::decimal(app.tool_count as nat) + " built-in"@, value)];
    let borrowed = if app.mcp_count > 0 {
        built_in.push((" · "@ + text::decimal(app.mcp_count as nat) + " from MCP"@, value))
    } else {
        built_in
    };
    if app.subagent_count > 0 {
        borrowed.push(
            (
                " · "@ + text::decimal(app.subagent_count as nat) + " subagent"@ + plural(
                    app.subagent_count,
                ),
                value,
            ),
        )
    } else {
        borrowed
    }
}

/// What a new session shows.
pub open spec fn welcome_lines(app: App) -> Seq<LineView> {
    let theme = app.theme;
    let accent = coloured(theme.accent);
    let loud = Style { bold: true, ..accent };
    let dim = coloured(theme.dim);
    let window = model_entry(model_table(), app.model@).1;
    seq![
        Seq::<SpanView>::empty(),
        seq![("  ▄▀▄  "@, loud), (APP_NAME@ + " "@, loud), ("v"@ + VERSION@, dim)],
        seq![
            ("  ▀▄▀  "@, loud),
            ("an agentic coding harness for xAI's Grok models"@, dim),
        ],
        Seq::<SpanView>::empty(),
        banner_row(
            theme,
            "model"@,
            seq![
                (app.model@, coloured(theme.text)),
                ("  "@ + tokens_text(window as nat) + " context"@, dim),
            ],
            "/model"@,
        ),
        banner_row(theme, "directory"@, banner_location(app), ""@),
        banner_row(
            theme,
            "permissions"@,
            seq![
                (mode_name(app.mode), coloured(mode_look(theme, app.mode))),
                (" — "@ + mode_description(app.mode), dim),
            ],
            "shift+tab"@,
        ),
        banner_row(theme, "tools"@, banner_tools(app), "/tools"@),
        Seq::<SpanView>::empty(),
        seq![
            ("   Ask for a change and it will make it. "@, dim),
            ("/help"@, accent),
            (" for commands · "@, dim),
            ("Ctrl+C"@, accent),
            (" twice to exit"@, dim),
        ],
    ]
}

/// A path, with the home directory abbreviated.
fn abbreviate(path: &str, home: &str) -> (r: String)
    ensures
        r@ == abbreviated(path@, home@),
{
    match text::strip_prefix(path, home) {
        Some(rest) => {
            let mut out = "~".to_owned();
            out.append(&rest);
            out
        },
        None => path.to_owned(),
    }
}

/// `~`-abbreviated workspace path.
pub fn short_path(path: &str, home: &Option<String>) -> (r: String)
    ensures
        r@ == short_path_text(path@, text::opt_view(*home)),
{
    match home {
        Some(h) => abbreviate(path, h),
        None => path.to_owned(),
    }
}

/// Colour for a permission mode.
pub fn mode_colour(theme: &Theme, mode: PermissionMode) -> (r: Color)
    ensures
        r == mode_look(*theme, mode),
{
    match mode {
        PermissionMode::Plan => theme.accent,
        PermissionMode::BypassPermissions => theme.error,
        PermissionMode::AcceptEdits => theme.success,
        PermissionMode::Default => theme.success,
    }
}

/// A count before a word, with what stands before and behind it.
fn counted(before: &str, n: usize, after: &str) -> (r: String)
    ensures
        r@ == before@ + text::decimal(n as nat) + after@,
{
    let mut out = before.to_owned();
    out.append(&text::number(n as u64));
    out.append(after);
    out
}

/// A count before a word that may be plural.
fn counted_plural(before: &str, n: usize, after: &str) -> (r: String)
    ensures
        r@ == before@ + text::decimal(n as nat) + after@ + plural(n),
{
    let mut out = counted(before, n, after);
    if n == 1 {
        out.append("");
    } else {
        out.append("s");
    }
    out
}

/// A labelled row of the banner.
fn label_row(theme: &Theme, label: &str, value: Line, hint: &str) -> (r: Line)
    ensures
        r@ == banner_row(*theme, label@, value@, hint@),
{
    let dim = Style::of(theme.dim);
    let mut row = pair("   ", dim, &text::pad_right(label, 12), dim);
    let ghost before = row@;
    let ghost added = value@;
    let mut value = value;
    row.spans.append(&mut value.spans);
    assert(row@ =~= before + added);
    if text::chars_of(hint).len() > 0 {
        let mut t = "  ".to_owned();
        t.append(hint);
        row.push(&t, dim);
    }
    row
}

/// Where the agent works.
fn location_of(app: &App) -> (r: Line)
    ensures
        r@ == banner_location(*app),
{
    let here = match &app.home {
        Some(h) => if text::chars_of(h).len() > 0 {
            abbreviate(&app.workspace, h)
        } else {
            app.workspace.clone()
        },
        None => app.workspace.clone(),
    };
    let mut line = Line::of(&here, Style::of(app.theme.text));
    match &app.branch {
        Some(branch) => {
            line.push("  ▸ ", Style::of(app.theme.accent));
            line.push(branch, Style::of(app.theme.accent));
        },
        None => {},
    }
    line
}

/// What the agent has at hand.
fn tools_of(app: &App) -> (r: Line)
    ensures
        r@ == banner_tools(*app),
{
    let value = Style::of(app.theme.text);
    let mut first = text::number(app.tool_count as u64);
    first.append(" built-in");
    let mut line = Line::of(&first, value);
    if app.mcp_count > 0 {
        line.push(&counted(" · ", app.mcp_count, " from MCP"), value);
    }
    if app.subagent_count > 0 {
        line.push(&counted_plural(" · ", app.subagent_count, " subagent"), value);
    }
    line
}

/// What a new session shows.
pub fn welcome(app: &App) -> (r: Vec<Line>)
    ensures
        line_views(r@) == welcome_lines(*app),
{
    let theme = &app.theme;
    let accent = Style::of(theme.accent);
    let loud = accent.bold();
    let dim = Style::of(theme.dim);
    let window: u64 = model_info(&app.model).context_window;
    let mut lines: Vec<Line> = Vec::new();
    assert(line_views(lines@) =~= Seq::<LineView>::empty());

    push_line(&mut lines, Line::empty());
    let mut name = APP_NAME.to_owned();
    name.append(" ");
    let mut version = "v".to_owned();
    version.append(VERSION);
    let mut line = pair("  ▄▀▄  ", loud, &name, loud);
    line.push(&version, dim);
    push_line(&mut lines, line);
    push_line(
        &mut lines,
        pair("  ▀▄▀  ", loud, "an agentic coding harness for xAI's Grok models", dim),
    );
    push_line(&mut lines, Line::empty());

    let mut size = "  ".to_owned();
    size.append(&format_tokens(window));
    size.append(" context");
    push_line(
        &mut lines,
        label_row(theme, "model", pair(&app.model, Style::of(theme.text), &size, dim), "/model"),
    );
    push_line(&mut lines, label_row(theme, "directory", location_of(app), ""));
    let mut meaning = " — ".to_owned();
    meaning.append(app.mode.describe());
    push_line(
        &mut lines,
        label_row(
            theme,
            "permissions",
            pair(app.mode.as_str(), Style::of(mode_colour(theme, app.mode)), &meaning, dim),
            "shift+tab",
        ),
    );
    push_line(&mut lines, label_row(theme, "tools", tools_of(app), "/tools"));
    push_line(&mut lines, Line::empty());
    let mut last = pair("   Ask for a change and it will make it. ", dim, "/help", accent);
    last.push(" for commands · ", dim);
    last.push("Ctrl+C", accent);
    last.push(" twice to exit", dim);
    push_line(&mut lines, last);
    let ghost want = welcome_lines(*app);
    assert(line_views(lines@)[0] =~= want[0]);
    assert(line_views(lines@)[1] =~= want[1]);
    assert(line_views(lines@)[2] =~= want[2]);
    assert(line_views(lines@)[3] =~= want[3]);
    assert(line_views(lines@)[4] =~= want[4]);
    assert(line_views(lines@)[5] =~= want[5]);
    assert(line_views(lines@)[6] =~= want[6]);
    assert(line_views(lines@)[7] =~= want[7]);
    assert(line_views(lines@)[8] =~= want[8]);
    assert(line_views(lines@)[9] =~= want[9]);
    assert(line_views(lines@) =~= welcome_lines(*app));
    lines
}

/// What the box of the conversation shows.
pub open spec fn transcript_lines(app: App, width: u16, now: u64) -> Seq<LineView> {
    if app.transcript@.len() == 0 {
        welcome_lines(app)
    } else {
        item_lines(app.theme, item_views(app.transcript@), width, now)
    }
}

/// What the box of the conversation shows, in a width, at a moment on the
/// caller's clock.
pub fn build_transcript(app: &App, width: u16, now: u64) -> (r: Vec<Line>)
    requires
        all_timed(item_views(app.transcript@)),
    ensures
        line_views(r@) == transcript_lines(*app, width, now),
{
    if app.transcript.len() == 0 {
        return welcome(app);
    }
    let ghost all = item_views(app.transcript@);
    let mut lines: Vec<Line> = Vec::new();
    let mut i: usize = 0;
    assert(line_views(lines@) =~= Seq::<LineView>::empty());
    while i < app.transcript.len()
        invariant
            i <= app.transcript.len(),
            all == item_views(app.transcript@),
            all_timed(all),
            line_views(lines@) == item_lines(app.theme, all.take(i as int), width, now),
        decreases app.transcript.len() - i,
    {
        assert(all.take(i + 1).drop_last() =~= all.take(i as int));
        assert(all[i as int] == app.transcript@[i as int]@);
        assert(line_views(lines@).len() == lines@.len());
        if lines.len() > 0 {
            push_line(&mut lines, Line::empty());
        }
        extend(&mut lines, entry_lines(&app.theme, &app.transcript[i], width, now));
        i += 1;
    }
    assert(all.take(all.len() as int) =~= all);
    lines
}

// ---------------------------------------------------------------------------
// Boxes
// ---------------------------------------------------------------------------

/// A rectangle of the screen.
#[derive(Debug, Clone, Copy, PartialEq, Eq, Structural)]
pub struct Area {
    pub x: u16,
    pub y: u16,
    pub width: u16,
    pub height: u16,
}

/// The title of the conversation.
pub open spec fn conversation_title(busy: bool, frame: Seq<char>) -> Seq<char> {
    if busy {
        " "@ + frame + " thinking… "@
    } else {
        " conversation "@
    }
}

/// The title of the conversation.
pub fn transcript_title(app: &App) -> (r: String)
    ensures
        r@ == conversation_title(app.busy, spinner_frame(app.spinner_frame as nat)),
{
    if app.busy {
        let mut t = " ".to_owned();
        t.append(app.spinner());
        t.append(" thinking… ");
        t
    } else {
        " conversation ".to_owned()
    }
}

// ---------------------------------------------------------------------------
// The input box
// ---------------------------------------------------------------------------

/// The colour of the input box's border, and the hint on it.
pub open spec fn input_look(theme: Theme, busy: bool, mode: PermissionMode) -> (Color, Seq<char>) {
    if busy {
        (theme.dim, " Esc to interrupt "@)
    } else {
        match mode {
            PermissionMode::Plan => (theme.accent, " plan mode — read only "@),
            PermissionMode::BypassPermissions => (theme.error, " permissions bypassed "@),
            PermissionMode::AcceptEdits => (theme.success, " edits auto-accepted "@),
            PermissionMode::Default => (theme.user, ""@),
        }
    }
}

/// The colour of the input box's border, and the hint on it.
pub fn input_frame(app: &App) -> (r: (Color, &'static str))
    ensures
        (r.0, r.1@) == input_look(app.theme, app.busy, app.mode),
{
    let theme = &app.theme;
    if app.busy {
        return (theme.dim, " Esc to interrupt ");
    }
    match app.mode {
        PermissionMode::Plan => (theme.accent, " plan mode — read only "),
        PermissionMode::BypassPermissions => (theme.error, " permissions bypassed "),
        PermissionMode::AcceptEdits => (theme.success, " edits auto-accepted "),
        PermissionMode::Default => (theme.user, ""),
    }
}

/// The height of the input box, its border and at most ten lines.
pub fn input_height(app: &App) -> (r: u16)
    requires
        app.wf(),
    ensures
        r == (if app@.area.lines.len() > MAX_VISIBLE_LINES {
            MAX_VISIBLE_LINES as nat
        } else {
            app@.area.lines.len()
        }) + 2,
{
    app.textarea.visible_height() as u16 + 2
}

/// The first line of the input that is shown.
pub open spec fn first_shown(row: int) -> int {
    if row > MAX_VISIBLE_LINES - 1 {
        row - (MAX_VISIBLE_LINES - 1)
    } else {
        0
    }
}

/// The last line of the input that is shown, and one.
pub open spec fn end_shown(lines: nat, row: int) -> int {
    if lines > first_shown(row) + MAX_VISIBLE_LINES {
        first_shown(row) + MAX_VISIBLE_LINES
    } else {
        lines as int
    }
}

/// What the input box shows.
pub open spec fn input_rows(theme: Theme, lines: Seq<Seq<char>>, row: int) -> Seq<LineView> {
    lines.subrange(first_shown(row), end_shown(lines.len(), row)).map_values(
        |l: Seq<char>| seq![(l, coloured(theme.text))],
    )
}

/// What the input box shows: at most ten lines, those up to the cursor where
/// there are more.
pub fn input_lines(app: &App) -> (r: Vec<Line>)
    requires
        app.wf(),
    ensures
        line_views(r@) == input_rows(app.theme, app@.area.lines, app@.area.row),
{
    let offset: usize = app.textarea.scroll_offset();
    let ghost all = app@.area.lines;
    let ghost want = input_rows(app.theme, all, app@.area.row);
    let list = app.textarea.lines();
    let mut out: Vec<Line> = Vec::new();
    let mut i: usize = offset;
    assert(line_views(out@) =~= want.take(0));
    while i < list.len() && i - offset < MAX_VISIBLE_LINES
        invariant
            offset <= i <= list.len(),
            i - offset <= MAX_VISIBLE_LINES,
            offset == first_shown(app@.area.row),
            all == app@.area.lines,
            all == text::views(list@),
            want == input_rows(app.theme, all, app@.area.row),
            line_views(out@) == want.take(i - offset),
        decreases list.len() - i,
    {
        assert(all[i as int] == list@[i as int]@);
        push_line(&mut out, Line::of(&list[i], Style::of(app.theme.text)));
        assert(want[i - offset] =~= seq![(all[i as int], coloured(app.theme.text))]);
        i += 1;
        assert(line_views(out@) =~= want.take(i - offset));
    }
    assert(want.take(want.len() as int) =~= want);
    out
}

/// Where the caret stands: where typing lands, while the input has the
/// keyboard and the place lies inside the box.
pub open spec fn caret_place(app: App, area: Area) -> Option<(u16, u16)> {
    let a = app@.area;
    let x = area.x + 1 + cell_width(line_at(a).take(a.col)) % 0x10000;
    let y = area.y + 1 + a.row - first_shown(a.row);
    if app.busy || !(app.overlay is Closed) {
        None
    } else if x < area.x + area.width - 1 && x < u16::MAX - 1 && y < area.y + area.height - 1 && y
        < u16::MAX - 1 {
        Some((x as u16, y as u16))
    } else {
        None
    }
}

/// Where the caret stands.
pub fn caret(app: &App, area: Area) -> (r: Option<(u16, u16)>)
    requires
        app.wf(),
    ensures
        r == caret_place(*app, area),
{
    let closed = matches!(app.overlay, Overlay::Closed);
    if app.busy || !closed {
        return None;
    }
    let offset: usize = app.textarea.scroll_offset();
    let rows: usize = app.textarea.row - offset;
    let cols: usize = app.textarea.cursor_display_col() % 0x10000;
    let x: u64 = area.x as u64 + 1 + cols as u64;
    let y: u64 = area.y as u64 + 1 + rows as u64;
    if x + 1 < area.x as u64 + area.width as u64 && x < (u16::MAX - 1) as u64 && y + 1 < area.y as u64
        + area.height as u64 && y < (u16::MAX - 1) as u64 {
        Some((x as u16, y as u16))
    } else {
        None
    }
}

// ---------------------------------------------------------------------------
// The status bar
// ---------------------------------------------------------------------------

/// The columns that spans take up.
pub open spec fn spans_width(spans: LineView) -> nat
    decreases spans.len(),
{
    if spans.len() == 0 {
        0
    } else {
        spans_width(spans.drop_last()) + cell_width(spans.last().0)
    }
}

/// `right` against the right edge of a row, behind `left`.
pub open spec fn justified(left: LineView, right: LineView, width: nat) -> LineView {
    let used = spans_width(left) + spans_width(right);
    let gap = if width > used {
        (width - used) as nat
    } else {
        0
    };
    left.push((text::repeated(" "@, gap), unstyled())) + right
}

/// How many items of a list are not done.
pub open spec fn left_to_do(todos: Seq<TodoItem>) -> nat
    decreases todos.len(),
{
    if todos.len() == 0 {
        0
    } else if todos.last().status != TodoStatus::Completed {
        left_to_do(todos.drop_last()) + 1
    } else {
        left_to_do(todos.drop_last())
    }
}

/// What the agent is, and where.
pub open spec fn status_left(app: App) -> LineView {
    let dim = coloured(app.theme.dim);
    let look = Style { bold: true, ..coloured(mode_look(app.theme, app.mode)) };
    let here: LineView = seq![
        (" ◆ "@, look),
        (mode_name(app.mode), look),
        ("  "@, dim),
        (
            short_path_text(app.workspace@, text::opt_view(app.home)),
            coloured(app.theme.text),
        ),
    ];
    match app.branch {
        Some(branch) => here.push(("  ▸ "@, dim)).push((branch@, coloured(app.theme.accent))),
        None => here,
    }
}

/// How full the context is.
pub open spec fn status_right(app: App) -> LineView {
    let window = model_entry(model_table(), app.model@).1;
    let (m, s) = percentage(app.context_tokens as nat, window as nat);
    let colour = if exceeds(m, s, 90) {
        app.theme.error
    } else if exceeds(m, s, 75) {
        app.theme.warning
    } else {
        app.theme.success
    };
    seq![
        (meter_text(m, s), coloured(colour)),
        (
            " "@ + tokens_text(app.context_tokens as nat) + " / "@ + tokens_text(window as nat)
                + " "@,
            coloured(app.theme.text),
        ),
        ("("@ + no_decimals(m, s) + "%) "@, coloured(app.theme.dim)),
    ]
}

/// What the agent has at hand.
pub open spec fn status_left_below(app: App) -> LineView {
    let dim = coloured(app.theme.dim);
    let own: LineView = seq![
        (" "@, dim),
        (app.model@, coloured(app.theme.tool)),
        ("  ·  "@ + text::decimal(app.tool_count as nat) + " tools"@, dim),
    ];
    let borrowed = if app.mcp_count > 0 {
        own.push(("  ·  "@ + text::decimal(app.mcp_count as nat) + " MCP"@, dim))
    } else {
        own
    };
    if app.subagent_count > 0 {
        borrowed.push(
            (
                "  ·  "@ + text::decimal(app.subagent_count as nat) + " agent"@ + plural(
                    app.subagent_count,
                ),
                dim,
            ),
        )
    } else {
        borrowed
    }
}

/// What is left to do, what it has cost, and what is going on.
pub open spec fn status_right_below(app: App) -> LineView {
    let dim = coloured(app.theme.dim);
    let none: LineView = Seq::empty();
    let todo = if left_to_do(app.todos@) > 0 {
        none.push(
            (
                "☐ "@ + text::decimal(left_to_do(app.todos@)) + " left  ·  "@,
                coloured(app.theme.accent),
            ),
        )
    } else {
        none
    };
    let cost = if app.usage.total_tokens > 0 {
        todo.push((tokens_text(app.usage.total_tokens as nat) + " used  ·  "@, dim))
    } else {
        todo
    };
    if app.busy {
        cost.push(
            (
                spinner_frame(app.spinner_frame as nat) + " working "@,
                coloured(app.theme.warning),
            ),
        )
    } else if app.status@.len() > 0 {
        cost.push((app.status@ + " "@, coloured(app.theme.warning)))
    } else {
        cost.push(("? /help "@, dim))
    }
}

/// The columns that spans take up, or the greatest number that can be held.
fn columns(spans: &Vec<Span>) -> (r: usize)
    ensures
        r == capped(spans_width(span_views(spans@))),
{
    let ghost all = span_views(spans@);
    let mut n: usize = 0;
    let mut i: usize = 0;
    while i < spans.len()
        invariant
            i <= spans.len(),
            all == span_views(spans@),
            n == capped(spans_width(all.take(i as int))),
        decreases spans.len() - i,
    {
        assert(all.take(i + 1).drop_last() =~= all.take(i as int));
        assert(all[i as int] == spans@[i as int]@);
        n = plus(n, display_width(&spans[i].content));
        i += 1;
    }
    assert(all.take(all.len() as int) =~= all);
    n
}

/// Push `right` against the right edge, padding between the two groups.
pub fn justify(left: Line, right: Line, width: usize) -> (r: Line)
    ensures
        r@ == justified(left@, right@, width as nat),
{
    let used: usize = plus(columns(&left.spans), columns(&right.spans));
    let gap: usize = if width > used {
        width - used
    } else {
        0
    };
    let mut row = left;
    let mut rest = right;
    row.push(&text::repeat(" ", gap), Style::plain());
    let ghost before = row@;
    let ghost added = rest@;
    row.spans.append(&mut rest.spans);
    assert(row@ =~= before + added);
    row
}

/// How many items of a list are not done.
fn pending(todos: &Vec<TodoItem>) -> (r: usize)
    ensures
        r == left_to_do(todos@),
{
    let mut n: usize = 0;
    let mut i: usize = 0;
    while i < todos.len()
        invariant
            i <= todos.len(),
            n <= i,
            n == left_to_do(todos@.take(i as int)),
        decreases todos.len() - i,
    {
        assert(todos@.take(i + 1).drop_last() =~= todos@.take(i as int));
        if todos[i].status != TodoStatus::Completed {
            n += 1;
        }
        i += 1;
    }
    assert(todos@.take(todos@.len() as int) =~= todos@);
    n
}

/// The first row of the status bar: what the agent is, where it works, and how
/// full the context is.
pub fn status_row(app: &App, width: u16) -> (r: Line)
    ensures
        r@ == justified(status_left(*app), status_right(*app), width as nat),
{
    let theme = &app.theme;
    let dim = Style::of(theme.dim);
    let look = Style::of(mode_colour(theme, app.mode)).bold();
    let mut left = pair(" ◆ ", look, app.mode.as_str(), look);
    left.push("  ", dim);
    left.push(&short_path(&app.workspace, &app.home), Style::of(theme.text));
    match &app.branch {
        Some(branch) => {
            left.push("  ▸ ", dim);
            left.push(branch, Style::of(theme.accent));
        },
        None => {},
    }
    assert(left@ =~= status_left(*app));

    let window: u64 = model_info(&app.model).context_window;
    proof {
        law_every_model_has_a_window(app.model@);
    }
    let x = percent(app.context_tokens, window);
    let colour = if is_over(x, 90) {
        theme.error
    } else if is_over(x, 75) {
        theme.warning
    } else {
        theme.success
    };
    let mut counts = " ".to_owned();
    counts.append(&format_tokens(app.context_tokens));
    counts.append(" / ");
    counts.append(&format_tokens(window));
    counts.append(" ");
    let mut share = "(".to_owned();
    share.append(&without_decimals(x));
    share.append("%) ");
    let mut right = pair(&meter(x), Style::of(colour), &counts, Style::of(theme.text));
    right.push(&share, dim);
    assert(right@ =~= status_right(*app));
    justify(left, right, width as usize)
}

/// The second row of the status bar: what the agent has at hand, and what it
/// has cost.
pub fn status_row_below(app: &App, width: u16) -> (r: Line)
    ensures
        r@ == justified(status_left_below(*app), status_right_below(*app), width as nat),
{
    let theme = &app.theme;
    let dim = Style::of(theme.dim);
    let mut left = pair(" ", dim, &app.model, Style::of(theme.tool));
    left.push(&counted("  ·  ", app.tool_count, " tools"), dim);
    if app.mcp_count > 0 {
        left.push(&counted("  ·  ", app.mcp_count, " MCP"), dim);
    }
    if app.subagent_count > 0 {
        left.push(&counted_plural("  ·  ", app.subagent_count, " agent"), dim);
    }
    assert(left@ =~= status_left_below(*app));

    let mut right = Line::empty();
    let todo: usize = pending(&app.todos);
    if todo > 0 {
        right.push(&counted("☐ ", todo, " left  ·  "), Style::of(theme.accent));
    }
    if app.usage.total_tokens > 0 {
        let mut cost = format_tokens(app.usage.total_tokens);
        cost.append(" used  ·  ");
        right.push(&cost, dim);
    }
    if app.busy {
        let mut t = app.spinner().to_owned();
        t.append(" working ");
        right.push(&t, Style::of(theme.warning));
    } else if text::chars_of(&app.status).len() > 0 {
        let mut t = app.status.clone();
        t.append(" ");
        right.push(&t, Style::of(theme.warning));
    } else {
        right.push("? /help ", dim);
    }
    assert(right@ =~= status_right_below(*app));
    justify(left, right, width as usize)
}

// ---------------------------------------------------------------------------
// Overlays
// ---------------------------------------------------------------------------

/// The colour of a line of a preview.
pub open spec fn preview_look(theme: Theme, line: Seq<char>) -> Color {
    if line.len() > 0 && line[0] == '+' {
        theme.added
    } else if line.len() > 0 && line[0] == '-' {
        theme.removed
    } else {
        theme.dim
    }
}

/// The first lines of a preview.
pub open spec fn preview_rows(theme: Theme, segments: Seq<Seq<char>>, rows: nat) -> Seq<LineView> {
    Seq::new(
        if segments.len() > rows {
            rows
        } else {
            segments.len()
        },
        |i: int| seq![(segments[i], coloured(preview_look(theme, segments[i])))],
    )
}

/// The choices that a permission prompt offers.
pub open spec fn choices(theme: Theme) -> LineView {
    let yes = Style { bold: true, ..coloured(theme.success) };
    let no = Style { bold: true, ..coloured(theme.error) };
    let dim = coloured(theme.dim);
    seq![
        ("y"@, yes),
        (" allow once   "@, dim),
        ("a"@, yes),
        (" allow for this session   "@, dim),
        ("n"@, no),
        (" decline"@, dim),
    ]
}

/// The rows of a preview that a permission prompt has room for.
pub open spec fn preview_room(height: u16) -> nat {
    if height > 8 {
        (height - 8) as nat
    } else {
        0
    }
}

/// What a permission prompt shows. The user approves a change, not a filename.
pub open spec fn permission_rows(theme: Theme, request: RequestView, height: u16) -> Seq<LineView> {
    let head: Seq<LineView> = seq![
        seq![(request.summary, Style { bold: true, ..coloured(theme.text) })],
        Seq::<SpanView>::empty(),
    ];
    let body: Seq<LineView> = match request.preview {
        Some(preview) => preview_rows(theme, text::lines_of(preview), preview_room(height)).push(
            Seq::empty(),
        ),
        None => if request.argument.len() > 0 {
            indented_lines(
                text::lines_of(request.argument),
                "  "@,
                MAX_ARGUMENT_LINES as nat,
                coloured(theme.code),
            ).push(Seq::empty())
        } else {
            Seq::empty()
        },
    };
    (head + body).push(choices(theme))
}

/// The first lines of a preview.
fn preview_lines(theme: &Theme, t: &str, rows: usize) -> (r: Vec<Line>)
    ensures
        line_views(r@) == preview_rows(*theme, text::lines_of(t@), rows as nat),
{
    let segments = text::lines(t);
    let ghost all = text::lines_of(t@);
    let ghost want = preview_rows(*theme, all, rows as nat);
    let mut out: Vec<Line> = Vec::new();
    let mut i: usize = 0;
    assert(line_views(out@) =~= want.take(0));
    while i < segments.len() && i < rows
        invariant
            i <= segments.len(),
            i <= rows,
            all == text::views(segments@),
            want == preview_rows(*theme, all, rows as nat),
            line_views(out@) == want.take(i as int),
        decreases segments.len() - i,
    {
        assert(all[i as int] == segments@[i as int]@);
        let v = text::chars_of(&segments[i]);
        let colour = if v.len() > 0 && v[0] == '+' {
            theme.added
        } else if v.len() > 0 && v[0] == '-' {
            theme.removed
        } else {
            theme.dim
        };
        push_line(&mut out, Line::of(&segments[i], Style::of(colour)));
        i += 1;
        assert(line_views(out@) =~= want.take(i as int));
    }
    assert(want.take(want.len() as int) =~= want);
    out
}

/// What a permission prompt shows, in a box of a height.
pub fn permission_lines(theme: &Theme, request: &PermissionRequest, height: u16) -> (r: Vec<Line>)
    ensures
        line_views(r@) == permission_rows(*theme, request_view(*request), height),
{
    let ghost want = permission_rows(*theme, request_view(*request), height);
    let dim = Style::of(theme.dim);
    let yes = Style::of(theme.success).bold();
    let mut lines: Vec<Line> = Vec::new();
    assert(line_views(lines@) =~= Seq::<LineView>::empty());
    push_line(&mut lines, Line::of(&request.summary, Style::of(theme.text).bold()));
    push_line(&mut lines, Line::empty());
    match &request.preview {
        Some(preview) => {
            let rows: usize = if height > 8 {
                (height - 8) as usize
            } else {
                0
            };
            let mut body = preview_lines(theme, preview, rows);
            push_line(&mut body, Line::empty());
            extend(&mut lines, body);
        },
        None => if text::chars_of(&request.argument).len() > 0 {
            let mut body = indent_lines(
                &request.argument,
                "  ",
                MAX_ARGUMENT_LINES,
                Style::of(theme.code),
            );
            push_line(&mut body, Line::empty());
            extend(&mut lines, body);
        },
    }
    let mut last = pair("y", yes, " allow once   ", dim);
    last.push("a", yes);
    last.push(" allow for this session   ", dim);
    last.push("n", Style::of(theme.error).bold());
    last.push(" decline", dim);
    assert(last@ =~= choices(*theme));
    push_line(&mut lines, last);
    assert(line_views(lines@) =~= want);
    lines
}

/// A row of a list to choose from.
pub open spec fn choice_row(
    theme: Theme,
    chosen: bool,
    label: Seq<char>,
    width: nat,
    detail: Seq<char>,
) -> LineView {
    let style = if chosen {
        Style { bold: true, ..coloured(theme.accent) }
    } else {
        coloured(theme.text)
    };
    seq![
        (
            if chosen {
                "▸ "@
            } else {
                "  "@
            },
            style,
        ),
        (text::left_aligned(label, width), style),
        (detail, coloured(theme.dim)),
    ]
}

/// A row of a list to choose from.
fn choice_line(theme: &Theme, chosen: bool, label: &str, width: usize, detail: &str) -> (r: Line)
    ensures
        r@ == choice_row(*theme, chosen, label@, width as nat, detail@),
{
    let style = if chosen {
        Style::of(theme.accent).bold()
    } else {
        Style::of(theme.text)
    };
    let mark = if chosen {
        "▸ "
    } else {
        "  "
    };
    let mut line = pair(mark, style, &text::pad_right(label, width), style);
    line.push(detail, Style::of(theme.dim));
    line
}

/// The height of the palette: its border and at most twelve entries.
pub open spec fn palette_height(entries: nat) -> u16 {
    if entries > 12 {
        14
    } else {
        (entries + 2) as u16
    }
}

/// The first entry of the palette that is shown.
pub open spec fn palette_from(entries: nat, selected: usize) -> nat {
    let room = if palette_height(entries) > 3 {
        palette_height(entries) - 3
    } else {
        0
    };
    if selected > room {
        (selected - room) as nat
    } else {
        0
    }
}

/// Where the palette stands: just above the input box, since it is a completion
/// list for what is being typed.
pub open spec fn palette_place(full: Area, entries: nat) -> Area {
    let height = palette_height(entries);
    Area {
        x: if full.x > u16::MAX - 2 {
            u16::MAX
        } else {
            (full.x + 2) as u16
        },
        y: if full.height > height + 5 {
            (full.height - height - 4) as u16
        } else {
            1
        },
        width: if full.width > 80 {
            76
        } else if full.width > 4 {
            (full.width - 4) as u16
        } else {
            0
        },
        height,
    }
}

/// Where the palette stands.
pub fn palette_area(full: Area, entries: usize) -> (r: Area)
    ensures
        r == palette_place(full, entries as nat),
{
    let height: u16 = if entries > 12 {
        14
    } else {
        entries as u16 + 2
    };
    Area {
        x: if full.x > u16::MAX - 2 {
            u16::MAX
        } else {
            full.x + 2
        },
        y: if full.height > height + 5 {
            full.height - height - 4
        } else {
            1
        },
        width: if full.width > 80 {
            76
        } else if full.width > 4 {
            full.width - 4
        } else {
            0
        },
        height,
    }
}

/// What the palette shows.
pub open spec fn palette_rows(theme: Theme, entries: Seq<CommandView>, selected: usize) -> Seq<
    LineView,
> {
    let from = palette_from(entries.len(), selected);
    Seq::new(
        if entries.len() > from {
            (entries.len() - from) as nat
        } else {
            0
        },
        |i: int|
            choice_row(
                theme,
                from + i == selected,
                displayed(entries[from + i]),
                24,
                entries[from + i].description,
            ),
    )
}

/// What the palette shows.
pub fn palette_lines(theme: &Theme, entries: &Vec<SlashCommand>, selected: usize) -> (r: Vec<Line>)
    ensures
        line_views(r@) == palette_rows(*theme, command_views(entries@), selected),
{
    let ghost all = command_views(entries@);
    let ghost want = palette_rows(*theme, all, selected);
    let n: usize = entries.len();
    let height: usize = if n > 12 {
        14
    } else {
        n + 2
    };
    let room: usize = if height > 3 {
        height - 3
    } else {
        0
    };
    let from: usize = if selected > room {
        selected - room
    } else {
        0
    };
    let mut out: Vec<Line> = Vec::new();
    let mut i: usize = from;
    assert(line_views(out@) =~= want.take(0));
    while i < n
        invariant
            from <= i,
            i <= n || i == from,
            n == entries@.len(),
            from == palette_from(all.len(), selected),
            all == command_views(entries@),
            want == palette_rows(*theme, all, selected),
            line_views(out@) == want.take(i - from),
        decreases n - i,
    {
        assert(all[i as int] == entries@[i as int]@);
        let command = &entries[i];
        push_line(
            &mut out,
            choice_line(theme, i == selected, &command.display(), 24, &command.description),
        );
        assert(want[i - from] == choice_row(
            *theme,
            i == selected,
            displayed(all[i as int]),
            24,
            all[i as int].description,
        ));
        i += 1;
        assert(line_views(out@) =~= want.take(i - from));
    }
    assert(want.take(want.len() as int) =~= want);
    out
}

/// The first entry of a picker that is shown.
pub open spec fn picker_from(rows: nat, selected: usize) -> nat {
    let room = if rows > 1 {
        rows - 1
    } else {
        0
    };
    if selected > room {
        (selected - room) as nat
    } else {
        0
    }
}

/// What a picker shows.
pub open spec fn picker_rows(
    theme: Theme,
    entries: Seq<EntryView>,
    selected: usize,
    rows: nat,
) -> Seq<LineView> {
    let from = picker_from(rows, selected);
    Seq::new(
        if entries.len() <= from {
            0
        } else if entries.len() - from > rows {
            rows
        } else {
            (entries.len() - from) as nat
        },
        |i: int|
            choice_row(
                theme,
                from + i == selected,
                entries[from + i].label,
                34,
                entries[from + i].detail,
            ),
    )
}

/// What a picker shows, in a box of a height.
pub fn picker_lines(
    theme: &Theme,
    entries: &Vec<PickerEntry>,
    selected: usize,
    height: u16,
) -> (r: Vec<Line>)
    ensures
        line_views(r@) == picker_rows(
            *theme,
            entry_views(entries@),
            selected,
            inner_height(height) as nat,
        ),
{
    let ghost all = entry_views(entries@);
    let ghost want = picker_rows(*theme, all, selected, inner_height(height) as nat);
    let rows: usize = if height > 2 {
        (height - 2) as usize
    } else {
        0
    };
    let room: usize = if rows > 1 {
        rows - 1
    } else {
        0
    };
    let from: usize = if selected > room {
        selected - room
    } else {
        0
    };
    let mut out: Vec<Line> = Vec::new();
    let mut i: usize = from;
    assert(line_views(out@) =~= want.take(0));
    while i < entries.len() && i - from < rows
        invariant
            from <= i,
            i <= entries@.len() || i == from,
            i - from <= rows,
            rows == inner_height(height),
            from == picker_from(rows as nat, selected),
            all == entry_views(entries@),
            want == picker_rows(*theme, all, selected, rows as nat),
            line_views(out@) == want.take(i - from),
        decreases entries.len() - i,
    {
        assert(all[i as int] == entries@[i as int]@);
        let entry = &entries[i];
        push_line(&mut out, choice_line(theme, i == selected, &entry.label, 34, &entry.detail));
        assert(want[i - from] == choice_row(
            *theme,
            i == selected,
            all[i as int].label,
            34,
            all[i as int].detail,
        ));
        i += 1;
        assert(line_views(out@) =~= want.take(i - from));
    }
    assert(want.take(want.len() as int) =~= want);
    out
}

// ---------------------------------------------------------------------------
// Laws
// ---------------------------------------------------------------------------

/// Redrawing does not move the view: measuring the same transcript again in the
/// same box changes nothing.
pub proof fn law_redrawing_keeps_the_view(a: AppView, rows: nat, height: u16)
    ensures
        measured(measured(a, rows, height), rows, height) == measured(a, rows, height),
{
}

/// A view that the user has scrolled to stays where it is, as long as it lies
/// within the transcript.
pub proof fn law_pinned_views_survive_a_redraw(a: AppView, rows: nat, height: u16)
    requires
        a.scroll_locked,
        a.scroll < u16::MAX,
        a.scroll <= furthest(measured(a, rows, height)),
    ensures
        measured(a, rows, height).scroll == a.scroll,
{
}

/// However far the view is scrolled, the last row of the transcript can be
/// reached, and nothing beyond it.
pub proof fn law_the_view_stays_within(a: AppView, rows: nat, height: u16)
    ensures
        measured(a, rows, height).scroll <= furthest(measured(a, rows, height)),
        !a.scroll_locked ==> measured(a, rows, height).scroll == furthest(
            measured(a, rows, height),
        ),
        rows <= u16::MAX && rows >= inner_height(height) ==> furthest(measured(a, rows, height))
            + inner_height(height) == rows,
{
}

/// The selected entry of the palette is among those its box has room for.
pub proof fn law_the_selected_command_is_shown(entries: nat, selected: usize)
    requires
        selected < entries,
    ensures
        palette_from(entries, selected) <= selected < palette_from(entries, selected)
            + palette_height(entries) - 2,
{
}

/// The selected entry of a picker is shown wherever there is room for one.
pub proof fn law_the_selected_entry_is_shown(
    theme: Theme,
    entries: Seq<EntryView>,
    selected: usize,
    rows: nat,
)
    requires
        selected < entries.len(),
        rows > 0,
    ensures
        ({
            let at = selected - picker_from(rows, selected);
            &&& 0 <= at < picker_rows(theme, entries, selected, rows).len()
            &&& picker_rows(theme, entries, selected, rows)[at] == choice_row(
                theme,
                true,
                entries[selected as int].label,
                34,
                entries[selected as int].detail,
            )
        }),
{
}

/// Characters that common terminal fonts cannot draw: miscellaneous technical
/// symbols and braille.
pub open spec fn is_undrawable(c: char) -> bool {
    '\u{2300}' <= c <= '\u{23FF}' || '\u{2800}' <= c <= '\u{28FF}'
}

/// The marks that are on the screen all the time can be drawn.
pub proof fn law_marks_can_be_drawn(n: nat)
    ensures
        !is_undrawable(DETAIL_PREFIX),
        forall|i: int|
            0 <= i < spinner_frame(n).len() ==> !is_undrawable(#[trigger] spinner_frame(n)[i]),
{
    reveal_strlit("◐");
    reveal_strlit("◓");
    reveal_strlit("◑");
    reveal_strlit("◒");
}

/// Running without safety checks is never quiet: the idle input box says so,
/// in the colour of errors.
pub proof fn law_bypassing_is_announced(theme: Theme, mode: PermissionMode)
    ensures
        mode == PermissionMode::BypassPermissions ==> input_look(theme, false, mode) == (
            theme.error,
            " permissions bypassed "@,
        ) && mode_look(theme, mode) == theme.error,
{
}

} // verus!
