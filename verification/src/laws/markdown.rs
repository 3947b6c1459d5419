//! What a rendered document shows.
use vstd::prelude::*;
use crate::text;
use crate::tui::markdown::{
    coloured, document_lines, flushed, handled, indent_of, is_blank, line_text, walked,
    with_segments, with_text, without_trailing_blanks, ElementView, Ending, LineView, PieceView,
    Rendered, Style, Theme,
};

verus! {

/// The lines that are done, once the current one is, where something is on it.
pub open spec fn done(s: Rendered) -> Seq<LineView> {
    if s.current.len() > 0 {
        s.lines.push(s.current)
    } else {
        s.lines
    }
}

/// Whether an element is a block of its own.
pub open spec fn starts_block(e: ElementView) -> bool {
    match e {
        ElementView::Paragraph
        | ElementView::Heading(_)
        | ElementView::BlockQuote
        | ElementView::CodeBlock(_)
        | ElementView::List(_)
        | ElementView::Item
        | ElementView::Table
        | ElementView::TableHead
        | ElementView::TableRow => true,
        _ => false,
    }
}

/// Whether what ends is a block of its own.
pub open spec fn ends_block(e: Ending) -> bool {
    match e {
        Ending::Paragraph
        | Ending::Heading
        | Ending::BlockQuote
        | Ending::CodeBlock
        | Ending::List
        | Ending::Item
        | Ending::TableHead
        | Ending::TableRow => true,
        _ => false,
    }
}

/// A block ends the line that precedes it, and stands on lines of its own: where
/// it starts and where it ends, the current line is done and kept.
pub proof fn law_blocks_stand_on_their_own_lines(
    s: Rendered,
    e: ElementView,
    end: Ending,
    theme: Theme,
)
    ensures
        starts_block(e) ==> {
            let r = handled(s, PieceView::Start(e), theme);
            &&& r.current.len() == 0
            &&& r.lines.len() >= done(s).len()
            &&& r.lines.take(done(s).len() as int) == done(s)
            &&& r.lines.len() <= done(s).len() + 2
        },
        ends_block(end) ==> {
            let r = handled(s, PieceView::End(end), theme);
            &&& r.current.len() == 0
            &&& r.lines == done(s)
        },
        handled(s, PieceView::HardBreak, theme).current.len() == 0,
        handled(s, PieceView::HardBreak, theme).lines == done(s),
{
    let d = done(s).len() as int;
    if starts_block(e) {
        let r = handled(s, PieceView::Start(e), theme);
        assert(r.lines.take(d) =~= done(s));
    }
}

/// Between paragraphs, headings, quotes, code and lists there is a blank line,
/// and only one. None is put at the beginning.
pub proof fn law_blocks_are_set_apart(s: Rendered, e: ElementView, theme: Theme)
    requires
        e is Paragraph || e is Heading || e is BlockQuote || (e is List && s.lists.len() == 0) || (
        e is CodeBlock && !(e->CodeBlock_0 matches Some(name) && name.len() > 0)),
    ensures
        handled(s, PieceView::Start(e), theme).lines == if done(s).len() == 0 || is_blank(
            done(s).last(),
        ) {
            done(s)
        } else {
            done(s).push(Seq::empty())
        },
{
}

/// The lines of a table, of an item and of a list within a list follow each other
/// without a gap.
pub proof fn law_rows_and_items_follow_each_other(s: Rendered, e: ElementView, theme: Theme)
    requires
        e is Table || e is TableHead || e is TableRow || e is Item || (e is List && s.lists.len()
            > 0),
    ensures
        handled(s, PieceView::Start(e), theme).lines == done(s),
{
}

// ---------------------------------------------------------------------------
// Text
// ---------------------------------------------------------------------------

/// What a line begins with: a gutter for each quote it stands in, and two spaces
/// for each list around its list.
pub open spec fn gutter(s: Rendered) -> Seq<char> {
    let quotes = text::joined(Seq::new(s.quotes as nat, |i: int| "│ "@), Seq::empty());
    let depth = if s.lists.len() > 1 {
        (s.lists.len() - 1) as nat
    } else {
        0
    };
    quotes + Seq::new(2 * depth, |i: int| ' ')
}

proof fn lemma_repeated(t: Seq<char>, n: nat)
    ensures
        text::repeated(t, n) == text::joined(Seq::new(n, |i: int| t), Seq::empty()),
    decreases n,
{
    let all = Seq::new(n, |i: int| t);
    if n > 0 {
        let k = (n - 1) as nat;
        lemma_repeated(t, k);
        assert(all.drop_last() =~= Seq::new(k, |i: int| t));
        if n == 1 {
            assert(text::repeated(t, 0) + t =~= t);
        } else {
            assert(text::joined(all, Seq::empty()) =~= text::repeated(t, k) + t);
        }
    }
}

proof fn lemma_spaces(n: nat)
    ensures
        text::repeated("  "@, n) == Seq::new(2 * n, |i: int| ' '),
    decreases n,
{
    reveal_strlit("  ");
    if n > 0 {
        lemma_spaces((n - 1) as nat);
        assert(text::repeated("  "@, n) =~= Seq::new(2 * n, |i: int| ' '));
    } else {
        assert(text::repeated("  "@, n) =~= Seq::new(2 * n, |i: int| ' '));
    }
}

proof fn lemma_gutter(s: Rendered)
    ensures
        indent_of(s) == gutter(s),
{
    lemma_repeated("│ "@, s.quotes as nat);
    lemma_spaces(
        if s.lists.len() > 0 {
            (s.lists.len() - 1) as nat
        } else {
            0
        },
    );
}

/// A marker that is due, as text.
pub open spec fn due(s: Rendered) -> Seq<char> {
    match s.marker {
        Some(m) => m,
        None => Seq::empty(),
    }
}

/// Text goes on the current line, in the style in force. Where nothing is on the
/// line yet, the gutter and the marker of an item go before it, and the marker is
/// shown once.
pub proof fn law_text_is_shown(s: Rendered, t: Seq<char>, p: PieceView, theme: Theme)
    requires
        t.len() > 0,
        !t.contains('\n'),
        p == PieceView::Text(t) || p == PieceView::InlineMath(t) || p == PieceView::DisplayMath(t),
    ensures
        ({
            let r = handled(s, p, theme);
            &&& r.lines == s.lines
            &&& r.styles == s.styles
            &&& r.lists == s.lists
            &&& r.quotes == s.quotes
            &&& r.current.len() > 0
            &&& r.current.last() == (t, s.styles.last())
            &&& s.current.len() > 0 ==> r.current == s.current.push((t, s.styles.last()))
                && r.marker == s.marker
            &&& s.current.len() == 0 ==> line_text(r.current) == gutter(s) + due(s) + t
                && r.marker is None
        }),
{
    text::lemma_pieces_single(t, '\n');
    lemma_gutter(s);
    let r = handled(s, p, theme);
    assert(seq![t].drop_last() =~= Seq::<Seq<char>>::empty());
    assert(with_segments(s, seq![t].drop_last(), theme) == s);
    lemma_line_text_push(r.current.drop_last(), r.current.last());
    assert(r.current.drop_last().push(r.current.last()) =~= r.current);
    if s.current.len() == 0 {
        let none: LineView = Seq::empty();
        assert(s.current =~= none);
        let at = crate::tui::markdown::opened(s, theme);
        assert(r.current.drop_last() =~= at.current);
        lemma_opened_text(s, theme);
        assert(line_text(r.current) =~= gutter(s) + due(s) + t);
    }
}

proof fn lemma_line_text_push(line: LineView, span: (Seq<char>, Style))
    ensures
        line_text(line.push(span)) == line_text(line) + span.0,
{
    assert(line.push(span).drop_last() =~= line);
}

proof fn lemma_opened_text(s: Rendered, theme: Theme)
    requires
        s.current.len() == 0,
    ensures
        line_text(crate::tui::markdown::opened(s, theme).current) == gutter(s) + due(s),
        crate::tui::markdown::opened(s, theme).marker is None,
{
    lemma_gutter(s);
    let none: LineView = Seq::empty();
    assert(s.current =~= none);
    assert(line_text(none) =~= Seq::<char>::empty());
    let i = crate::tui::markdown::indented(s, theme);
    if indent_of(s).len() > 0 {
        lemma_line_text_push(none, (indent_of(s), coloured(theme.dim)));
    }
    assert(line_text(i.current) =~= gutter(s));
    match i.marker {
        Some(m) => {
            lemma_line_text_push(i.current, (m, coloured(theme.accent)));
        },
        None => {},
    }
    assert(line_text(crate::tui::markdown::opened(s, theme).current) =~= gutter(s) + due(s));
}

proof fn lemma_segments_split(
    s: Rendered,
    a: Seq<Seq<char>>,
    b: Seq<Seq<char>>,
    theme: Theme,
)
    requires
        a.len() > 0,
        b.len() > 0,
    ensures
        with_segments(s, a + b, theme) == with_segments(
            flushed(with_segments(s, a, theme)),
            b,
            theme,
        ),
    decreases b.len(),
{
    let all = a + b;
    assert(all.drop_last() =~= a + b.drop_last());
    if b.len() == 1 {
        assert(a + b.drop_last() =~= a);
        assert(b.drop_last() =~= Seq::<Seq<char>>::empty());
        let mid = flushed(with_segments(s, a, theme));
        assert(with_segments(mid, b.drop_last(), theme) == mid);
    } else {
        lemma_segments_split(s, a, b.drop_last(), theme);
    }
}

/// A line break within a text ends the line.
pub proof fn law_line_breaks_are_shown(s: Rendered, a: Seq<char>, b: Seq<char>, theme: Theme)
    ensures
        ({
            let mid = handled(s, PieceView::Text(a), theme);
            let next = Rendered {
                lines: mid.lines.push(mid.current),
                current: Seq::empty(),
                ..mid
            };
            handled(s, PieceView::Text(a.push('\n') + b), theme) == handled(
                next,
                PieceView::Text(b),
                theme,
            )
        }),
{
    text::lemma_pieces_concat(a, b, '\n');
    text::lemma_pieces_nonempty(a, '\n');
    text::lemma_pieces_nonempty(b, '\n');
    lemma_segments_split(s, text::pieces(a, '\n'), text::pieces(b, '\n'), theme);
}

/// Code within a line goes on the current line, in the colour of code.
pub proof fn law_code_is_shown(s: Rendered, t: Seq<char>, theme: Theme)
    ensures
        ({
            let r = handled(s, PieceView::Code(t), theme);
            &&& r.lines == s.lines
            &&& r.styles == s.styles
            &&& r.current.len() > 0
            &&& r.current.last() == (t, coloured(theme.code))
            &&& s.current.len() > 0 ==> r.current == s.current.push((t, coloured(theme.code)))
            &&& s.current.len() == 0 ==> line_text(r.current) == gutter(s) + t
        }),
{
    lemma_gutter(s);
    let r = handled(s, PieceView::Code(t), theme);
    let none: LineView = Seq::empty();
    assert(line_text(none) =~= Seq::<char>::empty());
    if s.current.len() == 0 {
        assert(s.current =~= none);
        if indent_of(s).len() > 0 {
            lemma_line_text_push(none, (indent_of(s), coloured(theme.dim)));
        }
    }
    lemma_line_text_push(r.current.drop_last(), r.current.last());
    assert(r.current.drop_last().push(r.current.last()) =~= r.current);
    if s.current.len() == 0 {
        let i = crate::tui::markdown::indented(s, theme);
        assert(r.current.drop_last() =~= i.current);
        assert(line_text(i.current) =~= gutter(s));
        assert(line_text(r.current) =~= gutter(s) + t);
    }
}

/// A soft break is a space.
pub proof fn law_soft_breaks_are_spaces(s: Rendered, theme: Theme)
    ensures
        handled(s, PieceView::SoftBreak, theme) == handled(
            s,
            PieceView::Text(seq![' ']),
            theme,
        ),
{
    assert(" "@ == seq![' ']) by {
        reveal_strlit(" ");
    }
}

/// A task has a box before it, ticked where it is done.
pub proof fn law_tasks_have_boxes(s: Rendered, done: bool, theme: Theme)
    ensures
        handled(s, PieceView::TaskMarker(done), theme) == handled(
            s,
            PieceView::Text(
                if done {
                    seq!['[', 'x', ']', ' ']
                } else {
                    seq!['[', ' ', ']', ' ']
                },
            ),
            theme,
        ),
{
    assert("[x] "@ == seq!['[', 'x', ']', ' ']) by {
        reveal_strlit("[x] ");
    }
    assert("[ ] "@ == seq!['[', ' ', ']', ' ']) by {
        reveal_strlit("[ ] ");
    }
}

/// A reference to a footnote is shown by its name.
pub proof fn law_footnotes_are_named(s: Rendered, name: Seq<char>, theme: Theme)
    ensures
        handled(s, PieceView::Footnote(name), theme) == handled(
            s,
            PieceView::Text(seq!['[', '^'] + name + seq![']']),
            theme,
        ),
{
    assert("[^"@ == seq!['[', '^']) by {
        reveal_strlit("[^");
    }
    assert("]"@ == seq![']']) by {
        reveal_strlit("]");
    }
}

/// HTML is not shown.
pub proof fn law_html_is_dropped(s: Rendered, theme: Theme)
    ensures
        handled(s, PieceView::Html, theme) == s,
        handled(s, PieceView::InlineHtml, theme) == s,
{
}

/// A cell of a table has a bar before it.
pub proof fn law_cells_have_bars(s: Rendered, theme: Theme)
    ensures
        handled(s, PieceView::Start(ElementView::TableCell), theme) == handled(
            s,
            PieceView::Text(seq![' ', '│', ' ']),
            theme,
        ),
{
    assert(" │ "@ == seq![' ', '│', ' ']) by {
        reveal_strlit(" │ ");
    }
}

/// A rule is a line of its own, drawn across.
pub proof fn law_rules_are_drawn(s: Rendered, theme: Theme)
    ensures
        ({
            let r = handled(s, PieceView::Rule, theme);
            let before = if done(s).len() == 0 || is_blank(done(s).last()) {
                done(s)
            } else {
                done(s).push(Seq::empty())
            };
            &&& r.current.len() == 0
            &&& r.lines.len() > before.len()
            &&& r.lines.take(before.len() as int) == before
            &&& line_text(r.lines[before.len() as int]) == Seq::new(40, |i: int| '─')
        }),
{
    let r = handled(s, PieceView::Rule, theme);
    let before = if done(s).len() == 0 || is_blank(done(s).last()) {
        done(s)
    } else {
        done(s).push(Seq::empty())
    };
    assert(r.lines.take(before.len() as int) =~= before);
    reveal_strlit("─");
    lemma_dashes(40);
    let none: LineView = Seq::empty();
    let span = (text::repeated("─"@, 40), coloured(theme.dim));
    lemma_line_text_push(none, span);
    assert(line_text(none) =~= Seq::<char>::empty());
    assert(none.push(span) =~= seq![span]);
    assert(line_text(seq![span]) =~= span.0);
}

proof fn lemma_dashes(n: nat)
    ensures
        text::repeated("─"@, n) == Seq::new(n, |i: int| '─'),
    decreases n,
{
    reveal_strlit("─");
    if n > 0 {
        lemma_dashes((n - 1) as nat);
    }
    assert(text::repeated("─"@, n) =~= Seq::new(n, |i: int| '─'));
}

// ---------------------------------------------------------------------------
// Styles, lists and quotes
// ---------------------------------------------------------------------------

/// What an element does to the style of the text in it: strong text is bold,
/// emphasis is in italics, and so on, on top of the style around it.
pub proof fn law_elements_add_to_the_style(s: Rendered, level: u8, theme: Theme)
    ensures
        ({
            let around = s.styles.last();
            let within = |e: ElementView| handled(s, PieceView::Start(e), theme).styles;
            &&& within(ElementView::Strong) == s.styles.push(Style { bold: true, ..around })
            &&& within(ElementView::Emphasis) == s.styles.push(Style { italic: true, ..around })
            &&& within(ElementView::Strikethrough) == s.styles.push(
                Style { crossed_out: true, ..around },
            )
            &&& within(ElementView::Link) == s.styles.push(
                Style { fg: Some(theme.accent), underlined: true, ..around },
            )
            &&& within(ElementView::BlockQuote) == s.styles.push(
                Style { fg: Some(theme.dim), italic: true, ..around },
            )
            &&& within(ElementView::CodeBlock(None)) == s.styles.push(
                Style { fg: Some(theme.code), ..around },
            )
            &&& within(ElementView::Heading(level)) == s.styles.push(
                Style {
                    fg: Some(theme.accent),
                    bold: true,
                    underlined: around.underlined || level <= 2,
                    ..around
                },
            )
            &&& within(ElementView::Paragraph) == s.styles
            &&& within(ElementView::Item) == s.styles
            &&& within(ElementView::TableRow) == s.styles
        }),
{
}

/// The ending of an element.
pub open spec fn ending_of(e: ElementView) -> Ending {
    match e {
        ElementView::Paragraph => Ending::Paragraph,
        ElementView::Heading(_) => Ending::Heading,
        ElementView::BlockQuote => Ending::BlockQuote,
        ElementView::CodeBlock(_) => Ending::CodeBlock,
        ElementView::List(_) => Ending::List,
        ElementView::Item => Ending::Item,
        ElementView::Emphasis => Ending::Emphasis,
        ElementView::Strong => Ending::Strong,
        ElementView::Strikethrough => Ending::Strikethrough,
        ElementView::Link => Ending::Link,
        ElementView::TableHead => Ending::TableHead,
        ElementView::TableRow => Ending::TableRow,
        _ => Ending::Other,
    }
}

/// Whatever stands in an element, its style, its quote and its list end with it.
pub proof fn law_elements_end(s: Rendered, e: ElementView, inside: Rendered, theme: Theme)
    requires
        s.styles.len() > 0,
        s.quotes < u64::MAX,
        ({
            let opened = handled(s, PieceView::Start(e), theme);
            &&& inside.styles == opened.styles
            &&& inside.lists.len() == opened.lists.len()
            &&& inside.lists.drop_last() == opened.lists.drop_last()
            &&& inside.quotes == opened.quotes
        }),
        !(e is TableCell),
    ensures
        ({
            let r = handled(inside, PieceView::End(ending_of(e)), theme);
            &&& r.styles == s.styles
            &&& r.quotes == s.quotes
            &&& r.lists.len() == s.lists.len()
            &&& e is List ==> r.lists == s.lists && r.marker is None
        }),
{
    let opened = handled(s, PieceView::Start(e), theme);
    let r = handled(inside, PieceView::End(ending_of(e)), theme);
    assert(s.styles.push(opened.styles.last()).drop_last() =~= s.styles);
    if e is List {
        assert(opened.lists.drop_last() =~= s.lists);
        assert(r.lists =~= s.lists);
    }
    assert(r.styles =~= s.styles);
}

/// The items of a list with numbers are counted from its first number on, and
/// those of one without have a bullet.
pub proof fn law_items_are_marked(s: Rendered, theme: Theme)
    ensures
        ({
            let r = handled(s, PieceView::Start(ElementView::Item), theme);
            &&& s.lists.len() > 0 && s.lists.last() is Some && s.lists.last()->0 < u64::MAX ==> {
                &&& r.marker == Some(text::decimal(s.lists.last()->0 as nat) + seq!['.', ' '])
                &&& r.lists == s.lists.drop_last().push(Some((s.lists.last()->0 + 1) as u64))
            }
            &&& s.lists.len() > 0 && s.lists.last() is None ==> {
                &&& r.marker == Some(seq!['•', ' '])
                &&& r.lists == s.lists
            }
        }),
        forall|start: Option<u64>|
            (#[trigger] handled(s, PieceView::Start(ElementView::List(start)), theme)).lists
                == s.lists.push(start),
        s.quotes < u64::MAX ==> handled(
            s,
            PieceView::Start(ElementView::BlockQuote),
            theme,
        ).quotes == s.quotes + 1,
{
    reveal_strlit(". ");
    reveal_strlit("• ");
    assert(". "@ =~= seq!['.', ' ']);
    assert("• "@ =~= seq!['•', ' ']);
    let r = handled(s, PieceView::Start(ElementView::Item), theme);
    if s.lists.len() > 0 && s.lists.last() is Some && s.lists.last()->0 < u64::MAX {
        assert(r.lists =~= s.lists.drop_last().push(Some((s.lists.last()->0 + 1) as u64)));
    }
}

// ---------------------------------------------------------------------------
// Tables
// ---------------------------------------------------------------------------

/// Whether a piece stays on the line on which it stands.
pub open spec fn is_inline(p: PieceView) -> bool {
    match p {
        PieceView::Text(t) => !t.contains('\n'),
        PieceView::InlineMath(t) => !t.contains('\n'),
        PieceView::DisplayMath(t) => !t.contains('\n'),
        PieceView::Code(_) => true,
        PieceView::SoftBreak => true,
        PieceView::TaskMarker(_) => true,
        PieceView::Footnote(name) => !name.contains('\n'),
        PieceView::Html => true,
        PieceView::InlineHtml => true,
        PieceView::Start(e) => e is TableCell || e is Emphasis || e is Strong || e is Strikethrough
            || e is Link || e is Other,
        PieceView::End(e) => e is Emphasis || e is Strong || e is Strikethrough || e is Link
            || e is Other,
        _ => false,
    }
}

proof fn lemma_text_stays(s: Rendered, t: Seq<char>, theme: Theme)
    requires
        !t.contains('\n'),
    ensures
        ({
            let r = with_text(s, t, theme);
            &&& r.lines == s.lines
            &&& r.current.len() >= s.current.len()
            &&& r.current.take(s.current.len() as int) == s.current
            &&& t.len() > 0 ==> r.current.len() > 0
        }),
{
    text::lemma_pieces_single(t, '\n');
    assert(seq![t].drop_last() =~= Seq::<Seq<char>>::empty());
    assert(with_segments(s, seq![t].drop_last(), theme) == s);
    let r = with_text(s, t, theme);
    assert(r.current.take(s.current.len() as int) =~= s.current);
}

/// What stays on its line is added to the line, and ends no line.
pub proof fn law_inline_pieces_stay_on_the_line(s: Rendered, p: PieceView, theme: Theme)
    requires
        is_inline(p),
    ensures
        ({
            let r = handled(s, p, theme);
            &&& r.lines == s.lines
            &&& r.current.len() >= s.current.len()
            &&& r.current.take(s.current.len() as int) == s.current
            &&& p == PieceView::Start(ElementView::TableCell) ==> r.current.len() > 0
        }),
{
    let r = handled(s, p, theme);
    reveal_strlit(" ");
    reveal_strlit("[x] ");
    reveal_strlit("[ ] ");
    reveal_strlit("[^");
    reveal_strlit("]");
    reveal_strlit(" │ ");
    match p {
        PieceView::Text(t) => lemma_text_stays(s, t, theme),
        PieceView::InlineMath(t) => lemma_text_stays(s, t, theme),
        PieceView::DisplayMath(t) => lemma_text_stays(s, t, theme),
        PieceView::SoftBreak => lemma_text_stays(s, " "@, theme),
        PieceView::TaskMarker(_) => {
            lemma_text_stays(s, "[x] "@, theme);
            lemma_text_stays(s, "[ ] "@, theme);
        },
        PieceView::Footnote(name) => {
            let t = "[^"@ + name + "]"@;
            assert forall|i: int| 0 <= i < t.len() implies t[i] != '\n' by {
                if 2 <= i < 2 + name.len() {
                    assert(t[i] == name[i - 2]);
                    assert(name.contains(name[i - 2]));
                }
            }
            lemma_text_stays(s, t, theme);
        },
        PieceView::Start(ElementView::TableCell) => lemma_text_stays(s, " │ "@, theme),
        _ => {},
    }
    assert(r.current.take(s.current.len() as int) =~= s.current);
}

/// After several pieces.
pub open spec fn after(s: Rendered, pieces: Seq<PieceView>, theme: Theme) -> Rendered
    decreases pieces.len(),
{
    if pieces.len() == 0 {
        s
    } else {
        handled(after(s, pieces.drop_last(), theme), pieces.last(), theme)
    }
}

proof fn lemma_after(s: Rendered, a: Seq<PieceView>, b: Seq<PieceView>, theme: Theme)
    ensures
        after(s, a + b, theme) == after(after(s, a, theme), b, theme),
    decreases b.len(),
{
    if b.len() == 0 {
        assert(a + b =~= a);
    } else {
        lemma_after(s, a, b.drop_last(), theme);
        assert((a + b).drop_last() =~= a + b.drop_last());
    }
}

proof fn lemma_row_inside(s: Rendered, row: Seq<PieceView>, theme: Theme)
    requires
        forall|i: int| 0 <= i < row.len() ==> is_inline(#[trigger] row[i]),
    ensures
        after(s, row, theme).lines == s.lines,
        row.contains(PieceView::Start(ElementView::TableCell)) ==> after(
            s,
            row,
            theme,
        ).current.len() > 0,
    decreases row.len(),
{
    if row.len() > 0 {
        let front = row.drop_last();
        assert forall|i: int| 0 <= i < front.len() implies is_inline(#[trigger] front[i]) by {
            assert(is_inline(row[i]));
        }
        lemma_row_inside(s, front, theme);
        assert(is_inline(row[row.len() - 1]));
        law_inline_pieces_stay_on_the_line(after(s, front, theme), row.last(), theme);
        let cell = PieceView::Start(ElementView::TableCell);
        if row.contains(cell) && row.last() != cell {
            let i = choose|i: int| 0 <= i < row.len() && row[i] == cell;
            assert(front[i] == cell);
        }
    }
}

/// The pieces of a row: its beginning, what stands in it, and its end.
pub open spec fn row_pieces(head: bool, row: Seq<PieceView>) -> Seq<PieceView> {
    seq![
        PieceView::Start(
            if head {
                ElementView::TableHead
            } else {
                ElementView::TableRow
            },
        ),
    ] + row + seq![
        PieceView::End(
            if head {
                Ending::TableHead
            } else {
                Ending::TableRow
            },
        ),
    ]
}

/// Whether pieces stand in one row: a cell at least, and nothing that would end
/// the line.
pub open spec fn is_row(row: Seq<PieceView>) -> bool {
    &&& row.contains(PieceView::Start(ElementView::TableCell))
    &&& forall|i: int| 0 <= i < row.len() ==> is_inline(#[trigger] row[i])
}

/// Every row of a table stands on a line of its own: whatever precedes it ends
/// before it, and nothing that follows stands on its line.
pub proof fn law_rows_stand_on_their_own_lines(
    s: Rendered,
    head: bool,
    row: Seq<PieceView>,
    theme: Theme,
)
    requires
        is_row(row),
    ensures
        ({
            let r = after(s, row_pieces(head, row), theme);
            &&& r.current.len() == 0
            &&& r.lines.len() == done(s).len() + 1
            &&& r.lines.drop_last() == done(s)
            &&& r.lines.last().len() > 0
        }),
{
    let first = row_pieces(head, row)[0];
    let last = row_pieces(head, row).last();
    let a = seq![first] + row;
    assert(row_pieces(head, row).drop_last() =~= a);
    lemma_after(s, seq![first], row, theme);
    let begun = after(s, seq![first], theme);
    assert(seq![first].drop_last() =~= Seq::<PieceView>::empty());
    assert(after(s, seq![first].drop_last(), theme) == s);
    assert(begun == handled(s, first, theme));
    assert(begun.lines == done(s));
    lemma_row_inside(begun, row, theme);
    let r = after(s, row_pieces(head, row), theme);
    assert(r.lines.drop_last() =~= done(s));
}

/// The pieces of a table: a head and rows.
pub open spec fn table_pieces(rows: Seq<Seq<PieceView>>) -> Seq<PieceView>
    decreases rows.len(),
{
    if rows.len() == 0 {
        seq![PieceView::Start(ElementView::Table)]
    } else {
        table_pieces(rows.drop_last()) + row_pieces(rows.len() == 1, rows.last())
    }
}

/// A table has as many lines as it has rows, counting its head.
pub proof fn law_tables_have_a_line_for_each_row(
    s: Rendered,
    rows: Seq<Seq<PieceView>>,
    theme: Theme,
)
    requires
        forall|i: int| 0 <= i < rows.len() ==> is_row(#[trigger] rows[i]),
    ensures
        after(s, table_pieces(rows), theme).current.len() == 0,
        after(s, table_pieces(rows), theme).lines.len() == done(s).len() + rows.len(),
        after(s, table_pieces(rows), theme).lines.take(done(s).len() as int) == done(s),
    decreases rows.len(),
{
    let d = done(s).len() as int;
    if rows.len() == 0 {
        let p = PieceView::Start(ElementView::Table);
        assert(seq![p].drop_last() =~= Seq::<PieceView>::empty());
        assert(after(s, seq![p].drop_last(), theme) == s);
        assert(after(s, table_pieces(rows), theme) == handled(s, p, theme));
        assert(done(s).take(d) =~= done(s));
    } else {
        let front = rows.drop_last();
        assert forall|i: int| 0 <= i < front.len() implies is_row(#[trigger] front[i]) by {
            assert(is_row(rows[i]));
        }
        law_tables_have_a_line_for_each_row(s, front, theme);
        let mid = after(s, table_pieces(front), theme);
        lemma_after(s, table_pieces(front), row_pieces(rows.len() == 1, rows.last()), theme);
        assert(is_row(rows[rows.len() - 1]));
        law_rows_stand_on_their_own_lines(mid, rows.len() == 1, rows.last(), theme);
        let r = after(s, table_pieces(rows), theme);
        assert(r.lines.take(d) =~= r.lines.drop_last().take(d));
    }
}

// ---------------------------------------------------------------------------
// Documents
// ---------------------------------------------------------------------------

proof fn lemma_walked(a: Seq<PieceView>, b: Seq<PieceView>, theme: Theme)
    ensures
        walked(a + b, theme) == after(walked(a, theme), b, theme),
    decreases b.len(),
{
    if b.len() == 0 {
        assert(a + b =~= a);
    } else {
        lemma_walked(a, b.drop_last(), theme);
        assert((a + b).drop_last() =~= a + b.drop_last());
    }
}

/// Pieces are shown one after the other, from nothing on.
pub proof fn law_documents_are_shown_piece_by_piece(
    a: Seq<PieceView>,
    p: PieceView,
    theme: Theme,
)
    ensures
        walked(a.push(p), theme) == handled(walked(a, theme), p, theme),
        walked(Seq::empty(), theme).lines.len() == 0,
        walked(Seq::empty(), theme).current.len() == 0,
        walked(Seq::empty(), theme).styles == seq![coloured(theme.text)],
        walked(Seq::empty(), theme).lists.len() == 0,
        walked(Seq::empty(), theme).quotes == 0,
        walked(Seq::empty(), theme).marker is None,
{
    assert(a.push(p).drop_last() =~= a);
}

/// A document shows all its lines but for blank ones at its end.
pub proof fn law_documents_show_all_their_lines(pieces: Seq<PieceView>, theme: Theme)
    ensures
        ({
            let all = done(walked(pieces, theme));
            let shown = document_lines(pieces, theme);
            &&& shown.len() <= all.len()
            &&& shown == all.take(shown.len() as int)
            &&& forall|i: int|
                shown.len() <= i < all.len() ==> is_blank(#[trigger] all[i])
            &&& shown.len() > 0 ==> !is_blank(shown.last())
        }),
{
    lemma_without_blanks(done(walked(pieces, theme)));
}

proof fn lemma_without_blanks(lines: Seq<LineView>)
    ensures
        ({
            let shown = without_trailing_blanks(lines);
            &&& shown.len() <= lines.len()
            &&& shown == lines.take(shown.len() as int)
            &&& forall|i: int|
                shown.len() <= i < lines.len() ==> is_blank(#[trigger] lines[i])
            &&& shown.len() > 0 ==> !is_blank(shown.last())
        }),
    decreases lines.len(),
{
    if lines.len() > 0 && is_blank(lines.last()) {
        lemma_without_blanks(lines.drop_last());
        let shown = without_trailing_blanks(lines);
        assert(shown =~= lines.take(shown.len() as int));
        assert forall|i: int| shown.len() <= i < lines.len() implies is_blank(
            #[trigger] lines[i],
        ) by {
            if i < lines.len() - 1 {
                assert(lines[i] == lines.drop_last()[i]);
            }
        }
    } else {
        assert(lines.take(lines.len() as int) =~= lines);
    }
}

/// A document that is a table shows a line for its head and one for each row.
pub proof fn law_a_table_is_shown_row_by_row(rows: Seq<Seq<PieceView>>, theme: Theme)
    requires
        forall|i: int| 0 <= i < rows.len() ==> is_row(#[trigger] rows[i]),
    ensures
        done(walked(table_pieces(rows), theme)).len() == rows.len(),
{
    let none: Seq<PieceView> = Seq::empty();
    lemma_walked(none, table_pieces(rows), theme);
    assert(none + table_pieces(rows) =~= table_pieces(rows));
    law_tables_have_a_line_for_each_row(walked(none, theme), rows, theme);
}

} // verus!
