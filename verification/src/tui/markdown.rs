//! Rendering assistant markdown as styled terminal lines.
//!
//! Text arrives token by token, so partial documents are rendered constantly:
//! unterminated code fences and dangling emphasis are normal and must render as
//! something reasonable. Code blocks get one distinct colour and no syntax
//! highlighting.
use pulldown_cmark::{CodeBlockKind, Event, Options, Parser, Tag, TagEnd};
use vstd::prelude::*;
use vstd::string::StringExecFns;
use crate::text;

verus! {

// ---------------------------------------------------------------------------
// Styled text
// ---------------------------------------------------------------------------

/// A colour of the terminal.
#[derive(Debug, Clone, Copy, PartialEq, Eq, Structural)]
pub enum Color {
    Reset,
    DarkGray,
    Gray,
    Cyan,
    Blue,
    Magenta,
    Green,
    Red,
    Yellow,
    LightGreen,
    Rgb(u8, u8, u8),
}

/// How a piece of text looks.
#[derive(Debug, Clone, Copy, PartialEq, Eq, Structural)]
pub struct Style {
    pub fg: Option<Color>,
    pub bold: bool,
    pub italic: bool,
    pub underlined: bool,
    pub crossed_out: bool,
}

/// Text without any style.
pub open spec fn unstyled() -> Style {
    Style { fg: None, bold: false, italic: false, underlined: false, crossed_out: false }
}

/// Text in a colour.
pub open spec fn coloured(c: Color) -> Style {
    Style { fg: Some(c), ..unstyled() }
}

impl Style {
    /// Text without any style.
    pub fn plain() -> (r: Self)
        ensures
            r == unstyled(),
    {
        Style { fg: None, bold: false, italic: false, underlined: false, crossed_out: false }
    }

    /// Text in a colour.
    pub fn of(color: Color) -> (r: Self)
        ensures
            r == coloured(color),
    {
        let mut s = Self::plain();
        s.fg = Some(color);
        s
    }

    pub fn fg(self, color: Color) -> (r: Self)
        ensures
            r == (Style { fg: Some(color), ..self }),
    {
        let mut s = self;
        s.fg = Some(color);
        s
    }

    pub fn bold(self) -> (r: Self)
        ensures
            r == (Style { bold: true, ..self }),
    {
        let mut s = self;
        s.bold = true;
        s
    }

    pub fn italic(self) -> (r: Self)
        ensures
            r == (Style { italic: true, ..self }),
    {
        let mut s = self;
        s.italic = true;
        s
    }

    pub fn underlined(self) -> (r: Self)
        ensures
            r == (Style { underlined: true, ..self }),
    {
        let mut s = self;
        s.underlined = true;
        s
    }

    pub fn crossed_out(self) -> (r: Self)
        ensures
            r == (Style { crossed_out: true, ..self }),
    {
        let mut s = self;
        s.crossed_out = true;
        s
    }
}

/// A piece of text in one style.
#[derive(Debug)]
pub struct Span {
    pub content: String,
    pub style: Style,
}

/// A piece of text in one style, as text.
pub type SpanView = (Seq<char>, Style);

impl View for Span {
    type V = SpanView;

    open spec fn view(&self) -> SpanView {
        (self.content@, self.style)
    }
}

impl Span {
    pub fn styled(content: &str, style: Style) -> (r: Self)
        ensures
            r@ == (content@, style),
    {
        Span { content: content.to_owned(), style }
    }
}

/// A line of styled text.
#[derive(Debug)]
pub struct Line {
    pub spans: Vec<Span>,
}

/// A line of styled text, as text.
pub type LineView = Seq<SpanView>;

/// The spans of a list, as text.
pub open spec fn span_views(spans: Seq<Span>) -> LineView {
    spans.map_values(|s: Span| s@)
}

impl View for Line {
    type V = LineView;

    open spec fn view(&self) -> LineView {
        span_views(self.spans@)
    }
}

/// The lines of a list, as text.
pub open spec fn line_views(lines: Seq<Line>) -> Seq<LineView> {
    lines.map_values(|l: Line| l@)
}

impl Line {
    /// An empty line.
    pub fn empty() -> (r: Self)
        ensures
            r@ == Seq::<SpanView>::empty(),
    {
        let r = Line { spans: Vec::new() };
        assert(r@ =~= Seq::<SpanView>::empty());
        r
    }

    /// A line of one piece.
    pub fn of(content: &str, style: Style) -> (r: Self)
        ensures
            r@ == seq![(content@, style)],
    {
        let mut r = Line { spans: Vec::new() };
        r.spans.push(Span::styled(content, style));
        assert(r@ =~= seq![(content@, style)]);
        r
    }

    /// Adds a piece to a line.
    pub fn push(&mut self, content: &str, style: Style)
        ensures
            final(self)@ == old(self)@.push((content@, style)),
    {
        let ghost before = self@;
        self.spans.push(Span::styled(content, style));
        assert(self@ =~= before.push((content@, style)));
    }
}

/// Adds a line to a list.
pub(crate) fn push_line(lines: &mut Vec<Line>, line: Line)
    ensures
        line_views(final(lines)@) == line_views(old(lines)@).push(line@),
{
    let ghost before = line_views(lines@);
    let ghost lv = line@;
    lines.push(line);
    assert(line_views(lines@) =~= before.push(lv));
}

/// The text of a line.
pub open spec fn line_text(line: LineView) -> Seq<char>
    decreases line.len(),
{
    if line.len() == 0 {
        Seq::empty()
    } else {
        line_text(line.drop_last()) + line.last().0
    }
}

/// The text of a line.
pub fn text_of(line: &Line) -> (r: String)
    ensures
        r@ == line_text(line@),
{
    let mut out = String::new();
    let mut i: usize = 0;
    assert(out@ =~= Seq::<char>::empty());
    while i < line.spans.len()
        invariant
            i <= line.spans.len(),
            out@ == line_text(line@.take(i as int)),
        decreases line.spans.len() - i,
    {
        assert(line@.take(i + 1).drop_last() =~= line@.take(i as int));
        assert(line@[i as int] == line.spans@[i as int]@);
        out.append(&line.spans[i].content);
        i += 1;
    }
    assert(line@.take(line@.len() as int) =~= line@);
    out
}

/// The texts of lines.
pub open spec fn line_texts(lines: Seq<LineView>) -> Seq<Seq<char>> {
    lines.map_values(|l: LineView| line_text(l))
}

/// Flatten rendered lines back to plain text.
pub fn to_plain(lines: &Vec<Line>) -> (r: String)
    ensures
        r@ == text::joined(line_texts(line_views(lines@)), "\n"@),
{
    let ghost all = line_texts(line_views(lines@));
    let mut out: Vec<String> = Vec::new();
    let mut i: usize = 0;
    assert(text::views(out@) =~= all.take(0));
    while i < lines.len()
        invariant
            i <= lines.len(),
            all == line_texts(line_views(lines@)),
            text::views(out@) == all.take(i as int),
        decreases lines.len() - i,
    {
        let t = text_of(&lines[i]);
        let ghost before = text::views(out@);
        let ghost tv = t@;
        out.push(t);
        assert(text::views(out@) =~= before.push(tv));
        assert(all[i as int] == tv);
        i += 1;
        assert(text::views(out@) =~= all.take(i as int));
    }
    assert(all.take(all.len() as int) =~= all);
    text::join(&out, "\n")
}

// ---------------------------------------------------------------------------
// The theme
// ---------------------------------------------------------------------------

/// Colours for the whole interface, not just markdown.
#[derive(Debug, Clone, Copy, PartialEq, Eq, Structural)]
pub struct Theme {
    pub text: Color,
    pub dim: Color,
    pub accent: Color,
    pub user: Color,
    pub tool: Color,
    pub success: Color,
    pub error: Color,
    pub warning: Color,
    pub code: Color,
    pub added: Color,
    pub removed: Color,
}

pub open spec fn dark_theme() -> Theme {
    Theme {
        text: Color::Reset,
        dim: Color::DarkGray,
        accent: Color::Cyan,
        user: Color::Cyan,
        tool: Color::Magenta,
        success: Color::Green,
        error: Color::Red,
        warning: Color::Yellow,
        code: Color::LightGreen,
        added: Color::Green,
        removed: Color::Red,
    }
}

pub open spec fn light_theme() -> Theme {
    Theme {
        text: Color::Reset,
        dim: Color::Gray,
        accent: Color::Blue,
        user: Color::Blue,
        tool: Color::Magenta,
        success: Color::Green,
        error: Color::Red,
        warning: Color::Rgb(180, 120, 0),
        code: Color::Rgb(0, 110, 60),
        added: Color::Green,
        removed: Color::Red,
    }
}

/// A letter in lower case, where it is one of the alphabet.
pub open spec fn ascii_lower(c: char) -> char {
    if 'A' <= c && c <= 'Z' {
        (c as u8 + 32) as char
    } else {
        c
    }
}

/// Whether a name is `light`, whatever its case.
pub open spec fn is_light(name: Seq<char>) -> bool {
    name.map_values(|c: char| ascii_lower(c)) == "light"@
}

impl Theme {
    pub fn dark() -> (r: Self)
        ensures
            r == dark_theme(),
    {
        Theme {
            text: Color::Reset,
            dim: Color::DarkGray,
            accent: Color::Cyan,
            user: Color::Cyan,
            tool: Color::Magenta,
            success: Color::Green,
            error: Color::Red,
            warning: Color::Yellow,
            code: Color::LightGreen,
            added: Color::Green,
            removed: Color::Red,
        }
    }

    pub fn light() -> (r: Self)
        ensures
            r == light_theme(),
    {
        Theme {
            text: Color::Reset,
            dim: Color::Gray,
            accent: Color::Blue,
            user: Color::Blue,
            tool: Color::Magenta,
            success: Color::Green,
            error: Color::Red,
            warning: Color::Rgb(180, 120, 0),
            code: Color::Rgb(0, 110, 60),
            added: Color::Green,
            removed: Color::Red,
        }
    }

    pub fn named(name: &str) -> (r: Self)
        ensures
            r == (if is_light(name@) {
                light_theme()
            } else {
                dark_theme()
            }),
    {
        let v = text::chars_of(name);
        let w = text::chars_of("light");
        let ghost lower = name@.map_values(|c: char| ascii_lower(c));
        if v.len() != w.len() {
            assert(lower.len() != "light"@.len());
            return Self::dark();
        }
        let mut i: usize = 0;
        while i < v.len()
            invariant
                i <= v.len(),
                v@ == name@,
                w@ == "light"@,
                v@.len() == w@.len(),
                lower == name@.map_values(|c: char| ascii_lower(c)),
                forall|j: int| 0 <= j < i ==> lower[j] == w@[j],
            decreases v.len() - i,
        {
            let c = v[i];
            let l = if 'A' <= c && c <= 'Z' {
                (c as u8 + 32) as char
            } else {
                c
            };
            assert(lower[i as int] == l);
            if l != w[i] {
                assert(lower[i as int] != "light"@[i as int]);
                return Self::dark();
            }
            i += 1;
        }
        assert(lower =~= "light"@);
        Self::light()
    }
}

impl Default for Theme {
    fn default() -> (r: Self)
        ensures
            r == dark_theme(),
    {
        Self::dark()
    }
}

// ---------------------------------------------------------------------------
// The events of a document
// ---------------------------------------------------------------------------

/// The parser's own event type.
#[verifier::external_type_specification]
#[verifier::external_body]
pub struct ExEvent<'a>(Event<'a>);

/// The parser's own type for what an element is.
#[verifier::external_type_specification]
#[verifier::external_body]
pub struct ExTag<'a>(Tag<'a>);

/// The parser's own type for which element ends.
#[verifier::external_type_specification]
#[verifier::external_body]
pub struct ExTagEnd(TagEnd);

/// What an element is.
#[derive(Debug)]
pub enum Element {
    Paragraph,
    /// A heading of a level, from the highest, which is 1, to 6.
    Heading(u8),
    BlockQuote,
    /// A code block, with the language of its fence.
    CodeBlock(Option<String>),
    /// A list, with its first number where it has numbers.
    List(Option<u64>),
    Item,
    Emphasis,
    Strong,
    Strikethrough,
    Link,
    Table,
    TableHead,
    TableRow,
    TableCell,
    /// One that is shown as its text alone.
    Other,
}

/// Which element ends.
#[derive(Debug)]
pub enum Ending {
    Paragraph,
    Heading,
    BlockQuote,
    CodeBlock,
    List,
    Item,
    Emphasis,
    Strong,
    Strikethrough,
    Link,
    TableHead,
    TableRow,
    /// One that leaves no trace.
    Other,
}

/// One event of a document.
#[derive(Debug)]
pub enum Piece {
    Start(Element),
    End(Ending),
    Text(String),
    InlineMath(String),
    DisplayMath(String),
    Code(String),
    SoftBreak,
    HardBreak,
    Rule,
    TaskMarker(bool),
    Html,
    InlineHtml,
    Footnote(String),
}

/// What an element is, as text.
pub enum ElementView {
    Paragraph,
    Heading(u8),
    BlockQuote,
    CodeBlock(Option<Seq<char>>),
    List(Option<u64>),
    Item,
    Emphasis,
    Strong,
    Strikethrough,
    Link,
    Table,
    TableHead,
    TableRow,
    TableCell,
    Other,
}

impl View for Element {
    type V = ElementView;

    open spec fn view(&self) -> ElementView {
        match *self {
            Element::Paragraph => ElementView::Paragraph,
            Element::Heading(n) => ElementView::Heading(n),
            Element::BlockQuote => ElementView::BlockQuote,
            Element::CodeBlock(lang) => ElementView::CodeBlock(text::opt_view(lang)),
            Element::List(n) => ElementView::List(n),
            Element::Item => ElementView::Item,
            Element::Emphasis => ElementView::Emphasis,
            Element::Strong => ElementView::Strong,
            Element::Strikethrough => ElementView::Strikethrough,
            Element::Link => ElementView::Link,
            Element::Table => ElementView::Table,
            Element::TableHead => ElementView::TableHead,
            Element::TableRow => ElementView::TableRow,
            Element::TableCell => ElementView::TableCell,
            Element::Other => ElementView::Other,
        }
    }
}

/// One event of a document, as text.
pub enum PieceView {
    Start(ElementView),
    End(Ending),
    Text(Seq<char>),
    InlineMath(Seq<char>),
    DisplayMath(Seq<char>),
    Code(Seq<char>),
    SoftBreak,
    HardBreak,
    Rule,
    TaskMarker(bool),
    Html,
    InlineHtml,
    Footnote(Seq<char>),
}

impl View for Piece {
    type V = PieceView;

    open spec fn view(&self) -> PieceView {
        match *self {
            Piece::Start(e) => PieceView::Start(e@),
            Piece::End(e) => PieceView::End(e),
            Piece::Text(t) => PieceView::Text(t@),
            Piece::InlineMath(t) => PieceView::InlineMath(t@),
            Piece::DisplayMath(t) => PieceView::DisplayMath(t@),
            Piece::Code(t) => PieceView::Code(t@),
            Piece::SoftBreak => PieceView::SoftBreak,
            Piece::HardBreak => PieceView::HardBreak,
            Piece::Rule => PieceView::Rule,
            Piece::TaskMarker(b) => PieceView::TaskMarker(b),
            Piece::Html => PieceView::Html,
            Piece::InlineHtml => PieceView::InlineHtml,
            Piece::Footnote(t) => PieceView::Footnote(t@),
        }
    }
}

/// The events of a document, as text.
pub open spec fn piece_views(pieces: Seq<Piece>) -> Seq<PieceView> {
    pieces.map_values(|p: Piece| p@)
}

/// The events that the parser makes of a document, with or without
/// strikethrough and tables.
pub uninterp spec fn parsed_markdown(
    source: Seq<char>,
    strikethrough: bool,
    tables: bool,
) -> Seq<PieceView>;

/// `pulldown_cmark::Tag` in the library's own type: each kind that is rendered
/// becomes the element of the same meaning.
#[verifier::external_body]
fn element_of(tag: Tag<'_>) -> Element {
    match tag {
        Tag::Paragraph => Element::Paragraph,
        Tag::Heading { level, .. } => Element::Heading(level as u8),
        Tag::BlockQuote(_) => Element::BlockQuote,
        Tag::CodeBlock(CodeBlockKind::Fenced(lang)) => Element::CodeBlock(Some(lang.to_string())),
        Tag::CodeBlock(CodeBlockKind::Indented) => Element::CodeBlock(None),
        Tag::List(start) => Element::List(start),
        Tag::Item => Element::Item,
        other => table_of(other),
    }
}

/// `pulldown_cmark::Tag` in the library's own type, for the parts of a table.
#[verifier::external_body]
fn table_of(tag: Tag<'_>) -> Element {
    match tag {
        Tag::Table(_) => Element::Table,
        Tag::TableHead => Element::TableHead,
        Tag::TableRow => Element::TableRow,
        Tag::TableCell => Element::TableCell,
        other => inline_of(other),
    }
}

/// `pulldown_cmark::Tag` in the library's own type, for elements within a line.
#[verifier::external_body]
fn inline_of(tag: Tag<'_>) -> Element {
    match tag {
        Tag::Emphasis => Element::Emphasis,
        Tag::Strong => Element::Strong,
        Tag::Strikethrough => Element::Strikethrough,
        Tag::Link { .. } => Element::Link,
        _ => Element::Other,
    }
}

/// `pulldown_cmark::TagEnd` in the library's own type: each kind that is
/// rendered becomes the ending of the same meaning.
#[verifier::external_body]
fn ending_of(tag: TagEnd) -> Ending {
    match tag {
        TagEnd::Paragraph => Ending::Paragraph,
        TagEnd::Heading(_) => Ending::Heading,
        TagEnd::BlockQuote(_) => Ending::BlockQuote,
        TagEnd::CodeBlock => Ending::CodeBlock,
        TagEnd::List(_) => Ending::List,
        TagEnd::Item => Ending::Item,
        TagEnd::TableHead => Ending::TableHead,
        TagEnd::TableRow => Ending::TableRow,
        other => inline_ending_of(other),
    }
}

/// `pulldown_cmark::TagEnd` in the library's own type, for elements within a line.
#[verifier::external_body]
fn inline_ending_of(tag: TagEnd) -> Ending {
    match tag {
        TagEnd::Emphasis => Ending::Emphasis,
        TagEnd::Strong => Ending::Strong,
        TagEnd::Strikethrough => Ending::Strikethrough,
        TagEnd::Link => Ending::Link,
        _ => Ending::Other,
    }
}

/// `pulldown_cmark::Event` in the library's own type: each kind becomes the
/// piece of the same meaning.
#[verifier::external_body]
fn piece_of(event: Event<'_>) -> Piece {
    match event {
        Event::Start(tag) => Piece::Start(element_of(tag)),
        Event::End(tag) => Piece::End(ending_of(tag)),
        Event::Text(t) => Piece::Text(t.to_string()),
        Event::InlineMath(t) => Piece::InlineMath(t.to_string()),
        Event::DisplayMath(t) => Piece::DisplayMath(t.to_string()),
        Event::Code(t) => Piece::Code(t.to_string()),
        Event::SoftBreak => Piece::SoftBreak,
        Event::HardBreak => Piece::HardBreak,
        Event::Rule => Piece::Rule,
        Event::TaskListMarker(done) => Piece::TaskMarker(done),
        Event::Html(_) => Piece::Html,
        Event::InlineHtml(_) => Piece::InlineHtml,
        Event::FootnoteReference(t) => Piece::Footnote(t.to_string()),
    }
}

/// `pulldown_cmark::Parser::new_ext`, run to its end. The grammar is named and
/// not spelled out.
#[verifier::external_body]
fn parse_markdown(source: &str, strikethrough: bool, tables: bool) -> (r: Vec<Piece>)
    ensures
        piece_views(r@) == parsed_markdown(source@, strikethrough, tables),
{
    let mut options = Options::empty();
    options.set(Options::ENABLE_STRIKETHROUGH, strikethrough);
    options.set(Options::ENABLE_TABLES, tables);
    Parser::new_ext(source, options).map(piece_of).collect()
}

// ---------------------------------------------------------------------------
// Rendering
// ---------------------------------------------------------------------------

/// How far the rendering of a document has come.
#[verifier::ext_equal]
pub struct Rendered {
    pub lines: Seq<LineView>,
    pub current: LineView,
    /// The styles in force, the innermost last.
    pub styles: Seq<Style>,
    /// The lists in force, the innermost last, each with its next number.
    pub lists: Seq<Option<u64>>,
    /// The marker that goes before the next text.
    pub marker: Option<Seq<char>>,
    pub quotes: u64,
}

/// Before anything is rendered.
pub open spec fn unrendered(theme: Theme) -> Rendered {
    Rendered {
        lines: Seq::empty(),
        current: Seq::empty(),
        styles: seq![coloured(theme.text)],
        lists: Seq::empty(),
        marker: None,
        quotes: 0,
    }
}

/// With the current line ended.
pub open spec fn flushed(s: Rendered) -> Rendered {
    Rendered { lines: s.lines.push(s.current), current: Seq::empty(), ..s }
}

/// With the current line ended, where something is on it.
pub open spec fn line_broken(s: Rendered) -> Rendered {
    if s.current.len() > 0 {
        flushed(s)
    } else {
        s
    }
}

/// Whether there is only white space on a line.
pub open spec fn is_blank(line: LineView) -> bool {
    forall|i: int| 0 <= i < line.len() ==> text::trimmed((#[trigger] line[i]).0).len() == 0
}

/// With a blank line at the end, unless there is one or nothing at all.
pub open spec fn spaced(s: Rendered) -> Rendered {
    let b = line_broken(s);
    if b.lines.len() == 0 || is_blank(b.lines.last()) {
        b
    } else {
        Rendered { lines: b.lines.push(Seq::empty()), ..b }
    }
}

/// What every line begins with: a gutter for each quote, and an indent for each
/// list within a list.
pub open spec fn indent_of(s: Rendered) -> Seq<char> {
    text::repeated("│ "@, s.quotes as nat) + text::repeated(
        "  "@,
        if s.lists.len() > 0 {
            (s.lists.len() - 1) as nat
        } else {
            0
        },
    )
}

/// With the indent on the current line, where nothing is on it.
pub open spec fn indented(s: Rendered, theme: Theme) -> Rendered {
    if s.current.len() == 0 && indent_of(s).len() > 0 {
        Rendered { current: s.current.push((indent_of(s), coloured(theme.dim))), ..s }
    } else {
        s
    }
}

/// With the indent and a pending marker on the current line, where nothing is on
/// it.
pub open spec fn opened(s: Rendered, theme: Theme) -> Rendered {
    if s.current.len() == 0 {
        let i = indented(s, theme);
        match i.marker {
            Some(m) => Rendered {
                current: i.current.push((m, coloured(theme.accent))),
                marker: None,
                ..i
            },
            None => i,
        }
    } else {
        s
    }
}

/// With lines of text added: the first goes on the current line, each other one
/// on a new line.
pub open spec fn with_segments(s: Rendered, segments: Seq<Seq<char>>, theme: Theme) -> Rendered
    decreases segments.len(),
{
    if segments.len() == 0 {
        s
    } else {
        let before = with_segments(s, segments.drop_last(), theme);
        let at = opened(
            if segments.len() > 1 {
                flushed(before)
            } else {
                before
            },
            theme,
        );
        if segments.last().len() > 0 {
            Rendered { current: at.current.push((segments.last(), at.styles.last())), ..at }
        } else {
            at
        }
    }
}

/// With a text added.
pub open spec fn with_text(s: Rendered, t: Seq<char>, theme: Theme) -> Rendered {
    with_segments(s, text::pieces(t, '\n'), theme)
}

/// With one more style in force.
pub open spec fn styled(s: Rendered, style: Style) -> Rendered {
    Rendered { styles: s.styles.push(style), ..s }
}

/// With the innermost style gone. The base style stays: a truncated document
/// must not leave text without one.
pub open spec fn unstacked(s: Rendered) -> Rendered {
    if s.styles.len() > 1 {
        Rendered { styles: s.styles.drop_last(), ..s }
    } else {
        s
    }
}

pub open spec fn one_more(n: u64) -> u64 {
    if n < u64::MAX {
        (n + 1) as u64
    } else {
        n
    }
}

/// With the marker of a list item pending.
pub open spec fn marked(s: Rendered) -> Rendered {
    if s.lists.len() > 0 && s.lists.last() is Some {
        let n = s.lists.last()->0;
        Rendered {
            marker: Some(text::decimal(n as nat) + ". "@),
            lists: s.lists.update(s.lists.len() - 1, Some(one_more(n))),
            ..s
        }
    } else {
        Rendered { marker: Some("• "@), ..s }
    }
}

/// After the start of an element.
pub open spec fn started(s: Rendered, e: ElementView, theme: Theme) -> Rendered {
    let style = s.styles.last();
    match e {
        ElementView::Paragraph => spaced(s),
        ElementView::Heading(level) => styled(
            spaced(s),
            Style {
                fg: Some(theme.accent),
                bold: true,
                underlined: style.underlined || level <= 2,
                ..style
            },
        ),
        ElementView::BlockQuote => {
            let b = spaced(s);
            styled(
                Rendered { quotes: one_more(b.quotes), ..b },
                Style { fg: Some(theme.dim), italic: true, ..style },
            )
        },
        ElementView::CodeBlock(lang) => {
            let b = spaced(s);
            let l = match lang {
                Some(name) => if name.len() > 0 {
                    Rendered {
                        lines: b.lines.push(
                            seq![("  "@ + name, Style { italic: true, ..coloured(theme.dim) })],
                        ),
                        ..b
                    }
                } else {
                    b
                },
                None => b,
            };
            styled(l, Style { fg: Some(theme.code), ..style })
        },
        ElementView::List(start) => {
            let b = if s.lists.len() == 0 {
                spaced(s)
            } else {
                line_broken(s)
            };
            Rendered { lists: b.lists.push(start), ..b }
        },
        ElementView::Item => marked(line_broken(s)),
        ElementView::Emphasis => styled(s, Style { italic: true, ..style }),
        ElementView::Strong => styled(s, Style { bold: true, ..style }),
        ElementView::Strikethrough => styled(s, Style { crossed_out: true, ..style }),
        ElementView::Link => styled(
            s,
            Style { fg: Some(theme.accent), underlined: true, ..style },
        ),
        ElementView::Table | ElementView::TableHead | ElementView::TableRow => line_broken(s),
        ElementView::TableCell => with_text(s, " │ "@, theme),
        ElementView::Other => s,
    }
}

/// After the end of an element.
pub open spec fn ended(s: Rendered, e: Ending) -> Rendered {
    match e {
        Ending::Paragraph => line_broken(s),
        Ending::Heading => unstacked(line_broken(s)),
        Ending::BlockQuote => {
            let b = line_broken(s);
            unstacked(
                Rendered {
                    quotes: if b.quotes > 0 {
                        (b.quotes - 1) as u64
                    } else {
                        0
                    },
                    ..b
                },
            )
        },
        Ending::CodeBlock => unstacked(line_broken(s)),
        Ending::List => {
            let b = line_broken(s);
            Rendered {
                lists: if b.lists.len() > 0 {
                    b.lists.drop_last()
                } else {
                    b.lists
                },
                marker: None,
                ..b
            }
        },
        Ending::Item => line_broken(s),
        Ending::Emphasis | Ending::Strong | Ending::Strikethrough | Ending::Link => unstacked(s),
        Ending::TableHead | Ending::TableRow => line_broken(s),
        Ending::Other => s,
    }
}

/// The width of a rule.
pub const RULE_WIDTH: usize = 40;

/// After an event. Raw HTML is noise and is dropped; a soft break is a wrap
/// point in the source, so a space lets the terminal wrap again.
pub open spec fn handled(s: Rendered, p: PieceView, theme: Theme) -> Rendered {
    match p {
        PieceView::Start(e) => started(s, e, theme),
        PieceView::End(e) => ended(s, e),
        PieceView::Text(t) => with_text(s, t, theme),
        PieceView::InlineMath(t) => with_text(s, t, theme),
        PieceView::DisplayMath(t) => with_text(s, t, theme),
        PieceView::Code(t) => {
            let i = indented(s, theme);
            Rendered { current: i.current.push((t, coloured(theme.code))), ..i }
        },
        PieceView::SoftBreak => with_text(s, " "@, theme),
        PieceView::HardBreak => line_broken(s),
        PieceView::Rule => {
            let b = spaced(s);
            spaced(
                Rendered {
                    lines: b.lines.push(
                        seq![(text::repeated("─"@, RULE_WIDTH as nat), coloured(theme.dim))],
                    ),
                    ..b
                },
            )
        },
        PieceView::TaskMarker(done) => with_text(
            s,
            if done {
                "[x] "@
            } else {
                "[ ] "@
            },
            theme,
        ),
        PieceView::Html | PieceView::InlineHtml => s,
        PieceView::Footnote(name) => with_text(s, "[^"@ + name + "]"@, theme),
    }
}

/// After several events.
pub open spec fn walked(pieces: Seq<PieceView>, theme: Theme) -> Rendered
    decreases pieces.len(),
{
    if pieces.len() == 0 {
        unrendered(theme)
    } else {
        handled(walked(pieces.drop_last(), theme), pieces.last(), theme)
    }
}

/// Lines without the blank ones at their end.
pub open spec fn without_trailing_blanks(lines: Seq<LineView>) -> Seq<LineView>
    decreases lines.len(),
{
    if lines.len() > 0 && is_blank(lines.last()) {
        without_trailing_blanks(lines.drop_last())
    } else {
        lines
    }
}

/// The lines of a document.
pub open spec fn document_lines(pieces: Seq<PieceView>, theme: Theme) -> Seq<LineView> {
    without_trailing_blanks(line_broken(walked(pieces, theme)).lines)
}

/// A document in rendering.
pub struct Renderer {
    pub theme: Theme,
    pub lines: Vec<Line>,
    pub current: Line,
    /// Nested emphasis and code spans compose, so styles are a stack.
    pub styles: Vec<Style>,
    /// Next numbers of nested lists; the length is the nesting depth.
    pub lists: Vec<Option<u64>>,
    /// Set when the next text should be prefixed with a list marker.
    pub marker: Option<String>,
    pub quotes: u64,
}

impl View for Renderer {
    type V = Rendered;

    open spec fn view(&self) -> Rendered {
        Rendered {
            lines: line_views(self.lines@),
            current: self.current@,
            styles: self.styles@,
            lists: self.lists@,
            marker: text::opt_view(self.marker),
            quotes: self.quotes,
        }
    }
}

fn line_is_blank(line: &Line) -> (r: bool)
    ensures
        r == is_blank(line@),
{
    let mut i: usize = 0;
    while i < line.spans.len()
        invariant
            i <= line.spans.len(),
            forall|j: int| 0 <= j < i ==> text::trimmed((#[trigger] line@[j]).0).len() == 0,
        decreases line.spans.len() - i,
    {
        assert(line@[i as int] == line.spans@[i as int]@);
        if !text::trim(&line.spans[i].content).as_str().is_empty() {
            return false;
        }
        i += 1;
    }
    true
}

impl Renderer {
    /// There is always a style.
    pub open spec fn wf(&self) -> bool {
        self.styles@.len() > 0
    }

    pub fn new(theme: Theme) -> (r: Self)
        ensures
            r.wf(),
            r.theme == theme,
            r@ == unrendered(theme),
    {
        let mut styles: Vec<Style> = Vec::new();
        styles.push(Style::of(theme.text));
        let r = Renderer {
            theme,
            lines: Vec::new(),
            current: Line::empty(),
            styles,
            lists: Vec::new(),
            marker: None,
            quotes: 0,
        };
        assert(r@ =~= unrendered(theme));
        r
    }

    fn style(&self) -> (r: Style)
        requires
            self.wf(),
        ensures
            r == self@.styles.last(),
    {
        self.styles[self.styles.len() - 1]
    }

    fn push_style(&mut self, style: Style)
        ensures
            final(self).wf(),
            final(self).theme == old(self).theme,
            final(self)@ == styled(old(self)@, style),
    {
        self.styles.push(style);
    }

    fn pop_style(&mut self)
        requires
            old(self).wf(),
        ensures
            final(self).wf(),
            final(self).theme == old(self).theme,
            final(self)@ == unstacked(old(self)@),
    {
        if self.styles.len() > 1 {
            let ghost before = self.styles@;
            self.styles.pop();
            assert(self.styles@ =~= before.drop_last());
        }
    }

    fn flush_line(&mut self)
        ensures
            final(self).theme == old(self).theme,
            old(self).wf() ==> final(self).wf(),
            final(self)@ == flushed(old(self)@),
    {
        let mut line = Line::empty();
        std::mem::swap(&mut line, &mut self.current);
        push_line(&mut self.lines, line);
    }

    /// End the current line only if something is on it.
    fn break_line(&mut self)
        ensures
            final(self).theme == old(self).theme,
            old(self).wf() ==> final(self).wf(),
            final(self)@ == line_broken(old(self)@),
    {
        if self.current.spans.len() > 0 {
            self.flush_line();
        }
    }

    /// A blank line, collapsed so consecutive blocks do not stack them.
    fn blank_line(&mut self)
        ensures
            final(self).theme == old(self).theme,
            old(self).wf() ==> final(self).wf(),
            final(self)@ == spaced(old(self)@),
    {
        self.break_line();
        let n: usize = self.lines.len();
        assert(self@.lines.len() == n);
        if n == 0 {
            return;
        }
        assert(self@.lines.last() == self.lines@[n - 1]@);
        if line_is_blank(&self.lines[n - 1]) {
            return;
        }
        push_line(&mut self.lines, Line::empty());
    }

    fn indent(&self) -> (r: String)
        ensures
            r@ == indent_of(self@),
    {
        let depth: usize = if self.lists.len() > 0 {
            self.lists.len() - 1
        } else {
            0
        };
        let mut s = gutter(self.quotes);
        s.append(&text::repeat("  ", depth));
        s
    }

    fn push_indent(&mut self)
        ensures
            final(self).theme == old(self).theme,
            old(self).wf() ==> final(self).wf(),
            final(self)@ == indented(old(self)@, old(self).theme),
    {
        if self.current.spans.len() == 0 {
            let indent = self.indent();
            if !indent.as_str().is_empty() {
                self.current.push(&indent, Style::of(self.theme.dim));
            }
        }
    }

    fn open_line(&mut self)
        ensures
            final(self).theme == old(self).theme,
            old(self).wf() ==> final(self).wf(),
            final(self)@ == opened(old(self)@, old(self).theme),
    {
        if self.current.spans.len() == 0 {
            self.push_indent();
            let mut marker: Option<String> = None;
            std::mem::swap(&mut marker, &mut self.marker);
            match marker {
                Some(m) => {
                    self.current.push(&m, Style::of(self.theme.accent));
                },
                None => {},
            }
        }
    }

    fn push_text(&mut self, t: &str)
        requires
            old(self).wf(),
        ensures
            final(self).wf(),
            final(self).theme == old(self).theme,
            final(self)@ == with_text(old(self)@, t@, old(self).theme),
    {
        let segments = text::split(t, '\n');
        let ghost all = text::views(segments@);
        let ghost start = self@;
        let ghost theme = self.theme;
        let mut i: usize = 0;
        assert(all.take(0) =~= Seq::<Seq<char>>::empty());
        while i < segments.len()
            invariant
                i <= segments.len(),
                all == text::views(segments@),
                self.wf(),
                self.theme == theme,
                self@ == with_segments(start, all.take(i as int), theme),
            decreases segments.len() - i,
        {
            assert(all.take(i + 1).drop_last() =~= all.take(i as int));
            assert(all[i as int] == segments@[i as int]@);
            if i > 0 {
                self.flush_line();
            }
            self.open_line();
            if !segments[i].as_str().is_empty() {
                let style = self.style();
                self.current.push(&segments[i], style);
            }
            i += 1;
        }
        assert(all.take(all.len() as int) =~= all);
    }

    fn push_marker(&mut self)
        ensures
            final(self).theme == old(self).theme,
            old(self).wf() ==> final(self).wf(),
            final(self)@ == marked(old(self)@),
    {
        let n: usize = self.lists.len();
        if n > 0 {
            match self.lists[n - 1] {
                Some(number) => {
                    let mut m = text::number(number);
                    m.append(". ");
                    self.marker = Some(m);
                    let next: u64 = if number < u64::MAX {
                        number + 1
                    } else {
                        number
                    };
                    self.lists.set(n - 1, Some(next));
                    return;
                },
                None => {},
            }
        }
        self.marker = Some("• ".to_owned());
    }

    fn start(&mut self, e: &Element)
        requires
            old(self).wf(),
        ensures
            final(self).wf(),
            final(self).theme == old(self).theme,
            final(self)@ == started(old(self)@, e@, old(self).theme),
    {
        let style = self.style();
        let theme = self.theme;
        match e {
            Element::Paragraph => self.blank_line(),
            Element::Heading(level) => {
                self.blank_line();
                let mut s = style.fg(theme.accent).bold();
                if *level <= 2 {
                    s = s.underlined();
                }
                self.push_style(s);
            },
            Element::BlockQuote => {
                self.blank_line();
                if self.quotes < u64::MAX {
                    self.quotes = self.quotes + 1;
                }
                self.push_style(style.fg(theme.dim).italic());
            },
            Element::CodeBlock(lang) => {
                self.blank_line();
                match lang {
                    Some(name) => {
                        if !name.as_str().is_empty() {
                            let mut label = "  ".to_owned();
                            label.append(name);
                            push_line(
                                &mut self.lines,
                                Line::of(&label, Style::of(theme.dim).italic()),
                            );
                        }
                    },
                    None => {},
                }
                self.push_style(style.fg(theme.code));
            },
            Element::List(start) => {
                if self.lists.len() == 0 {
                    self.blank_line();
                } else {
                    self.break_line();
                }
                self.lists.push(*start);
            },
            Element::Item => {
                self.break_line();
                self.push_marker();
            },
            Element::Emphasis => self.push_style(style.italic()),
            Element::Strong => self.push_style(style.bold()),
            Element::Strikethrough => self.push_style(style.crossed_out()),
            Element::Link => self.push_style(style.fg(theme.accent).underlined()),
            Element::Table | Element::TableHead | Element::TableRow => self.break_line(),
            Element::TableCell => self.push_text(" │ "),
            Element::Other => {},
        }
    }

    fn end(&mut self, e: &Ending)
        requires
            old(self).wf(),
        ensures
            final(self).wf(),
            final(self).theme == old(self).theme,
            final(self)@ == ended(old(self)@, *e),
    {
        match e {
            Ending::Paragraph => self.break_line(),
            Ending::Heading => {
                self.break_line();
                self.pop_style();
            },
            Ending::BlockQuote => {
                self.break_line();
                if self.quotes > 0 {
                    self.quotes = self.quotes - 1;
                }
                self.pop_style();
            },
            Ending::CodeBlock => {
                self.break_line();
                self.pop_style();
            },
            Ending::List => {
                self.break_line();
                if self.lists.len() > 0 {
                    let ghost before = self.lists@;
                    self.lists.pop();
                    assert(self.lists@ =~= before.drop_last());
                }
                self.marker = None;
            },
            Ending::Item => self.break_line(),
            Ending::Emphasis | Ending::Strong | Ending::Strikethrough | Ending::Link => {
                self.pop_style()
            },
            Ending::TableHead | Ending::TableRow => self.break_line(),
            Ending::Other => {},
        }
    }

    /// Takes the next event.
    pub fn handle(&mut self, piece: &Piece)
        requires
            old(self).wf(),
        ensures
            final(self).wf(),
            final(self).theme == old(self).theme,
            final(self)@ == handled(old(self)@, piece@, old(self).theme),
    {
        match piece {
            Piece::Start(e) => self.start(e),
            Piece::End(e) => self.end(e),
            Piece::Text(t) => self.push_text(t),
            Piece::InlineMath(t) => self.push_text(t),
            Piece::DisplayMath(t) => self.push_text(t),
            Piece::Code(t) => {
                self.push_indent();
                self.current.push(t, Style::of(self.theme.code));
            },
            Piece::SoftBreak => self.push_text(" "),
            Piece::HardBreak => self.break_line(),
            Piece::Rule => {
                self.blank_line();
                push_line(
                    &mut self.lines,
                    Line::of(&text::repeat("─", RULE_WIDTH), Style::of(self.theme.dim)),
                );
                self.blank_line();
            },
            Piece::TaskMarker(done) => {
                if *done {
                    self.push_text("[x] ");
                } else {
                    self.push_text("[ ] ");
                }
            },
            Piece::Html | Piece::InlineHtml => {},
            Piece::Footnote(name) => {
                let mut s = "[^".to_owned();
                s.append(name);
                s.append("]");
                self.push_text(&s);
            },
        }
    }

    /// The lines of the document. Trailing blanks are an artifact of block
    /// boundaries, not content.
    pub fn finish(self) -> (r: Vec<Line>)
        ensures
            line_views(r@) == without_trailing_blanks(line_broken(self@).lines),
    {
        let mut me = self;
        me.break_line();
        let mut lines = me.lines;
        let ghost all = line_views(lines@);
        loop
            invariant
                without_trailing_blanks(line_views(lines@)) == without_trailing_blanks(all),
            ensures
                line_views(lines@) == without_trailing_blanks(all),
            decreases lines.len(),
        {
            let n: usize = lines.len();
            if n == 0 {
                break;
            }
            assert(line_views(lines@).last() == lines@[n - 1]@);
            if !line_is_blank(&lines[n - 1]) {
                break;
            }
            let ghost before = line_views(lines@);
            lines.pop();
            assert(line_views(lines@) =~= before.drop_last());
        }
        lines
    }
}

/// The gutter of nested quotes.
fn gutter(depth: u64) -> (r: String)
    ensures
        r@ == text::repeated("│ "@, depth as nat),
    decreases depth,
{
    let mut s = String::new();
    let mut i: u64 = 0;
    assert(s@ =~= text::repeated("│ "@, 0));
    while i < depth
        invariant
            i <= depth,
            s@ == text::repeated("│ "@, i as nat),
        decreases depth - i,
    {
        s.append("│ ");
        i += 1;
    }
    s
}

/// Renders the events of a document.
pub fn render_pieces(pieces: &Vec<Piece>, theme: &Theme) -> (r: Vec<Line>)
    ensures
        line_views(r@) == document_lines(piece_views(pieces@), *theme),
{
    let ghost all = piece_views(pieces@);
    let mut state = Renderer::new(*theme);
    let mut i: usize = 0;
    assert(all.take(0) =~= Seq::<PieceView>::empty());
    while i < pieces.len()
        invariant
            i <= pieces.len(),
            all == piece_views(pieces@),
            state.wf(),
            state.theme == *theme,
            state@ == walked(all.take(i as int), *theme),
        decreases pieces.len() - i,
    {
        assert(all.take(i + 1).drop_last() =~= all.take(i as int));
        assert(all[i as int] == pieces@[i as int]@);
        state.handle(&pieces[i]);
        i += 1;
    }
    assert(all.take(all.len() as int) =~= all);
    state.finish()
}

/// Render markdown into styled lines.
pub fn render(source: &str, theme: &Theme) -> (r: Vec<Line>)
    ensures
        line_views(r@) == document_lines(parsed_markdown(source@, true, true), *theme),
{
    render_pieces(&parse_markdown(source, true, true), theme)
}

// ---------------------------------------------------------------------------
// Laws
// ---------------------------------------------------------------------------

/// No rendered document ends with a blank line.
pub proof fn law_no_trailing_blanks(pieces: Seq<PieceView>, theme: Theme)
    ensures
        document_lines(pieces, theme).len() > 0 ==> !is_blank(document_lines(pieces, theme).last()),
{
    lemma_no_trailing_blanks(line_broken(walked(pieces, theme)).lines);
}

proof fn lemma_no_trailing_blanks(lines: Seq<LineView>)
    ensures
        without_trailing_blanks(lines).len() > 0 ==> !is_blank(
            without_trailing_blanks(lines).last(),
        ),
    decreases lines.len(),
{
    if lines.len() > 0 && is_blank(lines.last()) {
        lemma_no_trailing_blanks(lines.drop_last());
    }
}

proof fn lemma_segments_keep_styles(s: Rendered, segments: Seq<Seq<char>>, theme: Theme)
    ensures
        with_segments(s, segments, theme).styles == s.styles,
    decreases segments.len(),
{
    if segments.len() > 0 {
        lemma_segments_keep_styles(s, segments.drop_last(), theme);
    }
}

/// There is a style for every text, however a document is cut off: the base
/// style is never taken away.
pub proof fn law_there_is_always_a_style(pieces: Seq<PieceView>, theme: Theme)
    ensures
        walked(pieces, theme).styles.len() > 0,
        walked(pieces, theme).styles[0] == coloured(theme.text),
    decreases pieces.len(),
{
    if pieces.len() > 0 {
        law_there_is_always_a_style(pieces.drop_last(), theme);
        let s = walked(pieces.drop_last(), theme);
        match pieces.last() {
            PieceView::Text(t) => lemma_segments_keep_styles(s, text::pieces(t, '\n'), theme),
            PieceView::InlineMath(t) => lemma_segments_keep_styles(s, text::pieces(t, '\n'), theme),
            PieceView::DisplayMath(t) => lemma_segments_keep_styles(s, text::pieces(t, '\n'), theme),
            PieceView::SoftBreak => lemma_segments_keep_styles(s, text::pieces(" "@, '\n'), theme),
            PieceView::TaskMarker(_) => {
                lemma_segments_keep_styles(s, text::pieces("[x] "@, '\n'), theme);
                lemma_segments_keep_styles(s, text::pieces("[ ] "@, '\n'), theme);
            },
            PieceView::Footnote(n) => lemma_segments_keep_styles(
                s,
                text::pieces("[^"@ + n + "]"@, '\n'),
                theme,
            ),
            PieceView::Start(ElementView::TableCell) => lemma_segments_keep_styles(
                s,
                text::pieces(" │ "@, '\n'),
                theme,
            ),
            _ => {},
        }
    }
}

} // verus!
