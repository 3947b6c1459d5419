//! A multi-line text input with the editing keys people expect.
//!
//! The cursor is a row and a column over a list of lines, with the column
//! counted in characters: byte indices would split multi-byte characters the
//! moment someone types an accent or an emoji.
use vstd::prelude::*;
use vstd::string::StringExecFns;
use crate::api::types::clone_text;
use crate::text;

verus! {

/// Most lines the box will grow to before it scrolls internally.
pub const MAX_VISIBLE_LINES: usize = 10;

/// How many submitted prompts to remember.
pub const HISTORY_LIMIT: usize = 200;

/// The columns that a text takes up on a terminal.
pub uninterp spec fn cell_width(s: Seq<char>) -> nat;

/// `unicode_width::UnicodeWidthStr::width`. The Unicode tables are named and
/// not spelled out.
#[verifier::external_body]
pub(crate) fn display_width(s: &str) -> (r: usize)
    ensures
        r == cell_width(s@),
{
    unicode_width::UnicodeWidthStr::width(s)
}

#[derive(Debug)]
pub struct TextArea {
    pub lines: Vec<String>,
    /// Cursor row into `lines`.
    pub row: usize,
    /// Cursor column, in characters.
    pub col: usize,
    /// Previously submitted inputs, oldest first.
    pub history: Vec<String>,
    /// Position while browsing history; `None` means "editing a fresh line".
    pub history_index: Option<usize>,
    /// What was being typed before history browsing started, so Down restores it.
    pub draft: Option<String>,
}

/// A text area, as text.
#[verifier::ext_equal]
pub struct AreaView {
    pub lines: Seq<Seq<char>>,
    pub row: int,
    pub col: int,
    pub history: Seq<Seq<char>>,
    pub index: Option<usize>,
    pub draft: Option<Seq<char>>,
}

impl View for TextArea {
    type V = AreaView;

    open spec fn view(&self) -> AreaView {
        AreaView {
            lines: text::views(self.lines@),
            row: self.row as int,
            col: self.col as int,
            history: text::views(self.history@),
            index: self.history_index,
            draft: text::opt_view(self.draft),
        }
    }
}

/// Whether the cursor stands in the text, the history is within its bound and
/// the position in it is one.
pub open spec fn is_area(a: AreaView) -> bool {
    &&& 0 <= a.row < a.lines.len()
    &&& 0 <= a.col <= a.lines[a.row].len()
    &&& a.history.len() <= HISTORY_LIMIT
    &&& a.index matches Some(i) ==> i < a.history.len()
}

/// The area with other lines and another cursor. Editing leaves the history.
pub open spec fn edited(a: AreaView, lines: Seq<Seq<char>>, row: int, col: int) -> AreaView {
    AreaView { lines, row, col, index: None, ..a }
}

/// The area with another cursor.
pub open spec fn moved(a: AreaView, row: int, col: int) -> AreaView {
    AreaView { row, col, ..a }
}

/// The line that the cursor is on.
pub open spec fn line_at(a: AreaView) -> Seq<char> {
    a.lines[a.row]
}

/// The lines of a text. An empty text is one empty line.
pub open spec fn lines_for(s: Seq<char>) -> Seq<Seq<char>> {
    text::pieces(s, '\n')
}

/// The area showing a text, with the cursor at its end.
pub open spec fn showing(a: AreaView, s: Seq<char>) -> AreaView {
    let lines = lines_for(s);
    AreaView { lines, row: lines.len() - 1, col: lines.last().len() as int, ..a }
}

/// The area with nothing in it.
pub open spec fn cleared(a: AreaView) -> AreaView {
    AreaView { lines: seq![Seq::empty()], row: 0, col: 0, index: None, draft: None, ..a }
}

/// The history with one more entry. An immediate repeat is not recorded, and
/// neither is white space.
pub open spec fn remembered(history: Seq<Seq<char>>, s: Seq<char>) -> Seq<Seq<char>> {
    let entry = text::trimmed(s);
    if entry.len() == 0 || (history.len() > 0 && history.last() == entry) {
        history
    } else if history.len() >= HISTORY_LIMIT {
        history.push(entry).skip(1)
    } else {
        history.push(entry)
    }
}

/// After a character was typed.
pub open spec fn typed(a: AreaView, c: char) -> AreaView {
    let line = line_at(a);
    edited(
        a,
        a.lines.update(a.row, line.take(a.col) + seq![c] + line.skip(a.col)),
        a.row,
        a.col + 1,
    )
}

/// After a line break was typed.
pub open spec fn broken(a: AreaView) -> AreaView {
    let line = line_at(a);
    edited(
        a,
        a.lines.update(a.row, line.take(a.col)).insert(a.row + 1, line.skip(a.col)),
        a.row + 1,
        0,
    )
}

/// After a text was pasted. Carriage returns are dropped.
pub open spec fn pasted(a: AreaView, s: Seq<char>) -> AreaView
    decreases s.len(),
{
    if s.len() == 0 {
        a
    } else {
        let before = pasted(a, s.drop_last());
        if s.last() == '\n' {
            broken(before)
        } else if s.last() == '\r' {
            before
        } else {
            typed(before, s.last())
        }
    }
}

/// After the character before the cursor was deleted. At the start of a line it
/// is joined to the one before.
pub open spec fn erased(a: AreaView) -> AreaView {
    let line = line_at(a);
    if a.col > 0 {
        edited(
            a,
            a.lines.update(a.row, line.take(a.col - 1) + line.skip(a.col)),
            a.row,
            a.col - 1,
        )
    } else if a.row > 0 {
        edited(
            a,
            a.lines.remove(a.row).update(a.row - 1, a.lines[a.row - 1] + line),
            a.row - 1,
            a.lines[a.row - 1].len() as int,
        )
    } else {
        AreaView { index: None, ..a }
    }
}

/// After the character at the cursor was deleted. At the end of a line the next
/// one is joined to it.
pub open spec fn erased_forward(a: AreaView) -> AreaView {
    let line = line_at(a);
    if a.col < line.len() {
        edited(a, a.lines.update(a.row, line.take(a.col) + line.skip(a.col + 1)), a.row, a.col)
    } else if a.row + 1 < a.lines.len() {
        edited(
            a,
            a.lines.remove(a.row + 1).update(a.row, line + a.lines[a.row + 1]),
            a.row,
            a.col,
        )
    } else {
        AreaView { index: None, ..a }
    }
}

/// The first position of a run of white space that ends at `to`.
pub open spec fn gap_start(line: Seq<char>, to: int) -> int
    decreases to,
{
    if 0 < to <= line.len() && text::is_white(line[to - 1]) {
        gap_start(line, to - 1)
    } else {
        to
    }
}

/// The first position of a run of other characters that ends at `to`.
pub open spec fn run_start(line: Seq<char>, to: int) -> int
    decreases to,
{
    if 0 < to <= line.len() && !text::is_white(line[to - 1]) {
        run_start(line, to - 1)
    } else {
        to
    }
}

/// The start of the word before a position, with the white space between.
pub open spec fn word_before(line: Seq<char>, col: int) -> int {
    run_start(line, gap_start(line, col))
}

/// The end of a run of characters other than white space from `from` on.
pub open spec fn run_end(line: Seq<char>, from: int) -> int
    decreases line.len() - from,
{
    if 0 <= from < line.len() && !text::is_white(line[from]) {
        run_end(line, from + 1)
    } else {
        from
    }
}

/// The end of a run of white space from `from` on.
pub open spec fn gap_end(line: Seq<char>, from: int) -> int
    decreases line.len() - from,
{
    if 0 <= from < line.len() && text::is_white(line[from]) {
        gap_end(line, from + 1)
    } else {
        from
    }
}

/// The start of the word after the one at a position.
pub open spec fn word_after(line: Seq<char>, col: int) -> int {
    gap_end(line, run_end(line, col))
}

/// After the word before the cursor was deleted.
pub open spec fn word_erased(a: AreaView) -> AreaView {
    let line = line_at(a);
    let start = word_before(line, a.col);
    if start == a.col {
        erased(a)
    } else {
        edited(a, a.lines.update(a.row, line.take(start) + line.skip(a.col)), a.row, start)
    }
}

/// After a step to the left.
pub open spec fn stepped_left(a: AreaView) -> AreaView {
    if a.col > 0 {
        moved(a, a.row, a.col - 1)
    } else if a.row > 0 {
        moved(a, a.row - 1, a.lines[a.row - 1].len() as int)
    } else {
        a
    }
}

/// After a step to the right.
pub open spec fn stepped_right(a: AreaView) -> AreaView {
    if a.col < line_at(a).len() {
        moved(a, a.row, a.col + 1)
    } else if a.row + 1 < a.lines.len() {
        moved(a, a.row + 1, 0)
    } else {
        a
    }
}

pub open spec fn at_most(a: int, b: nat) -> int {
    if a <= b {
        a
    } else {
        b as int
    }
}

/// After a step up.
pub open spec fn stepped_up(a: AreaView) -> AreaView {
    if a.row == 0 {
        a
    } else {
        moved(a, a.row - 1, at_most(a.col, a.lines[a.row - 1].len()))
    }
}

/// After a step down.
pub open spec fn stepped_down(a: AreaView) -> AreaView {
    if a.row + 1 >= a.lines.len() {
        a
    } else {
        moved(a, a.row + 1, at_most(a.col, a.lines[a.row + 1].len()))
    }
}

/// After a step back through the history.
pub open spec fn recalled(a: AreaView) -> AreaView {
    if a.history.len() == 0 {
        a
    } else {
        match a.index {
            None => {
                let next = (a.history.len() - 1) as usize;
                AreaView {
                    index: Some(next),
                    draft: Some(text::joined(a.lines, "\n"@)),
                    ..showing(a, a.history[next as int])
                }
            },
            Some(i) => {
                let next = if i == 0 {
                    0usize
                } else {
                    (i - 1) as usize
                };
                AreaView { index: Some(next), ..showing(a, a.history[next as int]) }
            },
        }
    }
}

/// After a step forward through the history, which ends on the draft that was
/// interrupted.
pub open spec fn returned(a: AreaView) -> AreaView {
    match a.index {
        None => a,
        Some(i) => if i + 1 < a.history.len() {
            AreaView { index: Some((i + 1) as usize), ..showing(a, a.history[i + 1]) }
        } else {
            AreaView {
                index: None,
                draft: None,
                ..showing(
                    a,
                    match a.draft {
                        Some(d) => d,
                        None => Seq::empty(),
                    },
                )
            }
        },
    }
}

/// The history that earlier prompts make: the latest of those that hold more
/// than white space.
pub open spec fn seeded(entries: Seq<Seq<char>>) -> Seq<Seq<char>> {
    let kept = entries.filter(|e: Seq<char>| text::trimmed(e).len() > 0);
    if kept.len() > HISTORY_LIMIT {
        kept.skip(kept.len() - HISTORY_LIMIT)
    } else {
        kept
    }
}

/// The characters of a string up to a position.
fn head_of(v: &Vec<char>, to: usize) -> (r: String)
    requires
        to <= v@.len(),
    ensures
        r@ == v@.take(to as int),
{
    let r = text::string_between(v, 0, to);
    assert(r@ =~= v@.take(to as int));
    r
}

/// The characters of a string from a position on.
fn tail_of(v: &Vec<char>, from: usize) -> (r: String)
    requires
        from <= v@.len(),
    ensures
        r@ == v@.skip(from as int),
{
    let r = text::string_between(v, from, v.len());
    assert(r@ =~= v@.skip(from as int));
    r
}

/// An area with one empty line.
fn one_line() -> (r: Vec<String>)
    ensures
        text::views(r@) == seq![Seq::<char>::empty()],
{
    let mut lines: Vec<String> = Vec::new();
    let empty = String::new();
    assert(empty@ =~= Seq::<char>::empty());
    lines.push(empty);
    assert(text::views(lines@) =~= seq![Seq::<char>::empty()]);
    lines
}

impl TextArea {
    /// The invariant of a text area.
    pub open spec fn wf(&self) -> bool {
        is_area(self@)
    }

    pub fn new() -> (r: Self)
        ensures
            r.wf(),
            r@ == (AreaView {
                lines: seq![Seq::empty()],
                row: 0,
                col: 0,
                history: Seq::empty(),
                index: None,
                draft: None,
            }),
    {
        let r = TextArea {
            lines: one_line(),
            row: 0,
            col: 0,
            history: Vec::new(),
            history_index: None,
            draft: None,
        };
        assert(r@.history =~= Seq::<Seq<char>>::empty());
        r
    }

    pub fn is_empty(&self) -> (r: bool)
        ensures
            r == forall|i: int| 0 <= i < self@.lines.len() ==> (#[trigger] self@.lines[i]).len() == 0,
    {
        let mut i: usize = 0;
        while i < self.lines.len()
            invariant
                i <= self.lines.len(),
                forall|j: int| 0 <= j < i ==> (#[trigger] self@.lines[j]).len() == 0,
            decreases self.lines.len() - i,
        {
            assert(self@.lines[i as int] == self.lines@[i as int]@);
            if !self.lines[i].as_str().is_empty() {
                return false;
            }
            i += 1;
        }
        true
    }

    pub fn text(&self) -> (r: String)
        ensures
            r@ == text::joined(self@.lines, "\n"@),
    {
        text::join(&self.lines, "\n")
    }

    pub fn lines(&self) -> (r: &Vec<String>)
        ensures
            *r == self.lines,
    {
        &self.lines
    }

    pub fn cursor(&self) -> (r: (usize, usize))
        ensures
            r.0 == self@.row,
            r.1 == self@.col,
    {
        (self.row, self.col)
    }

    /// Display width of the text before the cursor, for placing the caret.
    /// Wide characters occupy two cells.
    pub fn cursor_display_col(&self) -> (r: usize)
        requires
            self.wf(),
        ensures
            r == cell_width(line_at(self@).take(self@.col)),
    {
        assert(self@.lines[self.row as int] == self.lines@[self.row as int]@);
        let v = text::chars_of(&self.lines[self.row]);
        display_width(&head_of(&v, self.col))
    }

    /// Height the box should occupy, clamped so a long paste cannot swallow
    /// the transcript.
    pub fn visible_height(&self) -> (r: usize)
        ensures
            r == (if self@.lines.len() < 1 {
                1
            } else if self@.lines.len() > MAX_VISIBLE_LINES {
                MAX_VISIBLE_LINES as nat
            } else {
                self@.lines.len()
            }),
    {
        let n: usize = self.lines.len();
        if n < 1 {
            1
        } else if n > MAX_VISIBLE_LINES {
            MAX_VISIBLE_LINES
        } else {
            n
        }
    }

    /// First visible line when the content is taller than the box.
    pub fn scroll_offset(&self) -> (r: usize)
        ensures
            r == (if self@.row > MAX_VISIBLE_LINES - 1 {
                self@.row - (MAX_VISIBLE_LINES - 1)
            } else {
                0
            }),
    {
        if self.row > MAX_VISIBLE_LINES - 1 {
            self.row - (MAX_VISIBLE_LINES - 1)
        } else {
            0
        }
    }

    pub fn set_text(&mut self, s: &str)
        ensures
            final(self)@ == showing(old(self)@, s@),
            old(self)@.history.len() <= HISTORY_LIMIT && (old(self)@.index matches Some(i) ==> i
                < old(self)@.history.len()) ==> final(self).wf(),
    {
        self.lines = text::split(s, '\n');
        proof {
            text::lemma_pieces_nonempty(s@, '\n');
            assert(self@.lines == lines_for(s@));
            assert(self@.lines.len() == self.lines@.len());
        }
        self.row = self.lines.len() - 1;
        assert(self@.lines[self.row as int] == self.lines@[self.row as int]@);
        self.col = text::chars_of(&self.lines[self.row]).len();
        assert(self@ =~= showing(old(self)@, s@));
    }

    pub fn clear(&mut self)
        ensures
            final(self)@ == cleared(old(self)@),
            old(self)@.history.len() <= HISTORY_LIMIT ==> final(self).wf(),
    {
        self.lines = one_line();
        self.row = 0;
        self.col = 0;
        self.history_index = None;
        self.draft = None;
    }

    /// Take the contents, record them in history, and reset.
    pub fn take(&mut self) -> (r: String)
        requires
            old(self).wf(),
        ensures
            final(self).wf(),
            r@ == text::joined(old(self)@.lines, "\n"@),
            final(self)@ == cleared(
                AreaView { history: remembered(old(self)@.history, r@), ..old(self)@ },
            ),
    {
        let s = self.text();
        let entry = text::trim(&s);
        let ghost before = self@.history;
        assert(before.len() == self.history@.len());
        let repeat = if self.history.len() > 0 {
            assert(before.last() == self.history@[self.history@.len() - 1]@);
            text::same(&self.history[self.history.len() - 1], &entry)
        } else {
            false
        };
        if !entry.as_str().is_empty() && !repeat {
            let ghost ev = entry@;
            self.history.push(entry);
            assert(text::views(self.history@) =~= before.push(ev));
            if self.history.len() > HISTORY_LIMIT {
                let ghost full = text::views(self.history@);
                self.history.remove(0);
                assert(text::views(self.history@) =~= full.skip(1));
            }
        }
        self.clear();
        s
    }

    /// Replaces the line that the cursor is on.
    fn set_line(&mut self, line: String, col: usize)
        requires
            old(self).wf(),
            col <= line@.len(),
        ensures
            final(self).wf(),
            final(self)@ == edited(
                old(self)@,
                old(self)@.lines.update(old(self)@.row, line@),
                old(self)@.row,
                col as int,
            ),
    {
        let ghost before = self@.lines;
        let ghost lv = line@;
        self.lines.set(self.row, line);
        assert(text::views(self.lines@) =~= before.update(self.row as int, lv));
        self.col = col;
        self.history_index = None;
    }

    pub fn insert_char(&mut self, ch: char)
        requires
            old(self).wf(),
        ensures
            final(self).wf(),
            final(self)@ == typed(old(self)@, ch),
    {
        assert(self@.lines[self.row as int] == self.lines@[self.row as int]@);
        let v = text::chars_of(&self.lines[self.row]);
        let mut line = head_of(&v, self.col);
        let ghost head = line@;
        line.push(ch);
        assert(line@ =~= head + seq![ch]);
        line.append(&tail_of(&v, self.col));
        let n: usize = text::chars_of(&line).len();
        assert(self.col + 1 <= n);
        self.set_line(line, self.col + 1);
    }

    pub fn insert_str(&mut self, s: &str)
        requires
            old(self).wf(),
        ensures
            final(self).wf(),
            final(self)@ == pasted(old(self)@, s@),
    {
        let v = text::chars_of(s);
        let mut i: usize = 0;
        while i < v.len()
            invariant
                i <= v.len(),
                v@ == s@,
                self.wf(),
                self@ == pasted(old(self)@, s@.take(i as int)),
            decreases v.len() - i,
        {
            assert(s@.take(i + 1).drop_last() =~= s@.take(i as int));
            let c = v[i];
            if c == '\n' {
                self.insert_newline();
            } else if c != '\r' {
                self.insert_char(c);
            }
            i += 1;
        }
        assert(s@.take(s@.len() as int) =~= s@);
    }

    pub fn insert_newline(&mut self)
        requires
            old(self).wf(),
        ensures
            final(self).wf(),
            final(self)@ == broken(old(self)@),
    {
        assert(self@.lines[self.row as int] == self.lines@[self.row as int]@);
        let v = text::chars_of(&self.lines[self.row]);
        let head = head_of(&v, self.col);
        let tail = tail_of(&v, self.col);
        let ghost before = self@.lines;
        let ghost hv = head@;
        let ghost tv = tail@;
        self.lines.set(self.row, head);
        assert(text::views(self.lines@) =~= before.update(self.row as int, hv));
        let ghost mid = text::views(self.lines@);
        assert(self.row < self.lines.len());
        self.lines.insert(self.row + 1, tail);
        assert(text::views(self.lines@) =~= mid.insert(self.row + 1, tv));
        assert(self.lines.len() == before.len() + 1);
        self.row += 1;
        self.col = 0;
        self.history_index = None;
    }

    pub fn backspace(&mut self)
        requires
            old(self).wf(),
        ensures
            final(self).wf(),
            final(self)@ == erased(old(self)@),
    {
        assert(self@.lines[self.row as int] == self.lines@[self.row as int]@);
        if self.col > 0 {
            let v = text::chars_of(&self.lines[self.row]);
            let mut line = head_of(&v, self.col - 1);
            line.append(&tail_of(&v, self.col));
            self.set_line(line, self.col - 1);
        } else if self.row > 0 {
            let ghost before = self@.lines;
            let ghost r = self.row as int;
            let current = self.lines.remove(self.row);
            assert(text::views(self.lines@) =~= before.remove(r));
            self.row -= 1;
            assert(self.lines@[self.row as int]@ == before[r - 1]);
            let mut line = self.lines[self.row].clone();
            self.col = text::chars_of(&line).len();
            line.append(&current);
            let ghost mid = text::views(self.lines@);
            let ghost lv = line@;
            self.lines.set(self.row, line);
            assert(text::views(self.lines@) =~= mid.update(r - 1, lv));
            self.history_index = None;
        } else {
            self.history_index = None;
        }
    }

    pub fn delete(&mut self)
        requires
            old(self).wf(),
        ensures
            final(self).wf(),
            final(self)@ == erased_forward(old(self)@),
    {
        assert(self@.lines[self.row as int] == self.lines@[self.row as int]@);
        let v = text::chars_of(&self.lines[self.row]);
        if self.col < v.len() {
            let mut line = head_of(&v, self.col);
            line.append(&tail_of(&v, self.col + 1));
            self.set_line(line, self.col);
        } else if self.row < self.lines.len() - 1 {
            let ghost before = self@.lines;
            let next = self.lines.remove(self.row + 1);
            assert(text::views(self.lines@) =~= before.remove(self.row + 1));
            let ghost mid = text::views(self.lines@);
            assert(self.lines@[self.row as int]@ == before[self.row as int]);
            let mut line = self.lines[self.row].clone();
            line.append(&next);
            let ghost lv = line@;
            self.lines.set(self.row, line);
            assert(text::views(self.lines@) =~= mid.update(self.row as int, lv));
            self.history_index = None;
        } else {
            self.history_index = None;
        }
    }

    /// Delete the word before the cursor.
    pub fn delete_word_before(&mut self)
        requires
            old(self).wf(),
        ensures
            final(self).wf(),
            final(self)@ == word_erased(old(self)@),
    {
        assert(self@.lines[self.row as int] == self.lines@[self.row as int]@);
        let v = text::chars_of(&self.lines[self.row]);
        let start: usize = word_start(&v, self.col);
        if start == self.col {
            self.backspace();
            return;
        }
        let mut line = head_of(&v, start);
        line.append(&tail_of(&v, self.col));
        self.set_line(line, start);
    }

    /// Delete from the cursor to end of line.
    pub fn kill_to_end(&mut self)
        requires
            old(self).wf(),
        ensures
            final(self).wf(),
            final(self)@ == edited(
                old(self)@,
                old(self)@.lines.update(
                    old(self)@.row,
                    line_at(old(self)@).take(old(self)@.col),
                ),
                old(self)@.row,
                old(self)@.col,
            ),
    {
        assert(self@.lines[self.row as int] == self.lines@[self.row as int]@);
        let v = text::chars_of(&self.lines[self.row]);
        let line = head_of(&v, self.col);
        self.set_line(line, self.col);
    }

    /// Delete from start of line to the cursor.
    pub fn kill_to_start(&mut self)
        requires
            old(self).wf(),
        ensures
            final(self).wf(),
            final(self)@ == edited(
                old(self)@,
                old(self)@.lines.update(
                    old(self)@.row,
                    line_at(old(self)@).skip(old(self)@.col),
                ),
                old(self)@.row,
                0,
            ),
    {
        assert(self@.lines[self.row as int] == self.lines@[self.row as int]@);
        let v = text::chars_of(&self.lines[self.row]);
        let line = tail_of(&v, self.col);
        self.set_line(line, 0);
    }

    /// The length of a line.
    fn line_len(&self, row: usize) -> (r: usize)
        requires
            row < self.lines@.len(),
        ensures
            r == self@.lines[row as int].len(),
    {
        assert(self@.lines[row as int] == self.lines@[row as int]@);
        text::chars_of(&self.lines[row]).len()
    }

    pub fn move_left(&mut self)
        requires
            old(self).wf(),
        ensures
            final(self).wf(),
            final(self)@ == stepped_left(old(self)@),
    {
        if self.col > 0 {
            self.col -= 1;
        } else if self.row > 0 {
            self.row -= 1;
            self.col = self.line_len(self.row);
        }
    }

    pub fn move_right(&mut self)
        requires
            old(self).wf(),
        ensures
            final(self).wf(),
            final(self)@ == stepped_right(old(self)@),
    {
        let len: usize = self.line_len(self.row);
        if self.col < len {
            self.col += 1;
        } else if self.row < self.lines.len() - 1 {
            self.row += 1;
            self.col = 0;
        }
    }

    pub fn move_word_left(&mut self)
        requires
            old(self).wf(),
        ensures
            final(self).wf(),
            final(self)@ == moved(
                old(self)@,
                old(self)@.row,
                word_before(line_at(old(self)@), old(self)@.col),
            ),
    {
        assert(self@.lines[self.row as int] == self.lines@[self.row as int]@);
        let v = text::chars_of(&self.lines[self.row]);
        self.col = word_start(&v, self.col);
    }

    pub fn move_word_right(&mut self)
        requires
            old(self).wf(),
        ensures
            final(self).wf(),
            final(self)@ == moved(
                old(self)@,
                old(self)@.row,
                word_after(line_at(old(self)@), old(self)@.col),
            ),
    {
        assert(self@.lines[self.row as int] == self.lines@[self.row as int]@);
        let v = text::chars_of(&self.lines[self.row]);
        let ghost line = v@;
        let mut col: usize = self.col;
        while col < v.len() && !text::is_space(v[col])
            invariant
                col <= v.len(),
                line == v@,
                run_end(line, self.col as int) == run_end(line, col as int),
            decreases v.len() - col,
        {
            col += 1;
        }
        let ghost mid = col as int;
        while col < v.len() && text::is_space(v[col])
            invariant
                col <= v.len(),
                line == v@,
                gap_end(line, mid) == gap_end(line, col as int),
            decreases v.len() - col,
        {
            col += 1;
        }
        self.col = col;
    }

    pub fn move_home(&mut self)
        requires
            old(self).wf(),
        ensures
            final(self).wf(),
            final(self)@ == moved(old(self)@, old(self)@.row, 0),
    {
        self.col = 0;
    }

    pub fn move_end(&mut self)
        requires
            old(self).wf(),
        ensures
            final(self).wf(),
            final(self)@ == moved(
                old(self)@,
                old(self)@.row,
                line_at(old(self)@).len() as int,
            ),
    {
        self.col = self.line_len(self.row);
    }

    /// Move up a line. Returns false when already on the first line, which is
    /// the caller's cue to recall history instead.
    pub fn move_up(&mut self) -> (r: bool)
        requires
            old(self).wf(),
        ensures
            final(self).wf(),
            r == (old(self)@.row > 0),
            final(self)@ == stepped_up(old(self)@),
    {
        if self.row == 0 {
            return false;
        }
        self.row -= 1;
        let len: usize = self.line_len(self.row);
        if self.col > len {
            self.col = len;
        }
        true
    }

    /// Move down a line. Returns false when already on the last line.
    pub fn move_down(&mut self) -> (r: bool)
        requires
            old(self).wf(),
        ensures
            final(self).wf(),
            r == (old(self)@.row + 1 < old(self)@.lines.len()),
            final(self)@ == stepped_down(old(self)@),
    {
        if self.row >= self.lines.len() - 1 {
            return false;
        }
        self.row += 1;
        let len: usize = self.line_len(self.row);
        if self.col > len {
            self.col = len;
        }
        true
    }

    /// Step back through submitted prompts.
    pub fn history_prev(&mut self)
        requires
            old(self).wf(),
        ensures
            final(self).wf(),
            final(self)@ == recalled(old(self)@),
    {
        assert(self@.history.len() == self.history@.len());
        if self.history.len() == 0 {
            return;
        }
        let next: usize = match self.history_index {
            None => {
                self.draft = Some(self.text());
                self.history.len() - 1
            },
            Some(i) => if i == 0 {
                0
            } else {
                i - 1
            },
        };
        assert(self@.history[next as int] == self.history@[next as int]@);
        let entry = self.history[next].clone();
        self.set_text(&entry);
        self.history_index = Some(next);
        assert(self@ =~= recalled(old(self)@));
    }

    /// Step forward, ending on the draft that was interrupted.
    pub fn history_next(&mut self)
        requires
            old(self).wf(),
        ensures
            final(self).wf(),
            final(self)@ == returned(old(self)@),
    {
        assert(self@.history.len() == self.history@.len());
        let current: usize = match self.history_index {
            None => {
                return;
            },
            Some(i) => i,
        };
        if current < self.history.len() - 1 {
            let next: usize = current + 1;
            assert(self@.history[next as int] == self.history@[next as int]@);
            let entry = self.history[next].clone();
            self.set_text(&entry);
            self.history_index = Some(next);
        } else {
            let draft = match clone_text(&self.draft) {
                Some(d) => d,
                None => String::new(),
            };
            assert(draft@ =~= match self@.draft {
                Some(d) => d,
                None => Seq::empty(),
            });
            self.draft = None;
            self.set_text(&draft);
            self.history_index = None;
        }
        assert(self@ =~= returned(old(self)@));
    }

    pub fn history_len(&self) -> (r: usize)
        ensures
            r == self@.history.len(),
    {
        self.history.len()
    }

    /// Seed history from a resumed session's earlier prompts.
    pub fn load_history(&mut self, entries: Vec<String>)
        requires
            old(self).wf(),
        ensures
            (old(self)@.index matches Some(i) ==> i < seeded(text::views(entries@)).len())
                ==> final(self).wf(),
            final(self)@ == (AreaView { history: seeded(text::views(entries@)), ..old(self)@ }),
    {
        let ghost all = text::views(entries@);
        let ghost keep = |e: Seq<char>| text::trimmed(e).len() > 0;
        let mut out: Vec<String> = Vec::new();
        let mut i: usize = 0;
        proof {
            reveal(Seq::filter);
        }
        assert(text::views(out@) =~= Seq::<Seq<char>>::empty());
        while i < entries.len()
            invariant
                i <= entries.len(),
                all == text::views(entries@),
                keep == (|e: Seq<char>| text::trimmed(e).len() > 0),
                text::views(out@) == all.take(i as int).filter(keep),
            decreases entries.len() - i,
        {
            proof {
                reveal(Seq::filter);
                assert(all.take(i + 1).drop_last() =~= all.take(i as int));
                assert(all[i as int] == entries@[i as int]@);
            }
            if !text::trim(&entries[i]).as_str().is_empty() {
                let ghost before = text::views(out@);
                out.push(entries[i].clone());
                assert(text::views(out@) =~= before.push(all[i as int]));
            }
            i += 1;
        }
        assert(all.take(all.len() as int) =~= all);
        let ghost kept = text::views(out@);
        assert(kept.len() == out@.len());
        if out.len() > HISTORY_LIMIT {
            let excess: usize = out.len() - HISTORY_LIMIT;
            let latest = out.split_off(excess);
            assert(text::views(latest@) =~= kept.skip(excess as int));
            self.history = latest;
        } else {
            self.history = out;
        }
        assert(self@.history =~= seeded(all));
    }
}

/// The start of the word before a position, with the white space between.
fn word_start(v: &Vec<char>, col: usize) -> (r: usize)
    requires
        col <= v@.len(),
    ensures
        r == word_before(v@, col as int),
        r <= col,
{
    let ghost line = v@;
    let mut start: usize = col;
    while start > 0 && text::is_space(v[start - 1])
        invariant
            start <= col,
            col <= v.len(),
            line == v@,
            gap_start(line, col as int) == gap_start(line, start as int),
        decreases start,
    {
        start -= 1;
    }
    let ghost mid = start as int;
    while start > 0 && !text::is_space(v[start - 1])
        invariant
            start <= col,
            col <= v.len(),
            line == v@,
            run_start(line, mid) == run_start(line, start as int),
        decreases start,
    {
        start -= 1;
    }
    start
}

// ---------------------------------------------------------------------------
// Laws
// ---------------------------------------------------------------------------

/// A backspace takes back the character that was just typed.
pub proof fn law_backspace_undoes_typing(a: AreaView, c: char)
    requires
        is_area(a),
    ensures
        erased(typed(a, c)) == (AreaView { index: None, ..a }),
{
    let t = typed(a, c);
    let line = line_at(a);
    let with = line.take(a.col) + seq![c] + line.skip(a.col);
    assert(line_at(t) == with);
    assert(with.take(a.col) + with.skip(a.col + 1) =~= line);
    assert(t.lines.update(a.row, line) =~= a.lines);
    assert(erased(t) =~= AreaView { index: None, ..a });
}

/// A backspace takes back the line break that was just typed.
pub proof fn law_backspace_undoes_breaking(a: AreaView)
    requires
        is_area(a),
    ensures
        erased(broken(a)) == (AreaView { index: None, ..a }),
{
    let b = broken(a);
    let line = line_at(a);
    assert(b.lines[a.row] == line.take(a.col));
    assert(b.lines[a.row + 1] == line.skip(a.col));
    assert(line.take(a.col) + line.skip(a.col) =~= line);
    assert(b.lines.remove(a.row + 1).update(a.row, line) =~= a.lines);
    assert(erased(b) =~= AreaView { index: None, ..a });
}

/// Every edit and every step leaves a proper text area.
pub proof fn law_edits_keep_the_area(a: AreaView, c: char, s: Seq<char>)
    requires
        is_area(a),
    ensures
        is_area(typed(a, c)),
        is_area(broken(a)),
        is_area(pasted(a, s)),
        is_area(showing(a, s)),
        is_area(cleared(a)),
        is_area(word_erased(a)),
        is_area(recalled(a)),
        is_area(returned(a)),
        is_area(erased(a)),
        is_area(erased_forward(a)),
        is_area(stepped_left(a)),
        is_area(stepped_right(a)),
        is_area(stepped_up(a)),
        is_area(stepped_down(a)),
{
    lemma_pasted_area(a, s);
    lemma_gap_start(line_at(a), a.col);
    lemma_run_start(line_at(a), gap_start(line_at(a), a.col));
}

proof fn lemma_pasted_area(a: AreaView, s: Seq<char>)
    requires
        is_area(a),
    ensures
        is_area(pasted(a, s)),
    decreases s.len(),
{
    if s.len() > 0 {
        lemma_pasted_area(a, s.drop_last());
    }
}

proof fn lemma_gap_start(line: Seq<char>, to: int)
    requires
        0 <= to <= line.len(),
    ensures
        0 <= gap_start(line, to) <= to,
    decreases to,
{
    if 0 < to && text::is_white(line[to - 1]) {
        lemma_gap_start(line, to - 1);
    }
}

proof fn lemma_run_start(line: Seq<char>, to: int)
    requires
        0 <= to <= line.len(),
    ensures
        0 <= run_start(line, to) <= to,
    decreases to,
{
    if 0 < to && !text::is_white(line[to - 1]) {
        lemma_run_start(line, to - 1);
    }
}

/// The history never exceeds its bound.
pub proof fn law_history_is_bounded(history: Seq<Seq<char>>, s: Seq<char>, entries: Seq<Seq<char>>)
    requires
        history.len() <= HISTORY_LIMIT,
    ensures
        remembered(history, s).len() <= HISTORY_LIMIT,
        seeded(entries).len() <= HISTORY_LIMIT,
{
}

/// An immediate repeat is not recorded twice.
pub proof fn law_repeats_are_recorded_once(history: Seq<Seq<char>>, s: Seq<char>)
    requires
        history.len() <= HISTORY_LIMIT,
    ensures
        remembered(remembered(history, s), s) == remembered(history, s),
{
    let once = remembered(history, s);
    let entry = text::trimmed(s);
    if entry.len() > 0 {
        assert(once.len() > 0 && once.last() == entry);
    }
}

/// After some steps back through the history.
pub open spec fn recalled_by(a: AreaView, n: nat) -> AreaView
    decreases n,
{
    if n == 0 {
        a
    } else {
        recalled(recalled_by(a, (n - 1) as nat))
    }
}

/// After some steps forward through the history.
pub open spec fn returned_by(a: AreaView, n: nat) -> AreaView
    decreases n,
{
    if n == 0 {
        a
    } else {
        returned(returned_by(a, (n - 1) as nat))
    }
}

/// Going back into the history, however far, and as many steps forward again
/// restores what was being typed: the draft is not lost.
pub proof fn law_draft_is_restored(a: AreaView, n: nat)
    requires
        is_area(a),
        a.index is None,
        a.history.len() > 0,
        n > 0,
        forall|i: int| 0 <= i < a.lines.len() ==> !(#[trigger] a.lines[i]).contains('\n'),
    ensures
        returned_by(recalled_by(a, n), n).lines == a.lines,
        returned_by(recalled_by(a, n), n).index is None,
{
    reveal_strlit("\n");
    assert("\n"@ =~= seq!['\n']);
    text::lemma_pieces_joined(a.lines, '\n');
    lemma_recalled_by(a, n);
    lemma_returned_by(recalled_by(a, n), n);
}

proof fn lemma_recalled_by(a: AreaView, n: nat)
    requires
        is_area(a),
        a.index is None,
        a.history.len() > 0,
        n > 0,
    ensures
        recalled_by(a, n).index == Some(
            (if n <= a.history.len() {
                a.history.len() - n
            } else {
                0
            }) as usize,
        ),
        recalled_by(a, n).draft == Some(text::joined(a.lines, "\n"@)),
        recalled_by(a, n).history == a.history,
    decreases n,
{
    if n == 1 {
        assert(recalled_by(a, 0) == a);
    } else {
        lemma_recalled_by(a, (n - 1) as nat);
    }
}

proof fn lemma_returned_by(a: AreaView, n: nat)
    requires
        a.index matches Some(i) && i < a.history.len(),
        a.history.len() <= HISTORY_LIMIT,
        a.draft is Some,
    ensures
        ({
            let i = a.index->0;
            let b = returned_by(a, n);
            if i + n < a.history.len() {
                b.index == Some((i + n) as usize) && b.draft == a.draft && b.history == a.history
            } else {
                b.index is None && b.lines == lines_for(a.draft->0)
            }
        }),
    decreases n,
{
    if n > 0 {
        lemma_returned_by(a, (n - 1) as nat);
    }
}

} // verus!
