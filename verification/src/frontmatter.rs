//! Markdown files that begin with a fenced block of `key: value` lines.
use vstd::prelude::*;
use crate::text;

verus! {

/// A file, as it was read.
#[derive(Debug)]
pub struct SourceFile {
    pub path: String,
    pub text: String,
}

/// How a file begins.
pub enum FenceView {
    /// Without a fence.
    Absent,
    /// With a fence that nothing closes.
    Unclosed,
    /// With a block, and what follows it.
    Closed(Seq<char>, Seq<char>),
}

/// How a file begins. White space before the fence does not count.
pub open spec fn fence_of(text: Seq<char>) -> FenceView {
    match text::stripped_prefix(text::trimmed_start(text), "---"@) {
        None => FenceView::Absent,
        Some(after) => match text::cut_once(after, "\n---"@) {
            Some((block, body)) => FenceView::Closed(block, body),
            None => FenceView::Unclosed,
        },
    }
}

/// How a file begins.
#[derive(Debug)]
pub enum Fence {
    Absent,
    Unclosed,
    Closed(String, String),
}

impl View for Fence {
    type V = FenceView;

    open spec fn view(&self) -> FenceView {
        match *self {
            Fence::Absent => FenceView::Absent,
            Fence::Unclosed => FenceView::Unclosed,
            Fence::Closed(a, b) => FenceView::Closed(a@, b@),
        }
    }
}

/// How a file begins.
pub fn read_fence(text: &str) -> (r: Fence)
    ensures
        r@ == fence_of(text@),
{
    match text::strip_prefix(&text::trim_start(text), "---") {
        None => Fence::Absent,
        Some(after) => match text::split_once(&after, "\n---") {
            Some((block, body)) => Fence::Closed(block, body),
            None => Fence::Unclosed,
        },
    }
}

/// A text without the characters `c` at both ends.
pub open spec fn without_both(s: Seq<char>, c: char) -> Seq<char> {
    text::without_end(text::without_start(s, c), c)
}

/// The key and the value of a line. White space and quotes around the value do
/// not count, and a line without a value says nothing.
pub open spec fn setting_of(line: Seq<char>) -> Option<(Seq<char>, Seq<char>)> {
    match text::cut_once(line, ":"@) {
        None => None,
        Some((key, raw)) => {
            let value = without_both(without_both(text::trimmed(raw), '"'), '\'');
            if value.len() == 0 {
                None
            } else {
                Some((text::trimmed(key), value))
            }
        },
    }
}

pub(crate) fn trim_both(s: &str, c: char) -> (r: String)
    ensures
        r@ == without_both(s@, c),
{
    text::trim_end_char(&text::trim_start_char(s, c), c)
}

/// The key and the value of a line.
pub fn read_setting(line: &str) -> (r: Option<(String, String)>)
    ensures
        match r {
            Some(p) => setting_of(line@) == Some((p.0@, p.1@)),
            None => setting_of(line@) is None,
        },
{
    match text::split_once(line, ":") {
        None => None,
        Some((key, raw)) => {
            let value = trim_both(&trim_both(&text::trim(&raw), '"'), '\'');
            if value.as_str().is_empty() {
                None
            } else {
                Some((text::trim(&key), value))
            }
        },
    }
}

} // verus!
