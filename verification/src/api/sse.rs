//! Server-sent-events parsing and streaming-delta accumulation.
//!
//! * [`SseDecoder`] turns an arbitrarily-chunked byte stream into complete
//!   `data:` payloads.
//! * [`DeltaAccumulator`] folds streamed [`ChatChunk`]s into a single
//!   [`Completion`], reassembling tool calls whose JSON arguments arrive in
//!   fragments.
use vstd::prelude::*;
use vstd::string::StringExecFns;
use crate::api::types::{
    CallView, ChatChunk, ChatResponse, ChunkChoice, Completion, Message, MessageView, Role,
    StreamEvent, ToolCall, ToolCallDelta, Usage,
};
use crate::text;
use crate::util::{lemma_bytes_of_sum, lemma_plain_bytes};

verus! {

/// Largest partial event held while waiting for its terminator.
///
/// An endpoint that never sends a blank line would otherwise grow this without
/// limit.
pub const MAX_PENDING_EVENT_BYTES: usize = 8_388_608;

/// Bytes read as UTF-8, with replacement characters for what is no UTF-8.
pub uninterp spec fn utf8_lossy(bytes: Seq<u8>) -> Seq<char>;

/// `String::from_utf8_lossy`. Valid UTF-8 is decoded as it is; which sequences
/// are replaced otherwise is named and not spelled out.
#[verifier::external_body]
pub(crate) fn decode_lossy(bytes: &[u8]) -> (r: String)
    ensures
        r@ == utf8_lossy(bytes@),
        vstd::utf8::valid_utf8(bytes@) ==> r@ == vstd::utf8::decode_utf8(bytes@),
{
    String::from_utf8_lossy(bytes).into_owned()
}

// ---------------------------------------------------------------------------
// The decoder
// ---------------------------------------------------------------------------

/// Text with each CRLF turned into a line feed.
pub open spec fn without_crlf(s: Seq<char>) -> Seq<char> {
    text::replaced(s, "\r\n"@, "\n"@)
}

/// The `data:` lines of an event, without that prefix and one space behind it,
/// joined by line feeds.
pub open spec fn data_lines(lines: Seq<Seq<char>>) -> Seq<char>
    decreases lines.len(),
{
    if lines.len() == 0 {
        Seq::empty()
    } else {
        let before = data_lines(lines.drop_last());
        match text::stripped_prefix(lines.last(), "data:"@) {
            None => before,
            Some(rest) => {
                let line = match text::stripped_prefix(rest, " "@) {
                    Some(tail) => tail,
                    None => rest,
                };
                if before.len() > 0 {
                    before.push('\n') + line
                } else {
                    before + line
                }
            },
        }
    }
}

/// The payload of an event, where it has one that is not blank.
pub open spec fn payload(event: Seq<char>) -> Option<Seq<char>> {
    let data = data_lines(text::lines_of(event));
    if text::trimmed(data).len() == 0 {
        None
    } else {
        Some(data)
    }
}

/// The payloads of the events that a blank line ends, and what follows the last
/// of them.
pub open spec fn complete_events(s: Seq<char>) -> (Seq<Seq<char>>, Seq<char>)
    decreases s.len(),
{
    match text::found(s, "\n\n"@) {
        None => (Seq::empty(), s),
        Some(i) => {
            proof {
                text::lemma_found_from(s, "\n\n"@, 0);
                reveal_strlit("\n\n");
            }
            let (more, left) = complete_events(s.skip(i + 2));
            match payload(s.take(i)) {
                Some(p) => (seq![p] + more, left),
                None => (more, left),
            }
        },
    }
}

/// What a decoder holds.
pub struct DecoderView {
    pub buffer: Seq<char>,
    pub overflowed: bool,
}

/// The decoder after a piece of text, and the payloads that it unlocked.
pub open spec fn fed(d: DecoderView, piece: Seq<char>) -> (DecoderView, Seq<Seq<char>>) {
    if d.overflowed {
        (d, Seq::empty())
    } else if text::byte_count(d.buffer + piece) > MAX_PENDING_EVENT_BYTES {
        (DecoderView { buffer: Seq::empty(), overflowed: true }, Seq::empty())
    } else {
        let (out, left) = complete_events(without_crlf(d.buffer + piece));
        (DecoderView { buffer: left, overflowed: false }, out)
    }
}

/// The payloads that are left when the stream ends.
pub open spec fn flushed(buffer: Seq<char>) -> Seq<Seq<char>> {
    let (out, left) = complete_events(without_crlf(buffer));
    match payload(left) {
        Some(p) => out.push(p),
        None => out,
    }
}

/// Incrementally extracts SSE `data:` payloads from a byte stream.
#[derive(Debug)]
pub struct SseDecoder {
    pub buffer: String,
    /// Set once the buffer has overflowed.
    pub overflowed: bool,
}

impl View for SseDecoder {
    type V = DecoderView;

    open spec fn view(&self) -> DecoderView {
        DecoderView { buffer: self.buffer@, overflowed: self.overflowed }
    }
}

impl SseDecoder {
    pub fn new() -> (r: Self)
        ensures
            r@ == (DecoderView { buffer: Seq::empty(), overflowed: false }),
    {
        SseDecoder { buffer: String::new(), overflowed: false }
    }

    /// Feed a chunk of bytes; returns every complete payload it unlocked.
    ///
    /// Invalid UTF-8 is replaced rather than erroring.
    pub fn push(&mut self, bytes: &[u8]) -> (r: Vec<String>)
        ensures
            (final(self)@, text::views(r@)) == fed(old(self)@, utf8_lossy(bytes@)),
    {
        if self.overflowed {
            let none: Vec<String> = Vec::new();
            assert(text::views(none@) =~= Seq::<Seq<char>>::empty());
            return none;
        }
        self.buffer.append(&decode_lossy(bytes));
        if text::byte_len(&self.buffer) > MAX_PENDING_EVENT_BYTES {
            self.buffer = String::new();
            self.overflowed = true;
            let none: Vec<String> = Vec::new();
            assert(text::views(none@) =~= Seq::<Seq<char>>::empty());
            return none;
        }
        self.drain()
    }

    /// Whether the stream exceeded the per-event limit and was abandoned.
    pub fn overflowed(&self) -> (r: bool)
        ensures
            r == self@.overflowed,
    {
        self.overflowed
    }

    fn drain(&mut self) -> (r: Vec<String>)
        ensures
            final(self).overflowed == old(self).overflowed,
            (text::views(r@), final(self).buffer@) == complete_events(
                without_crlf(old(self).buffer@),
            ),
    {
        let mut out: Vec<String> = Vec::new();
        proof {
            reveal_strlit("\r\n");
            reveal_strlit("\n\n");
        }
        self.buffer = text::replace(&self.buffer, "\r\n", "\n");
        let ghost whole = complete_events(self.buffer@);
        assert(text::views(out@) + whole.0 =~= whole.0);
        loop
            invariant
                self.overflowed == old(self).overflowed,
                whole == complete_events(without_crlf(old(self).buffer@)),
                text::views(out@) + complete_events(self.buffer@).0 == whole.0,
                complete_events(self.buffer@).1 == whole.1,
            decreases self.buffer@.len(),
        {
            match text::split_once(&self.buffer, "\n\n") {
                None => {
                    proof {
                        assert(text::views(out@) + Seq::<Seq<char>>::empty() =~= text::views(out@));
                    }
                    return out;
                },
                Some((event, rest)) => {
                    let ghost before = text::views(out@);
                    let ghost more = complete_events(rest@).0;
                    proof {
                        text::lemma_found_from(self.buffer@, "\n\n"@, 0);
                        reveal_strlit("\n\n");
                    }
                    match Self::extract_data(&event) {
                        Some(p) => {
                            let ghost pv = p@;
                            out.push(p);
                            assert(text::views(out@) =~= before.push(pv));
                            assert(text::views(out@) + more =~= before + (seq![pv] + more));
                        },
                        None => {},
                    }
                    self.buffer = rest;
                },
            }
        }
    }

    /// Flush a trailing event that was never terminated by a blank line.
    pub fn finish(&mut self) -> (r: Vec<String>)
        ensures
            text::views(r@) == flushed(old(self)@.buffer),
            final(self)@ == (DecoderView {
                buffer: Seq::empty(),
                overflowed: old(self)@.overflowed,
            }),
    {
        let mut out = self.drain();
        let ghost before = text::views(out@);
        match Self::extract_data(&self.buffer) {
            Some(p) => {
                let ghost pv = p@;
                out.push(p);
                assert(text::views(out@) =~= before.push(pv));
            },
            None => {},
        }
        self.buffer = String::new();
        out
    }

    /// Join the `data:` lines of a single event, ignoring comments and other
    /// SSE fields (`event:`, `id:`, `retry:`) that this API never uses.
    fn extract_data(event: &str) -> (r: Option<String>)
        ensures
            text::opt_view(r) == payload(event@),
    {
        let lines = text::lines(event);
        let ghost all = text::lines_of(event@);
        let mut data = String::new();
        let mut i: usize = 0;
        while i < lines.len()
            invariant
                i <= lines.len(),
                all == text::views(lines@),
                data@ == data_lines(all.take(i as int)),
            decreases lines.len() - i,
        {
            proof {
                assert(all.take(i + 1).drop_last() =~= all.take(i as int));
                assert(all[i as int] == lines@[i as int]@);
            }
            match text::strip_prefix(&lines[i], "data:") {
                Some(rest) => {
                    if !data.as_str().is_empty() {
                        data.push('\n');
                    }
                    match text::strip_prefix(&rest, " ") {
                        Some(tail) => {
                            data.append(&tail);
                        },
                        None => {
                            data.append(&rest);
                        },
                    }
                },
                None => {},
            }
            i += 1;
        }
        assert(all.take(all.len() as int) =~= all);
        if text::trim(&data).as_str().is_empty() {
            None
        } else {
            Some(data)
        }
    }
}

// ---------------------------------------------------------------------------
// Chunks do not matter
// ---------------------------------------------------------------------------

spec fn crlf() -> Seq<char> {
    seq!['\r', '\n']
}

spec fn lf() -> Seq<char> {
    seq!['\n']
}

/// `without_crlf`, one character at a time.
proof fn lemma_crlf_step(s: Seq<char>)
    ensures
        s.len() >= 2 && s[0] == '\r' && s[1] == '\n' ==> without_crlf(s) == seq!['\n']
            + without_crlf(s.skip(2)),
        s.len() >= 1 && !(s.len() >= 2 && s[0] == '\r' && s[1] == '\n') ==> without_crlf(s) == seq![
            s[0],
        ] + without_crlf(s.skip(1)),
        s.len() == 0 ==> without_crlf(s) == s,
{
    reveal_strlit("\r\n");
    reveal_strlit("\n");
    assert("\r\n"@ =~= crlf());
    assert("\n"@ =~= lf());
    if s.len() >= 2 {
        assert(s.subrange(0, 2) =~= seq![s[0], s[1]]);
        if s[0] == '\r' && s[1] == '\n' {
            assert(s.subrange(0, 2) =~= crlf());
        } else {
            assert(s.subrange(0, 2)[0] == s[0] && s.subrange(0, 2)[1] == s[1]);
            assert(crlf()[0] == '\r' && crlf()[1] == '\n');
        }
    } else if s.len() == 1 {
        assert(s.skip(1) =~= Seq::<char>::empty());
        assert(seq![s[0]] + Seq::<char>::empty() =~= s);
    }
}

/// No CRLF stands in the text.
spec fn crlf_free(s: Seq<char>) -> bool {
    forall|i: int| 0 <= i < s.len() - 1 ==> !(#[trigger] s[i] == '\r' && s[i + 1] == '\n')
}

/// No CR CR LF stands in the text.
pub open spec fn no_doubled_cr(s: Seq<char>) -> bool {
    forall|i: int|
        0 <= i < s.len() - 2 ==> !(#[trigger] s[i] == '\r' && s[i + 1] == '\r' && s[i + 2] == '\n')
}

proof fn lemma_skip_doubled(s: Seq<char>, k: int)
    requires
        no_doubled_cr(s),
        0 <= k <= s.len(),
    ensures
        no_doubled_cr(s.skip(k)),
{
    let t = s.skip(k);
    assert forall|i: int| 0 <= i < t.len() - 2 implies !(#[trigger] t[i] == '\r' && t[i + 1] == '\r'
        && t[i + 2] == '\n') by {
        assert(s[i + k] == t[i]);
    }
}

proof fn lemma_normal_is_free(s: Seq<char>)
    requires
        no_doubled_cr(s),
    ensures
        crlf_free(without_crlf(s)),
        without_crlf(s).len() > 0 && without_crlf(s)[0] == '\n' ==> s.len() > 0 && (s[0] == '\n' || (
        s.len() >= 2 && s[0] == '\r' && s[1] == '\n')),
    decreases s.len(),
{
    lemma_crlf_step(s);
    if s.len() > 0 {
        let n = without_crlf(s);
        let k: int = if s.len() >= 2 && s[0] == '\r' && s[1] == '\n' { 2 } else { 1 };
        lemma_skip_doubled(s, k);
        lemma_normal_is_free(s.skip(k));
        let m = without_crlf(s.skip(k));
        assert forall|i: int| 0 <= i < n.len() - 1 implies !(#[trigger] n[i] == '\r' && n[i + 1]
            == '\n') by {
            if i > 0 {
                assert(n[i] == m[i - 1]);
                assert(n[i + 1] == m[i]);
            } else if n[0] == '\r' && n[1] == '\n' {
                assert(k == 1);
                assert(m[0] == '\n');
                assert(s.skip(1)[0] == s[1]);
                if s.len() >= 3 {
                    assert(s.skip(1)[1] == s[2]);
                }
            }
        }
    }
}

proof fn lemma_free_is_normal(s: Seq<char>)
    requires
        crlf_free(s),
    ensures
        without_crlf(s) == s,
    decreases s.len(),
{
    lemma_crlf_step(s);
    if s.len() > 0 {
        let t = s.skip(1);
        assert forall|i: int| 0 <= i < t.len() - 1 implies !(#[trigger] t[i] == '\r' && t[i + 1]
            == '\n') by {
            assert(s[i + 1] == t[i]);
        }
        lemma_free_is_normal(t);
        assert(seq![s[0]] + t =~= s);
    }
}

/// Text that ends with no CR is normalized apart from what follows it.
proof fn lemma_normal_concat(p: Seq<char>, q: Seq<char>)
    requires
        !(p.len() > 0 && p.last() == '\r' && q.len() > 0 && q[0] == '\n'),
    ensures
        without_crlf(p + q) == without_crlf(p) + without_crlf(q),
    decreases p.len(),
{
    lemma_crlf_step(p);
    lemma_crlf_step(p + q);
    if p.len() == 0 {
        assert(p + q =~= q);
        assert(without_crlf(p) + without_crlf(q) =~= without_crlf(q));
    } else {
        let k: int = if p.len() >= 2 && p[0] == '\r' && p[1] == '\n' { 2 } else { 1 };
        let s = p + q;
        assert(s[0] == p[0]);
        if p.len() >= 2 {
            assert(s[1] == p[1]);
        } else if q.len() > 0 {
            assert(s[1] == q[0]);
        }
        assert(s.skip(k) =~= p.skip(k) + q);
        lemma_normal_concat(p.skip(k), q);
        let head = if k == 2 { seq!['\n'] } else { seq![p[0]] };
        assert(head + (without_crlf(p.skip(k)) + without_crlf(q)) =~= (head + without_crlf(
            p.skip(k),
        )) + without_crlf(q));
    }
}

/// Normalizing the first part beforehand changes nothing.
proof fn lemma_normal_twice(x: Seq<char>, b: Seq<char>)
    requires
        no_doubled_cr(x),
    ensures
        without_crlf(without_crlf(x) + b) == without_crlf(x + b),
    decreases x.len(),
{
    lemma_crlf_step(x);
    lemma_crlf_step(x + b);
    lemma_normal_is_free(x);
    if x.len() == 0 {
        assert(without_crlf(x) + b =~= x + b);
    } else {
        let k: int = if x.len() >= 2 && x[0] == '\r' && x[1] == '\n' { 2 } else { 1 };
        lemma_skip_doubled(x, k);
        lemma_normal_twice(x.skip(k), b);
        lemma_normal_is_free(x.skip(k));
        let s = x + b;
        let m = without_crlf(x.skip(k));
        let head = if k == 2 { '\n' } else { x[0] };
        assert(s[0] == x[0]);
        if x.len() >= 2 {
            assert(s[1] == x[1]);
        } else if b.len() > 0 {
            assert(s[1] == b[0]);
        }
        assert(s.skip(k) =~= x.skip(k) + b);
        let t = without_crlf(x) + b;
        assert(t =~= seq![head] + (m + b));
        assert(t.skip(1) =~= m + b);
        lemma_crlf_step(t);
        if t.len() >= 2 && t[0] == '\r' && t[1] == '\n' {
            assert(k == 1);
            if m.len() > 0 {
                assert(m[0] == '\n');
                assert(x.skip(1)[0] == x[1]);
                if x.len() >= 3 {
                    assert(x.skip(1)[1] == x[2]);
                    assert(x[0] == '\r');
                }
                assert(false);
            } else {
                lemma_crlf_step(x.skip(1));
                assert(x.skip(1).len() == 0);
                assert(t =~= s);
            }
        }
    }
}

proof fn lemma_found_prefix(y: Seq<char>, z: Seq<char>, pat: Seq<char>, i: int)
    requires
        text::found(y, pat) == Some(i),
        0 <= i,
        i + pat.len() <= z.len(),
        i + pat.len() <= y.len(),
        y.take(i + pat.len()) == z.take(i + pat.len()),
    ensures
        text::found(z, pat) == Some(i),
{
    text::lemma_found_from(y, pat, 0);
    text::lemma_found_from(z, pat, 0);
    let n = i + pat.len();
    assert forall|j: int| 0 <= j <= i implies text::occurs_at(y, pat, j) == text::occurs_at(
        z,
        pat,
        j,
    ) by {
        assert(y.subrange(j, j + pat.len()) =~= y.take(n).subrange(j, j + pat.len()));
        assert(z.subrange(j, j + pat.len()) =~= z.take(n).subrange(j, j + pat.len()));
    }
    assert(text::occurs_at(z, pat, i));
    let k = text::found(z, pat)->0;
    assert(text::occurs_at(z, pat, k));
    assert(text::occurs_at(y, pat, k));
}

/// Events that are complete are the same whatever follows them.
proof fn lemma_events_then(y: Seq<char>, b: Seq<char>)
    requires
        crlf_free(y),
    ensures
        ({
            let (out, left) = complete_events(y);
            let (more, rest) = complete_events(without_crlf(left + b));
            complete_events(without_crlf(y + b)) == (out + more, rest)
        }),
    decreases y.len(),
{
    reveal_strlit("\n\n");
    let sep = "\n\n"@;
    assert(sep =~= seq!['\n', '\n']);
    text::lemma_found_from(y, sep, 0);
    match text::found(y, sep) {
        None => {
            let more = complete_events(without_crlf(y + b)).0;
            assert(Seq::<Seq<char>>::empty() + more =~= more);
        },
        Some(i) => {
            let head = y.take(i + 2);
            let rest = y.skip(i + 2);
            assert(y.subrange(i, i + 2) == sep);
            assert(head.last() == y.subrange(i, i + 2)[1]);
            assert(crlf_free(head)) by {
                assert forall|k: int| 0 <= k < head.len() - 1 implies !(#[trigger] head[k] == '\r'
                    && head[k + 1] == '\n') by {
                    assert(y[k] == head[k]);
                }
            }
            assert(crlf_free(rest)) by {
                assert forall|k: int| 0 <= k < rest.len() - 1 implies !(#[trigger] rest[k] == '\r'
                    && rest[k + 1] == '\n') by {
                    assert(y[k + i + 2] == rest[k]);
                }
            }
            lemma_free_is_normal(head);
            lemma_normal_concat(head, rest + b);
            assert(y + b =~= head + (rest + b));
            let tail = without_crlf(rest + b);
            let z = head + tail;
            assert(without_crlf(y + b) == z);
            assert(z.take(i + 2) =~= y.take(i + 2));
            lemma_found_prefix(y, z, sep, i);
            assert(z.skip(i + 2) =~= tail);
            assert(z.take(i) =~= y.take(i));
            lemma_events_then(rest, b);
            let (o, l) = complete_events(rest);
            let (m, r) = complete_events(without_crlf(l + b));
            match payload(y.take(i)) {
                Some(p) => {
                    assert(seq![p] + (o + m) =~= (seq![p] + o) + m);
                },
                None => {},
            }
        },
    }
}

/// The payloads do not depend on how the stream is cut into chunks: two pieces
/// fed one after the other unlock what the joined piece unlocks, and leave the
/// decoder in the same state. The joined piece must be within the limit, and no
/// CR CR LF may stand in the first part: there the first pass leaves a CRLF that
/// a second pass would take away.
pub proof fn law_chunks_do_not_matter(d: DecoderView, a: Seq<char>, b: Seq<char>)
    requires
        !d.overflowed,
        no_doubled_cr(d.buffer + a),
        text::byte_count(d.buffer + (a + b)) <= MAX_PENDING_EVENT_BYTES,
    ensures
        ({
            let (mid, first) = fed(d, a);
            let (end, second) = fed(mid, b);
            fed(d, a + b) == (end, first + second)
        }),
{
    let x = d.buffer + a;
    assert(d.buffer + (a + b) =~= x + b);
    lemma_bytes_of_sum(x, b);
    lemma_normal_is_shorter(x);
    lemma_rest_is_shorter(without_crlf(x));
    lemma_bytes_of_sum(complete_events(without_crlf(x)).1, b);
    lemma_normal_is_free(x);
    lemma_normal_twice(x, b);
    lemma_events_then(without_crlf(x), b);
}

proof fn lemma_normal_is_shorter(s: Seq<char>)
    ensures
        text::byte_count(without_crlf(s)) <= text::byte_count(s),
    decreases s.len(),
{
    lemma_crlf_step(s);
    if s.len() >= 2 && s[0] == '\r' && s[1] == '\n' {
        lemma_normal_is_shorter(s.skip(2));
        lemma_bytes_of_sum(seq!['\n'], without_crlf(s.skip(2)));
        lemma_bytes_of_sum(s.take(2), s.skip(2));
        assert(s.take(2) + s.skip(2) =~= s);
        lemma_plain_bytes(seq!['\n']);
        lemma_plain_bytes(s.take(2));
    } else if s.len() >= 1 {
        lemma_normal_is_shorter(s.skip(1));
        lemma_bytes_of_sum(seq![s[0]], without_crlf(s.skip(1)));
        lemma_bytes_of_sum(seq![s[0]], s.skip(1));
        assert(seq![s[0]] + s.skip(1) =~= s);
    }
}

proof fn lemma_rest_is_shorter(s: Seq<char>)
    ensures
        text::byte_count(complete_events(s).1) <= text::byte_count(s),
    decreases s.len(),
{
    reveal_strlit("\n\n");
    text::lemma_found_from(s, "\n\n"@, 0);
    match text::found(s, "\n\n"@) {
        None => {},
        Some(i) => {
            lemma_rest_is_shorter(s.skip(i + 2));
            lemma_bytes_of_sum(s.take(i + 2), s.skip(i + 2));
            assert(s.take(i + 2) + s.skip(i + 2) =~= s);
        },
    }
}

/// The text that pieces make up.
pub open spec fn whole(pieces: Seq<Seq<char>>) -> Seq<char>
    decreases pieces.len(),
{
    if pieces.len() == 0 {
        Seq::empty()
    } else {
        whole(pieces.drop_last()) + pieces.last()
    }
}

/// The decoder after pieces of text, the oldest first, and the payloads that
/// they unlocked.
pub open spec fn fed_all(d: DecoderView, pieces: Seq<Seq<char>>) -> (DecoderView, Seq<Seq<char>>)
    decreases pieces.len(),
{
    if pieces.len() == 0 {
        (d, Seq::empty())
    } else {
        let (mid, first) = fed_all(d, pieces.drop_last());
        let (end, second) = fed(mid, pieces.last());
        (end, first + second)
    }
}

/// However many pieces a stream is cut into, and wherever, it unlocks what it
/// unlocks in one piece. The limit and the exception are as for two pieces.
pub proof fn law_no_chunking_matters(d: DecoderView, pieces: Seq<Seq<char>>)
    requires
        !d.overflowed,
        pieces.len() > 0,
        no_doubled_cr(d.buffer + whole(pieces)),
        text::byte_count(d.buffer + whole(pieces)) <= MAX_PENDING_EVENT_BYTES,
    ensures
        fed_all(d, pieces) == fed(d, whole(pieces)),
    decreases pieces.len(),
{
    let front = pieces.drop_last();
    let last = pieces.last();
    if front.len() == 0 {
        assert(whole(front) =~= Seq::<char>::empty());
        assert(whole(front) + last =~= last);
        assert(fed_all(d, front) == (d, Seq::<Seq<char>>::empty()));
        assert(Seq::<Seq<char>>::empty() + fed(d, last).1 =~= fed(d, last).1);
    } else {
        let x = d.buffer + whole(front);
        assert(d.buffer + whole(pieces) =~= x + last);
        lemma_bytes_of_sum(x, last);
        assert(no_doubled_cr(x)) by {
            assert forall|i: int| 0 <= i < x.len() - 2 implies !(#[trigger] x[i] == '\r' && x[i + 1]
                == '\r' && x[i + 2] == '\n') by {
                assert((x + last)[i] == x[i]);
            }
        }
        law_no_chunking_matters(d, front);
        law_chunks_do_not_matter(d, whole(front), last);
    }
}

/// Once a stream has overflowed, it gives nothing any more.
pub proof fn law_overflow_is_final(d: DecoderView, piece: Seq<char>)
    requires
        d.overflowed,
    ensures
        fed(d, piece) == (d, Seq::<Seq<char>>::empty()),
{
}


// ---------------------------------------------------------------------------
// The accumulator
// ---------------------------------------------------------------------------

/// A tool call as far as it has arrived.
#[derive(Debug)]
pub struct PartialCall {
    pub index: usize,
    pub id: String,
    pub name: String,
    pub arguments: String,
}

/// A tool call as far as it has arrived, as text.
pub struct PartialView {
    pub index: usize,
    pub id: Seq<char>,
    pub name: Seq<char>,
    pub arguments: Seq<char>,
}

impl View for PartialCall {
    type V = PartialView;

    open spec fn view(&self) -> PartialView {
        PartialView {
            index: self.index,
            id: self.id@,
            name: self.name@,
            arguments: self.arguments@,
        }
    }
}

/// The views of the partial calls in a list.
pub open spec fn partial_views(calls: Seq<PartialCall>) -> Seq<PartialView> {
    calls.map_values(|c: PartialCall| c@)
}

/// The id of a call. Where the provider gave none, one is made of the index.
pub open spec fn effective_id(c: PartialView) -> Seq<char> {
    if c.id.len() == 0 {
        "call_"@ + text::decimal(c.index as nat)
    } else {
        c.id
    }
}

/// The complete call.
pub open spec fn as_call(c: PartialView) -> CallView {
    crate::api::types::function_call(effective_id(c), c.name, c.arguments)
}

impl PartialCall {
    /// Some providers omit the call id on tool calls. The id is only used to
    /// pair a result back to its call, so a synthetic one is fine as long as it
    /// is stable and unique within the turn.
    pub fn effective_id(&self) -> (r: String)
        ensures
            r@ == effective_id(self@),
    {
        if self.id.as_str().is_empty() {
            let mut out = "call_".to_owned();
            out.append(&text::number(self.index as u64));
            out
        } else {
            self.id.clone()
        }
    }

    /// The complete call.
    pub fn to_call(&self) -> (r: ToolCall)
        ensures
            r@ == as_call(self@),
    {
        ToolCall::new(&self.effective_id(), &self.name, &self.arguments)
    }
}

/// What an event says, as text.
pub enum EventView {
    Text(Seq<char>),
    Reasoning(Seq<char>),
    ToolCallReady(CallView),
    /// The message, why it ended, and what it used.
    Done(MessageView, Option<Seq<char>>, Usage),
}

impl View for StreamEvent {
    type V = EventView;

    open spec fn view(&self) -> EventView {
        match self {
            StreamEvent::Text(t) => EventView::Text(t@),
            StreamEvent::Reasoning(t) => EventView::Reasoning(t@),
            StreamEvent::ToolCallReady(c) => EventView::ToolCallReady(c@),
            StreamEvent::Done(c) => EventView::Done(
                c.message@,
                text::opt_view(c.finish_reason),
                c.usage,
            ),
        }
    }
}

/// The views of the events in a list.
pub open spec fn event_views(events: Seq<StreamEvent>) -> Seq<EventView> {
    events.map_values(|e: StreamEvent| e@)
}

/// What an accumulator holds.
pub struct AccView {
    pub text: Seq<char>,
    pub reasoning: Seq<char>,
    /// In the order in which their first fragments came.
    pub calls: Seq<PartialView>,
    pub finish_reason: Option<Seq<char>>,
    pub usage: Usage,
    /// The indices of the calls that were announced.
    pub announced: Seq<usize>,
}

/// What an accumulator holds before the stream begins.
pub open spec fn nothing_yet() -> AccView {
    AccView {
        text: Seq::empty(),
        reasoning: Seq::empty(),
        calls: Seq::empty(),
        finish_reason: None,
        usage: crate::api::types::no_usage(),
        announced: Seq::empty(),
    }
}

/// The place of the call with an index, at or after `from`.
pub open spec fn slot_from(calls: Seq<PartialView>, index: usize, from: int) -> Option<int>
    decreases calls.len() - from,
{
    if from < 0 || from >= calls.len() {
        None
    } else if calls[from].index == index {
        Some(from)
    } else {
        slot_from(calls, index, from + 1)
    }
}

/// The calls with a place for an index: a new one at the end where there was none.
pub open spec fn with_slot(calls: Seq<PartialView>, index: usize) -> Seq<PartialView> {
    if slot_from(calls, index, 0) is Some {
        calls
    } else {
        calls.push(
            PartialView { index, id: Seq::empty(), name: Seq::empty(), arguments: Seq::empty() },
        )
    }
}

pub open spec fn opt_text(s: Option<String>) -> Seq<char> {
    match s {
        Some(t) => t@,
        None => Seq::empty(),
    }
}

/// A partial call with one more fragment: an id replaces the id, name and
/// arguments are appended.
pub open spec fn with_fragment(c: PartialView, d: ToolCallDelta) -> PartialView {
    PartialView {
        index: c.index,
        id: if opt_text(d.id).len() > 0 {
            opt_text(d.id)
        } else {
            c.id
        },
        name: match d.function {
            Some(f) => c.name + opt_text(f.name),
            None => c.name,
        },
        arguments: match d.function {
            Some(f) => c.arguments + opt_text(f.arguments),
            None => c.arguments,
        },
    }
}

/// The calls after one fragment.
pub open spec fn after_fragment(calls: Seq<PartialView>, d: ToolCallDelta) -> Seq<PartialView> {
    let all = with_slot(calls, d.index);
    let k = slot_from(all, d.index, 0)->0;
    all.update(k, with_fragment(all[k], d))
}

/// The calls after some fragments.
pub open spec fn after_fragments(
    calls: Seq<PartialView>,
    ds: Seq<ToolCallDelta>,
) -> Seq<PartialView>
    decreases ds.len(),
{
    if ds.len() == 0 {
        calls
    } else {
        after_fragment(after_fragments(calls, ds.drop_last()), ds.last())
    }
}

/// Whether a call has a name and was not announced yet.
pub open spec fn is_ready(c: PartialView, announced: Seq<usize>) -> bool {
    c.name.len() > 0 && !announced.contains(c.index)
}

/// The calls that are ready to be announced.
pub open spec fn ready_calls(
    calls: Seq<PartialView>,
    announced: Seq<usize>,
) -> Seq<PartialView> {
    calls.filter(|c: PartialView| is_ready(c, announced))
}

/// Appends text where there is some, with the event that tells of it.
pub open spec fn piece_event(piece: Seq<char>, event: EventView) -> Seq<EventView> {
    if piece.len() > 0 {
        seq![event]
    } else {
        Seq::empty()
    }
}

/// The accumulator after one choice of a chunk, and the events it gave.
pub open spec fn after_choice(a: AccView, c: ChunkChoice) -> (AccView, Seq<EventView>) {
    let text = opt_text(c.delta.content);
    let reasoning = opt_text(c.delta.reasoning_content);
    let calls = match c.delta.tool_calls {
        Some(ds) => after_fragments(a.calls, ds@),
        None => a.calls,
    };
    let said = piece_event(text, EventView::Text(text)) + piece_event(
        reasoning,
        EventView::Reasoning(reasoning),
    );
    match c.finish_reason {
        None => (
            AccView { text: a.text + text, reasoning: a.reasoning + reasoning, calls, ..a },
            said,
        ),
        Some(reason) => {
            let ready = ready_calls(calls, a.announced);
            (
                AccView {
                    text: a.text + text,
                    reasoning: a.reasoning + reasoning,
                    calls,
                    finish_reason: Some(reason@),
                    usage: a.usage,
                    announced: a.announced + ready.map_values(|c: PartialView| c.index),
                },
                said + ready.map_values(|c: PartialView| EventView::ToolCallReady(as_call(c))),
            )
        },
    }
}

/// The accumulator after the choices of a chunk, and the events they gave.
pub open spec fn after_choices(
    a: AccView,
    cs: Seq<ChunkChoice>,
) -> (AccView, Seq<EventView>)
    decreases cs.len(),
{
    if cs.len() == 0 {
        (a, Seq::empty())
    } else {
        let (mid, events) = after_choices(a, cs.drop_last());
        let (end, more) = after_choice(mid, cs.last());
        (end, events + more)
    }
}

/// The accumulator after a chunk, and the events it gave.
pub open spec fn after_chunk(a: AccView, chunk: ChatChunk) -> (AccView, Seq<EventView>) {
    after_choices(
        AccView {
            usage: match chunk.usage {
                Some(u) => u,
                None => a.usage,
            },
            ..a
        },
        chunk.choices@,
    )
}

/// Each index has one call.
pub open spec fn distinct_indices(calls: Seq<PartialView>) -> bool {
    forall|i: int, j: int|
        0 <= i < calls.len() && 0 <= j < calls.len() && i != j ==> (#[trigger] calls[i]).index != (
        #[trigger] calls[j]).index
}

/// Calls in the order of their indices, with one more put in its place.
pub open spec fn inserted(sorted: Seq<PartialView>, c: PartialView) -> Seq<PartialView>
    decreases sorted.len(),
{
    if sorted.len() == 0 || sorted.last().index <= c.index {
        sorted.push(c)
    } else {
        inserted(sorted.drop_last(), c).push(sorted.last())
    }
}

/// The calls in the order of their indices; equal indices keep their order.
pub open spec fn by_index(calls: Seq<PartialView>) -> Seq<PartialView>
    decreases calls.len(),
{
    if calls.len() == 0 {
        Seq::empty()
    } else {
        inserted(by_index(calls.drop_last()), calls.last())
    }
}

/// The calls of the finished message: those with a name, by index.
pub open spec fn finished_calls(calls: Seq<PartialView>) -> Seq<CallView> {
    by_index(calls).filter(|c: PartialView| c.name.len() > 0).map_values(
        |c: PartialView| as_call(c),
    )
}

/// A text that is absent where it is empty.
pub open spec fn nonempty(s: Seq<char>) -> Option<Seq<char>> {
    if s.len() > 0 {
        Some(s)
    } else {
        None
    }
}

/// The message that an accumulator gives in the end.
pub open spec fn finished_message(a: AccView) -> MessageView {
    let calls = finished_calls(a.calls);
    MessageView {
        role: crate::api::types::role_name(Role::Assistant),
        content: nonempty(a.text),
        tool_calls: if calls.len() > 0 {
            Some(calls)
        } else {
            None
        },
        tool_call_id: None,
        reasoning_content: nonempty(a.reasoning),
    }
}

/// Reassembles streamed chunks into one completion.
#[derive(Debug)]
pub struct DeltaAccumulator {
    pub text: String,
    pub reasoning: String,
    /// Partial tool calls keyed by their streaming index.
    pub calls: Vec<PartialCall>,
    pub finish_reason: Option<String>,
    pub usage: Usage,
    /// Indices already emitted as [`StreamEvent::ToolCallReady`], so the same
    /// call is never announced twice.
    pub announced: Vec<usize>,
}

impl View for DeltaAccumulator {
    type V = AccView;

    open spec fn view(&self) -> AccView {
        AccView {
            text: self.text@,
            reasoning: self.reasoning@,
            calls: partial_views(self.calls@),
            finish_reason: text::opt_view(self.finish_reason),
            usage: self.usage,
            announced: self.announced@,
        }
    }
}

proof fn lemma_slot_from(calls: Seq<PartialView>, index: usize, from: int)
    requires
        0 <= from,
    ensures
        match slot_from(calls, index, from) {
            Some(k) => from <= k < calls.len() && calls[k].index == index,
            None => forall|j: int| from <= j < calls.len() ==> (#[trigger] calls[j]).index != index,
        },
    decreases calls.len() - from,
{
    if from < calls.len() && calls[from].index != index {
        lemma_slot_from(calls, index, from + 1);
    }
}

pub(crate) proof fn lemma_slot_exists(calls: Seq<PartialView>, index: usize, from: int, at: int)
    requires
        0 <= from <= at < calls.len(),
        calls[at].index == index,
    ensures
        slot_from(calls, index, from) is Some,
    decreases calls.len() - from,
{
    if calls[from].index != index {
        lemma_slot_exists(calls, index, from + 1, at);
    }
}

/// Folds one fragment into the calls.
fn absorb(calls: &mut Vec<PartialCall>, d: &ToolCallDelta)
    ensures
        partial_views(final(calls)@) == after_fragment(partial_views(old(calls)@), *d),
{
    let ghost before = partial_views(calls@);
    let mut k: usize = 0;
    while k < calls.len() && calls[k].index != d.index
        invariant
            k <= calls.len(),
            before == partial_views(calls@),
            slot_from(before, d.index, 0) == slot_from(before, d.index, k as int),
        decreases calls.len() - k,
    {
        assert(before[k as int] == calls@[k as int]@);
        k += 1;
    }
    if k == calls.len() {
        let fresh = PartialCall {
            index: d.index,
            id: String::new(),
            name: String::new(),
            arguments: String::new(),
        };
        let ghost fv = fresh@;
        calls.push(fresh);
        proof {
            let all = with_slot(before, d.index);
            assert(partial_views(calls@) =~= before.push(fv));
            assert(partial_views(calls@) =~= all);
            lemma_slot_from(before, d.index, 0);
            lemma_slot_exists(all, d.index, 0, k as int);
            lemma_slot_from(all, d.index, 0);
            let j = slot_from(all, d.index, 0)->0;
            if j < k {
                assert(all[j] == before[j]);
            }
        }
    } else {
        assert(before[k as int] == calls@[k as int]@);
    }
    let ghost all = with_slot(before, d.index);
    assert(partial_views(calls@) == all);
    assert(slot_from(all, d.index, 0) == Some(k as int));
    assert(all[k as int] == calls@[k as int]@);
    let cur = &calls[k];
    let mut id = cur.id.clone();
    let mut name = cur.name.clone();
    let mut arguments = cur.arguments.clone();
    match &d.id {
        Some(new_id) => {
            if !new_id.as_str().is_empty() {
                id = new_id.clone();
            }
        },
        None => {},
    }
    match &d.function {
        Some(f) => {
            match &f.name {
                Some(n) => {
                    name.append(n);
                },
                None => {
                    assert(name@ + Seq::<char>::empty() =~= name@);
                },
            }
            match &f.arguments {
                Some(a) => {
                    arguments.append(a);
                },
                None => {
                    assert(arguments@ + Seq::<char>::empty() =~= arguments@);
                },
            }
        },
        None => {},
    }
    let merged = PartialCall { index: d.index, id, name, arguments };
    let ghost mv = merged@;
    proof {
        lemma_slot_from(all, d.index, 0);
        assert(mv == with_fragment(all[k as int], *d));
    }
    calls.set(k, merged);
    assert(partial_views(calls@) =~= all.update(k as int, mv));
}

fn has_index(list: &Vec<usize>, index: usize) -> (r: bool)
    ensures
        r == list@.contains(index),
{
    let mut i: usize = 0;
    while i < list.len()
        invariant
            i <= list.len(),
            forall|k: int| 0 <= k < i ==> list@[k] != index,
        decreases list.len() - i,
    {
        if list[i] == index {
            return true;
        }
        i += 1;
    }
    false
}


impl DeltaAccumulator {
    pub fn new() -> (r: Self)
        ensures
            r@ == nothing_yet(),
    {
        let r = DeltaAccumulator {
            text: String::new(),
            reasoning: String::new(),
            calls: Vec::new(),
            finish_reason: None,
            usage: Usage::default(),
            announced: Vec::new(),
        };
        assert(partial_views(r.calls@) =~= Seq::<PartialView>::empty());
        r
    }

    /// Fold one chunk in, returning the events it produced.
    pub fn push(&mut self, chunk: &ChatChunk) -> (r: Vec<StreamEvent>)
        ensures
            (final(self)@, event_views(r@)) == after_chunk(old(self)@, *chunk),
    {
        let mut events: Vec<StreamEvent> = Vec::new();
        assert(event_views(events@) =~= Seq::<EventView>::empty());
        match &chunk.usage {
            Some(usage) => {
                self.usage = *usage;
            },
            None => {},
        }
        let ghost start = self@;
        let mut i: usize = 0;
        assert(chunk.choices@.take(0) =~= Seq::<ChunkChoice>::empty());
        while i < chunk.choices.len()
            invariant
                i <= chunk.choices.len(),
                (self@, event_views(events@)) == after_choices(
                    start,
                    chunk.choices@.take(i as int),
                ),
            decreases chunk.choices.len() - i,
        {
            proof {
                assert(chunk.choices@.take(i + 1).drop_last() =~= chunk.choices@.take(i as int));
            }
            let ghost before = event_views(events@);
            let mut more = self.push_choice(&chunk.choices[i]);
            let ghost mv = event_views(more@);
            events.append(&mut more);
            assert(event_views(events@) =~= before + mv);
            i += 1;
        }
        assert(chunk.choices@.take(chunk.choices@.len() as int) =~= chunk.choices@);
        events
    }

    fn push_choice(&mut self, choice: &ChunkChoice) -> (r: Vec<StreamEvent>)
        ensures
            (final(self)@, event_views(r@)) == after_choice(old(self)@, *choice),
    {
        let ghost a = self@;
        let ghost text = opt_text(choice.delta.content);
        let ghost reasoning = opt_text(choice.delta.reasoning_content);
        let mut events: Vec<StreamEvent> = Vec::new();
        let ghost empty = Seq::<EventView>::empty();
        assert(event_views(events@) =~= empty);
        assert(self.text@ + Seq::<char>::empty() =~= self.text@);
        assert(self.reasoning@ + Seq::<char>::empty() =~= self.reasoning@);
        match &choice.delta.content {
            Some(t) => {
                if !t.as_str().is_empty() {
                    self.text.append(t);
                    events.push(StreamEvent::Text(t.clone()));
                } else {
                    assert(t@ =~= Seq::<char>::empty());
                }
            },
            None => {},
        }
        assert(event_views(events@) =~= piece_event(text, EventView::Text(text)));
        let ghost first = event_views(events@);
        match &choice.delta.reasoning_content {
            Some(t) => {
                if !t.as_str().is_empty() {
                    self.reasoning.append(t);
                    events.push(StreamEvent::Reasoning(t.clone()));
                } else {
                    assert(t@ =~= Seq::<char>::empty());
                }
            },
            None => {},
        }
        let ghost said = piece_event(text, EventView::Text(text)) + piece_event(
            reasoning,
            EventView::Reasoning(reasoning),
        );
        assert(event_views(events@) =~= said);
        match &choice.delta.tool_calls {
            Some(ds) => {
                self.absorb_all(ds);
            },
            None => {},
        }
        match &choice.finish_reason {
            Some(reason) => {
                self.finish_reason = Some(reason.clone());
                let mut more = self.announce_ready();
                let ghost mv = event_views(more@);
                events.append(&mut more);
                assert(event_views(events@) =~= said + mv);
            },
            None => {},
        }
        events
    }

    fn absorb_all(&mut self, ds: &Vec<ToolCallDelta>)
        ensures
            final(self)@ == (AccView { calls: after_fragments(old(self)@.calls, ds@), ..old(self)@ }),
    {
        let ghost a = self@;
        let mut i: usize = 0;
        assert(ds@.take(0) =~= Seq::<ToolCallDelta>::empty());
        while i < ds.len()
            invariant
                i <= ds.len(),
                self@ == (AccView { calls: after_fragments(a.calls, ds@.take(i as int)), ..a }),
            decreases ds.len() - i,
        {
            assert(ds@.take(i + 1).drop_last() =~= ds@.take(i as int));
            absorb(&mut self.calls, &ds[i]);
            i += 1;
        }
        assert(ds@.take(ds@.len() as int) =~= ds@);
    }

    fn announce_ready(&mut self) -> (r: Vec<StreamEvent>)
        ensures
            ({
                let ready = ready_calls(old(self)@.calls, old(self)@.announced);
                &&& final(self)@ == (AccView {
                    announced: old(self)@.announced + ready.map_values(|c: PartialView| c.index),
                    ..old(self)@
                })
                &&& event_views(r@) == ready.map_values(
                    |c: PartialView| EventView::ToolCallReady(as_call(c)),
                )
            }),
    {
        let ghost a = self@;
        let ghost all = self@.calls;
        let ghost keep = |c: PartialView| is_ready(c, a.announced);
        let ghost say = |c: PartialView| EventView::ToolCallReady(as_call(c));
        let ghost ix = |c: PartialView| c.index;
        let mut events: Vec<StreamEvent> = Vec::new();
        let mut fresh: Vec<usize> = Vec::new();
        let mut i: usize = 0;
        proof {
            reveal(Seq::filter);
            assert(all.take(0).filter(keep) =~= Seq::<PartialView>::empty());
            assert(event_views(events@) =~= all.take(0).filter(keep).map_values(say));
            assert(fresh@ =~= all.take(0).filter(keep).map_values(ix));
        }
        while i < self.calls.len()
            invariant
                i <= self.calls.len(),
                self@ == a,
                all == a.calls,
                keep == (|c: PartialView| is_ready(c, a.announced)),
                say == (|c: PartialView| EventView::ToolCallReady(as_call(c))),
                ix == (|c: PartialView| c.index),
                event_views(events@) == all.take(i as int).filter(keep).map_values(say),
                fresh@ == all.take(i as int).filter(keep).map_values(ix),
            decreases self.calls.len() - i,
        {
            let call = &self.calls[i];
            proof {
                reveal(Seq::filter);
                assert(all.take(i + 1).drop_last() =~= all.take(i as int));
                assert(all[i as int] == call@);
            }
            if !call.name.as_str().is_empty() && !has_index(&self.announced, call.index) {
                let ghost before = event_views(events@);
                let ready = call.to_call();
                let ghost rv = ready@;
                events.push(StreamEvent::ToolCallReady(ready));
                fresh.push(call.index);
                proof {
                    let f = all.take(i as int).filter(keep);
                    assert(all.take(i + 1).filter(keep) =~= f.push(call@));
                    assert(event_views(events@) =~= before.push(EventView::ToolCallReady(rv)));
                    assert(f.push(call@).map_values(say) =~= f.map_values(say).push(say(call@)));
                    assert(f.push(call@).map_values(ix) =~= f.map_values(ix).push(ix(call@)));
                }
            }
            i += 1;
        }
        assert(all.take(all.len() as int) =~= all);
        self.announced.append(&mut fresh);
        events
    }

    /// Consume the accumulator and produce the finished completion.
    pub fn finish(self) -> (r: Completion)
        ensures
            r.message@ == finished_message(self@),
            text::opt_view(r.finish_reason) == self@.finish_reason,
            r.usage == self@.usage,
    {
        let tool_calls = sorted_calls(&self.calls);
        assert(crate::api::types::call_views(tool_calls@).len() == tool_calls@.len());
        let has_calls = tool_calls.len() > 0;
        Completion {
            message: Message {
                role: Role::Assistant.as_str().to_owned(),
                content: if self.text.as_str().is_empty() {
                    None
                } else {
                    Some(self.text)
                },
                tool_calls: if has_calls {
                    Some(tool_calls)
                } else {
                    None
                },
                tool_call_id: None,
                reasoning_content: if self.reasoning.as_str().is_empty() {
                    None
                } else {
                    Some(self.reasoning)
                },
            },
            finish_reason: self.finish_reason,
            usage: self.usage,
        }
    }
}

/// The order of the calls by their indices, as positions in the list.
fn order_by_index(calls: &Vec<PartialCall>) -> (r: Vec<usize>)
    ensures
        r@.len() == calls@.len(),
        forall|i: int| 0 <= i < r@.len() ==> #[trigger] r@[i] < calls@.len(),
        r@.map_values(|k: usize| calls@[k as int]@) == by_index(partial_views(calls@)),
{
    let ghost all = partial_views(calls@);
    let ghost at = |k: usize| calls@[k as int]@;
    let mut order: Vec<usize> = Vec::new();
    let mut i: usize = 0;
    assert(order@.map_values(at) =~= Seq::<PartialView>::empty());
    while i < calls.len()
        invariant
            i <= calls.len(),
            all == partial_views(calls@),
            at == (|k: usize| calls@[k as int]@),
            order@.len() == i,
            forall|k: int| 0 <= k < order@.len() ==> #[trigger] order@[k] < calls@.len(),
            order@.map_values(at) == by_index(all.take(i as int)),
        decreases calls.len() - i,
    {
        proof {
            assert(all.take(i + 1).drop_last() =~= all.take(i as int));
            assert(all[i as int] == calls@[i as int]@);
        }
        let ghost sorted = order@.map_values(at);
        let ghost c = calls@[i as int]@;
        let mut j: usize = order.len();
        let ghost n = order@.len() as int;
        assert(sorted.take(n) =~= sorted);
        assert(sorted.skip(n) =~= Seq::<PartialView>::empty());
        assert(inserted(sorted.take(n), c) + sorted.skip(n) =~= inserted(sorted, c));
        while j > 0 && calls[order[j - 1]].index > calls[i].index
            invariant
                i < calls.len(),
                j <= order.len(),
                at == (|k: usize| calls@[k as int]@),
                c == calls@[i as int]@,
                sorted == order@.map_values(at),
                forall|k: int| 0 <= k < order@.len() ==> #[trigger] order@[k] < calls@.len(),
                inserted(sorted.take(j as int), c) + sorted.skip(j as int) == inserted(sorted, c),
            decreases j,
        {
            proof {
                let t = sorted.take(j as int);
                assert(t.last() == sorted[j - 1]);
                assert(sorted[j - 1] == calls@[order@[j - 1] as int]@);
                assert(t.drop_last() =~= sorted.take(j - 1));
                let ins = inserted(sorted.take(j - 1), c);
                assert(inserted(t, c) == ins.push(t.last()));
                assert(ins.push(t.last()) + sorted.skip(j as int) =~= ins + sorted.skip(j - 1));
            }
            j -= 1;
        }
        proof {
            let t = sorted.take(j as int);
            if j > 0 {
                assert(t.last() == sorted[j - 1]);
                assert(sorted[j - 1] == calls@[order@[j - 1] as int]@);
            }
            assert(inserted(t, c) == t.push(c));
        }
        let ghost before = order@;
        order.insert(j, i);
        proof {
            assert(order@.map_values(at) =~= sorted.take(j as int).push(c) + sorted.skip(j as int));
            assert forall|k: int| 0 <= k < order@.len() implies #[trigger] order@[k]
                < calls@.len() by {
                if k < j {
                    assert(order@[k] == before[k]);
                } else if k > j {
                    assert(order@[k] == before[k - 1]);
                }
            }
        }
        i += 1;
    }
    assert(all.take(all.len() as int) =~= all);
    order
}

/// The calls with a name, complete and by index.
fn sorted_calls(calls: &Vec<PartialCall>) -> (r: Vec<ToolCall>)
    ensures
        crate::api::types::call_views(r@) == finished_calls(partial_views(calls@)),
{
    let order = order_by_index(calls);
    let ghost sorted = by_index(partial_views(calls@));
    let ghost at = |k: usize| calls@[k as int]@;
    let ghost keep = |c: PartialView| c.name.len() > 0;
    let ghost done = |c: PartialView| as_call(c);
    let mut out: Vec<ToolCall> = Vec::new();
    let mut i: usize = 0;
    proof {
        reveal(Seq::filter);
        assert(sorted.take(0).filter(keep) =~= Seq::<PartialView>::empty());
        assert(crate::api::types::call_views(out@) =~= sorted.take(0).filter(keep).map_values(done));
    }
    while i < order.len()
        invariant
            i <= order.len(),
            at == (|k: usize| calls@[k as int]@),
            keep == (|c: PartialView| c.name.len() > 0),
            done == (|c: PartialView| as_call(c)),
            sorted == order@.map_values(at),
            forall|k: int| 0 <= k < order@.len() ==> #[trigger] order@[k] < calls@.len(),
            crate::api::types::call_views(out@) == sorted.take(i as int).filter(keep).map_values(
                done,
            ),
        decreases order.len() - i,
    {
        assert(order@[i as int] < calls@.len());
        let call = &calls[order[i]];
        proof {
            reveal(Seq::filter);
            assert(sorted.take(i + 1).drop_last() =~= sorted.take(i as int));
            assert(sorted[i as int] == call@);
        }
        if !call.name.as_str().is_empty() {
            let ghost before = crate::api::types::call_views(out@);
            let full = call.to_call();
            let ghost fv = full@;
            out.push(full);
            proof {
                let f = sorted.take(i as int).filter(keep);
                assert(sorted.take(i + 1).filter(keep) =~= f.push(call@));
                assert(crate::api::types::call_views(out@) =~= before.push(fv));
                assert(f.push(call@).map_values(done) =~= f.map_values(done).push(done(call@)));
            }
        }
        i += 1;
    }
    assert(sorted.take(sorted.len() as int) =~= sorted);
    out
}

/// Why a response could not be used.
#[derive(Debug, Clone, Copy, PartialEq, Eq, Structural)]
pub enum ResponseError {
    NoChoices,
}

impl ResponseError {
    /// The message of the error.
    pub fn message(self) -> (r: String)
        ensures
            r@ == "API returned no choices"@,
    {
        "API returned no choices".to_owned()
    }
}

/// Assemble a completion from a non-streaming response body.
pub fn completion_from_response(resp: ChatResponse) -> (r: Result<Completion, ResponseError>)
    ensures
        resp.choices@.len() == 0 ==> r == Err::<Completion, ResponseError>(
            ResponseError::NoChoices,
        ),
        resp.choices@.len() > 0 ==> {
            &&& r matches Ok(c)
            &&& c.usage == match resp.usage {
                Some(u) => u,
                None => crate::api::types::no_usage(),
            }
            &&& c.finish_reason == resp.choices@[0].finish_reason
            &&& c.message@ == match resp.choices@[0].message {
                Some(m) => m@,
                None => MessageView {
                    role: crate::api::types::role_name(Role::Assistant),
                    content: None,
                    tool_calls: None,
                    tool_call_id: None,
                    reasoning_content: None,
                },
            }
        },
{
    let mut choices = resp.choices;
    if choices.len() == 0 {
        return Err(ResponseError::NoChoices);
    }
    let choice = choices.remove(0);
    let message = match choice.message {
        Some(m) => m,
        None => {
            let mut m = Message::default();
            m.role = Role::Assistant.as_str().to_owned();
            m
        },
    };
    let usage = match resp.usage {
        Some(u) => u,
        None => Usage::default(),
    };
    Ok(Completion { message, finish_reason: choice.finish_reason, usage })
}

// ---------------------------------------------------------------------------
// Laws of the accumulator
// ---------------------------------------------------------------------------

proof fn lemma_fragment_keeps_distinct(calls: Seq<PartialView>, d: ToolCallDelta)
    requires
        distinct_indices(calls),
    ensures
        distinct_indices(after_fragment(calls, d)),
        exists|k: int|
            0 <= k < after_fragment(calls, d).len() && (#[trigger] after_fragment(
                calls,
                d,
            )[k]).index == d.index,
{
    let all = with_slot(calls, d.index);
    lemma_slot_from(calls, d.index, 0);
    if slot_from(calls, d.index, 0) is None {
        lemma_slot_exists(all, d.index, 0, calls.len() as int);
    }
    lemma_slot_from(all, d.index, 0);
    let k = slot_from(all, d.index, 0)->0;
    let r = after_fragment(calls, d);
    assert(r[k].index == d.index);
    assert forall|i: int, j: int| 0 <= i < r.len() && 0 <= j < r.len() && i != j implies (
    #[trigger] r[i]).index != (#[trigger] r[j]).index by {
        assert(r[i].index == all[i].index);
        assert(r[j].index == all[j].index);
    }
}

/// Streaming keeps one call for each index.
pub proof fn law_one_call_per_index(a: AccView, chunk: ChatChunk)
    requires
        distinct_indices(a.calls),
    ensures
        distinct_indices(after_chunk(a, chunk).0.calls),
{
    let start = AccView {
        usage: match chunk.usage {
            Some(u) => u,
            None => a.usage,
        },
        ..a
    };
    lemma_choices_keep_distinct(start, chunk.choices@);
}

proof fn lemma_choices_keep_distinct(a: AccView, cs: Seq<ChunkChoice>)
    requires
        distinct_indices(a.calls),
    ensures
        distinct_indices(after_choices(a, cs).0.calls),
    decreases cs.len(),
{
    if cs.len() > 0 {
        lemma_choices_keep_distinct(a, cs.drop_last());
        let mid = after_choices(a, cs.drop_last()).0;
        match cs.last().delta.tool_calls {
            Some(ds) => {
                lemma_fragments_keep_distinct(mid.calls, ds@);
            },
            None => {},
        }
    }
}

pub(crate) proof fn lemma_fragments_keep_distinct(calls: Seq<PartialView>, ds: Seq<ToolCallDelta>)
    requires
        distinct_indices(calls),
    ensures
        distinct_indices(after_fragments(calls, ds)),
    decreases ds.len(),
{
    if ds.len() > 0 {
        lemma_fragments_keep_distinct(calls, ds.drop_last());
        lemma_fragment_keeps_distinct(after_fragments(calls, ds.drop_last()), ds.last());
    }
}

/// The fragments of one call.
pub open spec fn of_index(ds: Seq<ToolCallDelta>, index: usize) -> Seq<ToolCallDelta> {
    ds.filter(|d: ToolCallDelta| d.index == index)
}

/// A call put together from its own fragments.
pub open spec fn assembled(index: usize, ds: Seq<ToolCallDelta>) -> PartialView
    decreases ds.len(),
{
    if ds.len() == 0 {
        PartialView { index, id: Seq::empty(), name: Seq::empty(), arguments: Seq::empty() }
    } else {
        with_fragment(assembled(index, ds.drop_last()), ds.last())
    }
}

/// However the fragments of parallel calls interleave, each call is put together
/// from the fragments of its own index, in their order, and no fragment is lost.
pub proof fn law_interleaving_does_not_matter(ds: Seq<ToolCallDelta>)
    ensures
        ({
            let calls = after_fragments(Seq::empty(), ds);
            &&& distinct_indices(calls)
            &&& forall|i: int|
                0 <= i < calls.len() ==> #[trigger] calls[i] == assembled(
                    calls[i].index,
                    of_index(ds, calls[i].index),
                )
            &&& forall|k: int|
                0 <= k < ds.len() ==> slot_from(calls, (#[trigger] ds[k]).index, 0) is Some
        }),
    decreases ds.len(),
{
    let calls = after_fragments(Seq::empty(), ds);
    if ds.len() > 0 {
        let front = ds.drop_last();
        let d = ds.last();
        let before = after_fragments(Seq::empty(), front);
        law_interleaving_does_not_matter(front);
        lemma_fragment_keeps_distinct(before, d);
        let all = with_slot(before, d.index);
        lemma_slot_from(before, d.index, 0);
        if slot_from(before, d.index, 0) is None {
            lemma_slot_exists(all, d.index, 0, before.len() as int);
        }
        lemma_slot_from(all, d.index, 0);
        let at = slot_from(all, d.index, 0)->0;
        assert forall|i: int| 0 <= i < calls.len() implies #[trigger] calls[i] == assembled(
            calls[i].index,
            of_index(ds, calls[i].index),
        ) by {
            let index = calls[i].index;
            lemma_of_index_step(ds, index);
            if i == at {
                assert(calls[i] == with_fragment(all[i], d));
                assert(index == d.index);
                if slot_from(before, d.index, 0) is None {
                    lemma_no_fragments(front, index, before);
                    assert(all[i] == assembled(index, of_index(front, index)));
                } else {
                    assert(all[i] == before[i]);
                }
                assert(of_index(ds, index).drop_last() =~= of_index(front, index));
                assert(of_index(ds, index).last() == d);
            } else {
                assert(calls[i] == all[i]);
                assert(all[i] == before[i]);
                assert(index != d.index);
            }
        }
        assert forall|k: int| 0 <= k < ds.len() implies slot_from(
            calls,
            (#[trigger] ds[k]).index,
            0,
        ) is Some by {
            if k == ds.len() - 1 {
                lemma_slot_exists(calls, d.index, 0, at);
            } else {
                assert(front[k] == ds[k]);
                lemma_slot_from(before, ds[k].index, 0);
                let j = slot_from(before, ds[k].index, 0)->0;
                assert(calls[j].index == all[j].index);
                lemma_slot_exists(calls, ds[k].index, 0, j);
            }
        }
    }
}

proof fn lemma_of_index_step(ds: Seq<ToolCallDelta>, index: usize)
    requires
        ds.len() > 0,
    ensures
        of_index(ds, index) == (if ds.last().index == index {
            of_index(ds.drop_last(), index).push(ds.last())
        } else {
            of_index(ds.drop_last(), index)
        }),
{
    reveal(Seq::filter);
}

proof fn lemma_no_fragments(ds: Seq<ToolCallDelta>, index: usize, calls: Seq<PartialView>)
    requires
        slot_from(calls, index, 0) is None,
        forall|k: int|
            0 <= k < ds.len() ==> slot_from(calls, (#[trigger] ds[k]).index, 0) is Some,
    ensures
        of_index(ds, index).len() == 0,
    decreases ds.len(),
{
    if ds.len() > 0 {
        lemma_of_index_step(ds, index);
        assert(slot_from(calls, ds[ds.len() - 1].index, 0) is Some);
        assert forall|k: int| 0 <= k < ds.drop_last().len() implies slot_from(
            calls,
            (#[trigger] ds.drop_last()[k]).index,
            0,
        ) is Some by {
            assert(ds.drop_last()[k] == ds[k]);
        }
        lemma_no_fragments(ds.drop_last(), index, calls);
    } else {
        reveal(Seq::filter);
    }
}

/// A call that was announced once is not announced again.
pub proof fn law_announced_once(a: AccView, c: ChunkChoice, index: usize)
    requires
        a.announced.contains(index),
    ensures
        after_choice(a, c).0.announced.contains(index),
        forall|k: int|
            0 <= k < ready_calls(after_choice(a, c).0.calls, a.announced).len() ==> (
            #[trigger] ready_calls(after_choice(a, c).0.calls, a.announced)[k]).index != index,
{
    let calls = after_choice(a, c).0.calls;
    let keep = |p: PartialView| is_ready(p, a.announced);
    let ready = ready_calls(calls, a.announced);
    let i = choose|i: int| 0 <= i < a.announced.len() && a.announced[i] == index;
    let after = after_choice(a, c).0.announced;
    assert(after[i] == index);
    assert forall|k: int| 0 <= k < ready.len() implies (#[trigger] ready[k]).index != index by {
        calls.lemma_filter_pred(keep, k);
        assert(keep(ready[k]));
    }
}

/// In the order of the indices.
pub open spec fn is_sorted(calls: Seq<PartialView>) -> bool {
    forall|i: int, j: int|
        0 <= i < j < calls.len() ==> (#[trigger] calls[i]).index <= (#[trigger] calls[j]).index
}

proof fn lemma_inserted(sorted: Seq<PartialView>, c: PartialView)
    requires
        is_sorted(sorted),
    ensures
        is_sorted(inserted(sorted, c)),
        inserted(sorted, c).len() == sorted.len() + 1,
        inserted(sorted, c).to_multiset() == sorted.to_multiset().insert(c),
        inserted(sorted, c).last() == c || (sorted.len() > 0 && inserted(sorted, c).last()
            == sorted.last()),
    decreases sorted.len(),
{
    broadcast use vstd::seq_lib::group_to_multiset_ensures;

    if sorted.len() == 0 || sorted.last().index <= c.index {
        let r = sorted.push(c);
        assert forall|i: int, j: int| 0 <= i < j < r.len() implies (#[trigger] r[i]).index <= (
        #[trigger] r[j]).index by {
            if j == sorted.len() {
                assert(sorted[i].index <= sorted[sorted.len() - 1].index);
            }
        }
    } else {
        let front = sorted.drop_last();
        assert(is_sorted(front)) by {
            assert forall|i: int, j: int| 0 <= i < j < front.len() implies (
            #[trigger] front[i]).index <= (#[trigger] front[j]).index by {
                assert(front[i] == sorted[i] && front[j] == sorted[j]);
            }
        }
        lemma_inserted(front, c);
        let f = inserted(front, c);
        let r = f.push(sorted.last());
        assert(front.push(sorted.last()) =~= sorted);
        assert(r.to_multiset() == f.to_multiset().insert(sorted.last()));
        assert(sorted.to_multiset() == front.to_multiset().insert(sorted.last()));
        assert(front.to_multiset().insert(c).insert(sorted.last()) =~= front.to_multiset().insert(
            sorted.last(),
        ).insert(c));
        assert forall|i: int, j: int| 0 <= i < j < r.len() implies (#[trigger] r[i]).index <= (
        #[trigger] r[j]).index by {
            if j == f.len() {
                assert(f[i].index <= f[f.len() - 1].index);
                if f.last() != c {
                    assert(f.last() == sorted[sorted.len() - 2]);
                }
            }
        }
    }
}

/// The finished message has the calls in the order of their indices, and they
/// are the calls that were collected.
pub proof fn law_calls_come_in_order(calls: Seq<PartialView>)
    ensures
        is_sorted(by_index(calls)),
        by_index(calls).to_multiset() == calls.to_multiset(),
    decreases calls.len(),
{
    broadcast use vstd::seq_lib::group_to_multiset_ensures;

    if calls.len() > 0 {
        law_calls_come_in_order(calls.drop_last());
        lemma_inserted(by_index(calls.drop_last()), calls.last());
        assert(calls.drop_last().push(calls.last()) =~= calls);
    } else {
        assert(calls =~= Seq::<PartialView>::empty());
    }
}

} // verus!
