//! What the client decides: the request it sends, when it tries again, and how
//! it reads the frames of a stream. Sending is left to the caller.
use vstd::prelude::*;
use vstd::string::StringExecFns;
use crate::api::types::{
    all_outgoing, copies_to_send, message_views, ChatRequest, Message, StreamOptions, ToolSpec,
};
use crate::config::DEFAULT_MODEL;
use crate::json::{field, json_text, parse_json, parsed_json, print_json, Json};
use crate::text;
use crate::util::Duration;

verus! {

pub const DEFAULT_BASE_URL: &'static str = "https://api.x.ai/v1";

/// Per-request knobs that the agent varies between turns.
#[derive(Debug)]
pub struct RequestOptions {
    pub model: String,
    pub max_tokens: Option<u32>,
    /// The bits of a single-precision number.
    pub temperature: Option<u32>,
    /// `low` / `high` for reasoning models. Only sent when explicitly configured.
    pub reasoning_effort: Option<String>,
}

impl Default for RequestOptions {
    fn default() -> (r: Self)
        ensures
            r.model@ == DEFAULT_MODEL@,
            r.max_tokens is None,
            r.temperature is None,
            r.reasoning_effort is None,
    {
        RequestOptions {
            model: DEFAULT_MODEL.to_owned(),
            max_tokens: None,
            temperature: None,
            reasoning_effort: None,
        }
    }
}

/// Where requests go, and how often they are tried again.
#[derive(Debug)]
pub struct ApiClient {
    pub api_key: String,
    pub base_url: String,
    pub max_retries: u32,
}

/// `s` without any number of slashes at its end.
pub open spec fn without_slashes(s: Seq<char>) -> Seq<char>
    decreases s.len(),
{
    if s.len() > 0 && s.last() == '/' {
        without_slashes(s.drop_last())
    } else {
        s
    }
}

fn strip_slashes(s: &str) -> (r: String)
    ensures
        r@ == without_slashes(s@),
{
    let v = text::chars_of(s);
    let mut j: usize = v.len();
    assert(v@.take(j as int) =~= v@);
    while j > 0 && v[j - 1] == '/'
        invariant
            j <= v.len(),
            v@ == s@,
            without_slashes(v@.take(j as int)) == without_slashes(s@),
        decreases j,
    {
        assert(v@.take(j as int).drop_last() =~= v@.take(j - 1));
        j -= 1;
    }
    text::string_between(&v, 0, j)
}

/// Whether an HTTP status means that the request was served.
pub open spec fn is_success(status: u16) -> bool {
    200 <= status <= 299
}

/// Whether an HTTP status is worth another attempt: rate limits and server errors.
pub open spec fn retryable(status: u16) -> bool {
    status == 429 || 500 <= status <= 599
}

/// What follows an attempt.
#[derive(Debug, Clone, Copy, PartialEq, Eq, Structural)]
pub enum Verdict {
    /// The response is used.
    Accept,
    /// The request has failed.
    Fail,
    /// Another attempt follows after a pause.
    Retry,
}

/// What follows the attempt number `attempt`, counted from 0. `status` is absent
/// where the request could not be sent.
pub open spec fn verdict(attempt: u32, max_retries: u32, status: Option<u16>) -> Verdict {
    match status {
        Some(s) => if is_success(s) {
            Verdict::Accept
        } else if !retryable(s) || attempt >= max_retries {
            Verdict::Fail
        } else {
            Verdict::Retry
        },
        None => if attempt >= max_retries {
            Verdict::Fail
        } else {
            Verdict::Retry
        },
    }
}

/// Text cut to `max` bytes, with a note on the whole.
pub open spec fn shortened(s: Seq<char>, max: nat) -> Seq<char> {
    if text::byte_count(s) <= max {
        s
    } else {
        text::fitting(s, max) + "\u{2026} ("@ + text::decimal(text::byte_count(s))
            + " bytes total)"@
    }
}

/// Whether an HTTP status is worth another attempt: rate limits and server errors.
pub fn is_retryable(status: u16) -> (r: bool)
    ensures
        r == retryable(status),
{
    status == 429 || (500 <= status && status <= 599)
}

/// Cut to at most `max` bytes without splitting a character, with a note on the
/// length of the whole.
pub fn truncate(s: &str, max: usize) -> (r: String)
    ensures
        r@ == shortened(s@, max as nat),
{
    let total: usize = text::byte_len(s);
    if total <= max {
        return s.to_owned();
    }
    let mut out = text::fit(s, max);
    out.append("\u{2026} (");
    out.append(&text::number(total as u64));
    out.append(" bytes total)");
    out
}

/// What a cut text keeps never exceeds the limit.
pub proof fn law_shortened_keeps_a_prefix(s: Seq<char>, max: nat)
    ensures
        text::byte_count(text::fitting(s, max)) <= max,
        text::fitting(s, max).is_prefix_of(s),
{
    text::lemma_fitting(s, max);
}

/// The pause before attempt number `attempt`: what the server asked for, else
/// half a second doubled for each attempt made.
pub open spec fn pause_nanos(attempt: u32, retry_after: Option<Seq<char>>) -> nat {
    match retry_after {
        Some(h) => match text::parsed_u64(h) {
            Some(secs) => (secs * 1_000_000_000) as nat,
            None => half_seconds(attempt as nat) * 500_000_000,
        },
        None => half_seconds(attempt as nat) * 500_000_000,
    }
}

/// Two to the power `n`.
pub open spec fn half_seconds(n: nat) -> nat
    decreases n,
{
    if n == 0 {
        1
    } else {
        2 * half_seconds((n - 1) as nat)
    }
}

proof fn lemma_half_seconds(n: nat, m: nat)
    requires
        n <= m,
    ensures
        half_seconds(n) <= half_seconds(m),
        half_seconds(55) == 36_028_797_018_963_968,
    decreases m,
{
    reveal_with_fuel(half_seconds, 56);
    if n < m {
        lemma_half_seconds(n, (m - 1) as nat);
    }
}

/// The pause before attempt number `attempt` (at least 1).
pub fn backoff(attempt: u32, retry_after: Option<&str>) -> (r: Duration)
    requires
        attempt <= 55,
    ensures
        r.wf(),
        r.total_nanos() == pause_nanos(
            attempt,
            match retry_after {
                Some(h) => Some(h@),
                None => None,
            },
        ),
{
    match retry_after {
        Some(h) => match text::parse_u64(h) {
            Some(secs) => {
                return Duration::from_secs(secs);
            },
            None => {},
        },
        None => {},
    }
    let mut units: u64 = 1;
    let mut i: u32 = 0;
    while i < attempt
        invariant
            i <= attempt <= 55,
            units == half_seconds(i as nat),
        decreases attempt - i,
    {
        proof {
            lemma_half_seconds((i + 1) as nat, 55);
        }
        units = units * 2;
        i += 1;
    }
    proof {
        lemma_half_seconds(attempt as nat, 55);
    }
    Duration::from_millis(500 * units)
}

impl ApiClient {
    pub fn new(api_key: &str, base_url: &str) -> (r: Self)
        ensures
            r.api_key@ == api_key@,
            r.base_url@ == base_url@,
            r.max_retries == 3,
    {
        ApiClient {
            api_key: api_key.to_owned(),
            base_url: base_url.to_owned(),
            max_retries: 3,
        }
    }

    pub fn with_max_retries(self, retries: u32) -> (r: Self)
        ensures
            r == (ApiClient { max_retries: retries, ..self }),
    {
        let mut c = self;
        c.max_retries = retries;
        c
    }

    /// The address of the chat endpoint.
    pub fn endpoint(&self) -> (r: String)
        ensures
            r@ == without_slashes(self.base_url@) + "/chat/completions"@,
    {
        let mut out = strip_slashes(&self.base_url);
        out.append("/chat/completions");
        out
    }

    /// The request for a conversation. An empty list of tools is left out, and
    /// only a stream asks for usage.
    pub fn build_request(
        &self,
        messages: Vec<Message>,
        tools: Vec<ToolSpec>,
        opts: &RequestOptions,
        stream: bool,
    ) -> (r: ChatRequest)
        ensures
            r.model@ == opts.model@,
            message_views(r.messages@) == all_outgoing(message_views(messages@)),
            r.stream == stream,
            r.max_completion_tokens == opts.max_tokens,
            r.temperature == opts.temperature,
            r.tools == (if tools@.len() == 0 {
                None
            } else {
                Some(tools)
            }),
            r.tool_choice is None,
            r.stream_options == (if stream {
                Some(StreamOptions { include_usage: true })
            } else {
                None
            }),
            text::opt_view(r.reasoning_effort) == text::opt_view(opts.reasoning_effort),
    {
        let has_tools = tools.len() > 0;
        ChatRequest {
            model: opts.model.clone(),
            messages: copies_to_send(&messages),
            stream,
            max_completion_tokens: opts.max_tokens,
            temperature: opts.temperature,
            tools: if has_tools {
                Some(tools)
            } else {
                None
            },
            tool_choice: None,
            stream_options: if stream {
                Some(StreamOptions { include_usage: true })
            } else {
                None
            },
            reasoning_effort: crate::api::types::clone_text(&opts.reasoning_effort),
        }
    }

    /// What follows an attempt. `status` is absent where the request could not
    /// be sent.
    pub fn after_attempt(&self, attempt: u32, status: Option<u16>) -> (r: Verdict)
        ensures
            r == verdict(attempt, self.max_retries, status),
    {
        match status {
            Some(s) => {
                if 200 <= s && s <= 299 {
                    Verdict::Accept
                } else if !is_retryable(s) || attempt >= self.max_retries {
                    Verdict::Fail
                } else {
                    Verdict::Retry
                }
            },
            None => {
                if attempt >= self.max_retries {
                    Verdict::Fail
                } else {
                    Verdict::Retry
                }
            },
        }
    }
}

/// A request is tried at most `max_retries` times after the first attempt.
pub proof fn law_retries_are_bounded(attempt: u32, max_retries: u32, status: Option<u16>)
    requires
        attempt >= max_retries,
    ensures
        verdict(attempt, max_retries, status) != Verdict::Retry,
{
}

/// The error for a refused request.
pub fn api_error(status: &str, detail: &str) -> (r: String)
    ensures
        r@ == "API error "@ + status@ + ": "@ + shortened(detail@, 1200),
{
    let mut out = "API error ".to_owned();
    out.append(status);
    out.append(": ");
    out.append(&truncate(detail, 1200));
    out
}

/// The error for a response body that is no response.
pub fn decode_error(body: &str) -> (r: String)
    ensures
        r@ == "decoding response body: "@ + shortened(body@, 800),
{
    let mut out = "decoding response body: ".to_owned();
    out.append(&truncate(body, 800));
    out
}

/// Whether a payload ends the stream.
pub open spec fn ends_stream(payload: Seq<char>) -> bool {
    text::trimmed(payload) == "[DONE]"@
}

/// The payloads before the one that ends the stream.
pub open spec fn before_done(payloads: Seq<Seq<char>>) -> Seq<Seq<char>>
    decreases payloads.len(),
{
    if payloads.len() == 0 || ends_stream(payloads[0]) {
        Seq::empty()
    } else {
        seq![payloads[0]] + before_done(payloads.skip(1))
    }
}

/// Whether a payload is `[DONE]`, which ends the stream.
pub fn is_done(payload: &str) -> (r: bool)
    ensures
        r == ends_stream(payload@),
{
    text::same(&text::trim(payload), "[DONE]")
}

/// The payloads to act on, and whether the stream has ended.
pub fn until_done(payloads: Vec<String>) -> (r: (Vec<String>, bool))
    ensures
        text::views(r.0@) == before_done(text::views(payloads@)),
        r.1 == exists|i: int|
            0 <= i < payloads@.len() && ends_stream(#[trigger] text::views(payloads@)[i]),
{
    let ghost all = text::views(payloads@);
    let mut out: Vec<String> = Vec::new();
    let mut i: usize = 0;
    assert(all.skip(0) =~= all);
    assert(text::views(out@) + before_done(all) =~= before_done(all));
    while i < payloads.len()
        invariant
            i <= payloads.len(),
            all == text::views(payloads@),
            text::views(out@) + before_done(all.skip(i as int)) == before_done(all),
            forall|k: int| 0 <= k < i ==> !ends_stream(#[trigger] all[k]),
        decreases payloads.len() - i,
    {
        let ghost rest = all.skip(i as int);
        proof {
            assert(rest[0] == payloads@[i as int]@);
            assert(all[i as int] == payloads@[i as int]@);
            assert(rest.skip(1) =~= all.skip(i + 1));
        }
        if is_done(&payloads[i]) {
            assert(text::views(out@) + Seq::<Seq<char>>::empty() =~= text::views(out@));
            return (out, true);
        }
        let ghost before = text::views(out@);
        out.push(payloads[i].clone());
        proof {
            assert(text::views(out@) =~= before.push(rest[0]));
            assert(text::views(out@) + before_done(all.skip(i + 1)) =~= before + (seq![rest[0]]
                + before_done(all.skip(i + 1))));
        }
        i += 1;
    }
    proof {
        assert(all.skip(i as int) =~= Seq::<Seq<char>>::empty());
        assert(text::views(out@) + Seq::<Seq<char>>::empty() =~= text::views(out@));
    }
    (out, false)
}

/// What a frame that is no chunk says of an error at the provider.
pub open spec fn error_in(parsed: Result<Json, Seq<char>>) -> Option<Seq<char>> {
    match parsed {
        Ok(j) => match field(j, "error"@) {
            Some(e) => Some("API error mid-stream: "@ + json_text(e)),
            None => None,
        },
        Err(_) => None,
    }
}

/// The error that the provider reports in a frame that is no chunk.
pub fn stream_error(payload: &str) -> (r: Option<String>)
    ensures
        text::opt_view(r) == error_in(parsed_json(payload@)),
{
    match parse_json(payload) {
        Ok(j) => match j.get("error") {
            Some(e) => {
                let mut s = "API error mid-stream: ".to_owned();
                s.append(&print_json(e));
                Some(s)
            },
            None => None,
        },
        Err(_) => None,
    }
}

} // verus!
