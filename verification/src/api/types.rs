//! The messages and envelopes of the chat-completions API.
//!
//! Everything that can be absent on the wire is an `Option`.
use std::sync::Arc;
use vstd::prelude::*;
use crate::json::{Json, parse_json};
use crate::text;

verus! {

/// The role of a message in the conversation.
#[derive(Debug, Clone, Copy, PartialEq, Eq, Structural)]
pub enum Role {
    System,
    User,
    Assistant,
    Tool,
}

/// The name of a role on the wire.
pub open spec fn role_name(role: Role) -> Seq<char> {
    match role {
        Role::System => "system"@,
        Role::User => "user"@,
        Role::Assistant => "assistant"@,
        Role::Tool => "tool"@,
    }
}

impl Role {
    pub fn as_str(self) -> (r: &'static str)
        ensures
            r@ == role_name(self),
    {
        match self {
            Role::System => "system",
            Role::User => "user",
            Role::Assistant => "assistant",
            Role::Tool => "tool",
        }
    }
}

/// Two roles with the same name on the wire are the same role.
pub proof fn law_role_names_distinct(a: Role, b: Role)
    requires
        role_name(a) == role_name(b),
    ensures
        a == b,
{
    reveal_strlit("system");
    reveal_strlit("user");
    reveal_strlit("assistant");
    reveal_strlit("tool");
    assert("system"@.len() == 6 && "user"@.len() == 4 && "assistant"@.len() == 9 && "tool"@.len()
        == 4);
    assert("user"@[0] == 'u' && "tool"@[0] == 't');
}

/// The function payload of a tool call. `arguments` is a JSON *string*, not an
/// object: models stream it in fragments.
#[derive(Debug)]
pub struct FunctionCall {
    pub name: String,
    pub arguments: String,
}

#[derive(Debug)]
pub struct ToolCall {
    pub id: String,
    pub kind: String,
    pub function: FunctionCall,
}

/// A tool call, as text.
pub struct CallView {
    pub id: Seq<char>,
    pub kind: Seq<char>,
    pub name: Seq<char>,
    pub arguments: Seq<char>,
}

impl View for ToolCall {
    type V = CallView;

    open spec fn view(&self) -> CallView {
        CallView {
            id: self.id@,
            kind: self.kind@,
            name: self.function.name@,
            arguments: self.function.arguments@,
        }
    }
}

/// The views of the calls in a list.
pub open spec fn call_views(calls: Seq<ToolCall>) -> Seq<CallView> {
    calls.map_values(|c: ToolCall| c@)
}

impl Clone for FunctionCall {
    fn clone(&self) -> (r: Self)
        ensures
            r.name@ == self.name@,
            r.arguments@ == self.arguments@,
    {
        FunctionCall { name: self.name.clone(), arguments: self.arguments.clone() }
    }
}

impl Clone for ToolCall {
    fn clone(&self) -> (r: Self)
        ensures
            r@ == self@,
    {
        ToolCall {
            id: self.id.clone(),
            kind: self.kind.clone(),
            function: self.function.clone(),
        }
    }
}

/// The call that a model makes of a function.
pub open spec fn function_call(
    id: Seq<char>,
    name: Seq<char>,
    arguments: Seq<char>,
) -> CallView {
    CallView { id, kind: "function"@, name, arguments }
}

impl ToolCall {
    pub fn new(id: &str, name: &str, arguments: &str) -> (r: Self)
        ensures
            r@ == function_call(id@, name@, arguments@),
    {
        ToolCall {
            id: id.to_owned(),
            kind: "function".to_owned(),
            function: FunctionCall { name: name.to_owned(), arguments: arguments.to_owned() },
        }
    }

    /// Parse `arguments` into a JSON value, tolerating the empty string that
    /// models emit for zero-argument tools. An error carries the parser's
    /// message.
    pub fn parsed_arguments(&self) -> (r: Result<Json, String>)
        ensures
            ({
                let raw = text::trimmed(self@.arguments);
                if raw.len() == 0 {
                    r matches Ok(Json::Object(m)) && m@.len() == 0
                } else {
                    match r {
                        Ok(j) => crate::json::parsed_json(raw) == Ok::<Json, Seq<char>>(j),
                        Err(e) => crate::json::parsed_json(raw) == Err::<Json, Seq<char>>(e@),
                    }
                }
            }),
    {
        let raw = text::trim(&self.function.arguments);
        if raw.as_str().is_empty() {
            return Ok(Json::Object(Vec::new()));
        }
        parse_json(&raw)
    }
}

/// A single message in a conversation.
///
/// Assistant messages may carry `tool_calls`; tool messages must carry the
/// `tool_call_id` they are responding to.
#[derive(Debug)]
pub struct Message {
    pub role: String,
    pub content: Option<String>,
    pub tool_calls: Option<Vec<ToolCall>>,
    pub tool_call_id: Option<String>,
    /// Reasoning traces emitted by reasoning models. Captured for display but
    /// never sent back to the API.
    pub reasoning_content: Option<String>,
}

/// A message, as text.
pub struct MessageView {
    pub role: Seq<char>,
    pub content: Option<Seq<char>>,
    pub tool_calls: Option<Seq<CallView>>,
    pub tool_call_id: Option<Seq<char>>,
    pub reasoning_content: Option<Seq<char>>,
}

pub open spec fn opt_calls(calls: Option<Vec<ToolCall>>) -> Option<Seq<CallView>> {
    match calls {
        Some(c) => Some(call_views(c@)),
        None => None,
    }
}

impl View for Message {
    type V = MessageView;

    open spec fn view(&self) -> MessageView {
        MessageView {
            role: self.role@,
            content: text::opt_view(self.content),
            tool_calls: opt_calls(self.tool_calls),
            tool_call_id: text::opt_view(self.tool_call_id),
            reasoning_content: text::opt_view(self.reasoning_content),
        }
    }
}

/// The views of the messages in a list.
pub open spec fn message_views(messages: Seq<Message>) -> Seq<MessageView> {
    messages.map_values(|m: Message| m@)
}

/// A message as it leaves the process: without its reasoning trace.
pub open spec fn outgoing(m: MessageView) -> MessageView {
    MessageView { reasoning_content: None, ..m }
}

/// Messages as they leave the process.
pub open spec fn all_outgoing(messages: Seq<MessageView>) -> Seq<MessageView> {
    messages.map_values(|m: MessageView| outgoing(m))
}

/// A message of a role that only has text.
pub open spec fn text_message(role: Role, content: Seq<char>) -> MessageView {
    MessageView {
        role: role_name(role),
        content: Some(content),
        tool_calls: None,
        tool_call_id: None,
        reasoning_content: None,
    }
}

/// The answer to a tool call.
pub open spec fn tool_message(id: Seq<char>, content: Seq<char>) -> MessageView {
    MessageView { tool_call_id: Some(id), ..text_message(Role::Tool, content) }
}

pub(crate) fn clone_text(s: &Option<String>) -> (r: Option<String>)
    ensures
        text::opt_view(r) == text::opt_view(*s),
{
    match s {
        Some(t) => Some(t.clone()),
        None => None,
    }
}

pub(crate) fn clone_calls(calls: &Vec<ToolCall>) -> (r: Vec<ToolCall>)
    ensures
        call_views(r@) == call_views(calls@),
{
    let mut out: Vec<ToolCall> = Vec::new();
    let mut i: usize = 0;
    while i < calls.len()
        invariant
            i <= calls.len(),
            call_views(out@) == call_views(calls@).take(i as int),
        decreases calls.len() - i,
    {
        let c = calls[i].clone();
        let ghost before = call_views(out@);
        let ghost cv = c@;
        out.push(c);
        assert(call_views(out@) =~= before.push(cv));
        i += 1;
        assert(call_views(out@) =~= call_views(calls@).take(i as int));
    }
    assert(call_views(calls@).take(calls@.len() as int) =~= call_views(calls@));
    out
}

impl Clone for Message {
    fn clone(&self) -> (r: Self)
        ensures
            r@ == self@,
    {
        Message {
            role: self.role.clone(),
            content: clone_text(&self.content),
            tool_calls: match &self.tool_calls {
                Some(c) => Some(clone_calls(c)),
                None => None,
            },
            tool_call_id: clone_text(&self.tool_call_id),
            reasoning_content: clone_text(&self.reasoning_content),
        }
    }
}

impl Message {
    /// A copy to send or to store. Reasoning traces are shown and then dropped:
    /// the provider rebuilds them on its side and rejects an echo.
    pub fn to_send(&self) -> (r: Message)
        ensures
            r@ == outgoing(self@),
    {
        let mut copy = self.clone();
        copy.reasoning_content = None;
        copy
    }
}

/// Copies of messages, to send.
pub fn copies_to_send(messages: &Vec<Message>) -> (r: Vec<Message>)
    ensures
        message_views(r@) == all_outgoing(message_views(messages@)),
{
    let mut out: Vec<Message> = Vec::new();
    let ghost all = all_outgoing(message_views(messages@));
    assert(message_views(out@) =~= all.take(0));
    let mut i: usize = 0;
    while i < messages.len()
        invariant
            i <= messages.len(),
            all == all_outgoing(message_views(messages@)),
            message_views(out@) == all.take(i as int),
        decreases messages.len() - i,
    {
        let m = messages[i].to_send();
        let ghost before = message_views(out@);
        let ghost view = m@;
        out.push(m);
        assert(message_views(out@) =~= before.push(view));
        assert(all[i as int] == view);
        i += 1;
        assert(message_views(out@) =~= all.take(i as int));
    }
    assert(all.take(messages@.len() as int) =~= all);
    out
}

/// No reasoning trace is ever sent back, and nothing else of a message is lost
/// on the way out.
pub proof fn law_reasoning_is_never_sent(messages: Seq<MessageView>)
    ensures
        all_outgoing(messages).len() == messages.len(),
        forall|i: int|
            0 <= i < messages.len() ==> {
                let m = #[trigger] all_outgoing(messages)[i];
                &&& m.reasoning_content is None
                &&& (MessageView { reasoning_content: messages[i].reasoning_content, ..m })
                    == messages[i]
            },
{
}

impl Default for Message {
    fn default() -> (r: Self)
        ensures
            r@ == (MessageView {
                role: Seq::empty(),
                content: None,
                tool_calls: None,
                tool_call_id: None,
                reasoning_content: None,
            }),
    {
        Message {
            role: String::new(),
            content: None,
            tool_calls: None,
            tool_call_id: None,
            reasoning_content: None,
        }
    }
}

/// The bytes that the names and arguments of calls take.
pub open spec fn calls_bytes(calls: Seq<CallView>) -> nat
    decreases calls.len(),
{
    if calls.len() == 0 {
        0
    } else {
        calls_bytes(calls.drop_last()) + text::byte_count(calls.last().name) + text::byte_count(
            calls.last().arguments,
        )
    }
}

/// The bytes that a message contributes to the context.
pub open spec fn message_bytes(m: MessageView) -> nat {
    (match m.content {
        Some(c) => text::byte_count(c),
        None => 0,
    }) + (match m.tool_calls {
        Some(calls) => calls_bytes(calls),
        None => 0,
    })
}

proof fn lemma_calls_bytes_prefix(calls: Seq<CallView>, i: int)
    requires
        0 <= i <= calls.len(),
    ensures
        calls_bytes(calls.take(i)) <= calls_bytes(calls),
    decreases calls.len(),
{
    if i < calls.len() {
        lemma_calls_bytes_prefix(calls.drop_last(), i);
        assert(calls.drop_last().take(i) =~= calls.take(i));
    } else {
        assert(calls.take(i) =~= calls);
    }
}

impl Message {
    pub fn system(content: &str) -> (r: Self)
        ensures
            r@ == text_message(Role::System, content@),
    {
        Self::of_role(Role::System, content)
    }

    pub fn user(content: &str) -> (r: Self)
        ensures
            r@ == text_message(Role::User, content@),
    {
        Self::of_role(Role::User, content)
    }

    pub fn assistant(content: &str) -> (r: Self)
        ensures
            r@ == text_message(Role::Assistant, content@),
    {
        Self::of_role(Role::Assistant, content)
    }

    fn of_role(role: Role, content: &str) -> (r: Self)
        ensures
            r@ == text_message(role, content@),
    {
        Message {
            role: role.as_str().to_owned(),
            content: Some(content.to_owned()),
            tool_calls: None,
            tool_call_id: None,
            reasoning_content: None,
        }
    }

    /// A tool result message. `tool_call_id` must match the id of the
    /// assistant's tool call, or the API rejects the whole request.
    pub fn tool_result(tool_call_id: &str, content: &str) -> (r: Self)
        ensures
            r@ == tool_message(tool_call_id@, content@),
    {
        let mut m = Self::of_role(Role::Tool, content);
        m.tool_call_id = Some(tool_call_id.to_owned());
        m
    }

    pub fn is_role(&self, role: Role) -> (r: bool)
        ensures
            r == (self@.role == role_name(role)),
    {
        text::same(&self.role, role.as_str())
    }

    /// Rough count, in bytes, of everything this message contributes to context.
    pub fn char_len(&self) -> (r: usize)
        requires
            message_bytes(self@) <= usize::MAX,
        ensures
            r == message_bytes(self@),
    {
        let mut n: usize = match &self.content {
            Some(c) => text::byte_len(c),
            None => 0,
        };
        match &self.tool_calls {
            Some(calls) => {
                let ghost all = call_views(calls@);
                let ghost start = n;
                let mut i: usize = 0;
                while i < calls.len()
                    invariant
                        i <= calls.len(),
                        all == call_views(calls@),
                        start + calls_bytes(all) <= usize::MAX,
                        n == start + calls_bytes(all.take(i as int)),
                    decreases calls.len() - i,
                {
                    proof {
                        lemma_calls_bytes_prefix(all, i + 1);
                        assert(all.take(i + 1).drop_last() =~= all.take(i as int));
                        assert(all[i as int] == calls@[i as int]@);
                    }
                    n = n + (text::byte_len(&calls[i].function.name) + text::byte_len(
                        &calls[i].function.arguments,
                    ));
                    i += 1;
                }
                assert(all.take(all.len() as int) =~= all);
            },
            None => {},
        }
        n
    }
}

/// A tool advertised to the model.
#[derive(Debug)]
pub struct ToolSpec {
    pub kind: String,
    pub function: FunctionSpec,
}

#[derive(Debug)]
pub struct FunctionSpec {
    pub name: String,
    pub description: String,
    pub parameters: Arc<Json>,
}

impl ToolSpec {
    pub fn function(name: &str, description: &str, parameters: Json) -> (r: Self)
        ensures
            r.kind@ == "function"@,
            r.function.name@ == name@,
            r.function.description@ == description@,
            *r.function.parameters == parameters,
    {
        ToolSpec {
            kind: "function".to_owned(),
            function: FunctionSpec {
                name: name.to_owned(),
                description: description.to_owned(),
                parameters: Arc::new(parameters),
            },
        }
    }
}

/// Token accounting returned by the API.
#[derive(Debug, Clone, Copy, PartialEq, Eq, Structural)]
pub struct Usage {
    pub prompt_tokens: u64,
    pub completion_tokens: u64,
    pub total_tokens: u64,
    /// Prompt tokens served from the provider's cache.
    pub prompt_tokens_details: Option<PromptTokensDetails>,
}

#[derive(Debug, Clone, Copy, PartialEq, Eq, Structural)]
pub struct PromptTokensDetails {
    pub cached_tokens: u64,
}

impl Default for Usage {
    fn default() -> (r: Self)
        ensures
            r == no_usage(),
    {
        Usage {
            prompt_tokens: 0,
            completion_tokens: 0,
            total_tokens: 0,
            prompt_tokens_details: None,
        }
    }
}

pub open spec fn no_usage() -> Usage {
    Usage { prompt_tokens: 0, completion_tokens: 0, total_tokens: 0, prompt_tokens_details: None }
}

/// The prompt tokens that came from the cache.
pub open spec fn cached(u: Usage) -> u64 {
    match u.prompt_tokens_details {
        Some(d) => d.cached_tokens,
        None => 0,
    }
}

/// Whether the sums of two usage records fit their fields.
pub open spec fn usage_fits(a: Usage, b: Usage) -> bool {
    &&& a.prompt_tokens + b.prompt_tokens <= u64::MAX
    &&& a.completion_tokens + b.completion_tokens <= u64::MAX
    &&& a.total_tokens + b.total_tokens <= u64::MAX
    &&& cached(a) + cached(b) <= u64::MAX
}

/// The sum of two usage records. Cache details appear once there is a cached token.
pub open spec fn usage_sum(a: Usage, b: Usage) -> Usage {
    Usage {
        prompt_tokens: (a.prompt_tokens + b.prompt_tokens) as u64,
        completion_tokens: (a.completion_tokens + b.completion_tokens) as u64,
        total_tokens: (a.total_tokens + b.total_tokens) as u64,
        prompt_tokens_details: if cached(a) + cached(b) > 0 {
            Some(PromptTokensDetails { cached_tokens: (cached(a) + cached(b)) as u64 })
        } else {
            a.prompt_tokens_details
        },
    }
}

impl Usage {
    pub fn cached_tokens(&self) -> (r: u64)
        ensures
            r == cached(*self),
    {
        match self.prompt_tokens_details {
            Some(d) => d.cached_tokens,
            None => 0,
        }
    }

    /// Whether more usage can be counted.
    pub fn can_add(&self, other: &Self) -> (r: bool)
        ensures
            r == usage_fits(*self, *other),
    {
        let a = self.cached_tokens();
        let b = other.cached_tokens();
        self.prompt_tokens <= u64::MAX - other.prompt_tokens && self.completion_tokens <= u64::MAX
            - other.completion_tokens && self.total_tokens <= u64::MAX - other.total_tokens && a
            <= u64::MAX - b
    }

    /// Accumulate another usage record into this one.
    pub fn add(&mut self, other: &Self)
        requires
            usage_fits(*old(self), *other),
        ensures
            *final(self) == usage_sum(*old(self), *other),
    {
        let cached: u64 = self.cached_tokens() + other.cached_tokens();
        self.prompt_tokens = self.prompt_tokens + other.prompt_tokens;
        self.completion_tokens = self.completion_tokens + other.completion_tokens;
        self.total_tokens = self.total_tokens + other.total_tokens;
        if cached > 0 {
            self.prompt_tokens_details = Some(PromptTokensDetails { cached_tokens: cached });
        }
    }
}

/// Adding usage twice adds the sum, in every counter.
pub proof fn law_usage_adds_up(a: Usage, b: Usage, c: Usage)
    requires
        usage_fits(a, b),
        usage_fits(usage_sum(a, b), c),
    ensures
        usage_sum(usage_sum(a, b), c).prompt_tokens == a.prompt_tokens + b.prompt_tokens
            + c.prompt_tokens,
        usage_sum(usage_sum(a, b), c).completion_tokens == a.completion_tokens
            + b.completion_tokens + c.completion_tokens,
        usage_sum(usage_sum(a, b), c).total_tokens == a.total_tokens + b.total_tokens
            + c.total_tokens,
        cached(usage_sum(usage_sum(a, b), c)) == cached(a) + cached(b) + cached(c),
{
}

/// A completed assistant turn, assembled from either a streamed or a
/// non-streamed response.
#[derive(Debug, Clone)]
pub struct Completion {
    pub message: Message,
    pub finish_reason: Option<String>,
    pub usage: Usage,
}

/// Whether a message carries tool calls.
pub open spec fn calls_tools(m: MessageView) -> bool {
    m.tool_calls matches Some(c) && c.len() > 0
}

impl Completion {
    pub fn has_tool_calls(&self) -> (r: bool)
        ensures
            r == calls_tools(self.message@),
    {
        match &self.message.tool_calls {
            Some(c) => {
                assert(call_views(c@).len() == c@.len());
                c.len() > 0
            },
            None => false,
        }
    }
}

/// Incremental events produced while streaming a completion.
#[derive(Debug, Clone)]
pub enum StreamEvent {
    /// A chunk of assistant-visible text.
    Text(String),
    /// A chunk of reasoning text (reasoning models only).
    Reasoning(String),
    /// A tool call became fully known (name + complete arguments).
    ToolCallReady(ToolCall),
    /// The turn finished; carries the fully assembled completion.
    Done(Box<Completion>),
}

// ---------------------------------------------------------------------------
// Request / response envelopes
// ---------------------------------------------------------------------------

#[derive(Debug)]
pub struct ChatRequest {
    pub model: String,
    pub messages: Vec<Message>,
    pub stream: bool,
    pub max_completion_tokens: Option<u32>,
    /// The bits of a single-precision number.
    pub temperature: Option<u32>,
    pub tools: Option<Vec<ToolSpec>>,
    pub tool_choice: Option<String>,
    pub stream_options: Option<StreamOptions>,
    pub reasoning_effort: Option<String>,
}

#[derive(Debug, Clone, Copy)]
pub struct StreamOptions {
    pub include_usage: bool,
}

#[derive(Debug)]
pub struct ChatResponse {
    pub choices: Vec<Choice>,
    pub usage: Option<Usage>,
}

#[derive(Debug)]
pub struct Choice {
    pub message: Option<Message>,
    pub finish_reason: Option<String>,
}

/// One `data:` frame of a streaming response.
#[derive(Debug)]
pub struct ChatChunk {
    pub choices: Vec<ChunkChoice>,
    pub usage: Option<Usage>,
}

#[derive(Debug)]
pub struct ChunkChoice {
    pub delta: Delta,
    pub finish_reason: Option<String>,
}

#[derive(Debug)]
pub struct Delta {
    pub content: Option<String>,
    pub reasoning_content: Option<String>,
    pub tool_calls: Option<Vec<ToolCallDelta>>,
}

/// A partial tool call. `index` is the only reliable correlation key: `id` and
/// `name` arrive once, on the first fragment, and `arguments` dribbles in over
/// many subsequent fragments carrying nothing but the index.
#[derive(Debug, Clone)]
pub struct ToolCallDelta {
    pub index: usize,
    pub id: Option<String>,
    pub kind: Option<String>,
    pub function: Option<FunctionCallDelta>,
}

#[derive(Debug, Clone)]
pub struct FunctionCallDelta {
    pub name: Option<String>,
    pub arguments: Option<String>,
}

} // verus!
