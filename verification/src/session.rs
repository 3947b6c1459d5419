//! Sessions: the conversation, and the transcript it is restored from.
//!
//! A transcript is a list of records that only grows. A session queues a record
//! for each of its changes; the caller writes the queue to disk and hands the
//! records back when the session is resumed. A record that cannot be read is
//! skipped, so a corrupt line costs that line and no more.
use vstd::prelude::*;
use vstd::string::StringExecFns;
use crate::api::types::{
    all_outgoing, clone_text, message_bytes, message_views, no_usage, outgoing, role_name,
    text_message, usage_fits, usage_sum, Message, MessageView, Role, Usage,
};
use crate::config;
use crate::text;
use crate::util;

verus! {

/// One line of a transcript.
#[derive(Debug)]
pub enum TranscriptEntry {
    /// Written once, first. Later metadata changes append a fresh record; the
    /// last one read wins.
    Meta { at: String, id: String, workspace: String, model: String, title: Option<String> },
    /// A conversation message, exactly as sent to or received from the API.
    Message { at: String, message: Message },
    /// Token accounting for one API round trip.
    Usage { at: String, usage: Usage },
    /// A compaction boundary. Everything before it was replaced by `summary`.
    Compaction { at: String, summary: String, dropped_messages: usize },
}

/// A record, as text.
pub enum EntryView {
    Meta {
        at: Seq<char>,
        id: Seq<char>,
        workspace: Seq<char>,
        model: Seq<char>,
        title: Option<Seq<char>>,
    },
    Message { at: Seq<char>, message: MessageView },
    Usage { at: Seq<char>, usage: Usage },
    Compaction { at: Seq<char>, summary: Seq<char>, dropped_messages: usize },
}

impl View for TranscriptEntry {
    type V = EntryView;

    open spec fn view(&self) -> EntryView {
        match *self {
            TranscriptEntry::Meta { at, id, workspace, model, title } => EntryView::Meta {
                at: at@,
                id: id@,
                workspace: workspace@,
                model: model@,
                title: text::opt_view(title),
            },
            TranscriptEntry::Message { at, message } => EntryView::Message {
                at: at@,
                message: message@,
            },
            TranscriptEntry::Usage { at, usage } => EntryView::Usage { at: at@, usage },
            TranscriptEntry::Compaction { at, summary, dropped_messages } => EntryView::Compaction {
                at: at@,
                summary: summary@,
                dropped_messages,
            },
        }
    }
}

/// The views of records.
pub open spec fn entry_views(entries: Seq<TranscriptEntry>) -> Seq<EntryView> {
    entries.map_values(|e: TranscriptEntry| e@)
}

/// The views of the lines of a transcript. A line that could not be read has
/// none.
pub open spec fn line_views(lines: Seq<Option<TranscriptEntry>>) -> Seq<Option<EntryView>> {
    lines.map_values(
        |l: Option<TranscriptEntry>|
            match l {
                Some(e) => Some(e@),
                None => None,
            },
    )
}

// ---------------------------------------------------------------------------
// The session
// ---------------------------------------------------------------------------

/// A live session.
#[derive(Debug)]
pub struct Session {
    pub id: String,
    /// The transcript. Absent where the session lives in memory only.
    pub path: Option<String>,
    pub model: String,
    pub title: Option<String>,
    /// The full conversation, including the system message at index 0.
    pub messages: Vec<Message>,
    /// Cumulative usage across every request in this session.
    pub usage: Usage,
    /// The prompt tokens of the latest request, as the provider counted them.
    /// Absent while no response tells how large the conversation is.
    pub reported_tokens: Option<u64>,
    /// Set when persistence is unavailable (no home directory, read-only disk).
    /// The session still works; it just will not survive a restart.
    pub persistence_error: Option<String>,
    /// Records that are not on disk yet, oldest first.
    pub pending: Vec<TranscriptEntry>,
}

/// What a transcript restores of a session.
pub struct SessionView {
    pub id: Seq<char>,
    pub model: Seq<char>,
    pub title: Option<Seq<char>>,
    pub messages: Seq<MessageView>,
    pub usage: Usage,
    pub reported: Option<u64>,
}

impl View for Session {
    type V = SessionView;

    open spec fn view(&self) -> SessionView {
        SessionView {
            id: self.id@,
            model: self.model@,
            title: text::opt_view(self.title),
            messages: message_views(self.messages@),
            usage: self.usage,
            reported: self.reported_tokens,
        }
    }
}

/// Whether a message has a role.
pub open spec fn has_role(m: MessageView, role: Role) -> bool {
    m.role == role_name(role)
}

/// The messages of the harness itself.
pub open spec fn system_only(messages: Seq<MessageView>) -> Seq<MessageView> {
    messages.filter(|m: MessageView| has_role(m, Role::System))
}

/// A session after one more API round trip.
pub open spec fn after_usage(s: SessionView, u: Usage) -> SessionView {
    SessionView {
        usage: usage_sum(s.usage, u),
        reported: if u.prompt_tokens > 0 {
            Some(u.prompt_tokens)
        } else {
            s.reported
        },
        ..s
    }
}

/// What a record changes in a session.
pub open spec fn applied(s: SessionView, e: EntryView) -> SessionView {
    match e {
        EntryView::Meta { id, model, title, .. } => SessionView {
            id,
            model,
            title: if title is Some {
                title
            } else {
                s.title
            },
            ..s
        },
        EntryView::Message { message, .. } => SessionView { messages: s.messages.push(message), ..s },
        EntryView::Usage { usage, .. } => after_usage(s, usage),
        EntryView::Compaction { summary, .. } => SessionView {
            messages: system_only(s.messages).push(text_message(Role::User, summary)),
            reported: None,
            ..s
        },
    }
}

/// Whether the usage that a record adds fits the counters.
pub open spec fn entry_fits(s: SessionView, e: EntryView) -> bool {
    e matches EntryView::Usage { usage, .. } ==> usage_fits(s.usage, usage)
}

/// The session that the lines of a transcript lead to.
pub open spec fn replayed(start: SessionView, lines: Seq<Option<EntryView>>) -> SessionView
    decreases lines.len(),
{
    if lines.len() == 0 {
        start
    } else {
        let before = replayed(start, lines.drop_last());
        match lines.last() {
            Some(e) => applied(before, e),
            None => before,
        }
    }
}

/// Whether the usage of all lines together fits the counters.
pub open spec fn lines_fit(start: SessionView, lines: Seq<Option<EntryView>>) -> bool {
    forall|i: int|
        0 <= i < lines.len() ==> match #[trigger] lines[i] {
            Some(e) => entry_fits(replayed(start, lines.take(i)), e),
            None => true,
        }
}

/// What a session is before its transcript is read.
pub open spec fn unread(path: Seq<char>) -> SessionView {
    SessionView {
        id: match util::stem_of(path) {
            Some(s) => s,
            None => Seq::empty(),
        },
        model: config::DEFAULT_MODEL@,
        title: None,
        messages: Seq::empty(),
        usage: no_usage(),
        reported: None,
    }
}

/// The tokens that messages are estimated to take: four bytes to a token, and
/// four tokens for the structure around each message.
pub open spec fn context_tokens(messages: Seq<MessageView>) -> nat
    decreases messages.len(),
{
    if messages.len() == 0 {
        0
    } else {
        context_tokens(messages.drop_last()) + (message_bytes(messages.last()) + 3) / 4 + 4
    }
}

/// The tokens in context: what the provider counted, and an estimate before it
/// has counted anything.
pub open spec fn context_size(s: SessionView) -> nat {
    match s.reported {
        Some(n) => n as nat,
        None => context_tokens(s.messages),
    }
}

/// Whether the tokens in context can be told in machine numbers.
pub open spec fn measurable(s: SessionView) -> bool {
    s.reported is None ==> countable(s.messages)
}

/// Whether messages can be counted in machine numbers.
pub open spec fn countable(messages: Seq<MessageView>) -> bool {
    &&& context_tokens(messages) <= u64::MAX
    &&& forall|i: int|
        0 <= i < messages.len() ==> message_bytes(#[trigger] messages[i]) <= usize::MAX
}

pub(crate) proof fn lemma_context_prefix(messages: Seq<MessageView>, i: int)
    requires
        0 <= i <= messages.len(),
    ensures
        context_tokens(messages.take(i)) <= context_tokens(messages),
    decreases messages.len(),
{
    if i < messages.len() {
        lemma_context_prefix(messages.drop_last(), i);
        assert(messages.drop_last().take(i) =~= messages.take(i));
    } else {
        assert(messages.take(i) =~= messages);
    }
}

/// The messages of the harness itself, copied.
pub(crate) fn system_messages(messages: &Vec<Message>) -> (r: Vec<Message>)
    ensures
        message_views(r@) == system_only(message_views(messages@)),
{
    let ghost all = message_views(messages@);
    let ghost keep = |m: MessageView| has_role(m, Role::System);
    let mut out: Vec<Message> = Vec::new();
    let mut i: usize = 0;
    assert(message_views(out@) =~= Seq::<MessageView>::empty());
    proof {
        reveal(Seq::filter);
    }
    while i < messages.len()
        invariant
            i <= messages.len(),
            all == message_views(messages@),
            keep == (|m: MessageView| has_role(m, Role::System)),
            message_views(out@) == all.take(i as int).filter(keep),
        decreases messages.len() - i,
    {
        proof {
            reveal(Seq::filter);
            assert(all.take(i + 1).drop_last() =~= all.take(i as int));
        }
        if messages[i].is_role(Role::System) {
            let ghost before = message_views(out@);
            let m = messages[i].clone();
            let ghost mv = m@;
            out.push(m);
            assert(message_views(out@) =~= before.push(mv));
        }
        i += 1;
    }
    assert(all.take(all.len() as int) =~= all);
    out
}

impl Session {
    /// A session that exists only in memory. Used when there is nowhere to
    /// persist to, and as the starting point for a persisted session.
    pub fn in_memory(id: &str, model: &str) -> (r: Self)
        ensures
            r@ == (SessionView {
                id: id@,
                model: model@,
                title: None,
                messages: Seq::empty(),
                usage: no_usage(),
                reported: None,
            }),
            r.path is None,
            r.persistence_error is None,
            r.pending@.len() == 0,
    {
        let r = Session {
            id: id.to_owned(),
            path: None,
            model: model.to_owned(),
            title: None,
            messages: Vec::new(),
            usage: Usage::default(),
            reported_tokens: None,
            persistence_error: None,
            pending: Vec::new(),
        };
        assert(r@.messages =~= Seq::<MessageView>::empty());
        r
    }

    /// Whether the usage of all lines together fits the counters.
    pub fn fits(path: &str, lines: &Vec<Option<TranscriptEntry>>) -> (r: bool)
        ensures
            r == lines_fit(unread(path@), line_views(lines@)),
    {
        let ghost start = unread(path@);
        let ghost all = line_views(lines@);
        let mut total = Usage::default();
        let mut i: usize = 0;
        while i < lines.len()
            invariant
                i <= lines.len(),
                all == line_views(lines@),
                start == unread(path@),
                total == replayed(start, all.take(i as int)).usage,
                forall|j: int|
                    0 <= j < i ==> match #[trigger] all[j] {
                        Some(e) => entry_fits(replayed(start, all.take(j)), e),
                        None => true,
                    },
            decreases lines.len() - i,
        {
            assert(all.take(i + 1).drop_last() =~= all.take(i as int));
            let ghost here = all[i as int];
            match &lines[i] {
                Some(TranscriptEntry::Usage { usage, .. }) => {
                    let fits = total.prompt_tokens <= u64::MAX - usage.prompt_tokens
                        && total.completion_tokens <= u64::MAX - usage.completion_tokens
                        && total.total_tokens <= u64::MAX - usage.total_tokens
                        && total.cached_tokens() <= u64::MAX - usage.cached_tokens();
                    if !fits {
                        return false;
                    }
                    total.add(usage);
                },
                _ => {},
            }
            i += 1;
        }
        true
    }

    /// Restore a session from the lines of its transcript. A truncated final
    /// line is the normal result of a crash mid-write: it is skipped, and the
    /// rest is kept.
    pub fn load(path: &str, lines: Vec<Option<TranscriptEntry>>) -> (r: Self)
        requires
            lines_fit(unread(path@), line_views(lines@)),
        ensures
            r@ == replayed(unread(path@), line_views(lines@)),
            text::opt_view(r.path) == Some(path@),
            r.persistence_error is None,
            r.pending@.len() == 0,
    {
        let id = match util::file_stem(path) {
            Some(s) => s,
            None => String::new(),
        };
        let mut session = Self::in_memory(&id, config::DEFAULT_MODEL);
        session.path = Some(path.to_owned());
        let ghost start = unread(path@);
        let ghost all = line_views(lines@);
        let mut rest = lines;
        let ghost n = rest@.len();
        assert(all.take(0) =~= Seq::<Option<EntryView>>::empty());
        assert(rest@ =~= lines@.skip(0));
        while rest.len() > 0
            invariant
                rest@ == lines@.skip(n - rest@.len()),
                rest@.len() <= n,
                n == lines@.len(),
                all == line_views(lines@),
                start == unread(path@),
                lines_fit(start, all),
                session@ == replayed(start, all.take(n - rest@.len())),
                text::opt_view(session.path) == Some(path@),
                session.persistence_error is None,
                session.pending@.len() == 0,
            decreases rest.len(),
        {
            let ghost i = n - rest@.len();
            let line = rest.remove(0);
            assert(rest@ =~= lines@.skip(i + 1));
            assert(all.take(i + 1).drop_last() =~= all.take(i));
            assert(line == lines@[i]);
            assert(all[i] == (match line {
                Some(e) => Some(e@),
                None => None::<EntryView>,
            }));
            match line {
                Some(entry) => session.apply(entry),
                None => {},
            }
        }
        assert(all.take(n as int) =~= all);
        session
    }

    fn apply(&mut self, entry: TranscriptEntry)
        requires
            entry_fits(old(self)@, entry@),
        ensures
            final(self)@ == applied(old(self)@, entry@),
            final(self).path == old(self).path,
            final(self).persistence_error == old(self).persistence_error,
            final(self).pending == old(self).pending,
    {
        match entry {
            TranscriptEntry::Meta { id, model, title, .. } => {
                self.id = id;
                self.model = model;
                if title.is_some() {
                    self.title = title;
                }
            },
            TranscriptEntry::Message { message, .. } => {
                self.messages.push(message);
                assert(self@.messages =~= old(self)@.messages.push(message@));
            },
            TranscriptEntry::Usage { usage, .. } => {
                self.count(&usage);
            },
            TranscriptEntry::Compaction { summary, .. } => {
                self.messages = system_messages(&self.messages);
                let ghost kept = self@.messages;
                self.messages.push(Message::user(&summary));
                self.reported_tokens = None;
                assert(self@.messages =~= kept.push(text_message(Role::User, summary@)));
            },
        }
    }

    /// Counts the usage of one API round trip.
    fn count(&mut self, usage: &Usage)
        requires
            usage_fits(old(self).usage, *usage),
        ensures
            final(self)@ == after_usage(old(self)@, *usage),
            final(self).path == old(self).path,
            final(self).persistence_error == old(self).persistence_error,
            final(self).pending == old(self).pending,
    {
        self.usage.add(usage);
        if usage.prompt_tokens > 0 {
            self.reported_tokens = Some(usage.prompt_tokens);
        }
    }

    /// Queue a record for the transcript, where there is one.
    fn persist(&mut self, entry: TranscriptEntry)
        ensures
            final(self)@ == old(self)@,
            final(self).path == old(self).path,
            final(self).persistence_error == old(self).persistence_error,
            entry_views(final(self).pending@) == (if old(self).path is Some {
                entry_views(old(self).pending@).push(entry@)
            } else {
                entry_views(old(self).pending@)
            }),
    {
        if self.path.is_some() {
            let ghost before = entry_views(self.pending@);
            self.pending.push(entry);
            assert(entry_views(self.pending@) =~= before.push(entry@));
        }
    }

    /// Hands out the records that are to be written, oldest first.
    pub fn take_pending(&mut self) -> (r: Vec<TranscriptEntry>)
        ensures
            r@ == old(self).pending@,
            final(self).pending@.len() == 0,
            final(self)@ == old(self)@,
            final(self).path == old(self).path,
            final(self).persistence_error == old(self).persistence_error,
    {
        let mut out: Vec<TranscriptEntry> = Vec::new();
        std::mem::swap(&mut out, &mut self.pending);
        out
    }

    /// Notes that a record could not be written. Only the first failure is
    /// kept: a failing disk fails on every write, and the user does not need to
    /// be told repeatedly.
    pub fn persist_failed(&mut self, error: &str)
        ensures
            final(self)@ == old(self)@,
            final(self).path == old(self).path,
            final(self).pending == old(self).pending,
            text::opt_view(final(self).persistence_error) == (if old(
                self,
            ).persistence_error is Some {
                text::opt_view(old(self).persistence_error)
            } else {
                Some(error@)
            }),
    {
        if self.persistence_error.is_none() {
            self.persistence_error = Some(error.to_owned());
        }
    }

    /// Add a message to the conversation and queue its record, which leaves out
    /// a reasoning trace.
    pub fn push(&mut self, message: Message)
        ensures
            final(self)@ == (SessionView {
                messages: old(self)@.messages.push(message@),
                ..old(self)@
            }),
            final(self).path == old(self).path,
            final(self).persistence_error == old(self).persistence_error,
            queued(*old(self), *final(self), |at: Seq<char>| EntryView::Message {
                at,
                message: outgoing(message@),
            }),
    {
        let at = util::now_rfc3339();
        let entry = TranscriptEntry::Message { at, message: message.to_send() };
        self.messages.push(message);
        assert(self@.messages =~= old(self)@.messages.push(message@));
        self.persist(entry);
        proof {
            lemma_queued(
                *old(self),
                *self,
                |at: Seq<char>| EntryView::Message { at, message: outgoing(message@) },
                at@,
            );
        }
    }

    /// Record usage from one API round trip.
    pub fn record_usage(&mut self, usage: &Usage)
        requires
            usage_fits(old(self).usage, *usage),
        ensures
            final(self)@ == after_usage(old(self)@, *usage),
            final(self).path == old(self).path,
            final(self).persistence_error == old(self).persistence_error,
            queued(*old(self), *final(self), |at: Seq<char>| EntryView::Usage { at, usage: *usage }),
    {
        self.count(usage);
        let at = util::now_rfc3339();
        let ghost atv = at@;
        self.persist(TranscriptEntry::Usage { at, usage: *usage });
        proof {
            lemma_queued(
                *old(self),
                *self,
                |at: Seq<char>| EntryView::Usage { at, usage: *usage },
                atv,
            );
        }
    }

    /// Record that the conversation was replaced with a compacted version. What
    /// the provider counted before says nothing of it.
    pub fn record_compaction(&mut self, summary: &str, dropped: usize)
        ensures
            final(self)@ == (SessionView { reported: None, ..old(self)@ }),
            final(self).path == old(self).path,
            final(self).persistence_error == old(self).persistence_error,
            queued(*old(self), *final(self), |at: Seq<char>| EntryView::Compaction {
                at,
                summary: summary@,
                dropped_messages: dropped,
            }),
    {
        self.reported_tokens = None;
        let at = util::now_rfc3339();
        let ghost atv = at@;
        self.persist(
            TranscriptEntry::Compaction {
                at,
                summary: summary.to_owned(),
                dropped_messages: dropped,
            },
        );
        proof {
            lemma_queued(
                *old(self),
                *self,
                |at: Seq<char>| EntryView::Compaction {
                    at,
                    summary: summary@,
                    dropped_messages: dropped,
                },
                atv,
            );
        }
    }

    pub fn set_title(&mut self, title: &str)
        ensures
            final(self)@ == (SessionView { title: Some(title@), ..old(self)@ }),
            final(self).path == old(self).path,
            final(self).persistence_error == old(self).persistence_error,
            queued(*old(self), *final(self), |at: Seq<char>| EntryView::Meta {
                at,
                id: old(self)@.id,
                workspace: Seq::empty(),
                model: old(self)@.model,
                title: Some(title@),
            }),
    {
        self.title = Some(title.to_owned());
        let at = util::now_rfc3339();
        let ghost atv = at@;
        let entry = TranscriptEntry::Meta {
            at,
            id: self.id.clone(),
            workspace: String::new(),
            model: self.model.clone(),
            title: Some(title.to_owned()),
        };
        assert(entry@->workspace =~= Seq::<char>::empty());
        self.persist(entry);
        proof {
            lemma_queued(
                *old(self),
                *self,
                |at: Seq<char>| EntryView::Meta {
                    at,
                    id: old(self)@.id,
                    workspace: Seq::empty(),
                    model: old(self)@.model,
                    title: Some(title@),
                },
                atv,
            );
        }
    }

    /// Drop everything except the system prompt.
    pub fn clear(&mut self)
        ensures
            final(self)@ == (SessionView {
                messages: system_only(old(self)@.messages),
                usage: no_usage(),
                reported: None,
                ..old(self)@
            }),
            final(self).path == old(self).path,
            final(self).persistence_error == old(self).persistence_error,
            final(self).pending == old(self).pending,
    {
        self.messages = system_messages(&self.messages);
        self.usage = Usage::default();
        self.reported_tokens = None;
    }

    /// Number of user-visible turns, for the status line.
    pub fn turn_count(&self) -> (r: usize)
        ensures
            r == self@.messages.filter(|m: MessageView| has_role(m, Role::User)).len(),
    {
        let ghost all = self@.messages;
        let ghost keep = |m: MessageView| has_role(m, Role::User);
        let mut n: usize = 0;
        let mut i: usize = 0;
        proof {
            reveal(Seq::filter);
        }
        while i < self.messages.len()
            invariant
                i <= self.messages.len(),
                n <= i,
                all == message_views(self.messages@),
                keep == (|m: MessageView| has_role(m, Role::User)),
                n == all.take(i as int).filter(keep).len(),
            decreases self.messages.len() - i,
        {
            proof {
                reveal(Seq::filter);
                assert(all.take(i + 1).drop_last() =~= all.take(i as int));
            }
            if self.messages[i].is_role(Role::User) {
                n += 1;
            }
            i += 1;
        }
        assert(all.take(all.len() as int) =~= all);
        n
    }

    /// Estimated tokens currently in context: the prompt tokens that were last
    /// reported, and a character estimate before the first response lands.
    pub fn estimated_context_tokens(&self) -> (r: u64)
        requires
            measurable(self@),
        ensures
            r == context_size(self@),
    {
        if let Some(n) = self.reported_tokens {
            return n;
        }
        let ghost all = self@.messages;
        let mut n: u64 = 0;
        let mut i: usize = 0;
        while i < self.messages.len()
            invariant
                i <= self.messages.len(),
                all == message_views(self.messages@),
                countable(all),
                n == context_tokens(all.take(i as int)),
            decreases self.messages.len() - i,
        {
            proof {
                lemma_context_prefix(all, i + 1);
                assert(all.take(i + 1).drop_last() =~= all.take(i as int));
                assert(message_bytes(all[i as int]) <= usize::MAX);
                assert(all[i as int] == self.messages@[i as int]@);
            }
            let bytes: usize = self.messages[i].char_len();
            let tokens: usize = if bytes % 4 == 0 {
                bytes / 4
            } else {
                bytes / 4 + 1
            };
            n = n + (tokens as u64 + 4);
            i += 1;
        }
        assert(all.take(all.len() as int) =~= all);
        n
    }
}

/// Whether a change queued the record that `entry` makes of some moment, or
/// none where there is no transcript.
pub open spec fn queued(
    before: Session,
    after: Session,
    entry: spec_fn(Seq<char>) -> EntryView,
) -> bool {
    if before.path is Some {
        exists|secs: u64|
            entry_views(after.pending@) == entry_views(before.pending@).push(
                entry(#[trigger] util::rfc3339(secs as nat)),
            )
    } else {
        entry_views(after.pending@) == entry_views(before.pending@)
    }
}

proof fn lemma_queued(
    before: Session,
    after: Session,
    entry: spec_fn(Seq<char>) -> EntryView,
    at: Seq<char>,
)
    requires
        exists|secs: u64| at == #[trigger] util::rfc3339(secs as nat),
        entry_views(after.pending@) == (if before.path is Some {
            entry_views(before.pending@).push(entry(at))
        } else {
            entry_views(before.pending@)
        }),
    ensures
        queued(before, after, entry),
{
    let secs = choose|secs: u64| at == #[trigger] util::rfc3339(secs as nat);
    assert(entry(at) == entry(util::rfc3339(secs as nat)));
}

/// What a resume reads is what the session held: a record that was queued for a
/// change, read behind those that lead to the session before it, leads to the
/// session after it. Reasoning traces alone are not kept.
pub proof fn law_resume_restores_the_session(
    start: SessionView,
    lines: Seq<Option<EntryView>>,
    at: Seq<char>,
    workspace: Seq<char>,
    message: MessageView,
    usage: Usage,
    title: Seq<char>,
)
    ensures
        ({
            let s = replayed(start, lines);
            &&& replayed(
                start,
                lines.push(Some(EntryView::Message { at, message: outgoing(message) })),
            ) == (SessionView { messages: s.messages.push(outgoing(message)), ..s })
            &&& replayed(start, lines.push(Some(EntryView::Usage { at, usage })))
                == after_usage(s, usage)
            &&& replayed(
                start,
                lines.push(
                    Some(
                        EntryView::Meta {
                            at,
                            id: s.id,
                            workspace,
                            model: s.model,
                            title: Some(title),
                        },
                    ),
                ),
            ) == (SessionView { title: Some(title), ..s })
        }),
{
    assert(lines.push(
        Some(EntryView::Message { at, message: outgoing(message) }),
    ).drop_last() =~= lines);
    assert(lines.push(Some(EntryView::Usage { at, usage })).drop_last() =~= lines);
    let meta = EntryView::Meta {
        at,
        id: replayed(start, lines).id,
        workspace,
        model: replayed(start, lines).model,
        title: Some(title),
    };
    assert(lines.push(Some(meta)).drop_last() =~= lines);
}

/// A change to a session that its transcript records.
pub enum Change {
    Message(MessageView),
    Usage(Usage),
    Title(Seq<char>),
}

/// A session after a change.
pub open spec fn after_change(s: SessionView, c: Change) -> SessionView {
    match c {
        Change::Message(m) => SessionView { messages: s.messages.push(m), ..s },
        Change::Usage(u) => after_usage(s, u),
        Change::Title(t) => SessionView { title: Some(t), ..s },
    }
}

/// The record of a change, made at a moment.
pub open spec fn record_of(s: SessionView, c: Change, at: Seq<char>) -> EntryView {
    match c {
        Change::Message(m) => EntryView::Message { at, message: outgoing(m) },
        Change::Usage(u) => EntryView::Usage { at, usage: u },
        Change::Title(t) => EntryView::Meta {
            at,
            id: s.id,
            workspace: Seq::empty(),
            model: s.model,
            title: Some(t),
        },
    }
}

/// A session after changes, the oldest first.
pub open spec fn after_changes(s: SessionView, changes: Seq<Change>) -> SessionView
    decreases changes.len(),
{
    if changes.len() == 0 {
        s
    } else {
        after_change(after_changes(s, changes.drop_last()), changes.last())
    }
}

/// The lines that changes add to a transcript, each made at its moment.
pub open spec fn lines_for(
    s: SessionView,
    changes: Seq<Change>,
    moments: Seq<Seq<char>>,
) -> Seq<Option<EntryView>>
    decreases changes.len(),
{
    if changes.len() == 0 {
        Seq::empty()
    } else {
        lines_for(s, changes.drop_last(), moments).push(
            Some(
                record_of(
                    after_changes(s, changes.drop_last()),
                    changes.last(),
                    moments[changes.len() - 1],
                ),
            ),
        )
    }
}

/// What a transcript keeps of a session: all but reasoning traces.
pub open spec fn kept(s: SessionView) -> SessionView {
    SessionView { messages: all_outgoing(s.messages), ..s }
}

/// A session that was created, changed and left is the one that is resumed:
/// reading what was written for it, from the first line to the last, leads to
/// where it was left, with its title, its usage and every message in order.
pub proof fn law_what_was_left_is_resumed(
    path: Seq<char>,
    created: SessionView,
    workspace: Seq<char>,
    at: Seq<char>,
    changes: Seq<Change>,
    moments: Seq<Seq<char>>,
)
    requires
        created.title is None,
        created.messages.len() == 0,
        created.usage == no_usage(),
        created.reported is None,
    ensures
        ({
            let meta = EntryView::Meta {
                at,
                id: created.id,
                workspace,
                model: created.model,
                title: None,
            };
            replayed(unread(path), seq![Some(meta)] + lines_for(created, changes, moments))
                == kept(after_changes(created, changes))
        }),
    decreases changes.len(),
{
    let meta = EntryView::Meta {
        at,
        id: created.id,
        workspace,
        model: created.model,
        title: None,
    };
    let lines = seq![Some(meta)] + lines_for(created, changes, moments);
    if changes.len() == 0 {
        assert(lines =~= seq![Some(meta)]);
        assert(lines.drop_last() =~= Seq::empty());
        assert(replayed(unread(path), lines.drop_last()) == unread(path));
        assert(all_outgoing(created.messages) =~= created.messages);
        assert(created.messages =~= Seq::empty());
    } else {
        law_what_was_left_is_resumed(path, created, workspace, at, changes.drop_last(), moments);
        let before = after_changes(created, changes.drop_last());
        assert(lines.drop_last() =~= seq![Some(meta)] + lines_for(
            created,
            changes.drop_last(),
            moments,
        ));
        assert(lines.last() == lines_for(created, changes, moments).last());
        match changes.last() {
            Change::Message(m) => {
                assert(all_outgoing(before.messages.push(m)) =~= all_outgoing(
                    before.messages,
                ).push(outgoing(m)));
            },
            _ => {},
        }
    }
}

/// A line that cannot be read costs that line and nothing else.
pub proof fn law_unreadable_lines_are_skipped(
    start: SessionView,
    before: Seq<Option<EntryView>>,
    after: Seq<Option<EntryView>>,
)
    ensures
        replayed(start, before + seq![None] + after) == replayed(start, before + after),
    decreases after.len(),
{
    if after.len() == 0 {
        assert(before + after =~= before);
        assert((before + seq![None] + after).drop_last() =~= before);
        assert((before + seq![None] + after).last() is None);
    } else {
        law_unreadable_lines_are_skipped(start, before, after.drop_last());
        assert((before + seq![None] + after).drop_last() =~= before + seq![None]
            + after.drop_last());
        assert((before + after).drop_last() =~= before + after.drop_last());
    }
}

/// What a clear leaves is the system prompt, and a clear of that changes
/// nothing.
pub proof fn law_clear_keeps_the_system_prompt(messages: Seq<MessageView>)
    ensures
        forall|i: int|
            0 <= i < system_only(messages).len() ==> has_role(
                #[trigger] system_only(messages)[i],
                Role::System,
            ),
        forall|m: MessageView|
            messages.contains(m) && has_role(m, Role::System) ==> #[trigger] system_only(
                messages,
            ).contains(m),
        system_only(system_only(messages)) == system_only(messages),
{
    let keep = |m: MessageView| has_role(m, Role::System);
    assert forall|i: int| 0 <= i < system_only(messages).len() implies has_role(
        #[trigger] system_only(messages)[i],
        Role::System,
    ) by {
        messages.lemma_filter_pred(keep, i);
    }
    assert forall|m: MessageView| messages.contains(m) && has_role(m, Role::System) implies
        #[trigger] system_only(messages).contains(m) by {
        let i = choose|i: int| 0 <= i < messages.len() && messages[i] == m;
        messages.lemma_filter_contains(keep, i);
    }
    lemma_all_system(system_only(messages));
}

proof fn lemma_all_system(messages: Seq<MessageView>)
    requires
        forall|i: int|
            0 <= i < messages.len() ==> has_role(#[trigger] messages[i], Role::System),
    ensures
        system_only(messages) == messages,
    decreases messages.len(),
{
    reveal(Seq::filter);
    if messages.len() > 0 {
        lemma_all_system(messages.drop_last());
        assert(has_role(messages[messages.len() - 1], Role::System));
        assert(messages.drop_last().push(messages.last()) =~= messages);
    }
}

/// What the provider reports replaces the estimate as soon as a response lands,
/// and messages that come in do not change it. Once the conversation is
/// compacted there is the estimate again.
pub proof fn law_reports_replace_the_estimate(
    s: SessionView,
    usage: Usage,
    message: MessageView,
    boundary: EntryView,
)
    requires
        boundary is Compaction,
    ensures
        usage.prompt_tokens > 0 ==> context_size(after_usage(s, usage)) == usage.prompt_tokens,
        s.reported is Some ==> context_size(after_change(s, Change::Message(message)))
            == context_size(s),
        context_size(applied(s, boundary)) == context_tokens(applied(s, boundary).messages),
{
}

/// The messages that the lines of a transcript hold.
pub open spec fn messages_in(lines: Seq<Option<EntryView>>) -> Seq<MessageView>
    decreases lines.len(),
{
    if lines.len() == 0 {
        Seq::empty()
    } else {
        let before = messages_in(lines.drop_last());
        match lines.last() {
            Some(EntryView::Message { message, .. }) => before.push(message),
            _ => before,
        }
    }
}

/// Everything before a compaction boundary is replaced by the summary: what is
/// resumed is the system messages, the summary and what came after it.
pub proof fn law_a_boundary_replaces_what_came_before(
    start: SessionView,
    before: Seq<Option<EntryView>>,
    at: Seq<char>,
    summary: Seq<char>,
    dropped: usize,
    after: Seq<Option<EntryView>>,
)
    requires
        forall|i: int|
            0 <= i < after.len() ==> !(#[trigger] after[i] matches Some(
                EntryView::Compaction { .. },
            )),
    ensures
        ({
            let boundary = EntryView::Compaction { at, summary, dropped_messages: dropped };
            replayed(start, before + seq![Some(boundary)] + after).messages == system_only(
                replayed(start, before).messages,
            ).push(text_message(Role::User, summary)) + messages_in(after)
        }),
    decreases after.len(),
{
    let boundary = EntryView::Compaction { at, summary, dropped_messages: dropped };
    let all = before + seq![Some(boundary)] + after;
    if after.len() == 0 {
        assert(all.drop_last() =~= before);
        assert(all.last() == Some(boundary));
    } else {
        let rest = after.drop_last();
        assert forall|i: int| 0 <= i < rest.len() implies !(#[trigger] rest[i] matches Some(
            EntryView::Compaction { .. },
        )) by {
            assert(rest[i] == after[i]);
        }
        law_a_boundary_replaces_what_came_before(start, before, at, summary, dropped, rest);
        assert(all.drop_last() =~= before + seq![Some(boundary)] + rest);
        assert(all.last() == after[after.len() - 1]);
    }
}

// ---------------------------------------------------------------------------
// The store
// ---------------------------------------------------------------------------

/// Summary of a stored session, for the resume picker.
#[derive(Debug)]
pub struct SessionSummary {
    pub id: String,
    pub path: String,
    pub title: Option<String>,
    pub model: String,
    pub started_at: String,
    pub message_count: usize,
    /// When the transcript was last written, in nanoseconds since the epoch.
    pub modified: i128,
}

/// A summary, as text.
pub struct SummaryView {
    pub id: Seq<char>,
    pub path: Seq<char>,
    pub title: Option<Seq<char>>,
    pub model: Seq<char>,
    pub started_at: Seq<char>,
    pub message_count: nat,
    pub modified: i128,
}

impl View for SessionSummary {
    type V = SummaryView;

    open spec fn view(&self) -> SummaryView {
        SummaryView {
            id: self.id@,
            path: self.path@,
            title: text::opt_view(self.title),
            model: self.model@,
            started_at: self.started_at@,
            message_count: self.message_count as nat,
            modified: self.modified,
        }
    }
}

impl Clone for SessionSummary {
    fn clone(&self) -> (r: Self)
        ensures
            r@ == self@,
    {
        SessionSummary {
            id: self.id.clone(),
            path: self.path.clone(),
            title: clone_text(&self.title),
            model: self.model.clone(),
            started_at: self.started_at.clone(),
            message_count: self.message_count,
            modified: self.modified,
        }
    }
}

/// The views of summaries.
pub open spec fn summary_views(list: Seq<SessionSummary>) -> Seq<SummaryView> {
    list.map_values(|s: SessionSummary| s@)
}

/// The start of an id that stands for it in a label.
pub open spec fn short_id(id: Seq<char>) -> Seq<char> {
    text::fitting(id, 8)
}

impl SessionSummary {
    /// Best available label: the title, else the start of the id.
    pub fn label(&self) -> (r: String)
        requires
            self.title is None ==> text::byte_count(short_id(self@.id)) == 8 || short_id(self@.id)
                == self@.id,
        ensures
            r@ == (match self@.title {
                Some(t) => t,
                None => "session "@ + short_id(self@.id),
            }),
    {
        match &self.title {
            Some(t) => t.clone(),
            None => {
                let mut s = "session ".to_owned();
                s.append(&text::fit(&self.id, 8));
                s
            },
        }
    }
}

/// A file in the directory of a store.
#[derive(Debug)]
pub struct StoredFile {
    pub path: String,
    /// When it was last written, in nanoseconds since the epoch; zero where the
    /// file system keeps no such time.
    pub modified: i128,
    /// Its lines. Absent where it could not be read.
    pub lines: Option<Vec<Option<TranscriptEntry>>>,
}

/// What is picked up from the lines of a transcript for its summary, beside the
/// text of the first message of the user.
pub open spec fn scanned(
    start: SummaryView,
    lines: Seq<Option<EntryView>>,
) -> (SummaryView, Option<Seq<char>>)
    decreases lines.len(),
{
    if lines.len() == 0 {
        (start, None)
    } else {
        let (s, first) = scanned(start, lines.drop_last());
        match lines.last() {
            Some(EntryView::Meta { at, id, model, title, .. }) => (
                SummaryView {
                    id,
                    model,
                    started_at: if s.started_at.len() == 0 {
                        at
                    } else {
                        s.started_at
                    },
                    title: if title is Some {
                        title
                    } else {
                        s.title
                    },
                    ..s
                },
                first,
            ),
            Some(EntryView::Message { message, .. }) => (
                SummaryView { message_count: s.message_count + 1, ..s },
                if first is None && has_role(message, Role::User) {
                    message.content
                } else {
                    first
                },
            ),
            _ => (s, first),
        }
    }
}

/// The first line of a text, cut to a title.
pub open spec fn opening(text: Seq<char>) -> Seq<char> {
    let lines = text::lines_of(text);
    util::truncated(
        if lines.len() > 0 {
            lines[0]
        } else {
            Seq::empty()
        },
        72,
    )
}

/// The summary of a transcript before any of its lines is read.
pub open spec fn blank_summary(path: Seq<char>, modified: i128) -> SummaryView {
    SummaryView {
        id: match util::stem_of(path) {
            Some(s) => s,
            None => Seq::empty(),
        },
        path,
        title: None,
        model: Seq::empty(),
        started_at: Seq::empty(),
        message_count: 0,
        modified,
    }
}

/// The summary of a stored session. There is none for a file that is no
/// transcript, cannot be read or holds no message.
pub open spec fn summarized(f: StoredFile) -> Option<SummaryView> {
    if util::extension_of(f.path@) != Some("jsonl"@) {
        None
    } else {
        match f.lines {
            None => None,
            Some(lines) => {
                let (s, first) = scanned(blank_summary(f.path@, f.modified), line_views(lines@));
                if s.message_count == 0 {
                    None
                } else {
                    match (s.title, first) {
                        (None, Some(t)) => Some(SummaryView { title: Some(opening(t)), ..s }),
                        _ => Some(s),
                    }
                }
            },
        }
    }
}

/// Summaries from the newest to the oldest, with one more put behind those that
/// are as new.
pub open spec fn placed(list: Seq<SummaryView>, s: SummaryView) -> Seq<SummaryView>
    decreases list.len(),
{
    if list.len() == 0 || list.last().modified >= s.modified {
        list.push(s)
    } else {
        placed(list.drop_last(), s).push(list.last())
    }
}

/// The stored sessions, newest first.
pub open spec fn listed(files: Seq<StoredFile>) -> Seq<SummaryView>
    decreases files.len(),
{
    if files.len() == 0 {
        Seq::empty()
    } else {
        match summarized(files.last()) {
            Some(s) => placed(listed(files.drop_last()), s),
            None => listed(files.drop_last()),
        }
    }
}

/// The first summary with an id, at or after `from`.
pub open spec fn first_with_id(list: Seq<SummaryView>, id: Seq<char>, from: int) -> Option<int>
    decreases list.len() - from,
{
    if from < 0 || from >= list.len() {
        None
    } else if list[from].id == id {
        Some(from)
    } else {
        first_with_id(list, id, from + 1)
    }
}

/// The summaries whose id begins with a text.
pub open spec fn with_prefix(list: Seq<SummaryView>, prefix: Seq<char>) -> Seq<SummaryView> {
    list.filter(|s: SummaryView| text::starts_with(s.id, prefix))
}

/// The session that an id, or the start of one, stands for. A start that fits
/// several stands for none.
pub open spec fn found_session(list: Seq<SummaryView>, id: Seq<char>) -> Option<SummaryView> {
    match first_with_id(list, id, 0) {
        Some(i) => Some(list[i]),
        None => if with_prefix(list, id).len() == 1 {
            Some(with_prefix(list, id)[0])
        } else {
            None
        },
    }
}

pub open spec fn opt_summary(s: Option<SessionSummary>) -> Option<SummaryView> {
    match s {
        Some(x) => Some(x@),
        None => None,
    }
}

/// Puts a summary behind those that are as new.
fn place(list: &mut Vec<SessionSummary>, s: SessionSummary)
    ensures
        summary_views(final(list)@) == placed(summary_views(old(list)@), s@),
{
    let ghost all = summary_views(list@);
    let ghost sv = s@;
    let mut j: usize = list.len();
    assert(all.take(j as int) =~= all);
    assert(placed(all.take(j as int), sv) + all.skip(j as int) =~= placed(all, sv));
    while j > 0 && list[j - 1].modified < s.modified
        invariant
            j <= list.len(),
            all == summary_views(list@),
            sv == s@,
            placed(all.take(j as int), sv) + all.skip(j as int) == placed(all, sv),
        decreases j,
    {
        proof {
            let t = all.take(j as int);
            assert(t.drop_last() =~= all.take(j - 1));
            assert(t.last() == all[j - 1]);
            assert(all[j - 1] == list@[j - 1]@);
            assert(placed(t, sv) == placed(all.take(j - 1), sv).push(all[j - 1]));
            assert(placed(all.take(j - 1), sv) + all.skip(j - 1) =~= placed(t, sv) + all.skip(
                j as int,
            ));
        }
        j -= 1;
    }
    proof {
        let t = all.take(j as int);
        if j > 0 {
            assert(t.last() == list@[j - 1]@);
        }
        assert(placed(t, sv) == t.push(sv));
        assert(all.insert(j as int, sv) =~= t.push(sv) + all.skip(j as int));
    }
    list.insert(j, s);
    assert(summary_views(list@) =~= all.insert(j as int, sv));
}

/// The summary of a stored session.
fn summarize(f: &StoredFile) -> (r: Option<SessionSummary>)
    ensures
        opt_summary(r) == summarized(*f),
{
    if !util::has_extension(&f.path, "jsonl") {
        return None;
    }
    let lines = match &f.lines {
        Some(l) => l,
        None => {
            return None;
        },
    };
    let ghost start = blank_summary(f.path@, f.modified);
    let ghost all = line_views(lines@);
    let mut s = SessionSummary {
        id: match util::file_stem(&f.path) {
            Some(x) => x,
            None => String::new(),
        },
        path: f.path.clone(),
        title: None,
        model: String::new(),
        started_at: String::new(),
        message_count: 0,
        modified: f.modified,
    };
    let mut first: Option<String> = None;
    let mut i: usize = 0;
    assert(s@.id =~= start.id);
    assert(s@.model =~= start.model);
    assert(s@.started_at =~= start.started_at);
    assert(all.take(0) =~= Seq::<Option<EntryView>>::empty());
    while i < lines.len()
        invariant
            i <= lines.len(),
            all == line_views(lines@),
            s.message_count <= i,
            scanned(start, all.take(i as int)) == (s@, text::opt_view(first)),
        decreases lines.len() - i,
    {
        assert(all.take(i + 1).drop_last() =~= all.take(i as int));
        let ghost here = all[i as int];
        match &lines[i] {
            Some(TranscriptEntry::Meta { at, id, model, title, .. }) => {
                s.id = id.clone();
                s.model = model.clone();
                if s.started_at.as_str().is_empty() {
                    s.started_at = at.clone();
                }
                if title.is_some() {
                    s.title = clone_text(title);
                }
            },
            Some(TranscriptEntry::Message { message, .. }) => {
                s.message_count += 1;
                if first.is_none() && message.is_role(Role::User) {
                    first = clone_text(&message.content);
                }
            },
            _ => {},
        }
        i += 1;
    }
    assert(all.take(all.len() as int) =~= all);
    if s.message_count == 0 {
        return None;
    }
    if s.title.is_none() {
        match &first {
            Some(t) => {
                let ls = text::lines(t);
                assert(text::views(ls@).len() == ls@.len());
                if ls.len() > 0 {
                    assert(text::views(ls@)[0] == ls@[0]@);
                    s.title = Some(util::truncate_text(&ls[0], 72));
                } else {
                    let none = String::new();
                    assert(none@ =~= Seq::<char>::empty());
                    s.title = Some(util::truncate_text(&none, 72));
                }
            },
            None => {},
        }
    }
    Some(s)
}

/// Where transcripts live for one workspace.
#[derive(Debug)]
pub struct SessionStore {
    pub root: String,
}

impl SessionStore {
    pub fn new(root: &str) -> (r: Self)
        ensures
            r.root@ == root@,
    {
        SessionStore { root: root.to_owned() }
    }

    /// The default store for `workspace`, under the user's home directory.
    /// `None` when there is no home directory to write to.
    pub fn for_workspace(home: Option<&str>, workspace: &str) -> (r: Option<Self>)
        ensures
            match home {
                Some(h) => r matches Some(s) && s.root@ == config::sessions_path(h@, workspace@),
                None => r is None,
            },
    {
        match config::sessions_dir(home, workspace) {
            Some(root) => Some(SessionStore { root }),
            None => None,
        }
    }

    pub fn root(&self) -> (r: &str)
        ensures
            r@ == self.root@,
    {
        self.root.as_str()
    }

    /// Start a new session and begin its transcript, given whether its directory
    /// is there.
    ///
    /// Failure is recorded on the session rather than returned: losing the
    /// ability to resume later is not a reason to refuse to run now.
    pub fn create(
        &self,
        id: &str,
        workspace: &str,
        model: &str,
        directory: Result<(), String>,
    ) -> (r: Session)
        ensures
            r@ == (SessionView {
                id: id@,
                model: model@,
                title: None,
                messages: Seq::empty(),
                usage: no_usage(),
                reported: None,
            }),
            match directory {
                Err(e) => {
                    &&& r.path is None
                    &&& r.pending@.len() == 0
                    &&& text::opt_view(r.persistence_error) == Some(
                        "cannot create "@ + self.root@ + ": "@ + e@,
                    )
                },
                Ok(_) => {
                    &&& text::opt_view(r.path) == Some(util::below(self.root@, id@ + ".jsonl"@))
                    &&& r.persistence_error is None
                    &&& exists|secs: u64|
                        entry_views(r.pending@) == seq![
                            EntryView::Meta {
                                at: #[trigger] util::rfc3339(secs as nat),
                                id: id@,
                                workspace: workspace@,
                                model: model@,
                                title: None,
                            },
                        ]
                },
            },
    {
        let mut session = Session::in_memory(id, model);
        match directory {
            Err(e) => {
                let mut m = "cannot create ".to_owned();
                m.append(&self.root);
                m.append(": ");
                m.append(&e);
                session.persistence_error = Some(m);
            },
            Ok(_) => {
                let mut name = id.to_owned();
                name.append(".jsonl");
                session.path = Some(util::join_path(&self.root, &name));
                let at = util::now_rfc3339();
                let ghost secs = choose|secs: u64| at@ == #[trigger] util::rfc3339(secs as nat);
                session.persist(
                    TranscriptEntry::Meta {
                        at,
                        id: id.to_owned(),
                        workspace: workspace.to_owned(),
                        model: model.to_owned(),
                        title: None,
                    },
                );
                assert(entry_views(session.pending@) =~= seq![
                    EntryView::Meta {
                        at: util::rfc3339(secs as nat),
                        id: id@,
                        workspace: workspace@,
                        model: model@,
                        title: None,
                    },
                ]);
            },
        }
        session
    }

    /// Stored sessions, newest first. Sessions with no messages are omitted:
    /// they are aborted starts and offering them to resume is noise.
    pub fn list(&self, files: &Vec<StoredFile>) -> (r: Vec<SessionSummary>)
        ensures
            summary_views(r@) == listed(files@),
    {
        let mut out: Vec<SessionSummary> = Vec::new();
        let mut i: usize = 0;
        assert(summary_views(out@) =~= Seq::<SummaryView>::empty());
        while i < files.len()
            invariant
                i <= files.len(),
                summary_views(out@) == listed(files@.take(i as int)),
            decreases files.len() - i,
        {
            assert(files@.take(i + 1).drop_last() =~= files@.take(i as int));
            match summarize(&files[i]) {
                Some(s) => place(&mut out, s),
                None => {},
            }
            i += 1;
        }
        assert(files@.take(files@.len() as int) =~= files@);
        out
    }

    /// The most recent session.
    pub fn most_recent(&self, files: &Vec<StoredFile>) -> (r: Option<SessionSummary>)
        ensures
            opt_summary(r) == (if listed(files@).len() > 0 {
                Some(listed(files@)[0])
            } else {
                None
            }),
    {
        let all = self.list(files);
        assert(summary_views(all@).len() == all@.len());
        if all.len() > 0 {
            assert(summary_views(all@)[0] == all@[0]@);
            Some(all[0].clone())
        } else {
            None
        }
    }

    /// Find a session by id, or by an unambiguous id prefix. An ambiguous prefix
    /// resolves to nothing rather than to an arbitrary one.
    pub fn find(&self, files: &Vec<StoredFile>, id_or_prefix: &str) -> (r: Option<SessionSummary>)
        ensures
            opt_summary(r) == found_session(listed(files@), id_or_prefix@),
    {
        let all = self.list(files);
        let ghost views = summary_views(all@);
        let mut i: usize = 0;
        while i < all.len()
            invariant
                i <= all.len(),
                views == summary_views(all@),
                views == listed(files@),
                first_with_id(views, id_or_prefix@, 0) == first_with_id(
                    views,
                    id_or_prefix@,
                    i as int,
                ),
            decreases all.len() - i,
        {
            assert(views[i as int] == all@[i as int]@);
            if text::same(&all[i].id, id_or_prefix) {
                return Some(all[i].clone());
            }
            i += 1;
        }
        let ghost keep = |s: SummaryView| text::starts_with(s.id, id_or_prefix@);
        let mut hits: usize = 0;
        let mut hit: Option<SessionSummary> = None;
        let mut k: usize = 0;
        proof {
            reveal(Seq::filter);
        }
        while k < all.len()
            invariant
                k <= all.len(),
                hits <= k,
                views == summary_views(all@),
                keep == (|s: SummaryView| text::starts_with(s.id, id_or_prefix@)),
                hits == views.take(k as int).filter(keep).len(),
                hits >= 1 ==> opt_summary(hit) == Some(views.take(k as int).filter(keep)[0]),
            decreases all.len() - k,
        {
            proof {
                reveal(Seq::filter);
                assert(views.take(k + 1).drop_last() =~= views.take(k as int));
                assert(views[k as int] == all@[k as int]@);
            }
            if text::begins(&all[k].id, id_or_prefix) {
                if hits == 0 {
                    hit = Some(all[k].clone());
                }
                hits += 1;
            }
            k += 1;
        }
        assert(views.take(views.len() as int) =~= views);
        if hits == 1 {
            hit
        } else {
            None
        }
    }
}

proof fn lemma_placed(list: Seq<SummaryView>, s: SummaryView)
    ensures
        placed(list, s).len() == list.len() + 1,
        forall|x: SummaryView| #[trigger]
            placed(list, s).contains(x) <==> list.contains(x) || x == s,
        is_newest_first(list) ==> is_newest_first(placed(list, s)),
        list.len() > 0 ==> placed(list, s).last() == list.last() || placed(list, s).last() == s,
        list.len() == 0 ==> placed(list, s).last() == s,
    decreases list.len(),
{
    let p = placed(list, s);
    if list.len() == 0 || list.last().modified >= s.modified {
        assert forall|x: SummaryView| #[trigger] p.contains(x) <==> list.contains(x) || x == s by {
            if list.contains(x) {
                let i = choose|i: int| 0 <= i < list.len() && list[i] == x;
                assert(p[i] == x);
            }
            if x == s {
                assert(p[list.len() as int] == x);
            }
        }
    } else {
        let l = list.drop_last();
        let q = placed(l, s);
        lemma_placed(l, s);
        assert forall|x: SummaryView| #[trigger] p.contains(x) <==> list.contains(x) || x == s by {
            if list.contains(x) {
                let i = choose|i: int| 0 <= i < list.len() && list[i] == x;
                if i < l.len() {
                    assert(l[i] == x);
                    assert(q.contains(x));
                    let j = choose|j: int| 0 <= j < q.len() && q[j] == x;
                    assert(p[j] == x);
                } else {
                    assert(p[q.len() as int] == x);
                }
            }
            if x == s {
                assert(q.contains(x));
                let j = choose|j: int| 0 <= j < q.len() && q[j] == x;
                assert(p[j] == x);
            }
            if p.contains(x) {
                let j = choose|j: int| 0 <= j < p.len() && p[j] == x;
                if j < q.len() {
                    assert(q.contains(x));
                    if x != s {
                        let i = choose|i: int| 0 <= i < l.len() && l[i] == x;
                        assert(list[i] == x);
                    }
                } else {
                    assert(list[list.len() - 1] == x);
                }
            }
        }
        if is_newest_first(list) {
            assert forall|i: int, j: int| 0 <= i <= j < l.len() implies l[i].modified
                >= l[j].modified by {
                assert(list[i].modified >= list[j].modified);
            }
            assert(is_newest_first(q));
            assert forall|i: int, j: int| 0 <= i <= j < p.len() implies p[i].modified
                >= p[j].modified by {
                if j < q.len() {
                    assert(q[i].modified >= q[j].modified);
                } else if i < q.len() {
                    assert(q[i].modified >= q[q.len() - 1].modified);
                    if l.len() > 0 {
                        assert(list[l.len() - 1].modified >= list[l.len() as int].modified);
                    }
                }
            }
        }
    }
}

/// From the newest to the oldest.
pub open spec fn is_newest_first(list: Seq<SummaryView>) -> bool {
    forall|i: int, j: int| 0 <= i <= j < list.len() ==> list[i].modified >= list[j].modified
}

/// Stored sessions are listed from the newest to the oldest, each one that has a
/// summary and no other.
pub proof fn law_sessions_are_listed_newest_first(files: Seq<StoredFile>)
    ensures
        is_newest_first(listed(files)),
        forall|s: SummaryView| #[trigger]
            listed(files).contains(s) <==> exists|i: int|
                0 <= i < files.len() && summarized(#[trigger] files[i]) == Some(s),
    decreases files.len(),
{
    if files.len() > 0 {
        let l = files.drop_last();
        law_sessions_are_listed_newest_first(l);
        if summarized(files.last()) is Some {
            lemma_placed(listed(l), summarized(files.last())->0);
        }
        assert forall|s: SummaryView| #[trigger]
            listed(files).contains(s) <==> exists|i: int|
                0 <= i < files.len() && summarized(#[trigger] files[i]) == Some(s) by {
            if listed(l).contains(s) {
                let i = choose|i: int| 0 <= i < l.len() && summarized(#[trigger] l[i]) == Some(s);
                assert(files[i] == l[i]);
            }
            if exists|i: int| 0 <= i < files.len() && summarized(#[trigger] files[i]) == Some(s) {
                let i = choose|i: int|
                    0 <= i < files.len() && summarized(#[trigger] files[i]) == Some(s);
                if i < l.len() {
                    assert(l[i] == files[i]);
                    assert(listed(l).contains(s));
                }
            }
        }
    }
}

/// No session without messages is offered for a resume.
pub proof fn law_empty_sessions_are_not_offered(f: StoredFile)
    ensures
        summarized(f) matches Some(s) ==> s.message_count > 0,
{
}

proof fn lemma_first_with_id(list: Seq<SummaryView>, id: Seq<char>, from: int)
    requires
        0 <= from,
    ensures
        match first_with_id(list, id, from) {
            Some(i) => from <= i < list.len() && list[i].id == id,
            None => forall|j: int| from <= j < list.len() ==> (#[trigger] list[j]).id != id,
        },
    decreases list.len() - from,
{
    if from < list.len() && list[from].id != id {
        lemma_first_with_id(list, id, from + 1);
    }
}

/// An id always finds a session of that id, and what a prefix finds is the only
/// session whose id begins so.
pub proof fn law_prefixes_are_never_ambiguous(list: Seq<SummaryView>, id: Seq<char>)
    ensures
        (exists|i: int| 0 <= i < list.len() && (#[trigger] list[i]).id == id) ==> (found_session(
            list,
            id,
        ) matches Some(s) && s.id == id),
        found_session(list, id) matches Some(s) ==> list.contains(s) && text::starts_with(s.id, id)
            && (s.id == id || forall|j: int|
            0 <= j < list.len() && text::starts_with((#[trigger] list[j]).id, id) ==> list[j]
                == s),
{
    lemma_first_with_id(list, id, 0);
    let keep = |s: SummaryView| text::starts_with(s.id, id);
    match found_session(list, id) {
        Some(s) => {
            if s.id == id {
                assert(s.id.take(id.len() as int) =~= id);
            }
            match first_with_id(list, id, 0) {
                Some(i) => {
                    assert(list[i] == s);
                },
                None => {
                    let w = with_prefix(list, id);
                    assert(w[0] == s);
                    list.lemma_filter_pred(keep, 0);
                    assert(keep(w[0]));
                    list.lemma_filter_contains_rev(keep, s);
                    assert forall|j: int|
                        0 <= j < list.len() && text::starts_with(
                            (#[trigger] list[j]).id,
                            id,
                        ) implies list[j] == s by {
                        list.lemma_filter_contains(keep, j);
                        let k = choose|k: int| 0 <= k < w.len() && w[k] == list[j];
                        assert(k == 0);
                    }
                },
            }
        },
        None => {},
    }
}

} // verus!
