//! Deciding whether a tool call is allowed to run.
//!
//! Every tool call passes through [`PermissionEngine::evaluate`] before it
//! executes. The decision comes from these inputs, checked in this order:
//!
//! 1. **deny rules**: an explicit veto, never overridable, not even by
//!    `bypassPermissions`. A shell command is matched whole *and* per segment.
//! 2. **plan mode**: refuses everything that mutates.
//! 3. **allow rules and session grants**: "yes, and stop asking".
//! 4. **ask rules**: "always check with me".
//! 5. **the mode's default for the tool's kind**.
//!
//! A rule is `Tool(pattern)`, or bare `Tool` to match every call to it. The
//! suffix `:*` makes a prefix match on a command. Everything else is a glob
//! against the call's primary argument.
use std::sync::Arc;
use std::sync::atomic::AtomicU8;
use vstd::prelude::*;
use vstd::string::StringExecFns;
use crate::config::{Config, PermissionMode, PermissionRules};
use crate::matching::{glob_is_match, glob_is_valid, glob_matches, glob_valid, lowercase, to_lower};
use crate::text;
use crate::tools::ToolKind;

verus! {

// ---------------------------------------------------------------------------
// Decisions
// ---------------------------------------------------------------------------

/// What the engine decided about one tool call.
#[derive(Debug, Clone, PartialEq, Eq)]
pub enum Decision {
    /// Run it without bothering the user.
    Allow { reason: AllowReason },
    /// Ask the user.
    Ask,
    /// Refuse. `reason` is returned to the model as the tool result so it can
    /// choose a different approach rather than retrying blindly.
    Deny { reason: String },
}

#[derive(Debug, Clone, Copy, PartialEq, Eq, Structural)]
pub enum AllowReason {
    /// Matched an `allow` rule from config.
    Rule,
    /// The user chose "always allow" earlier in this session.
    SessionGrant,
    /// The permission mode allows this class without asking.
    Mode,
    /// Read-only or harness-internal; never needs approval.
    Harmless,
}

/// A decision, with its reason as text.
pub enum DecisionView {
    Allow(AllowReason),
    Ask,
    Deny(Seq<char>),
}

impl View for Decision {
    type V = DecisionView;

    open spec fn view(&self) -> DecisionView {
        match self {
            Decision::Allow { reason } => DecisionView::Allow(*reason),
            Decision::Ask => DecisionView::Ask,
            Decision::Deny { reason } => DecisionView::Deny(reason@),
        }
    }
}

impl Decision {
    pub fn is_allow(&self) -> (r: bool)
        ensures
            r == (self is Allow),
    {
        matches!(self, Decision::Allow { .. })
    }
}

// ---------------------------------------------------------------------------
// Rules
// ---------------------------------------------------------------------------

/// One parsed `Tool(pattern)` rule.
#[derive(Debug, Clone)]
pub struct RulePattern {
    pub tool: String,
    /// `None` means "any argument".
    pub matcher: Option<ArgMatcher>,
    /// Kept for diagnostics so a denial can quote the rule that caused it.
    pub source: String,
}

#[derive(Debug, Clone)]
pub enum ArgMatcher {
    /// `cmd:*`: the argument must start with `cmd`.
    Prefix(String),
    /// Anything else: a glob against the argument.
    Glob(String),
    /// A literal with no wildcards.
    Exact(String),
}

/// Which arguments a rule is about.
pub enum MatcherView {
    Any,
    Prefix(Seq<char>),
    Glob(Seq<char>),
    Exact(Seq<char>),
}

/// A rule, as text.
pub struct RuleView {
    pub tool: Seq<char>,
    pub matcher: MatcherView,
    pub source: Seq<char>,
}

pub open spec fn matcher_view(m: Option<ArgMatcher>) -> MatcherView {
    match m {
        None => MatcherView::Any,
        Some(ArgMatcher::Prefix(p)) => MatcherView::Prefix(p@),
        Some(ArgMatcher::Glob(p)) => MatcherView::Glob(p@),
        Some(ArgMatcher::Exact(p)) => MatcherView::Exact(p@),
    }
}

impl View for RulePattern {
    type V = RuleView;

    open spec fn view(&self) -> RuleView {
        RuleView {
            tool: self.tool@,
            matcher: matcher_view(self.matcher),
            source: self.source@,
        }
    }
}

/// `s` without any number of copies of `pat` at its end.
pub open spec fn without_suffixes(s: Seq<char>, pat: Seq<char>) -> Seq<char>
    decreases s.len(),
{
    if pat.len() > 0 && text::ends_with(s, pat) {
        without_suffixes(s.take(s.len() - pat.len()), pat)
    } else {
        s
    }
}

fn strip_suffixes(s: &str, pat: &str) -> (r: String)
    requires
        pat@.len() > 0,
    ensures
        r@ == without_suffixes(s@, pat@),
{
    let mut cur = s.to_owned();
    loop
        invariant
            pat@.len() > 0,
            without_suffixes(cur@, pat@) == without_suffixes(s@, pat@),
        decreases cur@.len(),
    {
        match text::strip_suffix(&cur, pat) {
            Some(shorter) => {
                cur = shorter;
            },
            None => {
                return cur;
            },
        }
    }
}

/// Whether a pattern has a wildcard of a glob.
pub open spec fn has_wildcard(p: Seq<char>) -> bool {
    p.contains('*') || p.contains('?') || p.contains('[')
}

fn contains_wildcard(p: &str) -> (r: bool)
    ensures
        r == has_wildcard(p@),
{
    let v = text::chars_of(p);
    let mut i: usize = 0;
    while i < v.len()
        invariant
            i <= v.len(),
            v@ == p@,
            forall|k: int| 0 <= k < i ==> v@[k] != '*' && v@[k] != '?' && v@[k] != '[',
        decreases v.len() - i,
    {
        if v[i] == '*' || v[i] == '?' || v[i] == '[' {
            proof {
                assert(p@[i as int] == v@[i as int]);
            }
            return true;
        }
        i += 1;
    }
    false
}

/// The matcher that the text between the brackets stands for. `None` where the
/// text is a malformed glob.
pub open spec fn parsed_matcher(p: Seq<char>) -> Option<MatcherView> {
    if p == "*"@ || p.len() == 0 {
        Some(MatcherView::Any)
    } else if text::ends_with(p, ":*"@) {
        Some(MatcherView::Prefix(without_suffixes(p, ":*"@)))
    } else if has_wildcard(p) {
        if glob_valid(p) {
            Some(MatcherView::Glob(p))
        } else {
            None
        }
    } else {
        Some(MatcherView::Exact(p))
    }
}

/// The rule that a text stands for.
pub open spec fn parsed_rule(raw: Seq<char>) -> Option<RuleView> {
    let s = text::trimmed(raw);
    match text::cut_once(s, "("@) {
        None => if s.len() == 0 {
            None
        } else {
            Some(RuleView { tool: s, matcher: MatcherView::Any, source: s })
        },
        Some((before, after)) => {
            let tool = text::trimmed(before);
            match text::stripped_suffix(after, ")"@) {
                None => None,
                Some(inner) => if tool.len() == 0 {
                    None
                } else {
                    match parsed_matcher(text::trimmed(inner)) {
                        None => None,
                        Some(matcher) => Some(RuleView { tool, matcher, source: s }),
                    }
                },
            }
        },
    }
}

/// The short display alias of a tool, matching what the transcript shows.
pub open spec fn alias(tool: Seq<char>) -> Option<Seq<char>> {
    if tool == "read_file"@ {
        Some("Read"@)
    } else if tool == "write_file"@ {
        Some("Write"@)
    } else if tool == "edit_file"@ {
        Some("Edit"@)
    } else if tool == "list_files"@ {
        Some("List"@)
    } else if tool == "glob"@ {
        Some("Glob"@)
    } else if tool == "grep"@ {
        Some("Grep"@)
    } else if tool == "bash"@ {
        Some("Bash"@)
    } else if tool == "bash_output"@ {
        Some("BashOutput"@)
    } else if tool == "kill_shell"@ {
        Some("KillShell"@)
    } else if tool == "todo_write"@ {
        Some("TodoWrite"@)
    } else if tool == "web_fetch"@ {
        Some("WebFetch"@)
    } else {
        None
    }
}

/// A tool's name in lower case and without underscores.
pub open spec fn squashed(name: Seq<char>) -> Seq<char> {
    text::replaced(lowercase(name), "_"@, ""@)
}

/// Whether a rule is about a tool. Case and underscores do not count, and the
/// display alias is as good as the name.
pub open spec fn names_tool(rule: Seq<char>, tool: Seq<char>) -> bool {
    squashed(rule) == squashed(tool) || (alias(tool) matches Some(a) && squashed(rule) == lowercase(
        a,
    ))
}

/// Whether a matcher accepts an argument.
pub open spec fn accepts(m: MatcherView, argument: Seq<char>) -> bool {
    match m {
        MatcherView::Any => true,
        MatcherView::Prefix(p) => text::starts_with(text::trimmed_start(argument), p),
        MatcherView::Exact(p) => text::trimmed(argument) == p,
        MatcherView::Glob(p) => glob_matches(p, argument),
    }
}

/// Whether a rule covers a call.
pub open spec fn covers(rule: RuleView, tool: Seq<char>, argument: Seq<char>) -> bool {
    names_tool(rule.tool, tool) && accepts(rule.matcher, argument)
}

fn display_alias(tool_name: &str) -> (r: Option<&'static str>)
    ensures
        match r {
            Some(a) => alias(tool_name@) == Some(a@),
            None => alias(tool_name@) is None,
        },
{
    if text::same(tool_name, "read_file") {
        Some("Read")
    } else if text::same(tool_name, "write_file") {
        Some("Write")
    } else if text::same(tool_name, "edit_file") {
        Some("Edit")
    } else if text::same(tool_name, "list_files") {
        Some("List")
    } else if text::same(tool_name, "glob") {
        Some("Glob")
    } else if text::same(tool_name, "grep") {
        Some("Grep")
    } else if text::same(tool_name, "bash") {
        Some("Bash")
    } else if text::same(tool_name, "bash_output") {
        Some("BashOutput")
    } else if text::same(tool_name, "kill_shell") {
        Some("KillShell")
    } else if text::same(tool_name, "todo_write") {
        Some("TodoWrite")
    } else if text::same(tool_name, "web_fetch") {
        Some("WebFetch")
    } else {
        None
    }
}

fn squash(name: &str) -> (r: String)
    ensures
        r@ == squashed(name@),
{
    proof {
        reveal_strlit("_");
    }
    text::replace(&to_lower(name), "_", "")
}

impl RulePattern {
    /// Parse `Tool(pattern)` or bare `Tool`.
    ///
    /// A text that is no rule gives `None`; [`PermissionEngine::new`] reports
    /// it, so a broken guardrail is never silent.
    pub fn parse(raw: &str) -> (r: Option<Self>)
        ensures
            match r {
                Some(p) => parsed_rule(raw@) == Some(p@),
                None => parsed_rule(raw@) is None,
            },
    {
        let s = text::trim(raw);
        match text::split_once(&s, "(") {
            None => {
                if s.as_str().is_empty() {
                    return None;
                }
                Some(RulePattern { tool: s.clone(), matcher: None, source: s })
            },
            Some((before, after)) => {
                let tool = text::trim(&before);
                let inner = match text::strip_suffix(&after, ")") {
                    Some(inner) => text::trim(&inner),
                    None => {
                        return None;
                    },
                };
                if tool.as_str().is_empty() {
                    return None;
                }
                proof {
                    reveal_strlit(":*");
                }
                let matcher = if text::same(&inner, "*") || inner.as_str().is_empty() {
                    None
                } else if text::ends(&inner, ":*") {
                    Some(ArgMatcher::Prefix(strip_suffixes(&inner, ":*")))
                } else if contains_wildcard(&inner) {
                    if !glob_is_valid(&inner) {
                        return None;
                    }
                    Some(ArgMatcher::Glob(inner))
                } else {
                    Some(ArgMatcher::Exact(inner))
                };
                Some(RulePattern { tool, matcher, source: s })
            },
        }
    }

    /// Tool names are matched case-insensitively, and both the wire name
    /// (`read_file`) and the display name (`Read`) are accepted, because users
    /// write whichever they saw in the UI.
    fn tool_matches(&self, tool_name: &str) -> (r: bool)
        ensures
            r == names_tool(self.tool@, tool_name@),
    {
        let a = squash(&self.tool);
        if text::same(&a, &squash(tool_name)) {
            return true;
        }
        match display_alias(tool_name) {
            Some(alias) => text::same(&a, &to_lower(alias)),
            None => false,
        }
    }

    pub fn matches(&self, tool_name: &str, argument: &str) -> (r: bool)
        ensures
            r == covers(self@, tool_name@, argument@),
    {
        if !self.tool_matches(tool_name) {
            return false;
        }
        match &self.matcher {
            None => true,
            Some(ArgMatcher::Prefix(p)) => text::begins(&text::trim_start(argument), p),
            Some(ArgMatcher::Exact(p)) => text::same(&text::trim(argument), p),
            Some(ArgMatcher::Glob(p)) => glob_is_match(p, argument),
        }
    }

    pub fn source(&self) -> (r: &str)
        ensures
            r@ == self@.source,
    {
        &self.source
    }
}


// ---------------------------------------------------------------------------
// Shell commands
// ---------------------------------------------------------------------------

/// The operators that chain, redirect or substitute one command into another.
pub open spec fn shell_operators() -> Seq<Seq<char>> {
    seq!["&&"@, "||"@, ";"@, "|"@, "\n"@, "$("@, "`"@, "&"@]
}

/// Whether a command runs more than one thing: one of the operators stands in it.
pub open spec fn compound(command: Seq<char>) -> bool {
    exists|k: int|
        0 <= k < shell_operators().len() && text::contains(command, #[trigger] shell_operators()[k])
}

/// The length of the break that a command has at position `i`: `&&` and `||`
/// are one break, as is `$(`. Zero where there is none.
pub open spec fn break_len(s: Seq<char>, i: int) -> int {
    let c = s[i];
    let doubled = i + 1 < s.len() && s[i + 1] == c;
    if c == '|' || c == '&' {
        if doubled {
            2
        } else {
            1
        }
    } else if c == ';' || c == '\n' || c == '`' {
        1
    } else if c == '$' && i + 1 < s.len() && s[i + 1] == '(' {
        2
    } else {
        0
    }
}

/// The parts of a command from position `i` on, between its breaks.
pub open spec fn parts_from(s: Seq<char>, i: int) -> Seq<Seq<char>>
    decreases s.len() - i,
{
    if i < 0 || i >= s.len() {
        seq![Seq::empty()]
    } else if break_len(s, i) > 0 {
        seq![Seq::<char>::empty()] + parts_from(s, i + break_len(s, i))
    } else {
        let rest = parts_from(s, i + 1);
        seq![seq![s[i]] + rest[0]] + rest.skip(1)
    }
}

/// The texts trimmed, without the empty ones.
pub open spec fn nonempty_trimmed(parts: Seq<Seq<char>>) -> Seq<Seq<char>> {
    parts.map_values(|p: Seq<char>| text::trimmed(p)).filter(|p: Seq<char>| p.len() > 0)
}

/// The commands that a shell command would run, one after the other.
pub open spec fn segments_of(command: Seq<char>) -> Seq<Seq<char>> {
    nonempty_trimmed(parts_from(command, 0))
}

/// Whether `command` runs more than one thing.
///
/// A session grant fingerprints a command by its first two words. Without this
/// check, approving `npm install` once would also approve
/// `npm install && rm -rf /`.
pub fn is_compound_command(command: &str) -> (r: bool)
    ensures
        r == compound(command@),
{
    let ghost ops = shell_operators();
    let r = text::has(command, "&&") || text::has(command, "||") || text::has(command, ";")
        || text::has(command, "|") || text::has(command, "\n") || text::has(command, "$(")
        || text::has(command, "`") || text::has(command, "&");
    proof {
        assert(ops[0] == "&&"@ && ops[1] == "||"@ && ops[2] == ";"@ && ops[3] == "|"@);
        assert(ops[4] == "\n"@ && ops[5] == "$("@ && ops[6] == "`"@ && ops[7] == "&"@);
    }
    r
}

proof fn lemma_parts_nonempty(s: Seq<char>, i: int)
    ensures
        parts_from(s, i).len() >= 1,
    decreases s.len() - i,
{
    if 0 <= i < s.len() {
        if break_len(s, i) > 0 {
            lemma_parts_nonempty(s, i + break_len(s, i));
        } else {
            lemma_parts_nonempty(s, i + 1);
        }
    }
}

/// The parts of a command between its breaks.
fn split_command(command: &str) -> (r: Vec<String>)
    ensures
        text::views(r@) == parts_from(command@, 0),
{
    let v = text::chars_of(command);
    let mut out: Vec<String> = Vec::new();
    let mut cur = String::new();
    let mut i: usize = 0;
    let ghost whole = parts_from(v@, 0);
    proof {
        lemma_parts_nonempty(v@, 0);
        assert(text::views(out@) + (seq![cur@ + whole[0]] + whole.skip(1)) =~= whole) by {
            assert(cur@ + whole[0] =~= whole[0]);
        }
    }
    while i < v.len()
        invariant
            i <= v.len(),
            v@ == command@,
            whole == parts_from(v@, 0),
            text::views(out@) + (seq![cur@ + parts_from(v@, i as int)[0]] + parts_from(
                v@,
                i as int,
            ).skip(1)) == whole,
        decreases v.len() - i,
    {
        let c = v[i];
        let next_same = i + 1 < v.len() && v[i + 1] == c;
        let n: usize = if c == '|' || c == '&' {
            if next_same {
                2
            } else {
                1
            }
        } else if c == ';' || c == '\n' || c == '`' {
            1
        } else if c == '$' && i + 1 < v.len() && v[i + 1] == '(' {
            2
        } else {
            0
        };
        let ghost before = text::views(out@);
        let ghost tail = parts_from(v@, i as int);
        proof {
            lemma_parts_nonempty(v@, i as int);
            lemma_parts_nonempty(v@, i + n);
            lemma_parts_nonempty(v@, i + 1);
        }
        if n > 0 {
            let ghost rest = parts_from(v@, i + n);
            let ghost done = cur@;
            out.push(cur);
            cur = String::new();
            i += n;
            proof {
                assert(tail =~= seq![Seq::<char>::empty()] + rest);
                assert(text::views(out@) =~= before.push(done));
                assert(done + tail[0] =~= done);
                assert(tail.skip(1) =~= rest);
                assert(cur@ + rest[0] =~= rest[0]);
                assert(seq![rest[0]] + rest.skip(1) =~= rest);
                assert(text::views(out@) + (seq![cur@ + rest[0]] + rest.skip(1)) =~= before + (seq![
                    done + tail[0],
                ] + tail.skip(1)));
            }
        } else {
            let ghost rest = parts_from(v@, i + 1);
            let ghost done = cur@;
            cur.push(c);
            i += 1;
            proof {
                assert(tail.skip(1) =~= rest.skip(1));
                assert(done + tail[0] =~= cur@ + rest[0]);
            }
        }
    }
    proof {
        assert(parts_from(v@, i as int) =~= seq![Seq::<char>::empty()]);
        assert(cur@ + parts_from(v@, i as int)[0] =~= cur@);
    }
    let ghost before = text::views(out@);
    let ghost last = cur@;
    out.push(cur);
    assert(text::views(out@) =~= before.push(last));
    assert(text::views(out@) =~= whole);
    out
}

/// Split a shell command into the individual commands it would run.
///
/// Deliberately approximate: quoting is not parsed, so a literal `;` inside a
/// quoted string produces an extra segment. That errs toward more segments and
/// therefore more deny-rule matches, which is the safe direction.
pub fn command_segments(command: &str) -> (r: Vec<String>)
    ensures
        text::views(r@) == segments_of(command@),
{
    let parts = split_command(command);
    let ghost trimmed = parts_from(command@, 0).map_values(|p: Seq<char>| text::trimmed(p));
    let ghost keep = |p: Seq<char>| p.len() > 0;
    let mut out: Vec<String> = Vec::new();
    let mut i: usize = 0;
    assert(trimmed.take(0).filter(keep) =~= Seq::<Seq<char>>::empty()) by {
        reveal(Seq::filter);
    }
    assert(text::views(out@) =~= Seq::<Seq<char>>::empty());
    while i < parts.len()
        invariant
            i <= parts.len(),
            text::views(parts@) == parts_from(command@, 0),
            trimmed == parts_from(command@, 0).map_values(|p: Seq<char>| text::trimmed(p)),
            keep == (|p: Seq<char>| p.len() > 0),
            text::views(out@) == trimmed.take(i as int).filter(keep),
        decreases parts.len() - i,
    {
        let t = text::trim(&parts[i]);
        proof {
            reveal(Seq::filter);
            assert(trimmed.take(i + 1).drop_last() =~= trimmed.take(i as int));
            assert(text::views(parts@)[i as int] == parts@[i as int]@);
            assert(trimmed[i as int] == t@);
        }
        if !t.as_str().is_empty() {
            let ghost before = text::views(out@);
            let ghost tv = t@;
            out.push(t);
            assert(text::views(out@) =~= before.push(tv));
        }
        i += 1;
    }
    assert(trimmed.take(trimmed.len() as int) =~= trimmed);
    out
}

// ---------------------------------------------------------------------------
// The mode, shared
// ---------------------------------------------------------------------------

/// The byte that stands for a mode in a shared cell.
pub open spec fn mode_code(mode: PermissionMode) -> u8 {
    match mode {
        PermissionMode::Default => 0,
        PermissionMode::AcceptEdits => 1,
        PermissionMode::Plan => 2,
        PermissionMode::BypassPermissions => 3,
    }
}

/// The mode that a byte stands for.
pub open spec fn mode_of_code(raw: u8) -> PermissionMode {
    match raw {
        1 => PermissionMode::AcceptEdits,
        2 => PermissionMode::Plan,
        3 => PermissionMode::BypassPermissions,
        _ => PermissionMode::Default,
    }
}

/// A mode survives being stored as a byte.
pub proof fn law_mode_code_round_trip(mode: PermissionMode)
    ensures
        mode_of_code(mode_code(mode)) == mode,
{
}

fn encode_mode(mode: PermissionMode) -> (r: u8)
    ensures
        r == mode_code(mode),
{
    match mode {
        PermissionMode::Default => 0,
        PermissionMode::AcceptEdits => 1,
        PermissionMode::Plan => 2,
        PermissionMode::BypassPermissions => 3,
    }
}

fn decode_mode(raw: u8) -> (r: PermissionMode)
    ensures
        r == mode_of_code(raw),
{
    match raw {
        1 => PermissionMode::AcceptEdits,
        2 => PermissionMode::Plan,
        3 => PermissionMode::BypassPermissions,
        _ => PermissionMode::Default,
    }
}

/// A lock-free handle to the current permission mode.
#[derive(Debug, Clone)]
pub struct ModeCell(pub Arc<AtomicU8>);

impl ModeCell {
    /// Set the mode for everyone who holds the cell. What a later read sees is
    /// not stated: the cell is shared with other threads.
    pub fn store(&self, mode: PermissionMode) {
        self.0.store(encode_mode(mode), std::sync::atomic::Ordering::Relaxed);
    }

    /// The mode that the cell holds at this moment.
    pub fn load(&self) -> (r: PermissionMode)
        ensures
            exists|raw: u8| r == #[trigger] mode_of_code(raw),
    {
        decode_mode(self.0.load(std::sync::atomic::Ordering::Relaxed))
    }
}

// ---------------------------------------------------------------------------
// The engine
// ---------------------------------------------------------------------------

/// Compiled rules plus the grants the user has made during this session.
#[derive(Debug)]
pub struct PermissionEngine {
    pub allow: Vec<RulePattern>,
    pub deny: Vec<RulePattern>,
    pub ask: Vec<RulePattern>,
    /// "Always allow" choices, as `tool\u{0}argument-prefix` keys, each once.
    pub grants: Vec<String>,
    /// Rules that failed to parse, surfaced once at startup.
    pub invalid: Vec<String>,
    /// Current mode, shared so the UI can change it without taking a lock on
    /// the agent.
    pub mode: Arc<AtomicU8>,
}

/// The rules and grants of an engine, as text.
pub struct EngineView {
    pub allow: Seq<RuleView>,
    pub deny: Seq<RuleView>,
    pub ask: Seq<RuleView>,
    pub grants: Seq<Seq<char>>,
}

/// The views of the rules in a list.
pub open spec fn rule_views(rules: Seq<RulePattern>) -> Seq<RuleView> {
    rules.map_values(|r: RulePattern| r@)
}

impl View for PermissionEngine {
    type V = EngineView;

    open spec fn view(&self) -> EngineView {
        EngineView {
            allow: rule_views(self.allow@),
            deny: rule_views(self.deny@),
            ask: rule_views(self.ask@),
            grants: text::views(self.grants@),
        }
    }
}

/// The rules among the texts of a list.
pub open spec fn parsed_rules(list: Seq<Seq<char>>) -> Seq<RuleView>
    decreases list.len(),
{
    if list.len() == 0 {
        Seq::empty()
    } else {
        let rest = parsed_rules(list.drop_last());
        match parsed_rule(list.last()) {
            Some(r) => rest.push(r),
            None => rest,
        }
    }
}

/// The texts of a list that are no rules.
pub open spec fn malformed(list: Seq<Seq<char>>) -> Seq<Seq<char>> {
    list.filter(|r: Seq<char>| parsed_rule(r) is None)
}

/// What tells one command from another in a grant: the first two words.
pub open spec fn fingerprint(tool: Seq<char>, argument: Seq<char>) -> Seq<char> {
    if tool == "bash"@ {
        let w = text::words_of(argument);
        text::joined(if w.len() > 2 { w.take(2) } else { w }, " "@)
    } else {
        argument
    }
}

/// The key of a grant: the tool and a coarse fingerprint of the argument.
pub open spec fn key_of(tool: Seq<char>, argument: Seq<char>) -> Seq<char> {
    tool + "\u{0}"@ + fingerprint(tool, argument)
}

/// Whether a call is one of a shell command that runs more than one thing.
pub open spec fn is_chained(tool: Seq<char>, argument: Seq<char>) -> bool {
    tool == "bash"@ && compound(argument)
}

/// Whether one of the rules covers a call.
pub open spec fn any_covers(
    rules: Seq<RuleView>,
    tool: Seq<char>,
    argument: Seq<char>,
) -> bool {
    exists|i: int| 0 <= i < rules.len() && covers(#[trigger] rules[i], tool, argument)
}

/// The texts that deny rules are held against: the argument, and for a shell
/// command also each of its segments.
pub open spec fn candidates(tool: Seq<char>, argument: Seq<char>) -> Seq<Seq<char>> {
    if tool == "bash"@ {
        seq![argument] + segments_of(argument)
    } else {
        seq![argument]
    }
}

/// The first of the rules that covers a call.
pub open spec fn first_covering(
    rules: Seq<RuleView>,
    tool: Seq<char>,
    argument: Seq<char>,
) -> Option<RuleView>
    decreases rules.len(),
{
    if rules.len() == 0 {
        None
    } else if covers(rules[0], tool, argument) {
        Some(rules[0])
    } else {
        first_covering(rules.skip(1), tool, argument)
    }
}

/// The first of the texts that a rule covers, with the first such rule.
pub open spec fn first_hit(
    rules: Seq<RuleView>,
    tool: Seq<char>,
    texts: Seq<Seq<char>>,
) -> Option<(RuleView, Seq<char>)>
    decreases texts.len(),
{
    if texts.len() == 0 {
        None
    } else {
        match first_covering(rules, tool, texts[0]) {
            Some(r) => Some((r, texts[0])),
            None => first_hit(rules, tool, texts.skip(1)),
        }
    }
}

/// What is said of a call that a deny rule covers.
pub open spec fn deny_reason(
    rule: RuleView,
    matched: Seq<char>,
    argument: Seq<char>,
) -> Seq<char> {
    "blocked by the deny rule `"@ + rule.source + "` in your grok config"@ + if matched == argument {
        Seq::empty()
    } else {
        " (matched on `"@ + matched + "`)"@
    }
}

/// What is said of a mutating call in plan mode.
pub open spec fn plan_reason(tool: Seq<char>) -> Seq<char> {
    tool
        + " would modify the machine, and the session is in plan mode. Propose the change instead; the user can switch modes to apply it."@
}

/// Whether allow rules cover a call. They must cover every segment of a
/// compound command, not just the first.
pub open spec fn rule_allowed(
    allow: Seq<RuleView>,
    tool: Seq<char>,
    argument: Seq<char>,
) -> bool {
    if is_chained(tool, argument) {
        let segments = segments_of(argument);
        segments.len() > 0 && forall|i: int|
            0 <= i < segments.len() ==> any_covers(allow, tool, #[trigger] segments[i])
    } else {
        any_covers(allow, tool, argument)
    }
}

/// What a mode allows by itself.
pub open spec fn mode_default(mode: PermissionMode, kind: ToolKind) -> DecisionView {
    if mode == PermissionMode::BypassPermissions {
        DecisionView::Allow(AllowReason::Mode)
    } else if !crate::tools::kind_mutates(kind) && kind != ToolKind::Network {
        DecisionView::Allow(AllowReason::Harmless)
    } else if mode == PermissionMode::AcceptEdits && kind == ToolKind::Edit {
        DecisionView::Allow(AllowReason::Mode)
    } else {
        DecisionView::Ask
    }
}

/// The decision on a call.
pub open spec fn decided(
    e: EngineView,
    mode: PermissionMode,
    tool: Seq<char>,
    kind: ToolKind,
    argument: Seq<char>,
) -> DecisionView {
    match first_hit(e.deny, tool, candidates(tool, argument)) {
        Some((rule, matched)) => DecisionView::Deny(deny_reason(rule, matched, argument)),
        None => if mode == PermissionMode::Plan && crate::tools::kind_mutates(kind) {
            DecisionView::Deny(plan_reason(tool))
        } else if rule_allowed(e.allow, tool, argument) {
            DecisionView::Allow(AllowReason::Rule)
        } else if !is_chained(tool, argument) && e.grants.contains(key_of(tool, argument)) {
            DecisionView::Allow(AllowReason::SessionGrant)
        } else if any_covers(e.ask, tool, argument) {
            DecisionView::Ask
        } else {
            mode_default(mode, kind)
        },
    }
}

/// Compile a list of rules. What is no rule is added to `invalid`.
fn compile(list: &Vec<String>, invalid: &mut Vec<String>) -> (r: Vec<RulePattern>)
    ensures
        rule_views(r@) == parsed_rules(text::views(list@)),
        text::views(final(invalid)@) == text::views(old(invalid)@) + malformed(text::views(list@)),
{
    let mut out: Vec<RulePattern> = Vec::new();
    let mut i: usize = 0;
    let ghost all = text::views(list@);
    let ghost keep = |r: Seq<char>| parsed_rule(r) is None;
    let ghost start = text::views(invalid@);
    assert(all.take(0).filter(keep) =~= Seq::<Seq<char>>::empty()) by {
        reveal(Seq::filter);
    }
    assert(rule_views(out@) =~= Seq::<RuleView>::empty());
    assert(start + all.take(0).filter(keep) =~= start);
    while i < list.len()
        invariant
            i <= list.len(),
            all == text::views(list@),
            keep == (|r: Seq<char>| parsed_rule(r) is None),
            rule_views(out@) == parsed_rules(all.take(i as int)),
            text::views(invalid@) == start + all.take(i as int).filter(keep),
        decreases list.len() - i,
    {
        proof {
            reveal(Seq::filter);
            assert(all.take(i + 1).drop_last() =~= all.take(i as int));
            assert(all[i as int] == list@[i as int]@);
        }
        let ghost bad = text::views(invalid@);
        let ghost good = rule_views(out@);
        match RulePattern::parse(&list[i]) {
            Some(p) => {
                let ghost pv = p@;
                out.push(p);
                assert(rule_views(out@) =~= good.push(pv));
            },
            None => {
                invalid.push(list[i].clone());
                assert(text::views(invalid@) =~= bad.push(all[i as int]));
                assert(bad.push(all[i as int]) =~= start + all.take(i + 1).filter(keep));
            },
        }
        i += 1;
    }
    assert(all.take(all.len() as int) =~= all);
    out
}

/// Whether one of the rules covers a call.
fn covered(rules: &Vec<RulePattern>, tool_name: &str, argument: &str) -> (r: bool)
    ensures
        r == any_covers(rule_views(rules@), tool_name@, argument@),
{
    let mut i: usize = 0;
    while i < rules.len()
        invariant
            i <= rules.len(),
            forall|k: int|
                0 <= k < i ==> !covers(
                    #[trigger] rule_views(rules@)[k],
                    tool_name@,
                    argument@,
                ),
        decreases rules.len() - i,
    {
        assert(rule_views(rules@)[i as int] == rules@[i as int]@);
        if rules[i].matches(tool_name, argument) {
            return true;
        }
        i += 1;
    }
    false
}

/// The position of the first of the rules that covers a call.
fn find_covering(rules: &Vec<RulePattern>, tool_name: &str, argument: &str) -> (r: Option<usize>)
    ensures
        match r {
            Some(i) => i < rules.len() && first_covering(rule_views(rules@), tool_name@, argument@)
                == Some(rules@[i as int]@),
            None => first_covering(rule_views(rules@), tool_name@, argument@) is None,
        },
{
    let ghost all = rule_views(rules@);
    let mut i: usize = 0;
    assert(all.skip(0) =~= all);
    while i < rules.len()
        invariant
            i <= rules.len(),
            all == rule_views(rules@),
            first_covering(all.skip(i as int), tool_name@, argument@) == first_covering(
                all,
                tool_name@,
                argument@,
            ),
        decreases rules.len() - i,
    {
        proof {
            assert(all.skip(i as int).skip(1) =~= all.skip(i + 1));
            assert(all.skip(i as int)[0] == rules@[i as int]@);
        }
        if rules[i].matches(tool_name, argument) {
            return Some(i);
        }
        i += 1;
    }
    None
}

fn grant_key(tool_name: &str, argument: &str) -> (r: String)
    ensures
        r@ == key_of(tool_name@, argument@),
{
    let print = if text::same(tool_name, "bash") {
        let mut w = text::words(argument);
        let ghost all = text::views(w@);
        w.truncate(2);
        assert(text::views(w@) =~= if all.len() > 2 { all.take(2) } else { all });
        text::join(&w, " ")
    } else {
        argument.to_owned()
    };
    let mut out = tool_name.to_owned();
    out.append("\u{0}");
    out.append(&print);
    out
}

fn holds(list: &Vec<String>, key: &str) -> (r: bool)
    ensures
        r == text::views(list@).contains(key@),
{
    let ghost all = text::views(list@);
    let mut i: usize = 0;
    while i < list.len()
        invariant
            i <= list.len(),
            all == text::views(list@),
            forall|k: int| 0 <= k < i ==> all[k] != key@,
        decreases list.len() - i,
    {
        assert(all[i as int] == list@[i as int]@);
        if text::same(&list[i], key) {
            return true;
        }
        i += 1;
    }
    false
}

impl PermissionEngine {
    /// Each grant is kept once.
    pub open spec fn wf(&self) -> bool {
        self@.grants.no_duplicates()
    }

    pub fn new(rules: &PermissionRules, mode: PermissionMode) -> (r: Self)
        ensures
            r.wf(),
            r@.allow == parsed_rules(text::views(rules.allow@)),
            r@.deny == parsed_rules(text::views(rules.deny@)),
            r@.ask == parsed_rules(text::views(rules.ask@)),
            r@.grants.len() == 0,
            text::views(r.invalid@) == malformed(text::views(rules.allow@)) + malformed(
                text::views(rules.deny@),
            ) + malformed(text::views(rules.ask@)),
    {
        let mut invalid: Vec<String> = Vec::new();
        assert(text::views(invalid@) =~= Seq::<Seq<char>>::empty());
        let allow = compile(&rules.allow, &mut invalid);
        let deny = compile(&rules.deny, &mut invalid);
        let ask = compile(&rules.ask, &mut invalid);
        PermissionEngine {
            allow,
            deny,
            ask,
            grants: Vec::new(),
            invalid,
            mode: Arc::new(AtomicU8::new(encode_mode(mode))),
        }
    }

    /// The engine that a configuration asks for.
    pub fn from_config(config: &Config) -> (r: Self)
        ensures
            r.wf(),
            r@.allow == parsed_rules(text::views(config.permissions.allow@)),
            r@.deny == parsed_rules(text::views(config.permissions.deny@)),
            r@.ask == parsed_rules(text::views(config.permissions.ask@)),
            r@.grants.len() == 0,
            text::views(r.invalid@) == malformed(text::views(config.permissions.allow@))
                + malformed(text::views(config.permissions.deny@)) + malformed(
                text::views(config.permissions.ask@),
            ),
    {
        Self::new(&config.permissions, config.permission_mode)
    }

    /// Build an engine sharing another's mode cell, so both observe changes.
    /// Session grants are deliberately *not* shared: an approval given for a
    /// top-level call should not silently authorize the same command inside a
    /// subagent the user cannot see.
    pub fn sharing_mode(rules: &PermissionRules, mode: Arc<AtomicU8>) -> (r: Self)
        ensures
            r.wf(),
            r@.allow == parsed_rules(text::views(rules.allow@)),
            r@.deny == parsed_rules(text::views(rules.deny@)),
            r@.ask == parsed_rules(text::views(rules.ask@)),
            r@.grants.len() == 0,
            text::views(r.invalid@) == malformed(text::views(rules.allow@)) + malformed(
                text::views(rules.deny@),
            ) + malformed(text::views(rules.ask@)),
            r.mode == mode,
    {
        let mut engine = Self::new(rules, PermissionMode::Default);
        engine.mode = mode;
        engine
    }

    /// A handle that can change the mode without touching the engine.
    ///
    /// The UI holds one so it can switch modes while a turn owns the agent.
    pub fn mode_cell(&self) -> (r: ModeCell)
        ensures
            r.0 == self.mode,
    {
        ModeCell(self.mode.clone())
    }

    /// The raw shared cell, for building an engine that observes the same mode.
    pub fn shared_mode(&self) -> (r: Arc<AtomicU8>)
        ensures
            r == self.mode,
    {
        self.mode.clone()
    }

    /// The mode at this moment. Another holder of the cell may change it.
    pub fn mode(&self) -> (r: PermissionMode)
        ensures
            exists|raw: u8| r == #[trigger] mode_of_code(raw),
    {
        decode_mode(self.mode.load(std::sync::atomic::Ordering::Relaxed))
    }

    /// Change the mode. Takes `&self` deliberately: the UI must be able to do
    /// this while a turn holds the agent. What a later read sees is not stated:
    /// the cell is shared with other threads.
    pub fn set_mode(&self, mode: PermissionMode) {
        self.mode.store(encode_mode(mode), std::sync::atomic::Ordering::Relaxed);
    }

    /// Remember an "always allow" choice for the rest of the session.
    ///
    /// Grants are keyed by tool *and* argument so approving `cargo test` does
    /// not silently approve `rm -rf /`. A compound command is not remembered:
    /// its first two words do not tell what it runs.
    pub fn grant_for_session(&mut self, tool_name: &str, argument: &str)
        requires
            old(self).wf(),
        ensures
            final(self).wf(),
            final(self)@.allow == old(self)@.allow,
            final(self)@.deny == old(self)@.deny,
            final(self)@.ask == old(self)@.ask,
            final(self).invalid == old(self).invalid,
            final(self).mode == old(self).mode,
            final(self)@.grants == if is_chained(tool_name@, argument@) || old(
                self,
            )@.grants.contains(key_of(tool_name@, argument@)) {
                old(self)@.grants
            } else {
                old(self)@.grants.push(key_of(tool_name@, argument@))
            },
    {
        if text::same(tool_name, "bash") && is_compound_command(argument) {
            return;
        }
        let key = grant_key(tool_name, argument);
        if !holds(&self.grants, &key) {
            let ghost before = self@.grants;
            self.grants.push(key);
            assert(self@.grants =~= before.push(key@));
            assert(self@.grants.no_duplicates()) by {
                assert forall|i: int, j: int|
                    0 <= i < self@.grants.len() && 0 <= j < self@.grants.len() && i
                        != j implies self@.grants[i] != self@.grants[j] by {
                    if i < before.len() && j < before.len() {
                    } else if i < before.len() {
                        assert(before.contains(before[i]));
                    } else {
                        assert(before.contains(before[j]));
                    }
                }
            }
        }
    }

    pub fn session_grants(&self) -> (r: usize)
        ensures
            r == self@.grants.len(),
    {
        self.grants.len()
    }

    /// Decide whether `tool_name` may run with `argument`, in the mode that
    /// the engine has at this moment.
    pub fn evaluate(&self, tool_name: &str, kind: ToolKind, argument: &str) -> (r: Decision)
        ensures
            exists|mode: PermissionMode|
                r@ == #[trigger] decided(self@, mode, tool_name@, kind, argument@),
    {
        let mode = self.mode();
        let r = self.evaluate_in(mode, tool_name, kind, argument);
        assert(r@ == decided(self@, mode, tool_name@, kind, argument@));
        r
    }

    /// The deny rule that covers a call, with the text it matched on.
    fn denied(&self, tool_name: &str, argument: &str) -> (r: Option<Decision>)
        ensures
            match first_hit(self@.deny, tool_name@, candidates(tool_name@, argument@)) {
                Some((rule, matched)) => r matches Some(d) && d@ == DecisionView::Deny(
                    deny_reason(rule, matched, argument@),
                ),
                None => r is None,
            },
    {
        let mut all: Vec<String> = Vec::new();
        all.push(argument.to_owned());
        if text::same(tool_name, "bash") {
            let mut more = command_segments(argument);
            let ghost sv = text::views(more@);
            all.append(&mut more);
            assert(text::views(all@) =~= seq![argument@] + sv);
        } else {
            assert(text::views(all@) =~= seq![argument@]);
        }
        let ghost texts = candidates(tool_name@, argument@);
        let mut i: usize = 0;
        assert(texts.skip(0) =~= texts);
        while i < all.len()
            invariant
                i <= all.len(),
                text::views(all@) == texts,
                first_hit(self@.deny, tool_name@, texts.skip(i as int)) == first_hit(
                    self@.deny,
                    tool_name@,
                    texts,
                ),
                texts == candidates(tool_name@, argument@),
            decreases all.len() - i,
        {
            let candidate = &all[i];
            proof {
                assert(texts.skip(i as int).skip(1) =~= texts.skip(i + 1));
                assert(texts[i as int] == candidate@);
                assert(texts.skip(i as int)[0] == candidate@);
            }
            match find_covering(&self.deny, tool_name, candidate) {
                Some(k) => {
                    let rule = &self.deny[k];
                    let mut reason = "blocked by the deny rule `".to_owned();
                    reason.append(rule.source());
                    reason.append("` in your grok config");
                    if !text::same(candidate, argument) {
                        let mut detail = " (matched on `".to_owned();
                        detail.append(candidate);
                        detail.append("`)");
                        reason.append(&detail);
                    } else {
                        assert(reason@ =~= reason@ + Seq::<char>::empty());
                    }
                    return Some(Decision::Deny { reason });
                },
                None => {},
            }
            i += 1;
        }
        None
    }

    /// Whether allow rules cover a call.
    fn allowed_by_rule(&self, tool_name: &str, argument: &str) -> (r: bool)
        ensures
            r == rule_allowed(self@.allow, tool_name@, argument@),
    {
        if text::same(tool_name, "bash") && is_compound_command(argument) {
            let segments = command_segments(argument);
            let ghost all = segments_of(argument@);
            if segments.len() == 0 {
                return false;
            }
            let mut i: usize = 0;
            while i < segments.len()
                invariant
                    i <= segments.len(),
                    all == text::views(segments@),
                    all == segments_of(argument@),
                    is_chained(tool_name@, argument@),
                    forall|k: int|
                        0 <= k < i ==> any_covers(self@.allow, tool_name@, #[trigger] all[k]),
                decreases segments.len() - i,
            {
                assert(all[i as int] == segments@[i as int]@);
                if !covered(&self.allow, tool_name, &segments[i]) {
                    return false;
                }
                i += 1;
            }
            true
        } else {
            covered(&self.allow, tool_name, argument)
        }
    }

    /// Decide whether `tool_name` may run with `argument` under a given mode.
    pub fn evaluate_in(
        &self,
        mode: PermissionMode,
        tool_name: &str,
        kind: ToolKind,
        argument: &str,
    ) -> (r: Decision)
        ensures
            r@ == decided(self@, mode, tool_name@, kind, argument@),
    {
        match self.denied(tool_name, argument) {
            Some(d) => {
                return d;
            },
            None => {},
        }
        if mode == PermissionMode::Plan && kind.mutates() {
            let mut reason = tool_name.to_owned();
            reason.append(
                " would modify the machine, and the session is in plan mode. Propose the change instead; the user can switch modes to apply it.",
            );
            return Decision::Deny { reason };
        }
        if self.allowed_by_rule(tool_name, argument) {
            return Decision::Allow { reason: AllowReason::Rule };
        }
        let grantable = !(text::same(tool_name, "bash") && is_compound_command(argument));
        if grantable && holds(&self.grants, &grant_key(tool_name, argument)) {
            return Decision::Allow { reason: AllowReason::SessionGrant };
        }
        if covered(&self.ask, tool_name, argument) {
            return Decision::Ask;
        }
        if mode == PermissionMode::BypassPermissions {
            Decision::Allow { reason: AllowReason::Mode }
        } else if !kind.mutates() && kind != ToolKind::Network {
            Decision::Allow { reason: AllowReason::Harmless }
        } else if mode == PermissionMode::AcceptEdits && kind == ToolKind::Edit {
            Decision::Allow { reason: AllowReason::Mode }
        } else {
            Decision::Ask
        }
    }
}


// ---------------------------------------------------------------------------
// Laws
// ---------------------------------------------------------------------------

proof fn lemma_first_covering(rules: Seq<RuleView>, tool: Seq<char>, argument: Seq<char>)
    ensures
        (first_covering(rules, tool, argument) is Some) == any_covers(rules, tool, argument),
    decreases rules.len(),
{
    if rules.len() > 0 {
        lemma_first_covering(rules.skip(1), tool, argument);
        if any_covers(rules, tool, argument) && !covers(rules[0], tool, argument) {
            let i = choose|i: int|
                0 <= i < rules.len() && covers(#[trigger] rules[i], tool, argument);
            assert(rules.skip(1)[i - 1] == rules[i]);
        }
        if any_covers(rules.skip(1), tool, argument) {
            let i = choose|i: int|
                0 <= i < rules.skip(1).len() && covers(
                    #[trigger] rules.skip(1)[i],
                    tool,
                    argument,
                );
            assert(rules[i + 1] == rules.skip(1)[i]);
        }
    }
}

pub(crate) proof fn lemma_first_hit(rules: Seq<RuleView>, tool: Seq<char>, texts: Seq<Seq<char>>)
    ensures
        (first_hit(rules, tool, texts) is Some) == (exists|i: int|
            0 <= i < texts.len() && any_covers(rules, tool, #[trigger] texts[i])),
    decreases texts.len(),
{
    if texts.len() > 0 {
        lemma_first_covering(rules, tool, texts[0]);
        lemma_first_hit(rules, tool, texts.skip(1));
        let rest = texts.skip(1);
        if exists|i: int| 0 <= i < texts.len() && any_covers(rules, tool, #[trigger] texts[i]) {
            let i = choose|i: int|
                0 <= i < texts.len() && any_covers(rules, tool, #[trigger] texts[i]);
            if i > 0 {
                assert(rest[i - 1] == texts[i]);
            }
        }
        if exists|i: int| 0 <= i < rest.len() && any_covers(rules, tool, #[trigger] rest[i]) {
            let i = choose|i: int|
                0 <= i < rest.len() && any_covers(rules, tool, #[trigger] rest[i]);
            assert(texts[i + 1] == rest[i]);
        }
    }
}

/// A deny rule that covers the call, or one of the segments of a shell command,
/// refuses it in every mode, whatever the kind of the tool and whatever allow
/// rules, ask rules and grants there are.
pub proof fn law_deny_is_final(
    e: EngineView,
    mode: PermissionMode,
    tool: Seq<char>,
    kind: ToolKind,
    argument: Seq<char>,
    i: int,
)
    requires
        0 <= i < candidates(tool, argument).len(),
        any_covers(e.deny, tool, candidates(tool, argument)[i]),
    ensures
        decided(e, mode, tool, kind, argument) is Deny,
{
    lemma_first_hit(e.deny, tool, candidates(tool, argument));
}

/// Plan mode refuses every call that mutates, whatever the rules and grants.
pub proof fn law_plan_refuses_mutation(
    e: EngineView,
    tool: Seq<char>,
    kind: ToolKind,
    argument: Seq<char>,
)
    requires
        crate::tools::kind_mutates(kind),
    ensures
        decided(e, PermissionMode::Plan, tool, kind, argument) is Deny,
{
}

/// Without a deny rule, and outside plan mode, nothing is refused outright.
pub proof fn law_refusal_has_a_cause(
    e: EngineView,
    mode: PermissionMode,
    tool: Seq<char>,
    kind: ToolKind,
    argument: Seq<char>,
)
    requires
        decided(e, mode, tool, kind, argument) is Deny,
    ensures
        (exists|i: int|
            0 <= i < candidates(tool, argument).len() && any_covers(
                e.deny,
                tool,
                #[trigger] candidates(tool, argument)[i],
            )) || (mode == PermissionMode::Plan && crate::tools::kind_mutates(kind)),
{
    lemma_first_hit(e.deny, tool, candidates(tool, argument));
}

/// Nothing that changes the machine runs without the user's say-so: a rule, a
/// grant for the session, or a mode that says so.
pub proof fn law_changes_need_consent(
    e: EngineView,
    mode: PermissionMode,
    tool: Seq<char>,
    kind: ToolKind,
    argument: Seq<char>,
)
    requires
        crate::tools::kind_mutates(kind) || kind == ToolKind::Network,
        decided(e, mode, tool, kind, argument) is Allow,
    ensures
        rule_allowed(e.allow, tool, argument) || e.grants.contains(key_of(tool, argument)) || mode
            == PermissionMode::BypassPermissions || (mode == PermissionMode::AcceptEdits && kind
            == ToolKind::Edit),
{
}

/// A compound command is never approved by a grant.
pub proof fn law_grant_never_covers_a_chain(
    e: EngineView,
    mode: PermissionMode,
    kind: ToolKind,
    argument: Seq<char>,
)
    requires
        compound(argument),
    ensures
        decided(e, mode, "bash"@, kind, argument) != DecisionView::Allow(
            AllowReason::SessionGrant,
        ),
{
}

/// Allow rules approve a compound command only where they cover every command
/// in it.
pub proof fn law_allow_covers_every_segment(
    e: EngineView,
    mode: PermissionMode,
    kind: ToolKind,
    argument: Seq<char>,
    i: int,
)
    requires
        compound(argument),
        0 <= i < segments_of(argument).len(),
        decided(e, mode, "bash"@, kind, argument) == DecisionView::Allow(AllowReason::Rule),
    ensures
        any_covers(e.allow, "bash"@, segments_of(argument)[i]),
{
}

/// Once granted, a call of the same fingerprint is allowed, unless a deny rule
/// or plan mode refuses it or the command is compound.
pub proof fn law_grant_is_remembered(
    e: EngineView,
    mode: PermissionMode,
    tool: Seq<char>,
    kind: ToolKind,
    granted: Seq<char>,
    argument: Seq<char>,
)
    requires
        e.grants.contains(key_of(tool, granted)),
        fingerprint(tool, granted) == fingerprint(tool, argument),
        !is_chained(tool, argument),
        !(decided(e, mode, tool, kind, argument) is Deny),
    ensures
        decided(e, mode, tool, kind, argument) is Allow,
{
}

proof fn lemma_same_tool_key(t1: Seq<char>, t2: Seq<char>, f1: Seq<char>, f2: Seq<char>)
    requires
        !t1.contains('\u{0}'),
        !t2.contains('\u{0}'),
        t1.push('\u{0}') + f1 == t2.push('\u{0}') + f2,
    ensures
        t1 == t2,
        f1 == f2,
{
    let a = t1.push('\u{0}') + f1;
    let b = t2.push('\u{0}') + f2;
    if t1.len() < t2.len() {
        assert(a[t1.len() as int] == '\u{0}');
        assert(b[t1.len() as int] == t2[t1.len() as int]);
        assert(t2.contains(t2[t1.len() as int]));
    } else if t2.len() < t1.len() {
        assert(b[t2.len() as int] == '\u{0}');
        assert(a[t2.len() as int] == t1[t2.len() as int]);
        assert(t1.contains(t1[t2.len() as int]));
    }
    assert(t1 =~= t2) by {
        assert forall|i: int| 0 <= i < t1.len() implies t1[i] == t2[i] by {
            assert(a[i] == b[i]);
        }
    }
    assert(f1 =~= f2) by {
        assert(a.len() == b.len());
        assert forall|i: int| 0 <= i < f1.len() implies f1[i] == f2[i] by {
            assert(a[t1.len() + 1 + i] == b[t1.len() + 1 + i]);
        }
    }
}

/// A grant for one tool is never taken for a grant for another: the keys of
/// two calls are equal only for the same tool and the same fingerprint.
pub proof fn law_grants_are_scoped(
    t1: Seq<char>,
    t2: Seq<char>,
    a1: Seq<char>,
    a2: Seq<char>,
)
    requires
        !t1.contains('\u{0}'),
        !t2.contains('\u{0}'),
        key_of(t1, a1) == key_of(t2, a2),
    ensures
        t1 == t2,
        fingerprint(t1, a1) == fingerprint(t2, a2),
{
    reveal_strlit("\u{0}");
    let z = seq!['\u{0}'];
    assert("\u{0}"@ =~= z);
    assert(key_of(t1, a1) =~= t1.push('\u{0}') + fingerprint(t1, a1));
    assert(key_of(t2, a2) =~= t2.push('\u{0}') + fingerprint(t2, a2));
    lemma_same_tool_key(t1, t2, fingerprint(t1, a1), fingerprint(t2, a2));
}

proof fn lemma_has_char(s: Seq<char>, c: char, i: int)
    requires
        0 <= i < s.len(),
        s[i] == c,
    ensures
        text::contains(s, seq![c]),
{
    assert(s.subrange(i, i + 1) =~= seq![c]);
    assert(text::occurs_at(s, seq![c], i));
}

/// A break stands somewhere at or after `i`.
spec fn breaks_from(s: Seq<char>, i: int) -> bool {
    exists|j: int| i <= j < s.len() && #[trigger] break_len(s, j) > 0
}

proof fn lemma_parts_count(s: Seq<char>, i: int)
    requires
        0 <= i <= s.len(),
    ensures
        (parts_from(s, i).len() > 1) == breaks_from(s, i),
        !breaks_from(s, i) ==> parts_from(s, i) == seq![s.skip(i)],
    decreases s.len() - i,
{
    if i < s.len() {
        if break_len(s, i) > 0 {
            lemma_parts_nonempty(s, i + break_len(s, i));
            assert(breaks_from(s, i));
        } else {
            lemma_parts_count(s, i + 1);
            lemma_parts_nonempty(s, i + 1);
            if breaks_from(s, i) {
                let j = choose|j: int| i <= j < s.len() && #[trigger] break_len(s, j) > 0;
                assert(i + 1 <= j);
            } else {
                assert(!breaks_from(s, i + 1));
                assert(parts_from(s, i) =~= seq![s.skip(i)]) by {
                    assert(seq![s[i]] + s.skip(i + 1) =~= s.skip(i));
                }
            }
        }
    } else {
        assert(s.skip(i) =~= Seq::<char>::empty());
    }
}

/// A command counts as compound exactly where segmentation finds a break in
/// it, and a command that is not compound is its own only segment.
pub proof fn law_compound_is_segmented(command: Seq<char>)
    ensures
        compound(command) == (parts_from(command, 0).len() > 1),
        !compound(command) ==> parts_from(command, 0) == seq![command],
{
    let ops = shell_operators();
    reveal_strlit("&&");
    reveal_strlit("||");
    reveal_strlit(";");
    reveal_strlit("|");
    reveal_strlit("\n");
    reveal_strlit("$(");
    reveal_strlit("`");
    reveal_strlit("&");
    assert(";"@ =~= seq![';'] && "|"@ =~= seq!['|'] && "\n"@ =~= seq!['\n'] && "`"@ =~= seq!['`']
        && "&"@ =~= seq!['&']);
    lemma_parts_count(command, 0);
    assert(command.skip(0) =~= command);
    if breaks_from(command, 0) {
        let j = choose|j: int| 0 <= j < command.len() && #[trigger] break_len(command, j) > 0;
        let c = command[j];
        if c == '$' {
            assert(command.subrange(j, j + 2) =~= "$("@);
            assert(text::occurs_at(command, "$("@, j));
            assert(text::contains(command, ops[5]));
        } else {
            lemma_has_char(command, c, j);
            assert(text::contains(command, ops[2]) || text::contains(command, ops[3])
                || text::contains(command, ops[4]) || text::contains(command, ops[6])
                || text::contains(command, ops[7]));
        }
    }
    if compound(command) {
        let k = choose|k: int|
            0 <= k < ops.len() && text::contains(command, #[trigger] ops[k]);
        let op = ops[k];
        let i = choose|i: int| text::occurs_at(command, op, i);
        assert(text::occurs_at(command, op, i));
        assert(command.subrange(i, i + op.len())[0] == op[0]);
        assert(command[i] == op[0]);
        if k == 5 {
            assert(command.subrange(i, i + op.len())[1] == op[1]);
            assert(command[i + 1] == '(');
        }
        assert(break_len(command, i) > 0);
    }
}

} // verus!
