//! Configuration: permission modes, model facts, layered settings.
use vstd::arithmetic::power2::pow2;
use vstd::prelude::*;
use crate::table::{list_at, Table};
use crate::text;
use crate::util;

verus! {

/// Default model: the cheap, fast tool-calling workhorse. Reasoning variants are
/// opt-in because they cost more per turn.
pub const DEFAULT_MODEL: &'static str = "grok-4-1-fast-non-reasoning";

/// Directory name used for both the user-wide and project-local config roots.
pub const CONFIG_DIR_NAME: &'static str = ".grok";

/// Filename the agent reads for project instructions.
pub const MEMORY_FILE_NAME: &'static str = "GROK.md";

// ---------------------------------------------------------------------------
// Model metadata
// ---------------------------------------------------------------------------

/// What the harness needs to know about a model to budget context.
#[derive(Debug, Clone, Copy, PartialEq, Eq)]
pub struct ModelInfo {
    pub id: &'static str,
    /// Total context window in tokens.
    pub context_window: u64,
    /// Whether the model streams a `reasoning_content` channel.
    pub reasoning: bool,
}

/// Conservative window for models missing from [`models`].
pub const FALLBACK_CONTEXT_WINDOW: u64 = 131_072;

/// The known models: name, window, whether they reason.
pub open spec fn model_table() -> Seq<(Seq<char>, u64, bool)> {
    seq![
        ("grok-4-1-fast-non-reasoning"@, 2_000_000, false),
        ("grok-4-1-fast-reasoning"@, 2_000_000, true),
        ("grok-4-fast-non-reasoning"@, 2_000_000, false),
        ("grok-4-fast-reasoning"@, 2_000_000, true),
        ("grok-4"@, 256_000, true),
        ("grok-4-0709"@, 256_000, true),
        ("grok-3"@, 131_072, false),
        ("grok-3-mini"@, 131_072, true),
        ("grok-code-fast-1"@, 256_000, false),
    ]
}

/// The first entry of a model in a table of models.
pub open spec fn model_entry(
    table: Seq<(Seq<char>, u64, bool)>,
    id: Seq<char>,
) -> (Seq<char>, u64, bool)
    decreases table.len(),
{
    if table.len() == 0 {
        ("unknown"@, FALLBACK_CONTEXT_WINDOW, false)
    } else if table[0].0 == id {
        table[0]
    } else {
        model_entry(table.skip(1), id)
    }
}

pub open spec fn model_view(m: ModelInfo) -> (Seq<char>, u64, bool) {
    (m.id@, m.context_window, m.reasoning)
}

/// Known models. Unknown ids still work: [`model_info`] falls back to a
/// conservative window rather than refusing to run.
pub fn models() -> (r: Vec<ModelInfo>)
    ensures
        r@.map_values(|m: ModelInfo| model_view(m)) == model_table(),
{
    let r = vec![
        ModelInfo {
            id: "grok-4-1-fast-non-reasoning",
            context_window: 2_000_000,
            reasoning: false,
        },
        ModelInfo { id: "grok-4-1-fast-reasoning", context_window: 2_000_000, reasoning: true },
        ModelInfo { id: "grok-4-fast-non-reasoning", context_window: 2_000_000, reasoning: false },
        ModelInfo { id: "grok-4-fast-reasoning", context_window: 2_000_000, reasoning: true },
        ModelInfo { id: "grok-4", context_window: 256_000, reasoning: true },
        ModelInfo { id: "grok-4-0709", context_window: 256_000, reasoning: true },
        ModelInfo { id: "grok-3", context_window: 131_072, reasoning: false },
        ModelInfo { id: "grok-3-mini", context_window: 131_072, reasoning: true },
        ModelInfo { id: "grok-code-fast-1", context_window: 256_000, reasoning: false },
    ];
    assert(r@.map_values(|m: ModelInfo| model_view(m)) =~= model_table());
    r
}

/// What is known of a model.
pub fn model_info(id: &str) -> (r: ModelInfo)
    ensures
        model_view(r) == model_entry(model_table(), id@),
{
    let list = models();
    let ghost all = model_table();
    let mut i: usize = 0;
    assert(all.skip(0) =~= all);
    while i < list.len()
        invariant
            i <= list.len(),
            all == model_table(),
            all == list@.map_values(|m: ModelInfo| model_view(m)),
            model_entry(all.skip(i as int), id@) == model_entry(all, id@),
        decreases list.len() - i,
    {
        proof {
            assert(all.skip(i as int).skip(1) =~= all.skip(i + 1));
            assert(all.skip(i as int)[0] == model_view(list@[i as int]));
        }
        if text::same(list[i].id, id) {
            return list[i];
        }
        i += 1;
    }
    ModelInfo { id: "unknown", context_window: FALLBACK_CONTEXT_WINDOW, reasoning: false }
}

proof fn lemma_entry_window(list: Seq<(Seq<char>, u64, bool)>, id: Seq<char>)
    requires
        forall|i: int|
            0 <= i < list.len() ==> FALLBACK_CONTEXT_WINDOW <= (#[trigger] list[i]).1 <= 2_000_000,
    ensures
        FALLBACK_CONTEXT_WINDOW <= model_entry(list, id).1 <= 2_000_000,
    decreases list.len(),
{
    if list.len() > 0 && list[0].0 != id {
        assert forall|i: int| 0 <= i < list.skip(1).len() implies FALLBACK_CONTEXT_WINDOW <= (
        #[trigger] list.skip(1)[i]).1 <= 2_000_000 by {
            assert(list.skip(1)[i] == list[i + 1]);
        }
        lemma_entry_window(list.skip(1), id);
    }
}

/// Every model has a window, known or not, and an unknown one is never given
/// more than the smallest known.
pub proof fn law_every_model_has_a_window(id: Seq<char>)
    ensures
        FALLBACK_CONTEXT_WINDOW <= model_entry(model_table(), id).1 <= 2_000_000,
{
    lemma_entry_window(model_table(), id);
}

// ---------------------------------------------------------------------------
// Permission modes
// ---------------------------------------------------------------------------

/// How aggressively the harness asks before acting.
#[derive(Debug, Clone, Copy, PartialEq, Eq, Structural)]
pub enum PermissionMode {
    /// Reads run freely; writes and commands prompt.
    Default,
    /// File edits are pre-approved; commands still prompt.
    AcceptEdits,
    /// Nothing mutates. Read-only tools only, for exploration and planning.
    Plan,
    /// Everything runs unprompted. Dangerous, and the UI says so.
    BypassPermissions,
}

impl Default for PermissionMode {
    fn default() -> (r: Self)
        ensures
            r == PermissionMode::Default,
    {
        PermissionMode::Default
    }
}

/// The name of a mode in configuration and on the command line.
pub open spec fn mode_name(mode: PermissionMode) -> Seq<char> {
    match mode {
        PermissionMode::Default => "default"@,
        PermissionMode::AcceptEdits => "acceptEdits"@,
        PermissionMode::Plan => "plan"@,
        PermissionMode::BypassPermissions => "bypassPermissions"@,
    }
}

/// The mode that a trimmed name stands for.
pub open spec fn mode_named(s: Seq<char>) -> Option<PermissionMode> {
    if s == "default"@ {
        Some(PermissionMode::Default)
    } else if s == "acceptEdits"@ || s == "accept-edits"@ {
        Some(PermissionMode::AcceptEdits)
    } else if s == "plan"@ {
        Some(PermissionMode::Plan)
    } else if s == "bypassPermissions"@ || s == "bypass-permissions"@ || s == "yolo"@ {
        Some(PermissionMode::BypassPermissions)
    } else {
        None
    }
}

/// One line on what a mode does.
pub open spec fn mode_description(mode: PermissionMode) -> Seq<char> {
    match mode {
        PermissionMode::Default => "ask before edits and commands"@,
        PermissionMode::AcceptEdits => "auto-accept file edits, ask before commands"@,
        PermissionMode::Plan => "read-only; no edits or commands"@,
        PermissionMode::BypassPermissions => "run everything without asking"@,
    }
}

impl PermissionMode {
    pub fn as_str(self) -> (r: &'static str)
        ensures
            r@ == mode_name(self),
    {
        match self {
            PermissionMode::Default => "default",
            PermissionMode::AcceptEdits => "acceptEdits",
            PermissionMode::Plan => "plan",
            PermissionMode::BypassPermissions => "bypassPermissions",
        }
    }

    pub fn parse(s: &str) -> (r: Option<Self>)
        ensures
            r == mode_named(text::trimmed(s@)),
    {
        let t = text::trim(s);
        if text::same(&t, "default") {
            Some(PermissionMode::Default)
        } else if text::same(&t, "acceptEdits") || text::same(&t, "accept-edits") {
            Some(PermissionMode::AcceptEdits)
        } else if text::same(&t, "plan") {
            Some(PermissionMode::Plan)
        } else if text::same(&t, "bypassPermissions") || text::same(&t, "bypass-permissions")
            || text::same(&t, "yolo") {
            Some(PermissionMode::BypassPermissions)
        } else {
            None
        }
    }

    pub fn all() -> (r: [Self; 4])
        ensures
            r@ == seq![
                PermissionMode::Default,
                PermissionMode::AcceptEdits,
                PermissionMode::Plan,
                PermissionMode::BypassPermissions,
            ],
    {
        [
            PermissionMode::Default,
            PermissionMode::AcceptEdits,
            PermissionMode::Plan,
            PermissionMode::BypassPermissions,
        ]
    }

    /// One-line explanation shown in the mode picker.
    pub fn describe(self) -> (r: &'static str)
        ensures
            r@ == mode_description(self),
    {
        match self {
            PermissionMode::Default => "ask before edits and commands",
            PermissionMode::AcceptEdits => "auto-accept file edits, ask before commands",
            PermissionMode::Plan => "read-only; no edits or commands",
            PermissionMode::BypassPermissions => "run everything without asking",
        }
    }
}

/// Every mode is read back from its own name.
pub proof fn law_mode_name_round_trip(mode: PermissionMode)
    ensures
        mode_named(text::trimmed(mode_name(mode))) == Some(mode),
{
    reveal_strlit("default");
    reveal_strlit("acceptEdits");
    reveal_strlit("accept-edits");
    reveal_strlit("plan");
    reveal_strlit("bypassPermissions");
    reveal_strlit("bypass-permissions");
    reveal_strlit("yolo");
    let s = mode_name(mode);
    assert(!text::is_white(s[0]));
    assert(!text::is_white(s.last()));
    assert(text::trimmed(s) == s);
    assert("acceptEdits"@[6] != "default"@[6]);
    assert("plan"@.len() != "default"@.len());
}

/// The three lists of permission rules.
#[derive(Debug, Clone)]
pub struct PermissionRules {
    pub allow: Vec<String>,
    pub deny: Vec<String>,
    pub ask: Vec<String>,
}

impl Default for PermissionRules {
    fn default() -> (r: Self)
        ensures
            r.allow@.len() == 0 && r.deny@.len() == 0 && r.ask@.len() == 0,
    {
        PermissionRules { allow: Vec::new(), deny: Vec::new(), ask: Vec::new() }
    }
}


// ---------------------------------------------------------------------------
// Layers
// ---------------------------------------------------------------------------

#[derive(Debug)]
pub struct McpServerConfig {
    /// Executable to spawn. Only stdio transport is supported.
    pub command: String,
    pub args: Vec<String>,
    pub env: Table<String>,
    /// Keep the server configured but do not start it.
    pub disabled: bool,
}

#[derive(Debug)]
pub struct HookConfig {
    /// Regex matched against the tool name. Absent means "every tool".
    pub matcher: Option<String>,
    /// Shell command to run. Receives the event JSON on stdin.
    pub command: String,
    pub timeout_secs: u64,
}

/// The timeout of a hook that sets none, in seconds.
pub const DEFAULT_HOOK_TIMEOUT: u64 = 30;

/// One layer of configuration. Every field is optional so that merging can
/// distinguish "unset" from "set to the default".
#[derive(Debug)]
pub struct ConfigFile {
    pub model: Option<String>,
    pub base_url: Option<String>,
    pub max_tokens: Option<u32>,
    /// The bits of a single-precision number.
    pub temperature: Option<u32>,
    pub reasoning_effort: Option<String>,
    pub permission_mode: Option<String>,
    /// The bits of a single-precision number.
    pub auto_compact_threshold: Option<u32>,
    pub max_tool_iterations: Option<u32>,
    pub theme: Option<String>,
    pub permissions: Option<PermissionRules>,
    pub mcp_servers: Option<Table<McpServerConfig>>,
    pub hooks: Option<Table<Vec<HookConfig>>>,
}

impl Default for ConfigFile {
    fn default() -> (r: Self)
        ensures
            r == empty_layer(),
    {
        ConfigFile {
            model: None,
            base_url: None,
            max_tokens: None,
            temperature: None,
            reasoning_effort: None,
            permission_mode: None,
            auto_compact_threshold: None,
            max_tool_iterations: None,
            theme: None,
            permissions: None,
            mcp_servers: None,
            hooks: None,
        }
    }
}

/// A layer that sets nothing.
pub open spec fn empty_layer() -> ConfigFile {
    ConfigFile {
        model: None,
        base_url: None,
        max_tokens: None,
        temperature: None,
        reasoning_effort: None,
        permission_mode: None,
        auto_compact_threshold: None,
        max_tool_iterations: None,
        theme: None,
        permissions: None,
        mcp_servers: None,
        hooks: None,
    }
}

/// A later value wins over an earlier one, and an unset one over nothing.
pub open spec fn later<T>(base: Option<T>, next: Option<T>) -> Option<T> {
    if next is Some {
        next
    } else {
        base
    }
}

pub open spec fn allow_rules(p: Option<PermissionRules>) -> Seq<String> {
    match p {
        Some(r) => r.allow@,
        None => Seq::empty(),
    }
}

pub open spec fn deny_rules(p: Option<PermissionRules>) -> Seq<String> {
    match p {
        Some(r) => r.deny@,
        None => Seq::empty(),
    }
}

pub open spec fn ask_rules(p: Option<PermissionRules>) -> Seq<String> {
    match p {
        Some(r) => r.ask@,
        None => Seq::empty(),
    }
}

/// The values of an optional table.
pub open spec fn opt_map<V>(t: Option<Table<V>>) -> Map<Seq<char>, V> {
    match t {
        Some(t) => t@,
        None => Map::empty(),
    }
}

pub open spec fn opt_wf<V>(t: Option<Table<V>>) -> bool {
    t matches Some(t) ==> t.wf()
}

impl ConfigFile {
    pub open spec fn wf(&self) -> bool {
        opt_wf(self.mcp_servers) && opt_wf(self.hooks)
    }
}

/// Whether `r` is `next` merged over `base`: scalars are overridden where they
/// are set, rules and hooks accumulate, and a server of the same name is
/// replaced.
pub open spec fn is_merged(base: ConfigFile, next: ConfigFile, r: ConfigFile) -> bool {
    &&& r.model == later(base.model, next.model)
    &&& r.base_url == later(base.base_url, next.base_url)
    &&& r.max_tokens == later(base.max_tokens, next.max_tokens)
    &&& r.temperature == later(base.temperature, next.temperature)
    &&& r.reasoning_effort == later(base.reasoning_effort, next.reasoning_effort)
    &&& r.permission_mode == later(base.permission_mode, next.permission_mode)
    &&& r.auto_compact_threshold == later(base.auto_compact_threshold, next.auto_compact_threshold)
    &&& r.max_tool_iterations == later(base.max_tool_iterations, next.max_tool_iterations)
    &&& r.theme == later(base.theme, next.theme)
    &&& (r.permissions is Some) == (base.permissions is Some || next.permissions is Some)
    &&& allow_rules(r.permissions) == allow_rules(base.permissions) + allow_rules(next.permissions)
    &&& deny_rules(r.permissions) == deny_rules(base.permissions) + deny_rules(next.permissions)
    &&& ask_rules(r.permissions) == ask_rules(base.permissions) + ask_rules(next.permissions)
    &&& (r.mcp_servers is Some) == (base.mcp_servers is Some || next.mcp_servers is Some)
    &&& opt_map(r.mcp_servers) == opt_map(base.mcp_servers).union_prefer_right(
        opt_map(next.mcp_servers),
    )
    &&& (r.hooks is Some) == (base.hooks is Some || next.hooks is Some)
    &&& opt_map(r.hooks).dom() == opt_map(base.hooks).dom().union(opt_map(next.hooks).dom())
    &&& forall|event: Seq<char>| #[trigger]
        list_at(opt_map(r.hooks), event) == list_at(opt_map(base.hooks), event) + list_at(
            opt_map(next.hooks),
            event,
        )
}

fn merge_rules(base: Option<PermissionRules>, next: Option<PermissionRules>) -> (r: Option<
    PermissionRules,
>)
    ensures
        (r is Some) == (base is Some || next is Some),
        allow_rules(r) == allow_rules(base) + allow_rules(next),
        deny_rules(r) == deny_rules(base) + deny_rules(next),
        ask_rules(r) == ask_rules(base) + ask_rules(next),
{
    match next {
        None => {
            assert(allow_rules(base) + Seq::<String>::empty() =~= allow_rules(base));
            assert(deny_rules(base) + Seq::<String>::empty() =~= deny_rules(base));
            assert(ask_rules(base) + Seq::<String>::empty() =~= ask_rules(base));
            base
        },
        Some(n) => {
            let mut perms = match base {
                Some(p) => p,
                None => PermissionRules::default(),
            };
            let mut n = n;
            assert(perms.allow@ =~= allow_rules(base));
            assert(perms.deny@ =~= deny_rules(base));
            assert(perms.ask@ =~= ask_rules(base));
            perms.allow.append(&mut n.allow);
            perms.deny.append(&mut n.deny);
            perms.ask.append(&mut n.ask);
            Some(perms)
        },
    }
}

fn merge_servers(
    base: Option<Table<McpServerConfig>>,
    next: Option<Table<McpServerConfig>>,
) -> (r: Option<Table<McpServerConfig>>)
    requires
        opt_wf(base),
        opt_wf(next),
    ensures
        opt_wf(r),
        (r is Some) == (base is Some || next is Some),
        opt_map(r) == opt_map(base).union_prefer_right(opt_map(next)),
{
    match next {
        None => {
            assert(opt_map(base).union_prefer_right(Map::<Seq<char>, McpServerConfig>::empty())
                =~= opt_map(base));
            base
        },
        Some(n) => {
            let mut t = match base {
                Some(t) => t,
                None => Table::new(),
            };
            t.extend(n);
            Some(t)
        },
    }
}

fn merge_hooks(
    base: Option<Table<Vec<HookConfig>>>,
    next: Option<Table<Vec<HookConfig>>>,
) -> (r: Option<Table<Vec<HookConfig>>>)
    requires
        opt_wf(base),
        opt_wf(next),
    ensures
        opt_wf(r),
        (r is Some) == (base is Some || next is Some),
        opt_map(r).dom() == opt_map(base).dom().union(opt_map(next).dom()),
        forall|event: Seq<char>| #[trigger]
            list_at(opt_map(r), event) == list_at(opt_map(base), event) + list_at(
                opt_map(next),
                event,
            ),
{
    match next {
        None => {
            proof {
                assert(opt_map(base).dom().union(opt_map(next).dom()) =~= opt_map(base).dom());
                assert forall|event: Seq<char>| #[trigger]
                    list_at(opt_map(base), event) == list_at(opt_map(base), event) + list_at(
                        opt_map(next),
                        event,
                    ) by {
                    assert(list_at(opt_map(base), event) + Seq::<HookConfig>::empty() =~= list_at(
                        opt_map(base),
                        event,
                    ));
                }
            }
            base
        },
        Some(n) => {
            let mut t = match base {
                Some(t) => t,
                None => Table::new(),
            };
            t.append_lists(n);
            Some(t)
        },
    }
}

fn pick<T>(base: Option<T>, next: Option<T>) -> (r: Option<T>)
    ensures
        r == later(base, next),
{
    match next {
        Some(v) => Some(v),
        None => base,
    }
}

/// Merge `next` over `base`, field by field.
///
/// Collections concatenate rather than replace: a project file adding one
/// allow-rule does not drop the user's global rules.
pub fn merge(base: ConfigFile, next: ConfigFile) -> (r: ConfigFile)
    requires
        base.wf(),
        next.wf(),
    ensures
        r.wf(),
        is_merged(base, next, r),
{
    ConfigFile {
        model: pick(base.model, next.model),
        base_url: pick(base.base_url, next.base_url),
        max_tokens: pick(base.max_tokens, next.max_tokens),
        temperature: pick(base.temperature, next.temperature),
        reasoning_effort: pick(base.reasoning_effort, next.reasoning_effort),
        permission_mode: pick(base.permission_mode, next.permission_mode),
        auto_compact_threshold: pick(base.auto_compact_threshold, next.auto_compact_threshold),
        max_tool_iterations: pick(base.max_tool_iterations, next.max_tool_iterations),
        theme: pick(base.theme, next.theme),
        permissions: merge_rules(base.permissions, next.permissions),
        mcp_servers: merge_servers(base.mcp_servers, next.mcp_servers),
        hooks: merge_hooks(base.hooks, next.hooks),
    }
}

/// A layer that sets nothing changes nothing: every scalar keeps its value, and
/// no rule, server or hook comes or goes.
pub proof fn law_unset_layer_changes_nothing(base: ConfigFile, r: ConfigFile)
    requires
        is_merged(base, empty_layer(), r),
    ensures
        r.model == base.model,
        r.base_url == base.base_url,
        r.max_tokens == base.max_tokens,
        r.temperature == base.temperature,
        r.reasoning_effort == base.reasoning_effort,
        r.permission_mode == base.permission_mode,
        r.auto_compact_threshold == base.auto_compact_threshold,
        r.max_tool_iterations == base.max_tool_iterations,
        r.theme == base.theme,
        allow_rules(r.permissions) == allow_rules(base.permissions),
        deny_rules(r.permissions) == deny_rules(base.permissions),
        ask_rules(r.permissions) == ask_rules(base.permissions),
        opt_map(r.mcp_servers) == opt_map(base.mcp_servers),
        opt_map(r.hooks).dom() == opt_map(base.hooks).dom(),
        forall|event: Seq<char>| #[trigger]
            list_at(opt_map(r.hooks), event) == list_at(opt_map(base.hooks), event),
{
    let none: Option<Table<Vec<HookConfig>>> = None;
    assert(opt_map(base.hooks).dom().union(opt_map(none).dom()) =~= opt_map(base.hooks).dom());
    assert forall|event: Seq<char>| #[trigger]
        list_at(opt_map(r.hooks), event) == list_at(opt_map(base.hooks), event) by {
        assert(list_at(opt_map(base.hooks), event) + list_at(opt_map(none), event) =~= list_at(
            opt_map(base.hooks),
            event,
        ));
    }
    assert(allow_rules(base.permissions) + Seq::<String>::empty() =~= allow_rules(
        base.permissions,
    ));
    assert(deny_rules(base.permissions) + Seq::<String>::empty() =~= deny_rules(base.permissions));
    assert(ask_rules(base.permissions) + Seq::<String>::empty() =~= ask_rules(base.permissions));
    assert(opt_map(base.mcp_servers).union_prefer_right(
        Map::<Seq<char>, McpServerConfig>::empty(),
    ) =~= opt_map(base.mcp_servers));
}

/// No layer can drop a deny rule of an earlier one.
pub proof fn law_deny_rules_accumulate(
    base: ConfigFile,
    next: ConfigFile,
    r: ConfigFile,
    rule: String,
)
    requires
        is_merged(base, next, r),
        deny_rules(base.permissions).contains(rule),
    ensures
        deny_rules(r.permissions).contains(rule),
{
    let a = deny_rules(base.permissions);
    let i = choose|i: int| 0 <= i < a.len() && a[i] == rule;
    assert(deny_rules(r.permissions)[i] == rule);
}

/// The least fraction of the window at which compaction triggers: a tenth.
pub const LEAST_THRESHOLD: u32 = 0x3dcc_cccd;

/// The greatest: 98 percent.
pub const GREATEST_THRESHOLD: u32 = 0x3f7a_e148;

/// The one that holds where no layer sets one: 85 percent.
pub const DEFAULT_THRESHOLD: u32 = 0x3f59_999a;

/// Whether the bits of a single-precision number stand for no number.
pub open spec fn is_nan(bits: u32) -> bool {
    bits % 0x8000_0000 > 0x7f80_0000
}

/// Whether bits are those of a resolved threshold. One that is set to no number
/// stays what it is.
pub open spec fn is_threshold(bits: u32) -> bool {
    is_nan(bits) || LEAST_THRESHOLD <= bits <= GREATEST_THRESHOLD
}

/// A threshold, brought between the least and the greatest. The bits of positive
/// numbers are in the order of the numbers.
pub open spec fn threshold(set: Option<u32>) -> u32 {
    match set {
        None => DEFAULT_THRESHOLD,
        Some(bits) => if is_nan(bits) {
            bits
        } else if bits >= 0x8000_0000 || bits < LEAST_THRESHOLD {
            LEAST_THRESHOLD
        } else if bits > GREATEST_THRESHOLD {
            GREATEST_THRESHOLD
        } else {
            bits
        },
    }
}

/// The whole part of a window times a threshold, and nothing where the
/// threshold is no number. The bits hold a fraction of 23 digits behind a one,
/// and above them the power of two that the one stands at, counted from 127 less
/// than it.
pub open spec fn compaction_point(window: nat, bits: u32) -> nat {
    if is_nan(bits) {
        0
    } else {
        window * (0x80_0000 + bits as nat % 0x80_0000) / pow2((150 - bits as int / 0x80_0000) as nat)
    }
}

/// A threshold, brought between the least and the greatest.
fn clamp_threshold(set: Option<u32>) -> (r: u32)
    ensures
        r == threshold(set),
        is_threshold(r),
{
    match set {
        None => DEFAULT_THRESHOLD,
        Some(bits) => if bits % 0x8000_0000 > 0x7f80_0000 {
            bits
        } else if bits >= 0x8000_0000 || bits < LEAST_THRESHOLD {
            LEAST_THRESHOLD
        } else if bits > GREATEST_THRESHOLD {
            GREATEST_THRESHOLD
        } else {
            bits
        },
    }
}

/// The conversation is compacted before it fills the window, and not before it
/// fills a tenth of it, whatever number is set.
pub proof fn law_compaction_comes_in_time(window: nat, set: Option<u32>)
    requires
        window > 0,
        set matches Some(bits) ==> !is_nan(bits),
    ensures
        compaction_point(window, threshold(set)) < window,
        10 * (compaction_point(window, threshold(set)) + 1) > window,
{
    vstd::arithmetic::power2::lemma2_to64();
    let bits = threshold(set);
    let m = (0x80_0000 + bits as nat % 0x80_0000) as nat;
    let e = bits as int / 0x80_0000;
    let d = pow2((150 - e) as nat);
    assert(123 <= e <= 126);
    assert(e == 123 ==> d == 0x800_0000);
    assert(e == 124 ==> d == 0x400_0000);
    assert(e == 125 ==> d == 0x200_0000);
    assert(e == 126 ==> d == 0x100_0000);
    assert(10 * m >= d);
    assert(m < d);
    assert(window * m / d < window && 10 * (window * m / d + 1) > window) by (nonlinear_arith)
        requires
            window > 0,
            m < d,
            10 * m >= d,
            d > 0,
    {
        let q = window * m / d;
        let r = (window * m) % d;
        assert(window * m == d * q + r && 0 <= r < d);
        assert(window * m < window * d);
        assert(q < window) by {
            if q >= window {
                assert(d * q >= d * window);
            }
        }
        assert(10 * (q + 1) > window) by {
            if 10 * (q + 1) <= window {
                assert(10 * (d * (q + 1)) == d * (10 * (q + 1)));
                assert(d * (10 * (q + 1)) <= d * window);
                assert(d * (q + 1) == d * q + d);
                assert(10 * (window * m) < 10 * (d * (q + 1)));
                assert(10 * (window * m) == window * (10 * m));
                assert(window * (10 * m) >= window * d);
                assert(d * window == window * d);
            }
        }
    }
}

/// Fully resolved configuration used at runtime.
#[derive(Debug)]
pub struct Config {
    pub api_key: String,
    pub model: String,
    pub base_url: String,
    pub max_tokens: Option<u32>,
    /// The bits of a single-precision number.
    pub temperature: Option<u32>,
    pub reasoning_effort: Option<String>,
    pub permission_mode: PermissionMode,
    /// Fraction of the context window at which compaction triggers, as the bits
    /// of a single-precision number.
    pub auto_compact_threshold: u32,
    /// Safety valve on runaway tool loops within a single user turn.
    pub max_tool_iterations: u32,
    pub theme: String,
    pub permissions: PermissionRules,
    pub mcp_servers: Table<McpServerConfig>,
    pub hooks: Table<Vec<HookConfig>>,
    /// Directory the agent treats as the project root.
    pub workspace: String,
}

impl Config {
    pub open spec fn wf(&self) -> bool {
        &&& self.mcp_servers.wf()
        &&& self.hooks.wf()
        &&& self.max_tool_iterations >= 1
        &&& is_threshold(self.auto_compact_threshold)
    }

    /// Token count at which the agent should compact before the next request.
    pub fn compact_at(&self) -> (r: u64)
        requires
            is_threshold(self.auto_compact_threshold),
        ensures
            r == compaction_point(
                model_entry(model_table(), self.model@).1 as nat,
                self.auto_compact_threshold,
            ),
    {
        let window: u64 = self.context_window();
        proof {
            law_every_model_has_a_window(self.model@);
            vstd::arithmetic::power2::lemma2_to64();
        }
        let bits: u32 = self.auto_compact_threshold;
        if bits % 0x8000_0000 > 0x7f80_0000 {
            return 0;
        }
        let digits: u64 = (0x80_0000 + bits % 0x80_0000) as u64;
        let exponent: u32 = bits / 0x80_0000;
        let divisor: u64 = if exponent == 126 {
            0x100_0000
        } else if exponent == 125 {
            0x200_0000
        } else if exponent == 124 {
            0x400_0000
        } else {
            0x800_0000
        };
        assert(window * digits <= 2_000_000 * 0x100_0000) by (nonlinear_arith)
            requires
                window <= 2_000_000,
                digits <= 0x100_0000,
        ;
        window * digits / divisor
    }

    pub fn context_window(&self) -> (r: u64)
        ensures
            r == model_entry(model_table(), self.model@).1,
    {
        model_info(&self.model).context_window
    }
}

/// Overrides supplied on the command line. Applied last.
#[derive(Debug)]
pub struct CliOverrides {
    pub model: Option<String>,
    pub base_url: Option<String>,
    pub permission_mode: Option<PermissionMode>,
    pub max_tokens: Option<u32>,
}

/// What the environment sets.
#[derive(Debug)]
pub struct Environment {
    pub api_key: Option<String>,
    pub model: Option<String>,
    pub base_url: Option<String>,
}

/// A text that counts only where it is not empty.
pub open spec fn if_set(s: Option<String>) -> Option<Seq<char>> {
    match s {
        Some(t) => if t@.len() > 0 {
            Some(t@)
        } else {
            None
        },
        None => None,
    }
}

/// The first of three texts that is there, from the command line, the
/// environment and the files, else a default.
pub open spec fn chosen(
    cli: Option<String>,
    env: Option<String>,
    file: Option<String>,
    default: Seq<char>,
) -> Seq<char> {
    match cli {
        Some(t) => t@,
        None => match if_set(env) {
            Some(t) => t,
            None => match file {
                Some(t) => t@,
                None => default,
            },
        },
    }
}

fn choose_text(
    cli: &Option<String>,
    env: &Option<String>,
    file: &Option<String>,
    default: &str,
) -> (r: String)
    ensures
        r@ == chosen(*cli, *env, *file, default@),
{
    match cli {
        Some(t) => {
            return t.clone();
        },
        None => {},
    }
    match env {
        Some(t) => {
            if !t.as_str().is_empty() {
                return t.clone();
            }
        },
        None => {},
    }
    match file {
        Some(t) => t.clone(),
        None => default.to_owned(),
    }
}

/// The mode that is in force: from the command line, else from the files, else
/// the default. A name in a file that stands for no mode counts as unset.
pub open spec fn chosen_mode(cli: Option<PermissionMode>, file: Option<String>) -> PermissionMode {
    match cli {
        Some(m) => m,
        None => match file {
            Some(s) => match mode_named(text::trimmed(s@)) {
                Some(m) => m,
                None => PermissionMode::Default,
            },
            None => PermissionMode::Default,
        },
    }
}

/// Resolve the effective configuration for `workspace` from the merged files,
/// the environment and the command line, the later winning over the earlier.
pub fn load(
    workspace: &str,
    merged: ConfigFile,
    env: &Environment,
    overrides: &CliOverrides,
) -> (r: Config)
    requires
        merged.wf(),
    ensures
        r.wf(),
        r.api_key@ == (match env.api_key {
            Some(k) => k@,
            None => Seq::empty(),
        }),
        r.model@ == chosen(overrides.model, env.model, merged.model, DEFAULT_MODEL@),
        r.base_url@ == chosen(
            overrides.base_url,
            env.base_url,
            merged.base_url,
            crate::api::client::DEFAULT_BASE_URL@,
        ),
        r.max_tokens == later(merged.max_tokens, overrides.max_tokens),
        r.temperature == merged.temperature,
        r.reasoning_effort == merged.reasoning_effort,
        r.permission_mode == chosen_mode(overrides.permission_mode, merged.permission_mode),
        r.auto_compact_threshold == threshold(merged.auto_compact_threshold),
        r.max_tool_iterations == (match merged.max_tool_iterations {
            Some(n) => if n >= 1 {
                n
            } else {
                1
            },
            None => 60,
        }),
        r.theme@ == (match merged.theme {
            Some(t) => t@,
            None => "dark"@,
        }),
        r.permissions.allow@ == allow_rules(merged.permissions),
        r.permissions.deny@ == deny_rules(merged.permissions),
        r.permissions.ask@ == ask_rules(merged.permissions),
        r.mcp_servers@ == opt_map(merged.mcp_servers),
        r.hooks@ == opt_map(merged.hooks),
        r.workspace@ == workspace@,
{
    let permission_mode = match overrides.permission_mode {
        Some(m) => m,
        None => match &merged.permission_mode {
            Some(s) => match PermissionMode::parse(s) {
                Some(m) => m,
                None => PermissionMode::Default,
            },
            None => PermissionMode::Default,
        },
    };
    let model = choose_text(&overrides.model, &env.model, &merged.model, DEFAULT_MODEL);
    let base_url = choose_text(
        &overrides.base_url,
        &env.base_url,
        &merged.base_url,
        crate::api::client::DEFAULT_BASE_URL,
    );
    let permissions = match merged.permissions {
        Some(p) => p,
        None => PermissionRules::default(),
    };
    assert(permissions.allow@ =~= allow_rules(merged.permissions));
    assert(permissions.deny@ =~= deny_rules(merged.permissions));
    assert(permissions.ask@ =~= ask_rules(merged.permissions));
    Config {
        api_key: match &env.api_key {
            Some(k) => k.clone(),
            None => String::new(),
        },
        model,
        base_url,
        max_tokens: match overrides.max_tokens {
            Some(t) => Some(t),
            None => merged.max_tokens,
        },
        temperature: merged.temperature,
        reasoning_effort: merged.reasoning_effort,
        permission_mode,
        auto_compact_threshold: clamp_threshold(merged.auto_compact_threshold),
        max_tool_iterations: match merged.max_tool_iterations {
            Some(n) => if n >= 1 {
                n
            } else {
                1
            },
            None => 60,
        },
        theme: match merged.theme {
            Some(t) => t,
            None => "dark".to_owned(),
        },
        permissions,
        mcp_servers: match merged.mcp_servers {
            Some(t) => t,
            None => Table::new(),
        },
        hooks: match merged.hooks {
            Some(t) => t,
            None => Table::new(),
        },
        workspace: workspace.to_owned(),
    }
}

// ---------------------------------------------------------------------------
// Directories
// ---------------------------------------------------------------------------

/// The user-wide configuration directory, below the home directory.
pub fn user_config_dir(home: Option<&str>) -> (r: Option<String>)
    ensures
        match home {
            Some(h) => r matches Some(d) && d@ == util::below(h@, CONFIG_DIR_NAME@),
            None => r is None,
        },
{
    match home {
        Some(h) => Some(util::join_path(h, CONFIG_DIR_NAME)),
        None => None,
    }
}

pub fn project_config_dir(workspace: &str) -> (r: String)
    ensures
        r@ == util::below(workspace@, CONFIG_DIR_NAME@),
{
    util::join_path(workspace, CONFIG_DIR_NAME)
}

/// The directories named `name` of the user and of the project, in this order,
/// so that project files win.
pub open spec fn layered(home: Option<Seq<char>>, workspace: Seq<char>, name: Seq<char>) -> Seq<
    Seq<char>,
> {
    let project = util::below(util::below(workspace, CONFIG_DIR_NAME@), name);
    match home {
        Some(h) => seq![util::below(util::below(h, CONFIG_DIR_NAME@), name), project],
        None => seq![project],
    }
}

/// The directories named `name` of the user and of the project, in this order.
pub fn layered_dirs(home: Option<&str>, workspace: &str, name: &str) -> (r: Vec<String>)
    ensures
        text::views(r@) == layered(opt_str(home), workspace@, name@),
{
    let mut out: Vec<String> = Vec::new();
    match user_config_dir(home) {
        Some(d) => out.push(util::join_path(&d, name)),
        None => {},
    }
    out.push(util::join_path(&project_config_dir(workspace), name));
    assert(text::views(out@) =~= layered(opt_str(home), workspace@, name@));
    out
}

/// Where session transcripts live for a given workspace.
pub open spec fn sessions_path(home: Seq<char>, workspace: Seq<char>) -> Seq<char> {
    util::below(
        util::below(util::below(home, CONFIG_DIR_NAME@), "projects"@),
        slug(workspace),
    )
}

/// Where session transcripts live for a given workspace.
pub fn sessions_dir(home: Option<&str>, workspace: &str) -> (r: Option<String>)
    ensures
        match home {
            Some(h) => r matches Some(d) && d@ == sessions_path(h@, workspace@),
            None => r is None,
        },
{
    match user_config_dir(home) {
        Some(d) => Some(
            util::join_path(&util::join_path(&d, "projects"), &slugify_path(workspace)),
        ),
        None => None,
    }
}

/// Whether a character may stand in a directory name as it is.
pub open spec fn is_slug_char(c: char) -> bool {
    ('a' <= c <= 'z') || ('A' <= c <= 'Z') || ('0' <= c <= '9') || c == '.' || c == '-' || c == '_'
}

/// A character, or a dash for one that may not stand in a directory name.
pub open spec fn slug_char(c: char) -> char {
    if is_slug_char(c) {
        c
    } else {
        '-'
    }
}

/// `s` without the dashes at its start.
pub open spec fn no_leading_dash(s: Seq<char>) -> Seq<char>
    decreases s.len(),
{
    if s.len() > 0 && s[0] == '-' {
        no_leading_dash(s.skip(1))
    } else {
        s
    }
}

/// `s` without the dashes at its end.
pub open spec fn no_trailing_dash(s: Seq<char>) -> Seq<char>
    decreases s.len(),
{
    if s.len() > 0 && s.last() == '-' {
        no_trailing_dash(s.drop_last())
    } else {
        s
    }
}

/// The directory name that stands for a path.
pub open spec fn slug(path: Seq<char>) -> Seq<char> {
    no_trailing_dash(no_leading_dash(path.map_values(|c: char| slug_char(c))))
}

/// Turn an absolute path into a filesystem-safe directory name.
pub fn slugify_path(path: &str) -> (r: String)
    ensures
        r@ == slug(path@),
{
    let v = text::chars_of(path);
    let ghost mapped = path@.map_values(|c: char| slug_char(c));
    let mut out: Vec<char> = Vec::new();
    let mut i: usize = 0;
    while i < v.len()
        invariant
            i <= v.len(),
            v@ == path@,
            mapped == path@.map_values(|c: char| slug_char(c)),
            out@ == mapped.take(i as int),
        decreases v.len() - i,
    {
        let c = v[i];
        let keep = ('a' <= c && c <= 'z') || ('A' <= c && c <= 'Z') || ('0' <= c && c <= '9') || c
            == '.' || c == '-' || c == '_';
        out.push(if keep { c } else { '-' });
        i += 1;
        assert(out@ =~= mapped.take(i as int));
    }
    assert(mapped.take(mapped.len() as int) =~= mapped);
    let mut a: usize = 0;
    assert(out@.skip(0) =~= out@);
    while a < out.len() && out[a] == '-'
        invariant
            a <= out.len(),
            no_leading_dash(out@.skip(a as int)) == no_leading_dash(out@),
        decreases out.len() - a,
    {
        assert(out@.skip(a as int).skip(1) =~= out@.skip(a + 1));
        a += 1;
    }
    let ghost rest = out@.skip(a as int);
    let mut b: usize = out.len();
    assert(rest.take(rest.len() as int) =~= rest);
    while b > a && out[b - 1] == '-'
        invariant
            a <= b <= out.len(),
            rest == out@.skip(a as int),
            no_trailing_dash(rest.take(b - a)) == no_trailing_dash(rest),
        decreases b,
    {
        assert(rest.take(b - a).drop_last() =~= rest.take(b - a - 1));
        b -= 1;
    }
    assert(out@.subrange(a as int, b as int) =~= rest.take(b - a));
    text::string_between(&out, a, b)
}

proof fn lemma_slug_parts(s: Seq<char>)
    ensures
        forall|i: int|
            0 <= i < no_leading_dash(s).len() ==> s.contains(#[trigger] no_leading_dash(s)[i]),
        forall|i: int|
            0 <= i < no_trailing_dash(s).len() ==> s.contains(#[trigger] no_trailing_dash(s)[i]),
        no_leading_dash(s).len() > 0 ==> no_leading_dash(s)[0] != '-',
        no_trailing_dash(s).len() > 0 ==> no_trailing_dash(s).last() != '-' && no_trailing_dash(
            s,
        )[0] == s[0],
    decreases s.len(),
{
    if s.len() > 0 {
        if s[0] == '-' {
            let t = s.skip(1);
            lemma_slug_parts(t);
            assert forall|i: int| 0 <= i < no_leading_dash(s).len() implies s.contains(
                #[trigger] no_leading_dash(s)[i],
            ) by {
                let c = no_leading_dash(t)[i];
                let k = choose|k: int| 0 <= k < t.len() && t[k] == c;
                assert(s[k + 1] == c);
            }
        }
        if s.last() == '-' {
            let t = s.drop_last();
            lemma_slug_parts(t);
            assert forall|i: int| 0 <= i < no_trailing_dash(s).len() implies s.contains(
                #[trigger] no_trailing_dash(s)[i],
            ) by {
                let c = no_trailing_dash(t)[i];
                let k = choose|k: int| 0 <= k < t.len() && t[k] == c;
                assert(s[k] == c);
            }
        }
    }
}

/// A directory name made of a path holds only letters, digits, dots, dashes and
/// underscores, and neither begins nor ends with a dash.
pub proof fn law_slug_is_safe(path: Seq<char>)
    ensures
        forall|i: int| 0 <= i < slug(path).len() ==> is_slug_char(#[trigger] slug(path)[i]),
        slug(path).len() > 0 ==> slug(path)[0] != '-' && slug(path).last() != '-',
{
    let mapped = path.map_values(|c: char| slug_char(c));
    let mid = no_leading_dash(mapped);
    lemma_slug_parts(mapped);
    lemma_slug_parts(mid);
    assert forall|i: int| 0 <= i < slug(path).len() implies is_slug_char(
        #[trigger] slug(path)[i],
    ) by {
        let c = slug(path)[i];
        assert(mid.contains(c));
        let k = choose|k: int| 0 <= k < mid.len() && mid[k] == c;
        assert(mapped.contains(mid[k]));
        let j = choose|j: int| 0 <= j < mapped.len() && mapped[j] == c;
        assert(mapped[j] == slug_char(path[j]));
    }
}

// ---------------------------------------------------------------------------
// Project memory (GROK.md)
// ---------------------------------------------------------------------------

/// A discovered memory file and its contents.
#[derive(Debug)]
pub struct MemoryFile {
    pub path: String,
    pub content: String,
}

pub open spec fn opt_str(s: Option<&str>) -> Option<Seq<char>> {
    match s {
        Some(t) => Some(t@),
        None => None,
    }
}

/// The directories that apply to a workspace, outermost first, up to the home
/// directory.
pub open spec fn memory_dirs(workspace: Seq<char>, home: Option<Seq<char>>) -> Seq<Seq<char>> {
    util::ancestors(workspace, home).reverse()
}

/// Where memory files may lie: the user-wide one, then from the outermost
/// directory to the workspace, so that the most specific instructions come last.
pub open spec fn memory_paths(workspace: Seq<char>, home: Option<Seq<char>>) -> Seq<Seq<char>> {
    (match home {
        Some(h) => seq![util::below(util::below(h, CONFIG_DIR_NAME@), MEMORY_FILE_NAME@)],
        None => Seq::empty(),
    }) + memory_dirs(workspace, home).map_values(
        |d: Seq<char>| util::below(d, MEMORY_FILE_NAME@),
    )
}

/// Where the memory files that apply to `workspace` may lie, in order.
pub fn memory_candidates(workspace: &str, home: Option<&str>) -> (r: Vec<String>)
    ensures
        text::views(r@) == memory_paths(workspace@, opt_str(home)),
{
    let mut out: Vec<String> = Vec::new();
    match user_config_dir(home) {
        Some(d) => {
            out.push(util::join_path(&d, MEMORY_FILE_NAME));
        },
        None => {},
    }
    let ghost head = text::views(out@);
    let chain = util::ancestor_list(workspace, home);
    let ghost up = util::ancestors(workspace@, opt_str(home));
    let ghost named = up.reverse().map_values(|d: Seq<char>| util::below(d, MEMORY_FILE_NAME@));
    let mut i: usize = 0;
    assert(head + named.take(0) =~= head);
    while i < chain.len()
        invariant
            i <= chain.len(),
            up == text::views(chain@),
            named == up.reverse().map_values(|d: Seq<char>| util::below(d, MEMORY_FILE_NAME@)),
            text::views(out@) == head + named.take(i as int),
        decreases chain.len() - i,
    {
        let dir = &chain[chain.len() - 1 - i];
        proof {
            assert(up[up.len() - 1 - i] == dir@);
            assert(named[i as int] == util::below(dir@, MEMORY_FILE_NAME@));
        }
        let ghost before = text::views(out@);
        let p = util::join_path(dir, MEMORY_FILE_NAME);
        let ghost pv = p@;
        out.push(p);
        assert(text::views(out@) =~= before.push(pv));
        i += 1;
        assert(text::views(out@) =~= head + named.take(i as int));
    }
    assert(named.take(named.len() as int) =~= named);
    assert(head =~= match opt_str(home) {
        Some(h) => seq![util::below(util::below(h, CONFIG_DIR_NAME@), MEMORY_FILE_NAME@)],
        None => Seq::empty(),
    });
    out
}

/// The memory files among candidates, of which `contents` tells what could be
/// read: each path once, and only files that are not blank.
pub open spec fn memory_found(
    paths: Seq<Seq<char>>,
    contents: Seq<Option<String>>,
) -> Seq<(Seq<char>, Seq<char>)>
    decreases paths.len(),
{
    if paths.len() == 0 {
        Seq::empty()
    } else {
        let before = memory_found(paths.drop_last(), contents);
        let path = paths.last();
        match contents[paths.len() - 1] {
            Some(c) => if text::trimmed(c@).len() > 0 && !has_path(before, path) {
                before.push((path, c@))
            } else {
                before
            },
            None => before,
        }
    }
}

/// Whether a file of the same path is in a list.
pub open spec fn has_path(found: Seq<(Seq<char>, Seq<char>)>, path: Seq<char>) -> bool {
    exists|i: int|
        0 <= i < found.len() && util::components((#[trigger] found[i]).0) == util::components(path)
}

pub open spec fn memory_views(files: Seq<MemoryFile>) -> Seq<(Seq<char>, Seq<char>)> {
    files.map_values(|m: MemoryFile| (m.path@, m.content@))
}

fn known_path(found: &Vec<MemoryFile>, path: &str) -> (r: bool)
    ensures
        r == has_path(memory_views(found@), path@),
{
    let ghost all = memory_views(found@);
    let mut i: usize = 0;
    while i < found.len()
        invariant
            i <= found.len(),
            all == memory_views(found@),
            forall|k: int|
                0 <= k < i ==> util::components((#[trigger] all[k]).0) != util::components(path@),
        decreases found.len() - i,
    {
        assert(all[i as int] == (found@[i as int].path@, found@[i as int].content@));
        if util::same_path(&found[i].path, path) {
            return true;
        }
        i += 1;
    }
    false
}

/// Collect the memory files among `paths`. `contents[i]` is what could be read
/// at `paths[i]`.
pub fn discover_memory(paths: &Vec<String>, contents: &Vec<Option<String>>) -> (r: Vec<MemoryFile>)
    requires
        paths@.len() == contents@.len(),
    ensures
        memory_views(r@) == memory_found(text::views(paths@), contents@),
{
    let ghost all = text::views(paths@);
    let mut out: Vec<MemoryFile> = Vec::new();
    let mut i: usize = 0;
    assert(memory_views(out@) =~= Seq::<(Seq<char>, Seq<char>)>::empty());
    while i < paths.len()
        invariant
            i <= paths.len(),
            paths@.len() == contents@.len(),
            all == text::views(paths@),
            memory_views(out@) == memory_found(all.take(i as int), contents@),
        decreases paths.len() - i,
    {
        proof {
            assert(all.take(i + 1).drop_last() =~= all.take(i as int));
            assert(all[i as int] == paths@[i as int]@);
        }
        match &contents[i] {
            Some(c) => {
                if !known_path(&out, &paths[i]) && !text::trim(c).as_str().is_empty() {
                    let ghost before = memory_views(out@);
                    out.push(MemoryFile { path: paths[i].clone(), content: c.clone() });
                    assert(memory_views(out@) =~= before.push((paths@[i as int]@, c@)));
                }
            },
            None => {},
        }
        i += 1;
    }
    assert(all.take(all.len() as int) =~= all);
    out
}

} // verus!
