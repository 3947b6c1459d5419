//! Command execution: foreground `bash`, plus background shells the model can
//! poll and kill. Processes are started and read by the caller; what is made of
//! their output is decided here.
use vstd::prelude::*;
use vstd::string::StringExecFns;
use crate::json::{uint_field, Json};
use crate::table::Table;
use crate::text;
use crate::tools::fs::{call_line, call_text, is_failure};
use crate::tools::schema::{
    arg_bool, arg_str, arg_str_or, flag_arg, is_schema, param, param_views, required_text, schema,
    str_views, text_or, Param, ParamView,
};
use crate::tools::{ToolInfo, ToolKind, ToolOutcome};
use crate::util;
use crate::util::{lemma_bytes_of_sum, lemma_number_is_short, lemma_plain_bytes, Duration};

verus! {

/// Default wall-clock limit for a foreground command.
pub const DEFAULT_TIMEOUT_SECS: u64 = 120;

/// Ceiling the model cannot exceed, however large a timeout it asks for.
pub const MAX_TIMEOUT_SECS: u64 = 600;

/// Cap on captured output per command, so `yes` cannot exhaust memory.
pub const MAX_OUTPUT_BYTES: usize = 49_152;

/// Lines retained per background shell.
pub const MAX_BACKGROUND_LINES: usize = 5_000;

// ---------------------------------------------------------------------------
// Background shells
// ---------------------------------------------------------------------------

/// A command still running after its tool call returned.
#[derive(Debug)]
pub struct BackgroundShell {
    pub command: String,
    /// Lines captured so far. Drained by `bash_output`, so each poll returns
    /// only what is new.
    pub pending: Vec<String>,
    pub finished: bool,
    pub exit_code: Option<i32>,
}

/// A background shell, as text.
pub struct ShellView {
    pub command: Seq<char>,
    pub pending: Seq<Seq<char>>,
    pub finished: bool,
    pub exit_code: Option<i32>,
}

impl View for BackgroundShell {
    type V = ShellView;

    open spec fn view(&self) -> ShellView {
        ShellView {
            command: self.command@,
            pending: text::views(self.pending@),
            finished: self.finished,
            exit_code: self.exit_code,
        }
    }
}

/// Registry of background shells for one session.
#[derive(Debug)]
pub struct ShellManager {
    pub shells: Table<BackgroundShell>,
    /// How many shells were started.
    pub started: u64,
}

/// The shells by their ids.
pub open spec fn shell_map(m: Map<Seq<char>, BackgroundShell>) -> Map<Seq<char>, ShellView> {
    m.map_values(|s: BackgroundShell| s@)
}

impl View for ShellManager {
    type V = Map<Seq<char>, ShellView>;

    open spec fn view(&self) -> Map<Seq<char>, ShellView> {
        shell_map(self.shells@)
    }
}

/// The id of the shell that is started as number `n`.
pub open spec fn shell_id(n: nat) -> Seq<char> {
    "shell_"@ + text::decimal(n)
}

/// A shell that was just started.
pub open spec fn fresh_shell(command: Seq<char>) -> ShellView {
    ShellView { command, pending: Seq::empty(), finished: false, exit_code: None }
}

/// The pending lines with one more. The oldest gives way where there are too
/// many.
pub open spec fn with_line(pending: Seq<Seq<char>>, line: Seq<char>) -> Seq<Seq<char>> {
    if pending.len() >= MAX_BACKGROUND_LINES {
        pending.skip(1).push(line)
    } else {
        pending.push(line)
    }
}

impl ShellManager {
    pub open spec fn wf(&self) -> bool {
        self.shells.wf()
    }

    pub fn new() -> (r: Self)
        ensures
            r.wf(),
            r@ == Map::<Seq<char>, ShellView>::empty(),
            r.started == 0,
    {
        let r = ShellManager { shells: Table::new(), started: 0 };
        assert(r@ =~= Map::<Seq<char>, ShellView>::empty());
        r
    }

    /// Register a shell that runs `command`; returns its id.
    pub fn start(&mut self, command: &str) -> (r: String)
        requires
            old(self).wf(),
            old(self).started < u64::MAX,
        ensures
            final(self).wf(),
            final(self).started == old(self).started + 1,
            r@ == shell_id(final(self).started as nat),
            final(self)@ == old(self)@.insert(r@, fresh_shell(command@)),
    {
        self.started = self.started + 1;
        let mut id = "shell_".to_owned();
        id.append(&text::number(self.started));
        let shell = BackgroundShell {
            command: command.to_owned(),
            pending: Vec::new(),
            finished: false,
            exit_code: None,
        };
        let ghost sv = shell@;
        assert(sv.pending =~= Seq::<Seq<char>>::empty());
        self.shells.insert(id.clone(), shell);
        assert(self@ =~= old(self)@.insert(id@, sv));
        id
    }

    /// Take everything captured since the last poll.
    pub fn drain(&mut self, id: &str) -> (r: Option<(Vec<String>, bool, Option<i32>)>)
        requires
            old(self).wf(),
        ensures
            final(self).wf(),
            final(self).started == old(self).started,
            match r {
                None => !old(self)@.contains_key(id@) && final(self)@ == old(self)@,
                Some((lines, finished, code)) => {
                    &&& old(self)@.contains_key(id@)
                    &&& text::views(lines@) == old(self)@[id@].pending
                    &&& finished == old(self)@[id@].finished
                    &&& code == old(self)@[id@].exit_code
                    &&& final(self)@ == old(self)@.insert(
                        id@,
                        ShellView { pending: Seq::empty(), ..old(self)@[id@] },
                    )
                },
            },
    {
        match self.shells.remove(id) {
            None => {
                assert(self@ =~= old(self)@);
                None
            },
            Some(shell) => {
                let finished = shell.finished;
                let code = shell.exit_code;
                let lines = shell.pending;
                let emptied = BackgroundShell {
                    command: shell.command,
                    pending: Vec::new(),
                    finished,
                    exit_code: code,
                };
                let ghost ev = emptied@;
                assert(ev.pending =~= Seq::<Seq<char>>::empty());
                self.shells.insert(id.to_owned(), emptied);
                assert(self@ =~= old(self)@.insert(id@, ev));
                Some((lines, finished, code))
            },
        }
    }

    /// The ids of the shells, in order.
    pub fn ids(&self) -> (r: Vec<String>)
        ensures
            text::views(r@) == self.shells.entries@.map_values(
                |e: (String, BackgroundShell)| e.0@,
            ),
    {
        let ghost all = self.shells.entries@.map_values(|e: (String, BackgroundShell)| e.0@);
        let mut out: Vec<String> = Vec::new();
        let mut i: usize = 0;
        while i < self.shells.entries.len()
            invariant
                i <= self.shells.entries@.len(),
                all == self.shells.entries@.map_values(|e: (String, BackgroundShell)| e.0@),
                text::views(out@) == all.take(i as int),
            decreases self.shells.entries.len() - i,
        {
            let ghost before = text::views(out@);
            out.push(self.shells.entries[i].0.clone());
            assert(text::views(out@) =~= before.push(all[i as int]));
            i += 1;
            assert(text::views(out@) =~= all.take(i as int));
        }
        assert(all.take(all.len() as int) =~= all);
        out
    }

    /// Forget a shell. Returns whether there was one.
    pub fn kill(&mut self, id: &str) -> (r: bool)
        requires
            old(self).wf(),
        ensures
            final(self).wf(),
            final(self).started == old(self).started,
            r == old(self)@.contains_key(id@),
            final(self)@ == old(self)@.remove(id@),
    {
        let r = self.shells.remove(id).is_some();
        assert(self@ =~= old(self)@.remove(id@));
        r
    }

    /// Keep a line that a shell wrote. Lines of a shell that was forgotten are
    /// dropped.
    pub fn record(&mut self, id: &str, line: &str)
        requires
            old(self).wf(),
        ensures
            final(self).wf(),
            final(self).started == old(self).started,
            final(self)@ == (if old(self)@.contains_key(id@) {
                old(self)@.insert(
                    id@,
                    ShellView {
                        pending: with_line(old(self)@[id@].pending, line@),
                        ..old(self)@[id@]
                    },
                )
            } else {
                old(self)@
            }),
    {
        match self.shells.remove(id) {
            None => {
                assert(self@ =~= old(self)@);
            },
            Some(shell) => {
                let mut s = shell;
                let ghost before = text::views(s.pending@);
                if s.pending.len() >= MAX_BACKGROUND_LINES {
                    s.pending.remove(0);
                    assert(text::views(s.pending@) =~= before.skip(1));
                }
                let ghost mid = text::views(s.pending@);
                s.pending.push(line.to_owned());
                assert(text::views(s.pending@) =~= mid.push(line@));
                let ghost sv = s@;
                self.shells.insert(id.to_owned(), s);
                assert(self@ =~= old(self)@.insert(id@, sv));
            },
        }
    }

    /// Note that a shell has ended.
    pub fn finish(&mut self, id: &str, code: Option<i32>)
        requires
            old(self).wf(),
        ensures
            final(self).wf(),
            final(self).started == old(self).started,
            final(self)@ == (if old(self)@.contains_key(id@) {
                old(self)@.insert(
                    id@,
                    ShellView { finished: true, exit_code: code, ..old(self)@[id@] },
                )
            } else {
                old(self)@
            }),
    {
        match self.shells.remove(id) {
            None => {
                assert(self@ =~= old(self)@);
            },
            Some(shell) => {
                let mut s = shell;
                s.finished = true;
                s.exit_code = code;
                let ghost sv = s@;
                self.shells.insert(id.to_owned(), s);
                assert(self@ =~= old(self)@.insert(id@, sv));
            },
        }
    }
}

/// The pending lines never exceed the limit.
pub proof fn law_background_output_is_bounded(pending: Seq<Seq<char>>, line: Seq<char>)
    requires
        pending.len() <= MAX_BACKGROUND_LINES,
    ensures
        with_line(pending, line).len() <= MAX_BACKGROUND_LINES,
        with_line(pending, line).last() == line,
{
}

/// The pending lines once lines have come in, the oldest first.
pub open spec fn with_lines(pending: Seq<Seq<char>>, lines: Seq<Seq<char>>) -> Seq<Seq<char>>
    decreases lines.len(),
{
    if lines.len() == 0 {
        pending
    } else {
        with_line(with_lines(pending, lines.drop_last()), lines.last())
    }
}

/// Each poll returns only what arrived since the one before: a poll leaves
/// nothing pending, and once lines have come in the next poll gives exactly
/// those lines, or the latest of them where there are more than are retained.
pub proof fn law_polls_do_not_repeat(lines: Seq<Seq<char>>)
    ensures
        with_lines(Seq::empty(), lines) == (if lines.len() <= MAX_BACKGROUND_LINES {
            lines
        } else {
            lines.skip(lines.len() - MAX_BACKGROUND_LINES)
        }),
    decreases lines.len(),
{
    let pending = with_lines(Seq::empty(), lines);
    if lines.len() == 0 {
        assert(pending =~= lines);
    } else {
        let front = lines.drop_last();
        law_polls_do_not_repeat(front);
        assert(front.push(lines.last()) =~= lines);
        if lines.len() <= MAX_BACKGROUND_LINES {
            assert(pending =~= lines);
        } else {
            assert(pending =~= lines.skip(lines.len() - MAX_BACKGROUND_LINES));
        }
    }
}

// ---------------------------------------------------------------------------
// bash
// ---------------------------------------------------------------------------

pub const BASH_DESCRIPTION: &'static str = "Run a shell command in the workspace. Prefer the dedicated file tools over `cat`, `sed` and `find`: they are cheaper and their output is structured.";

pub struct Bash;

/// What a call of `bash` asks for.
#[derive(Debug)]
pub enum BashRequest {
    /// Start the command and return at once.
    Background(String),
    /// Run the command, for at most this many seconds.
    Foreground(String, u64),
}

/// The timeout of a call, in seconds.
pub open spec fn bash_timeout(args: Json) -> u64 {
    match uint_field(args, "timeout"@) {
        Some(n) => if n < 1 {
            1
        } else if n > MAX_TIMEOUT_SECS {
            MAX_TIMEOUT_SECS
        } else {
            n
        },
        None => DEFAULT_TIMEOUT_SECS,
    }
}

/// What a foreground command wrote: both streams where both have something.
pub open spec fn both_streams(out: Seq<char>, err: Seq<char>) -> Seq<char> {
    if text::trimmed(err).len() == 0 {
        out
    } else if text::trimmed(out).len() == 0 {
        err
    } else {
        out + "\n--- stderr ---\n"@ + err
    }
}

/// What a foreground command wrote, both streams together.
pub fn join_streams(out: &str, err: &str) -> (r: String)
    ensures
        r@ == both_streams(out@, err@),
{
    if text::trim(err).as_str().is_empty() {
        return out.to_owned();
    }
    if text::trim(out).as_str().is_empty() {
        return err.to_owned();
    }
    let mut s = out.to_owned();
    s.append("\n--- stderr ---\n");
    s.append(err);
    s
}

/// Adds a line to what a stream wrote. Returns whether more is read.
pub fn take_line(buffer: &mut String, line: &str) -> (r: bool)
    ensures
        final(buffer)@ == old(buffer)@ + line@ + "\n"@,
        r == (text::byte_count(final(buffer)@) <= 2 * MAX_OUTPUT_BYTES),
{
    buffer.append(line);
    buffer.append("\n");
    text::byte_len(buffer) <= MAX_OUTPUT_BYTES * 2
}

/// How a foreground command ended.
#[derive(Debug)]
pub enum Ended {
    /// The user interrupted it.
    Interrupted,
    /// It could not be started.
    NotStarted(String),
    /// It ran longer than this many seconds, and was killed.
    TimedOut(u64, String),
    /// It could not be waited for.
    Failed(String),
    /// It exited, with a code where there is one.
    Exited { code: Option<i32>, success: bool, output: String, elapsed: Duration },
}

pub open spec fn code_or_minus_one(code: Option<i32>) -> int {
    match code {
        Some(c) => c as int,
        None => -1,
    }
}

/// The output of a command, or a remark where there was none.
pub open spec fn command_body(output: Seq<char>, code: int) -> Seq<char> {
    let body = util::truncated(output, MAX_OUTPUT_BYTES as nat);
    if text::trimmed(body).len() == 0 {
        "(no output, exit "@ + text::signed_decimal(code) + ")"@
    } else {
        body
    }
}

/// What is reported of a foreground command.
pub open spec fn is_bash_outcome(o: ToolOutcome, ended: Ended) -> bool {
    match ended {
        Ended::Interrupted => is_failure(o, "command interrupted by the user"@),
        Ended::NotStarted(e) => is_failure(o, "cannot start command: "@ + e@),
        Ended::TimedOut(secs, output) => is_failure(
            o,
            "command timed out after "@ + text::decimal(secs as nat) + "s and was killed\n\n"@
                + util::truncated(output@, MAX_OUTPUT_BYTES as nat),
        ),
        Ended::Failed(e) => is_failure(o, "command failed to run: "@ + e@),
        Ended::Exited { code, success, output, elapsed } => {
            let c = code_or_minus_one(code);
            let body = command_body(output@, c);
            &&& o.is_error == !success
            &&& o.content@ == (if success {
                body
            } else {
                "exit status "@ + text::signed_decimal(c) + "\n\n"@ + body
            })
            &&& text::opt_view(o.display.summary) == Some(
                "exit "@ + text::signed_decimal(c) + " in "@ + util::duration_text(
                    elapsed.total_nanos(),
                ),
            )
            &&& o.display.path is None
            &&& o.display.diff_stats is None
            &&& o.display.diff@.len() == 0
        },
    }
}

/// The arguments that `bash` advertises.
pub open spec fn bash_params() -> Seq<ParamView> {
    seq![
        param(
            "command"@,
            "string"@,
            "Shell command to run, executed with `sh -c`."@,
        ),
        param(
            "description"@,
            "string"@,
            "Short description of what this command does, shown to the user in the approval prompt."@,
        ),
        param(
            "timeout"@,
            "integer"@,
            "Timeout in seconds. Defaults to 120, capped at 600."@,
        ),
        param(
            "run_in_background"@,
            "boolean"@,
            "Start the command and return immediately. Poll it with `bash_output`. Use for dev servers and watchers."@,
        ),
    ]
}

impl Bash {
    pub fn name(&self) -> (r: &'static str)
        ensures
            r@ == "bash"@,
    {
        "bash"
    }

    pub fn kind(&self) -> (r: ToolKind)
        ensures
            r == ToolKind::Execute,
    {
        ToolKind::Execute
    }

    /// The tool as it is advertised.
    pub fn info(&self) -> (r: ToolInfo)
        ensures
            r.name@ == "bash"@,
            r.kind == ToolKind::Execute,
            r.description@ == BASH_DESCRIPTION@,
            is_schema(*r.parameters, bash_params(), seq!["command"@]),
    {
        let params = vec![
            Param {
                name: "command",
                ty: "string",
                description: "Shell command to run, executed with `sh -c`.",
                choices: Vec::new(),
            },
            Param {
                name: "description",
                ty: "string",
                description: "Short description of what this command does, shown to the user in the approval prompt.",
                choices: Vec::new(),
            },
            Param {
                name: "timeout",
                ty: "integer",
                description: "Timeout in seconds. Defaults to 120, capped at 600.",
                choices: Vec::new(),
            },
            Param {
                name: "run_in_background",
                ty: "boolean",
                description: "Start the command and return immediately. Poll it with `bash_output`. Use for dev servers and watchers.",
                choices: Vec::new(),
            },
        ];
        let required: Vec<&'static str> = vec!["command"];
        assert(param_views(params@) =~~= bash_params());
        assert(str_views(required@) =~= seq!["command"@]);
        ToolInfo::new("bash", BASH_DESCRIPTION, schema(params, required), ToolKind::Execute)
    }

    pub fn summarize(&self, args: &Json) -> (r: String)
        ensures
            r@ == call_text("Bash"@, text_or(*args, "command"@, ""@)),
    {
        call_line("Bash", &arg_str_or(args, "command", ""))
    }

    /// What a call asks for.
    pub fn request(&self, args: &Json) -> (r: Result<BashRequest, ToolOutcome>)
        ensures
            match required_text(*args, "command"@) {
                Err(e) => r matches Err(o) && is_failure(o, e),
                Ok(command) => if text::trimmed(command).len() == 0 {
                    r matches Err(o) && is_failure(o, "command is empty"@)
                } else if flag_arg(*args, "run_in_background"@) {
                    r matches Ok(BashRequest::Background(c)) && c@ == command
                } else {
                    r matches Ok(BashRequest::Foreground(c, t)) && c@ == command && t
                        == bash_timeout(*args)
                },
            },
    {
        let command = match arg_str(args, "command") {
            Ok(c) => c,
            Err(e) => {
                return Err(ToolOutcome::error(&e));
            },
        };
        if text::trim(&command).as_str().is_empty() {
            return Err(ToolOutcome::error("command is empty"));
        }
        if arg_bool(args, "run_in_background") {
            return Ok(BashRequest::Background(command));
        }
        let timeout: u64 = match args.get_u64("timeout") {
            Some(n) => if n < 1 {
                1
            } else if n > MAX_TIMEOUT_SECS {
                MAX_TIMEOUT_SECS
            } else {
                n
            },
            None => DEFAULT_TIMEOUT_SECS,
        };
        Ok(BashRequest::Foreground(command, timeout))
    }

    /// What is reported of a command that was started in the background.
    pub fn started(&self, command: &str, id: &str) -> (r: ToolOutcome)
        ensures
            !r.is_error,
            r.content@ == "Started `"@ + command@ + "` in the background as "@ + id@
                + ". Poll it with bash_output(id=\""@ + id@
                + "\") and stop it with kill_shell(id=\""@ + id@ + "\")."@,
            text::opt_view(r.display.summary) == Some("background "@ + id@),
            r.display.path is None,
            r.display.diff_stats is None,
            r.display.diff@.len() == 0,
    {
        let mut out = "Started `".to_owned();
        out.append(command);
        out.append("` in the background as ");
        out.append(id);
        out.append(". Poll it with bash_output(id=\"");
        out.append(id);
        out.append("\") and stop it with kill_shell(id=\"");
        out.append(id);
        out.append("\").");
        let mut summary = "background ".to_owned();
        summary.append(id);
        ToolOutcome::ok(&out).with_summary(&summary)
    }

    /// What is reported of a foreground command. A non-zero exit is an error, so
    /// the model notices the failure instead of reading the output as success.
    pub fn run(&self, ended: &Ended) -> (r: ToolOutcome)
        requires
            ended matches Ended::Exited { elapsed, .. } ==> elapsed.wf(),
        ensures
            is_bash_outcome(r, *ended),
    {
        match ended {
            Ended::Interrupted => ToolOutcome::error("command interrupted by the user"),
            Ended::NotStarted(e) => {
                let mut s = "cannot start command: ".to_owned();
                s.append(e);
                ToolOutcome::error(&s)
            },
            Ended::TimedOut(secs, output) => {
                let mut s = "command timed out after ".to_owned();
                s.append(&text::number(*secs));
                s.append("s and was killed\n\n");
                s.append(&util::truncate_text(output, MAX_OUTPUT_BYTES));
                ToolOutcome::error(&s)
            },
            Ended::Failed(e) => {
                let mut s = "command failed to run: ".to_owned();
                s.append(e);
                ToolOutcome::error(&s)
            },
            Ended::Exited { code, success, output, elapsed } => {
                let c: i32 = match code {
                    Some(c) => *c,
                    None => -1,
                };
                let code_text = text::signed_number(c);
                let mut body = util::truncate_text(output, MAX_OUTPUT_BYTES);
                if text::trim(&body).as_str().is_empty() {
                    body = "(no output, exit ".to_owned();
                    body.append(&code_text);
                    body.append(")");
                }
                let outcome = if *success {
                    ToolOutcome::ok(&body)
                } else {
                    let mut s = "exit status ".to_owned();
                    s.append(&code_text);
                    s.append("\n\n");
                    s.append(&body);
                    ToolOutcome::error(&s)
                };
                let mut summary = "exit ".to_owned();
                summary.append(&code_text);
                summary.append(" in ");
                summary.append(&util::format_duration(*elapsed));
                outcome.with_summary(&summary)
            },
        }
    }
}

/// A command that failed is always reported as an error, and one that succeeded
/// never is.
pub proof fn law_exit_status_is_reported(
    o: ToolOutcome,
    code: Option<i32>,
    success: bool,
    output: String,
    elapsed: Duration,
)
    requires
        is_bash_outcome(o, Ended::Exited { code, success, output, elapsed }),
    ensures
        o.is_error == !success,
{
}

/// However much a command prints, what the model gets of it is bounded.
pub proof fn law_command_output_is_bounded(o: ToolOutcome, ended: Ended)
    requires
        is_bash_outcome(o, ended),
        match ended {
            Ended::Exited { output, .. } => text::byte_count(output@) <= u64::MAX,
            Ended::TimedOut(_, output) => text::byte_count(output@) <= u64::MAX,
            _ => false,
        },
    ensures
        text::byte_count(o.content@) <= MAX_OUTPUT_BYTES + 200,
{
    match ended {
        Ended::Exited { code, success, output, .. } => {
            let c = code_or_minus_one(code);
            let body = command_body(output@, c);
            util::law_cut_text_is_bounded(output@, MAX_OUTPUT_BYTES as nat);
            lemma_code_is_short(c);
            reveal_strlit("(no output, exit ");
            reveal_strlit(")");
            reveal_strlit("exit status ");
            reveal_strlit("\n\n");
            lemma_plain_bytes("(no output, exit "@);
            lemma_plain_bytes(")"@);
            lemma_plain_bytes("exit status "@);
            lemma_plain_bytes("\n\n"@);
            let shown = text::signed_decimal(c);
            lemma_bytes_of_sum("(no output, exit "@, shown);
            lemma_bytes_of_sum("(no output, exit "@ + shown, ")"@);
            lemma_bytes_of_sum("exit status "@, shown);
            lemma_bytes_of_sum("exit status "@ + shown, "\n\n"@);
            lemma_bytes_of_sum("exit status "@ + shown + "\n\n"@, body);
        },
        Ended::TimedOut(secs, output) => {
            util::law_cut_text_is_bounded(output@, MAX_OUTPUT_BYTES as nat);
            lemma_number_is_short(secs as nat);
            reveal_strlit("command timed out after ");
            reveal_strlit("s and was killed\n\n");
            lemma_plain_bytes("command timed out after "@);
            lemma_plain_bytes("s and was killed\n\n"@);
            let head = "command timed out after "@ + text::decimal(secs as nat);
            lemma_bytes_of_sum("command timed out after "@, text::decimal(secs as nat));
            lemma_bytes_of_sum(head, "s and was killed\n\n"@);
            lemma_bytes_of_sum(
                head + "s and was killed\n\n"@,
                util::truncated(output@, MAX_OUTPUT_BYTES as nat),
            );
        },
        _ => {},
    }
}

proof fn lemma_code_is_short(c: int)
    requires
        i32::MIN <= c <= i32::MAX,
    ensures
        text::byte_count(text::signed_decimal(c)) <= 21,
{
    if c < 0 {
        lemma_plain_bytes(seq!['-']);
        lemma_number_is_short((-c) as nat);
        lemma_bytes_of_sum(seq!['-'], text::decimal((-c) as nat));
    } else {
        lemma_number_is_short(c as nat);
    }
}

/// No call runs longer than the ceiling, and none is given no time at all.
pub proof fn law_timeout_is_bounded(args: Json)
    ensures
        1 <= bash_timeout(args) <= MAX_TIMEOUT_SECS,
{
}

// ---------------------------------------------------------------------------
// bash_output
// ---------------------------------------------------------------------------

pub const BASH_OUTPUT_DESCRIPTION: &'static str = "Read new output from a background shell. Each call returns only what has arrived since the previous call.";

pub struct BashOutput;

/// What is reported of a poll.
pub open spec fn poll_text(s: ShellView) -> Seq<char> {
    let lines = text::joined(s.pending, "\n"@);
    let body = if lines.len() == 0 {
        "(no new output)"@
    } else {
        lines
    };
    if s.finished {
        body + "\n\n[shell exited with status "@ + text::signed_decimal(
            code_or_minus_one(s.exit_code),
        ) + "]"@
    } else {
        body
    }
}

/// The arguments that `bash_output` advertises.
pub open spec fn bash_output_params() -> Seq<ParamView> {
    seq![
        param(
            "id"@,
            "string"@,
            "Shell id returned by a background `bash` call."@,
        ),
    ]
}

impl BashOutput {
    pub fn name(&self) -> (r: &'static str)
        ensures
            r@ == "bash_output"@,
    {
        "bash_output"
    }

    pub fn kind(&self) -> (r: ToolKind)
        ensures
            r == ToolKind::Read,
    {
        ToolKind::Read
    }

    /// The tool as it is advertised.
    pub fn info(&self) -> (r: ToolInfo)
        ensures
            r.name@ == "bash_output"@,
            r.kind == ToolKind::Read,
            r.description@ == BASH_OUTPUT_DESCRIPTION@,
            is_schema(*r.parameters, bash_output_params(), seq!["id"@]),
    {
        let params = vec![
            Param {
                name: "id",
                ty: "string",
                description: "Shell id returned by a background `bash` call.",
                choices: Vec::new(),
            },
        ];
        let required: Vec<&'static str> = vec!["id"];
        assert(param_views(params@) =~~= bash_output_params());
        assert(str_views(required@) =~= seq!["id"@]);
        ToolInfo::new("bash_output", BASH_OUTPUT_DESCRIPTION, schema(params, required), ToolKind::Read)
    }

    pub fn summarize(&self, args: &Json) -> (r: String)
        ensures
            r@ == call_text("BashOutput"@, text_or(*args, "id"@, ""@)),
    {
        call_line("BashOutput", &arg_str_or(args, "id", ""))
    }

    /// Polls a background shell.
    pub fn run(&self, args: &Json, shells: &mut ShellManager) -> (r: ToolOutcome)
        requires
            old(shells).wf(),
        ensures
            final(shells).wf(),
            final(shells).started == old(shells).started,
            match required_text(*args, "id"@) {
                Err(e) => final(shells)@ == old(shells)@ && is_failure(r, e),
                Ok(id) => if old(shells)@.contains_key(id) {
                    &&& final(shells)@ == old(shells)@.insert(
                        id,
                        ShellView { pending: Seq::empty(), ..old(shells)@[id] },
                    )
                    &&& !r.is_error
                    &&& r.content@ == util::truncated(
                        poll_text(old(shells)@[id]),
                        MAX_OUTPUT_BYTES as nat,
                    )
                    &&& crate::tools::no_detail(r.display)
                } else {
                    &&& final(shells)@ == old(shells)@
                    &&& is_failure(
                        r,
                        "no background shell `"@ + id + "`. Running shells: "@ + text::joined(
                            final(shells).shells.entries@.map_values(
                                |e: (String, BackgroundShell)| e.0@,
                            ),
                            ", "@,
                        ),
                    )
                },
            },
    {
        let id = match arg_str(args, "id") {
            Ok(i) => i,
            Err(e) => {
                return ToolOutcome::error(&e);
            },
        };
        match shells.drain(&id) {
            None => {
                let mut e = "no background shell `".to_owned();
                e.append(&id);
                e.append("`. Running shells: ");
                e.append(&text::join(&shells.ids(), ", "));
                ToolOutcome::error(&e)
            },
            Some((lines, finished, code)) => {
                let mut body = text::join(&lines, "\n");
                if body.as_str().is_empty() {
                    body = "(no new output)".to_owned();
                }
                if finished {
                    let c: i32 = match code {
                        Some(c) => c,
                        None => -1,
                    };
                    body.append("\n\n[shell exited with status ");
                    body.append(&text::signed_number(c));
                    body.append("]");
                }
                ToolOutcome::ok(&util::truncate_text(&body, MAX_OUTPUT_BYTES))
            },
        }
    }
}

// ---------------------------------------------------------------------------
// kill_shell
// ---------------------------------------------------------------------------

pub const KILL_SHELL_DESCRIPTION: &'static str = "Stop a background shell.";

pub struct KillShell;

/// The arguments that `kill_shell` advertises.
pub open spec fn kill_shell_params() -> Seq<ParamView> {
    seq![
        param(
            "id"@,
            "string"@,
            "Shell id to terminate."@,
        ),
    ]
}

impl KillShell {
    pub fn name(&self) -> (r: &'static str)
        ensures
            r@ == "kill_shell"@,
    {
        "kill_shell"
    }

    pub fn kind(&self) -> (r: ToolKind)
        ensures
            r == ToolKind::Execute,
    {
        ToolKind::Execute
    }

    /// The tool as it is advertised.
    pub fn info(&self) -> (r: ToolInfo)
        ensures
            r.name@ == "kill_shell"@,
            r.kind == ToolKind::Execute,
            r.description@ == KILL_SHELL_DESCRIPTION@,
            is_schema(*r.parameters, kill_shell_params(), seq!["id"@]),
    {
        let params = vec![
            Param {
                name: "id",
                ty: "string",
                description: "Shell id to terminate.",
                choices: Vec::new(),
            },
        ];
        let required: Vec<&'static str> = vec!["id"];
        assert(param_views(params@) =~~= kill_shell_params());
        assert(str_views(required@) =~= seq!["id"@]);
        ToolInfo::new("kill_shell", KILL_SHELL_DESCRIPTION, schema(params, required), ToolKind::Execute)
    }

    pub fn summarize(&self, args: &Json) -> (r: String)
        ensures
            r@ == call_text("KillShell"@, text_or(*args, "id"@, ""@)),
    {
        call_line("KillShell", &arg_str_or(args, "id", ""))
    }

    /// Stops a background shell.
    pub fn run(&self, args: &Json, shells: &mut ShellManager) -> (r: ToolOutcome)
        requires
            old(shells).wf(),
        ensures
            final(shells).wf(),
            final(shells).started == old(shells).started,
            match required_text(*args, "id"@) {
                Err(e) => final(shells)@ == old(shells)@ && is_failure(r, e),
                Ok(id) => {
                    &&& final(shells)@ == old(shells)@.remove(id)
                    &&& if old(shells)@.contains_key(id) {
                        !r.is_error && r.content@ == "Stopped "@ + id && crate::tools::no_detail(
                            r.display,
                        )
                    } else {
                        is_failure(r, "no background shell `"@ + id + "`"@)
                    }
                },
            },
    {
        let id = match arg_str(args, "id") {
            Ok(i) => i,
            Err(e) => {
                return ToolOutcome::error(&e);
            },
        };
        if shells.kill(&id) {
            let mut s = "Stopped ".to_owned();
            s.append(&id);
            ToolOutcome::ok(&s)
        } else {
            let mut s = "no background shell `".to_owned();
            s.append(&id);
            s.append("`");
            ToolOutcome::error(&s)
        }
    }
}

} // verus!
