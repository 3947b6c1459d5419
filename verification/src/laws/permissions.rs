//! Which calls a rule covers, what a shell command falls into, and what is
//! decided of a call.
use vstd::prelude::*;
use crate::config::PermissionMode;
use crate::laws::text::{
    holds_just, is_blank, is_tight, law_blank_text_trims_to_nothing, law_joining, law_trimmed_to,
    law_trimming, law_trimming_the_start, law_words_hold_no_white_space,
};
use crate::matching::{glob_matches, glob_valid, lowercase};
use crate::permissions::{
    alias, any_covers, break_len, candidates, compound, covers, decided, fingerprint, key_of,
    law_compound_is_segmented, names_tool, nonempty_trimmed, parsed_matcher, parsed_rule,
    parsed_rules, parts_from, segments_of, without_suffixes, AllowReason, DecisionView, EngineView,
    RuleView,
};
use crate::text;
use crate::tools::ToolKind;

verus! {

// ---------------------------------------------------------------------------
// Rules
// ---------------------------------------------------------------------------

/// A rule as it is written: a tool with a pattern in brackets.
pub open spec fn written(tool: Seq<char>, pattern: Seq<char>) -> Seq<char> {
    tool + seq!['('] + pattern + seq![')']
}

/// Whether a text can be the name of a tool in a rule.
pub open spec fn is_tool_name(tool: Seq<char>) -> bool {
    is_tight(tool) && !tool.contains('(')
}

proof fn lemma_tight_is_trimmed(s: Seq<char>)
    requires
        s.len() == 0 || is_tight(s),
    ensures
        text::trimmed(s) == s,
{
    let none: Seq<char> = Seq::empty();
    law_trimming(none, s, none);
    assert(none + s + none =~= s);
}

proof fn lemma_written(tool: Seq<char>, pattern: Seq<char>)
    requires
        is_tool_name(tool),
        pattern.len() == 0 || is_tight(pattern),
    ensures
        parsed_rule(written(tool, pattern)) == match parsed_matcher(pattern) {
            Some(matcher) => Some(
                RuleView { tool, matcher, source: written(tool, pattern) },
            ),
            None => None,
        },
{
    let raw = written(tool, pattern);
    let after = pattern + seq![')'];
    reveal_strlit("(");
    reveal_strlit(")");
    assert("("@ =~= seq!['(']);
    assert(")"@ =~= seq![')']);
    assert(raw[0] == tool[0]);
    lemma_tight_is_trimmed(raw);
    lemma_tight_is_trimmed(tool);
    lemma_tight_is_trimmed(pattern);
    let n = tool.len() as int;
    assert(raw.subrange(n, n + 1) =~= seq!['(']);
    assert(text::occurs_at(raw, "("@, n));
    text::lemma_found_from(raw, "("@, 0);
    assert forall|j: int| text::occurs_at(raw, "("@, j) implies j >= n by {
        if j < n {
            assert(raw.subrange(j, j + 1)[0] == '(');
            assert(tool[j] == '(');
        }
    }
    assert(text::found(raw, "("@) == Some(n));
    assert(raw.take(n) =~= tool);
    assert(raw.skip(n + 1) =~= after);
    assert(after.subrange(pattern.len() as int, pattern.len() as int + 1) =~= seq![')']);
    assert(after.take(after.len() - 1) =~= pattern);
}

/// A rule whose pattern is plain text covers the calls of its tool whose argument
/// is that text, and no others: not one that merely begins with it.
pub proof fn law_plain_rules_match_exactly(
    tool: Seq<char>,
    pattern: Seq<char>,
    called: Seq<char>,
    argument: Seq<char>,
)
    requires
        is_tool_name(tool),
        is_tight(pattern),
        !pattern.contains('*'),
        !pattern.contains('?'),
        !pattern.contains('['),
    ensures
        parsed_rule(written(tool, pattern)) matches Some(rule) && covers(rule, called, argument)
            == (names_tool(tool, called) && holds_just(argument, pattern)),
{
    lemma_written(tool, pattern);
    reveal_strlit("*");
    reveal_strlit(":*");
    if pattern == "*"@ {
        assert(pattern[0] == '*');
    }
    if text::ends_with(pattern, ":*"@) {
        let i = pattern.len() - 2;
        assert(pattern.subrange(i, i + 2)[1] == '*');
        assert(pattern[i + 1] == '*');
    }
    law_trimmed_to(argument, pattern);
}

/// A longer command is not covered by a rule for a shorter one.
pub proof fn law_plain_rules_are_no_prefixes(
    tool: Seq<char>,
    pattern: Seq<char>,
    called: Seq<char>,
    more: Seq<char>,
)
    requires
        is_tool_name(tool),
        is_tight(pattern),
        !pattern.contains('*'),
        !pattern.contains('?'),
        !pattern.contains('['),
        !is_blank(more),
    ensures
        parsed_rule(written(tool, pattern)) matches Some(rule) && !covers(
            rule,
            called,
            pattern + more,
        ),
{
    let argument = pattern + more;
    law_plain_rules_match_exactly(tool, pattern, called, argument);
    if holds_just(argument, pattern) {
        let (before, after) = choose|before: Seq<char>, after: Seq<char>|
            is_blank(before) && is_blank(after) && argument == #[trigger] (before + pattern + after);
        if before.len() > 0 {
            assert(text::is_white(before[0]));
            assert(argument[0] == before[0]);
            assert(argument[0] == pattern[0]);
        }
        assert(before + pattern + after =~= pattern + after);
        assert(more =~= argument.skip(pattern.len() as int));
        assert(after =~= argument.skip(pattern.len() as int));
    }
}

proof fn lemma_suffix(q: Seq<char>)
    requires
        !text::ends_with(q, seq![':', '*']),
    ensures
        without_suffixes(q + seq![':', '*'], seq![':', '*']) == q,
{
    let pat = seq![':', '*'];
    let s = q + pat;
    assert(s.subrange(q.len() as int, q.len() as int + 2) =~= pat);
    assert(text::ends_with(s, pat));
    assert(s.take(s.len() - 2) =~= q);
    assert(without_suffixes(s, pat) == without_suffixes(q, pat));
}

/// A rule whose pattern ends in `:*` covers the calls of its tool whose argument
/// begins with what precedes that, after any white space, and no others.
pub proof fn law_prefix_rules_match_beginnings(
    tool: Seq<char>,
    start: Seq<char>,
    called: Seq<char>,
    argument: Seq<char>,
)
    requires
        is_tool_name(tool),
        start.len() > 0,
        !text::is_white(start[0]),
        !text::ends_with(start, seq![':', '*']),
    ensures
        parsed_rule(written(tool, start + seq![':', '*'])) matches Some(rule) && covers(
            rule,
            called,
            argument,
        ) == (names_tool(tool, called) && exists|before: Seq<char>, after: Seq<char>|
            is_blank(before) && argument == #[trigger] (before + start + after)),
{
    let pattern = start + seq![':', '*'];
    reveal_strlit("*");
    reveal_strlit(":*");
    assert(":*"@ =~= seq![':', '*']);
    assert(pattern[0] == start[0]);
    assert(is_tight(pattern));
    assert(pattern.subrange(start.len() as int, start.len() as int + 2) =~= seq![':', '*']);
    assert(text::ends_with(pattern, ":*"@));
    assert("*"@.len() == 1);
    lemma_written(tool, pattern);
    lemma_suffix(start);
    let t = text::trimmed_start(argument);
    text::lemma_trimmed_start(argument);
    if text::starts_with(t, start) {
        let k = argument.len() - t.len();
        let before = argument.take(k);
        let after = t.skip(start.len() as int);
        assert forall|i: int| 0 <= i < before.len() implies text::is_white(#[trigger] before[i]) by {
            assert(text::is_white(argument[i]));
        }
        assert(t =~= t.subrange(0, start.len() as int) + after);
        assert(argument =~= before + start + after);
    }
    if exists|before: Seq<char>, after: Seq<char>|
        is_blank(before) && argument == #[trigger] (before + start + after) {
        let (before, after) = choose|before: Seq<char>, after: Seq<char>|
            is_blank(before) && argument == #[trigger] (before + start + after);
        let rest = start + after;
        assert(rest[0] == start[0]);
        law_trimming_the_start(before, rest);
        assert(before + start + after =~= before + rest);
        assert(rest.subrange(0, start.len() as int) =~= start);
    }
}

/// A rule without a pattern, or with an empty one or a star, covers every call of
/// its tool, and none of another.
pub proof fn law_bare_rules_match_every_call(
    tool: Seq<char>,
    called: Seq<char>,
    argument: Seq<char>,
)
    requires
        is_tool_name(tool),
    ensures
        parsed_rule(tool) matches Some(rule) && covers(rule, called, argument) == names_tool(
            tool,
            called,
        ),
        parsed_rule(written(tool, Seq::empty())) matches Some(rule) && covers(
            rule,
            called,
            argument,
        ) == names_tool(tool, called),
        parsed_rule(written(tool, seq!['*'])) matches Some(rule) && covers(rule, called, argument)
            == names_tool(tool, called),
{
    reveal_strlit("(");
    reveal_strlit("*");
    assert("("@ =~= seq!['(']);
    assert("*"@ =~= seq!['*']);
    lemma_tight_is_trimmed(tool);
    text::lemma_found_from(tool, "("@, 0);
    if text::found(tool, "("@) is Some {
        let i = text::found(tool, "("@)->0;
        assert(tool.subrange(i, i + 1)[0] == '(');
        assert(tool[i] == '(');
    }
    lemma_written(tool, Seq::empty());
    lemma_written(tool, seq!['*']);
}

/// A rule whose pattern has a wildcard covers what the glob matches, and where
/// the glob is malformed there is no rule.
pub proof fn law_wildcard_rules_are_globs(
    tool: Seq<char>,
    pattern: Seq<char>,
    called: Seq<char>,
    argument: Seq<char>,
)
    requires
        is_tool_name(tool),
        is_tight(pattern),
        pattern.contains('*') || pattern.contains('?') || pattern.contains('['),
        pattern != seq!['*'],
        !text::ends_with(pattern, seq![':', '*']),
    ensures
        match parsed_rule(written(tool, pattern)) {
            Some(rule) => glob_valid(pattern) && covers(rule, called, argument) == (names_tool(
                tool,
                called,
            ) && glob_matches(pattern, argument)),
            None => !glob_valid(pattern),
        },
{
    reveal_strlit("*");
    reveal_strlit(":*");
    assert("*"@ =~= seq!['*']);
    assert(":*"@ =~= seq![':', '*']);
    lemma_written(tool, pattern);
}

/// A bracket that is not closed makes no rule, nor does a pattern without a tool.
pub proof fn law_broken_rules_are_none(tool: Seq<char>, pattern: Seq<char>)
    requires
        is_tool_name(tool),
        pattern.len() > 0,
        !text::is_white(pattern.last()),
        pattern.last() != ')',
    ensures
        parsed_rule(tool + seq!['('] + pattern) is None,
        parsed_rule(seq!['('] + pattern + seq![')']) is None,
        parsed_rule(Seq::empty()) is None,
{
    reveal_strlit("(");
    reveal_strlit(")");
    assert("("@ =~= seq!['(']);
    assert(")"@ =~= seq![')']);
    let raw = tool + seq!['('] + pattern;
    assert(raw[0] == tool[0]);
    assert(raw.last() == pattern.last());
    lemma_tight_is_trimmed(raw);
    let n = tool.len() as int;
    assert(raw.subrange(n, n + 1) =~= seq!['(']);
    assert(text::occurs_at(raw, "("@, n));
    text::lemma_found_from(raw, "("@, 0);
    assert forall|j: int| text::occurs_at(raw, "("@, j) implies j >= n by {
        if j < n {
            assert(raw.subrange(j, j + 1)[0] == '(');
            assert(tool[j] == '(');
        }
    }
    assert(raw.skip(n + 1) =~= pattern);
    if text::ends_with(pattern, ")"@) {
        assert(pattern.subrange(pattern.len() - 1, pattern.len() as int)[0] == ')');
    }
    let bare = seq!['('] + pattern + seq![')'];
    lemma_tight_is_trimmed(bare);
    assert(bare.subrange(0, 1) =~= seq!['(']);
    assert(text::occurs_at(bare, "("@, 0));
    text::lemma_found_from(bare, "("@, 0);
    assert(bare.take(0) =~= Seq::<char>::empty());
    lemma_tight_is_trimmed(Seq::empty());
    text::lemma_found_from(Seq::empty(), "("@, 0);
}

/// What is left of a text without its underscores.
pub open spec fn no_underscores(s: Seq<char>) -> Seq<char> {
    s.filter(|c: char| c != '_')
}

proof fn lemma_squashed(s: Seq<char>)
    ensures
        text::replaced(s, seq!['_'], Seq::empty()) == no_underscores(s),
    decreases s.len(),
{
    let keep = |c: char| c != '_';
    reveal(Seq::filter);
    if s.len() > 0 {
        let t = s.skip(1);
        lemma_squashed(t);
        lemma_filter_first(s, keep);
        if s[0] == '_' {
            assert(s.subrange(0, 1) =~= seq!['_']);
            assert(text::replaced(s, seq!['_'], Seq::empty()) =~= text::replaced(
                t,
                seq!['_'],
                Seq::empty(),
            ));
        } else {
            if text::starts_with(s, seq!['_']) {
                assert(s.subrange(0, 1)[0] == '_');
            }
        }
    }
}

proof fn lemma_filter_first(s: Seq<char>, keep: spec_fn(char) -> bool)
    requires
        s.len() > 0,
    ensures
        s.filter(keep) == if keep(s[0]) {
            seq![s[0]] + s.skip(1).filter(keep)
        } else {
            s.skip(1).filter(keep)
        },
    decreases s.len(),
{
    reveal(Seq::filter);
    let t = s.skip(1);
    if s.len() == 1 {
        assert(s.drop_last() =~= Seq::<char>::empty());
        assert(t =~= Seq::<char>::empty());
        assert(s.filter(keep) =~= if keep(s[0]) {
            seq![s[0]] + t.filter(keep)
        } else {
            t.filter(keep)
        });
    } else {
        lemma_filter_first(s.drop_last(), keep);
        assert(s.drop_last().skip(1) =~= t.drop_last());
        assert(s.filter(keep) =~= if keep(s[0]) {
            seq![s[0]] + t.filter(keep)
        } else {
            t.filter(keep)
        });
    }
}

/// A rule names a tool where the two are spelt alike, whatever their case and
/// underscores. The shell can also be called `Bash`, and a file tool by what it
/// does.
pub proof fn law_tools_go_by_name(rule: Seq<char>, tool: Seq<char>)
    ensures
        no_underscores(lowercase(rule)) == no_underscores(lowercase(tool)) ==> names_tool(
            rule,
            tool,
        ),
        names_tool(rule, tool) ==> no_underscores(lowercase(rule)) == no_underscores(
            lowercase(tool),
        ) || (exists|k: int|
            0 <= k < 11 && tool == (#[trigger] display_names()[k]).0 && no_underscores(
                lowercase(rule),
            ) == lowercase(display_names()[k].1)),
        forall|k: int|
            0 <= k < 11 && no_underscores(lowercase(rule)) == lowercase(
                (#[trigger] display_names()[k]).1,
            ) ==> names_tool(rule, display_names()[k].0),
{
    reveal_strlit("_");
    reveal_strlit("");
    assert("_"@ =~= seq!['_']);
    assert(""@ =~= Seq::<char>::empty());
    lemma_squashed(lowercase(rule));
    lemma_squashed(lowercase(tool));
    let d = display_names();
    assert(d[0] == ("read_file"@, "Read"@) && d[1] == ("write_file"@, "Write"@) && d[2] == (
        "edit_file"@,
        "Edit"@,
    ) && d[3] == ("list_files"@, "List"@));
    assert(d[4] == ("glob"@, "Glob"@) && d[5] == ("grep"@, "Grep"@) && d[6] == ("bash"@, "Bash"@)
        && d[7] == ("bash_output"@, "BashOutput"@));
    assert(d[8] == ("kill_shell"@, "KillShell"@) && d[9] == ("todo_write"@, "TodoWrite"@) && d[10]
        == ("web_fetch"@, "WebFetch"@));
    reveal_strlit("read_file");
    reveal_strlit("write_file");
    reveal_strlit("edit_file");
    reveal_strlit("list_files");
    reveal_strlit("glob");
    reveal_strlit("grep");
    reveal_strlit("bash");
    reveal_strlit("bash_output");
    reveal_strlit("kill_shell");
    reveal_strlit("todo_write");
    reveal_strlit("web_fetch");
    assert("glob"@[1] == 'l' && "grep"@[1] == 'r' && "bash"@[1] == 'a');
    assert("read_file"@[0] == 'r' && "edit_file"@[0] == 'e' && "web_fetch"@[0] == 'w');
    assert("write_file"@[0] == 'w' && "list_files"@[0] == 'l' && "kill_shell"@[0] == 'k'
        && "todo_write"@[0] == 't');
    assert("read_file"@.len() == 9);
    assert("write_file"@.len() == 10);
    assert("edit_file"@.len() == 9);
    assert("list_files"@.len() == 10);
    assert("glob"@.len() == 4);
    assert("grep"@.len() == 4);
    assert("bash"@.len() == 4);
    assert("bash_output"@.len() == 11);
    assert("kill_shell"@.len() == 10);
    assert("todo_write"@.len() == 10);
    assert("web_fetch"@.len() == 9);
    assert(alias(d[0].0) == Some(d[0].1));
    assert(alias(d[1].0) == Some(d[1].1));
    assert(alias(d[2].0) == Some(d[2].1));
    assert(alias(d[3].0) == Some(d[3].1));
    assert(alias(d[4].0) == Some(d[4].1));
    assert(alias(d[5].0) == Some(d[5].1));
    assert(alias(d[6].0) == Some(d[6].1));
    assert(alias(d[7].0) == Some(d[7].1));
    assert(alias(d[8].0) == Some(d[8].1));
    assert(alias(d[9].0) == Some(d[9].1));
    assert(alias(d[10].0) == Some(d[10].1));
    assert forall|k: int|
        0 <= k < 11 && no_underscores(lowercase(rule)) == lowercase(
            (#[trigger] display_names()[k]).1,
        ) implies names_tool(rule, display_names()[k].0) by {
        assert(alias(d[k].0) == Some(d[k].1));
    }
}

/// The names that the transcript shows for the tools.
pub open spec fn display_names() -> Seq<(Seq<char>, Seq<char>)> {
    seq![
        ("read_file"@, "Read"@),
        ("write_file"@, "Write"@),
        ("edit_file"@, "Edit"@),
        ("list_files"@, "List"@),
        ("glob"@, "Glob"@),
        ("grep"@, "Grep"@),
        ("bash"@, "Bash"@),
        ("bash_output"@, "BashOutput"@),
        ("kill_shell"@, "KillShell"@),
        ("todo_write"@, "TodoWrite"@),
        ("web_fetch"@, "WebFetch"@),
    ]
}

/// No rule of a configuration is lost, and none comes from elsewhere: the rules
/// are those of the texts that are rules, in their order.
pub proof fn law_every_rule_is_kept(a: Seq<Seq<char>>, raw: Seq<char>)
    ensures
        parsed_rules(a.push(raw)) == match parsed_rule(raw) {
            Some(rule) => parsed_rules(a).push(rule),
            None => parsed_rules(a),
        },
        parsed_rules(Seq::empty()) == Seq::<RuleView>::empty(),
{
    assert(a.push(raw).drop_last() =~= a);
}

// ---------------------------------------------------------------------------
// Shell commands
// ---------------------------------------------------------------------------

/// Whether a character can be part of an operator of the shell.
pub open spec fn is_operator_char(c: char) -> bool {
    c == '|' || c == '&' || c == ';' || c == '\n' || c == '`' || c == '$'
}

/// The operators that part one command from the next.
pub open spec fn is_operator(op: Seq<char>) -> bool {
    ||| op == seq!['&', '&']
    ||| op == seq!['|', '|']
    ||| op == seq![';']
    ||| op == seq!['|']
    ||| op == seq!['\n']
    ||| op == seq!['$', '(']
    ||| op == seq!['`']
    ||| op == seq!['&']
}

/// A command without operators is the one thing that is run, without the white
/// space around it. One of white space runs nothing.
pub proof fn law_simple_commands_are_one_segment(command: Seq<char>)
    requires
        forall|i: int| 0 <= i < command.len() ==> !is_operator_char(#[trigger] command[i]),
    ensures
        !compound(command),
        segments_of(command) == if is_blank(command) {
            Seq::<Seq<char>>::empty()
        } else {
            seq![text::trimmed(command)]
        },
{
    lemma_no_break(command, 0);
    law_compound_is_segmented(command);
    let parts = parts_from(command, 0);
    assert(command.skip(0) =~= command);
    assert(parts == seq![command]);
    lemma_kept_one(command);
}

proof fn lemma_kept_one(p: Seq<char>)
    ensures
        nonempty_trimmed(seq![p]) == if is_blank(p) {
            Seq::<Seq<char>>::empty()
        } else {
            seq![text::trimmed(p)]
        },
{
    reveal(Seq::filter);
    let m = seq![p].map_values(|q: Seq<char>| text::trimmed(q));
    assert(m =~= seq![text::trimmed(p)]);
    let keep = |q: Seq<char>| q.len() > 0;
    assert(m.drop_last() =~= Seq::<Seq<char>>::empty());
    assert(m.drop_last().filter(keep) =~= Seq::<Seq<char>>::empty());
    assert(m.last() == text::trimmed(p));
    law_blank_text_trims_to_nothing(p);
    assert(nonempty_trimmed(seq![p]) =~= if is_blank(p) {
        Seq::<Seq<char>>::empty()
    } else {
        seq![text::trimmed(p)]
    });
}

proof fn lemma_no_break(s: Seq<char>, i: int)
    requires
        0 <= i <= s.len(),
        forall|j: int| i <= j < s.len() ==> !is_operator_char(#[trigger] s[j]),
    ensures
        parts_from(s, i) == seq![s.skip(i)],
    decreases s.len() - i,
{
    if i < s.len() {
        lemma_no_break(s, i + 1);
        assert(seq![s[i]] + s.skip(i + 1) =~= s.skip(i));
        assert(parts_from(s, i) =~= seq![s.skip(i)]);
    } else {
        assert(s.skip(i) =~= Seq::<char>::empty());
    }
}

proof fn lemma_shift(a: Seq<char>, b: Seq<char>, i: int)
    requires
        0 <= i <= b.len(),
    ensures
        parts_from(a + b, a.len() + i) == parts_from(b, i),
    decreases b.len() - i,
{
    let s = a + b;
    let k = a.len() + i;
    if i < b.len() {
        assert(s[k] == b[i]);
        if i + 1 < b.len() {
            assert(s[k + 1] == b[i + 1]);
        }
        assert(break_len(s, k) == break_len(b, i));
        if break_len(b, i) > 0 {
            let n = break_len(b, i);
            lemma_shift(a, b, i + n);
        } else {
            lemma_shift(a, b, i + 1);
        }
    }
}

proof fn lemma_parts_split(a: Seq<char>, op: Seq<char>, b: Seq<char>, i: int)
    requires
        0 <= i <= a.len(),
        is_operator(op),
        a.len() > 0 ==> a.last() != '&' && a.last() != '|' && a.last() != '$',
        b.len() > 0 ==> b[0] != '&' && b[0] != '|',
    ensures
        parts_from(a + op + b, i) == parts_from(a, i) + parts_from(b, 0),
        parts_from(a, i).len() > 0,
    decreases a.len() - i,
{
    let s = a + op + b;
    let n = a.len() as int;
    if i == n {
        assert(s[n] == op[0]);
        if op.len() == 2 {
            assert(s[n + 1] == op[1]);
        } else if b.len() > 0 {
            assert(s[n + 1] == b[0]);
        }
        assert(break_len(s, n) == op.len());
        lemma_shift(a + op, b, 0);
        assert((a + op) + b =~= s);
        assert(parts_from(s, n) =~= parts_from(a, n) + parts_from(b, 0));
    } else {
        assert(s[i] == a[i]);
        if i + 1 < n {
            assert(s[i + 1] == a[i + 1]);
        }
        assert(break_len(s, i) == break_len(a, i));
        let k = break_len(a, i);
        if k > 0 {
            lemma_parts_split(a, op, b, i + k);
            assert(parts_from(s, i) =~= parts_from(a, i) + parts_from(b, 0));
        } else {
            lemma_parts_split(a, op, b, i + 1);
            let rest = parts_from(a, i + 1);
            let all = parts_from(s, i + 1);
            assert(all.skip(1) =~= rest.skip(1) + parts_from(b, 0));
            assert(parts_from(s, i) =~= parts_from(a, i) + parts_from(b, 0));
        }
    }
}

proof fn lemma_kept_concat(a: Seq<Seq<char>>, b: Seq<Seq<char>>)
    ensures
        nonempty_trimmed(a + b) == nonempty_trimmed(a) + nonempty_trimmed(b),
    decreases b.len(),
{
    reveal(Seq::filter);
    let f = |p: Seq<char>| text::trimmed(p);
    let keep = |p: Seq<char>| p.len() > 0;
    let all = (a + b).map_values(f);
    if b.len() == 0 {
        assert(a + b =~= a);
        assert(b.map_values(f) =~= Seq::<Seq<char>>::empty());
        assert(nonempty_trimmed(a + b) =~= nonempty_trimmed(a) + nonempty_trimmed(b));
    } else {
        lemma_kept_concat(a, b.drop_last());
        assert(all.drop_last() =~= (a + b.drop_last()).map_values(f));
        assert(b.map_values(f).drop_last() =~= b.drop_last().map_values(f));
        assert(nonempty_trimmed(a + b) =~= nonempty_trimmed(a) + nonempty_trimmed(b));
    }
}

/// Two commands with an operator between them are two commands: everything that
/// the first runs and everything that the second runs.
pub proof fn law_operators_part_commands(a: Seq<char>, op: Seq<char>, b: Seq<char>)
    requires
        is_operator(op),
        a.len() > 0 ==> a.last() != '&' && a.last() != '|' && a.last() != '$',
        b.len() > 0 ==> b[0] != '&' && b[0] != '|',
    ensures
        compound(a + op + b),
        segments_of(a + op + b) == segments_of(a) + segments_of(b),
{
    lemma_parts_split(a, op, b, 0);
    lemma_kept_concat(parts_from(a, 0), parts_from(b, 0));
    law_compound_is_segmented(a + op + b);
    lemma_some_part(b, 0);
}

proof fn lemma_some_part(s: Seq<char>, i: int)
    ensures
        parts_from(s, i).len() > 0,
    decreases s.len() - i,
{
    if 0 <= i < s.len() {
        if break_len(s, i) > 0 {
            lemma_some_part(s, i + break_len(s, i));
        } else {
            lemma_some_part(s, i + 1);
        }
    }
}

// ---------------------------------------------------------------------------
// Decisions
// ---------------------------------------------------------------------------

/// Whether one of the rules covers a call.
pub open spec fn some_rule_covers(
    rules: Seq<RuleView>,
    tool: Seq<char>,
    argument: Seq<char>,
) -> bool {
    exists|rule: RuleView| rules.contains(rule) && #[trigger] covers(rule, tool, argument)
}

proof fn lemma_some_rule(rules: Seq<RuleView>, tool: Seq<char>, argument: Seq<char>)
    ensures
        any_covers(rules, tool, argument) == some_rule_covers(rules, tool, argument),
{
    if any_covers(rules, tool, argument) {
        let i = choose|i: int| 0 <= i < rules.len() && covers(#[trigger] rules[i], tool, argument);
        assert(rules.contains(rules[i]));
    }
    if some_rule_covers(rules, tool, argument) {
        let rule = choose|rule: RuleView|
            rules.contains(rule) && #[trigger] covers(rule, tool, argument);
        let i = choose|i: int| 0 <= i < rules.len() && rules[i] == rule;
        assert(covers(rules[i], tool, argument));
    }
}

/// Whether deny rules speak of a call: they cover its argument, or for a shell
/// command one of the commands in it.
pub open spec fn is_denied(deny: Seq<RuleView>, tool: Seq<char>, argument: Seq<char>) -> bool {
    ||| some_rule_covers(deny, tool, argument)
    ||| tool == "bash"@ && exists|part: Seq<char>|
        segments_of(argument).contains(part) && #[trigger] some_rule_covers(deny, tool, part)
}

/// Whether allow rules speak for a call: they cover its argument, or for a shell
/// command of several parts each of those.
pub open spec fn is_allowed(allow: Seq<RuleView>, tool: Seq<char>, argument: Seq<char>) -> bool {
    if tool == "bash"@ && compound(argument) {
        &&& segments_of(argument).len() > 0
        &&& forall|part: Seq<char>|
            #[trigger] segments_of(argument).contains(part) ==> some_rule_covers(allow, tool, part)
    } else {
        some_rule_covers(allow, tool, argument)
    }
}

proof fn lemma_denied(e: EngineView, tool: Seq<char>, argument: Seq<char>)
    ensures
        (crate::permissions::first_hit(e.deny, tool, candidates(tool, argument)) is Some)
            == is_denied(e.deny, tool, argument),
{
    let c = candidates(tool, argument);
    crate::permissions::lemma_first_hit(e.deny, tool, c);
    let hit = exists|i: int| 0 <= i < c.len() && any_covers(e.deny, tool, #[trigger] c[i]);
    if hit {
        let i = choose|i: int| 0 <= i < c.len() && any_covers(e.deny, tool, #[trigger] c[i]);
        lemma_some_rule(e.deny, tool, c[i]);
        if i > 0 {
            assert(segments_of(argument)[i - 1] == c[i]);
            assert(segments_of(argument).contains(c[i]));
        }
    }
    if is_denied(e.deny, tool, argument) {
        if some_rule_covers(e.deny, tool, argument) {
            lemma_some_rule(e.deny, tool, argument);
            assert(any_covers(e.deny, tool, c[0]));
        } else {
            let part = choose|part: Seq<char>|
                segments_of(argument).contains(part) && #[trigger] some_rule_covers(
                    e.deny,
                    tool,
                    part,
                );
            let i = choose|i: int| 0 <= i < segments_of(argument).len() && segments_of(argument)[i]
                == part;
            lemma_some_rule(e.deny, tool, part);
            assert(c[i + 1] == part);
            assert(any_covers(e.deny, tool, c[i + 1]));
        }
    }
}

proof fn lemma_allowed(allow: Seq<RuleView>, tool: Seq<char>, argument: Seq<char>)
    ensures
        crate::permissions::rule_allowed(allow, tool, argument) == is_allowed(
            allow,
            tool,
            argument,
        ),
{
    lemma_some_rule(allow, tool, argument);
    let s = segments_of(argument);
    assert forall|i: int| 0 <= i < s.len() implies any_covers(allow, tool, #[trigger] s[i])
        == some_rule_covers(allow, tool, s[i]) && s.contains(s[i]) by {
        lemma_some_rule(allow, tool, s[i]);
    }
    if is_allowed(allow, tool, argument) && tool == "bash"@ && compound(argument) {
        assert forall|i: int| 0 <= i < s.len() implies any_covers(
            allow,
            tool,
            #[trigger] s[i],
        ) by {
            assert(s.contains(s[i]));
        }
    }
    if crate::permissions::rule_allowed(allow, tool, argument) && tool == "bash"@ && compound(
        argument,
    ) {
        assert forall|part: Seq<char>| #[trigger] s.contains(part) implies some_rule_covers(
            allow,
            tool,
            part,
        ) by {
            let i = choose|i: int| 0 <= i < s.len() && s[i] == part;
            assert(any_covers(allow, tool, s[i]));
        }
    }
}

/// A call is refused exactly where a deny rule speaks of it, or where it would
/// change the machine in plan mode.
pub proof fn law_what_is_refused(
    e: EngineView,
    mode: PermissionMode,
    tool: Seq<char>,
    kind: ToolKind,
    argument: Seq<char>,
)
    ensures
        (decided(e, mode, tool, kind, argument) is Deny) == (is_denied(e.deny, tool, argument) || (
        mode == PermissionMode::Plan && (kind == ToolKind::Edit || kind == ToolKind::Execute))),
{
    lemma_denied(e, tool, argument);
}

/// A call that is not refused runs by a rule exactly where allow rules speak for
/// it.
pub proof fn law_what_rules_allow(
    e: EngineView,
    mode: PermissionMode,
    tool: Seq<char>,
    kind: ToolKind,
    argument: Seq<char>,
)
    requires
        !(decided(e, mode, tool, kind, argument) is Deny),
    ensures
        (decided(e, mode, tool, kind, argument) == DecisionView::Allow(AllowReason::Rule))
            == is_allowed(e.allow, tool, argument),
{
    lemma_allowed(e.allow, tool, argument);
}

/// A call that is neither refused nor allowed by a rule runs by a grant exactly
/// where one was given for it, and where it is not several commands in one.
pub proof fn law_what_grants_allow(
    e: EngineView,
    mode: PermissionMode,
    tool: Seq<char>,
    kind: ToolKind,
    argument: Seq<char>,
)
    requires
        !(decided(e, mode, tool, kind, argument) is Deny),
        !is_allowed(e.allow, tool, argument),
    ensures
        (decided(e, mode, tool, kind, argument) == DecisionView::Allow(AllowReason::SessionGrant))
            == (e.grants.contains(key_of(tool, argument)) && !(tool == "bash"@ && compound(
            argument,
        ))),
{
    lemma_allowed(e.allow, tool, argument);
}

/// A rule to ask is heeded in every mode, also where everything else runs
/// unprompted.
pub proof fn law_ask_rules_ask(
    e: EngineView,
    mode: PermissionMode,
    tool: Seq<char>,
    kind: ToolKind,
    argument: Seq<char>,
)
    requires
        some_rule_covers(e.ask, tool, argument),
        !(decided(e, mode, tool, kind, argument) is Deny),
        !is_allowed(e.allow, tool, argument),
        !e.grants.contains(key_of(tool, argument)),
    ensures
        decided(e, mode, tool, kind, argument) is Ask,
{
    lemma_allowed(e.allow, tool, argument);
    lemma_some_rule(e.ask, tool, argument);
}

/// Where no rule and no grant speaks of a call, the mode decides: reading runs
/// freely; edits run where they are accepted; everything runs where nothing is
/// to be asked; and the user is asked of all else.
pub proof fn law_what_modes_allow(
    e: EngineView,
    mode: PermissionMode,
    tool: Seq<char>,
    kind: ToolKind,
    argument: Seq<char>,
)
    requires
        !is_denied(e.deny, tool, argument),
        !is_allowed(e.allow, tool, argument),
        !e.grants.contains(key_of(tool, argument)),
        !some_rule_covers(e.ask, tool, argument),
    ensures
        ({
            let d = decided(e, mode, tool, kind, argument);
            match mode {
                PermissionMode::Default => d is Allow == (kind == ToolKind::Read || kind
                    == ToolKind::Meta) && (!(d is Allow) ==> d is Ask),
                PermissionMode::AcceptEdits => d is Allow == (kind == ToolKind::Read || kind
                    == ToolKind::Meta || kind == ToolKind::Edit) && (!(d is Allow) ==> d is Ask),
                PermissionMode::Plan => {
                    &&& d is Allow == (kind == ToolKind::Read || kind == ToolKind::Meta)
                    &&& d is Ask == (kind == ToolKind::Network)
                },
                PermissionMode::BypassPermissions => d is Allow,
            }
        }),
{
    lemma_denied(e, tool, argument);
    lemma_allowed(e.allow, tool, argument);
    lemma_some_rule(e.ask, tool, argument);
}

// ---------------------------------------------------------------------------
// Grants
// ---------------------------------------------------------------------------

/// The first words of a command.
pub open spec fn first_two(command: Seq<char>) -> Seq<Seq<char>> {
    let w = text::words_of(command);
    if w.len() > 2 {
        seq![w[0], w[1]]
    } else {
        w
    }
}

/// A grant for a command is one for the commands that begin with the same two
/// words, and for no others.
pub proof fn law_commands_share_grants_by_two_words(a: Seq<char>, b: Seq<char>)
    ensures
        (key_of("bash"@, a) == key_of("bash"@, b)) == (first_two(a) == first_two(b)),
{
    let fa = first_two(a);
    let fb = first_two(b);
    let wa = text::words_of(a);
    let wb = text::words_of(b);
    law_words_hold_no_white_space(a);
    law_words_hold_no_white_space(b);
    reveal_strlit(" ");
    assert(" "@ =~= seq![' ']);
    if wa.len() > 2 {
        assert(wa.take(2) =~= fa);
    }
    if wb.len() > 2 {
        assert(wb.take(2) =~= fb);
    }
    assert(fingerprint("bash"@, a) == text::joined(fa, seq![' ']));
    assert(fingerprint("bash"@, b) == text::joined(fb, seq![' ']));
    assert forall|k: int| 0 <= k < fa.len() implies !(#[trigger] fa[k]).contains(' ') && fa[k].len()
        > 0 by {
        assert(fa[k] == wa[k]);
        if wa[k].contains(' ') {
            let i = choose|i: int| 0 <= i < wa[k].len() && wa[k][i] == ' ';
            assert(!text::is_white(wa[k][i]));
        }
    }
    assert forall|k: int| 0 <= k < fb.len() implies !(#[trigger] fb[k]).contains(' ') && fb[k].len()
        > 0 by {
        assert(fb[k] == wb[k]);
        if wb[k].contains(' ') {
            let i = choose|i: int| 0 <= i < wb[k].len() && wb[k][i] == ' ';
            assert(!text::is_white(wb[k][i]));
        }
    }
    if key_of("bash"@, a) == key_of("bash"@, b) {
        let head = "bash"@ + "\u{0}"@;
        let ja = text::joined(fa, seq![' ']);
        let jb = text::joined(fb, seq![' ']);
        assert(key_of("bash"@, a).skip(head.len() as int) =~= ja);
        assert(key_of("bash"@, b).skip(head.len() as int) =~= jb);
        assert(ja == jb);
        if fa.len() > 0 && fb.len() > 0 {
            text::lemma_pieces_joined(fa, ' ');
            text::lemma_pieces_joined(fb, ' ');
        } else if fa.len() > 0 {
            lemma_joined_some(fa);
        } else if fb.len() > 0 {
            lemma_joined_some(fb);
        }
        assert(fa =~= fb);
    }
}

proof fn lemma_joined_some(parts: Seq<Seq<char>>)
    requires
        parts.len() > 0,
        parts[0].len() > 0,
    ensures
        text::joined(parts, seq![' ']).len() > 0,
{
    if parts.len() > 1 {
        let rest = parts.skip(1);
        law_joining(seq![parts[0]], rest, seq![' ']);
        assert(seq![parts[0]] + rest =~= parts);
    }
}

/// A grant for any other tool is one for the same argument only.
pub proof fn law_other_grants_are_exact(tool: Seq<char>, a: Seq<char>, b: Seq<char>)
    requires
        tool != "bash"@,
    ensures
        (key_of(tool, a) == key_of(tool, b)) == (a == b),
{
    let head = tool + "\u{0}"@;
    assert(key_of(tool, a).skip(head.len() as int) =~= a);
    assert(key_of(tool, b).skip(head.len() as int) =~= b);
}

} // verus!
