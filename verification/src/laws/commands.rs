//! What a line of input does, and what the files of commands and subagents say.
use vstd::prelude::*;
use crate::agent::subagent::{settings, tool_list, tool_word, tool_words, Settings};
use crate::commands::{
    builtin_action, command_settings, dispatched, expanded, has_placeholder, placeholder,
    template_of, with_words, ActionView, CommandView,
};
use crate::config::mode_named;
use crate::frontmatter::{fence_of, setting_of, without_both, FenceView};
use crate::laws::text::{
    is_blank, is_tight, law_replacing_nothing, law_trimming, law_trimming_the_start,
};
use crate::order::{overlaid, overridden};
use crate::text;

verus! {

// ---------------------------------------------------------------------------
// Lines of input
// ---------------------------------------------------------------------------

/// What does not begin with a slash is for the model, without the white space
/// around it.
pub proof fn law_other_lines_are_prompts(
    before: Seq<char>,
    line: Seq<char>,
    after: Seq<char>,
    custom: Seq<CommandView>,
)
    requires
        is_blank(before),
        is_blank(after),
        is_tight(line),
        line[0] != '/',
    ensures
        dispatched(before + line + after, custom) == ActionView::Prompt(line),
{
    law_trimming(before, line, after);
    reveal_strlit("/");
    if text::starts_with(line, "/"@) {
        assert(line.subrange(0, 1)[0] == '/');
    }
}

/// A slash is followed by the name of a command and, after white space, by its
/// arguments. A custom command of that name comes before a built-in one.
pub proof fn law_commands_have_a_name_and_arguments(
    name: Seq<char>,
    space: char,
    args: Seq<char>,
    custom: Seq<CommandView>,
)
    requires
        name.len() > 0,
        forall|i: int| 0 <= i < name.len() ==> !text::is_white(#[trigger] name[i]),
        text::is_white(space),
        is_tight(args),
    ensures
        ({
            let line = seq!['/'] + name + seq![space] + args;
            &&& template_of(custom, name) matches Some(t) ==> dispatched(line, custom)
                == ActionView::Prompt(expanded(t, args))
            &&& template_of(custom, name) is None ==> dispatched(line, custom) == builtin_action(
                name,
                args,
                custom,
            )
        }),
        ({
            let line = seq!['/'] + name;
            &&& template_of(custom, name) matches Some(t) ==> dispatched(line, custom)
                == ActionView::Prompt(expanded(t, Seq::empty()))
            &&& template_of(custom, name) is None ==> dispatched(line, custom) == builtin_action(
                name,
                Seq::empty(),
                custom,
            )
        }),
{
    reveal_strlit("/");
    assert("/"@ =~= seq!['/']);
    let none: Seq<char> = Seq::empty();
    let rest = name + seq![space] + args;
    let line = seq!['/'] + name + seq![space] + args;
    assert(line =~= seq!['/'] + rest);
    assert(line[line.len() - 1] == args[args.len() - 1]);
    law_trimming(none, line, none);
    assert(none + line + none =~= line);
    assert(line.subrange(0, 1) =~= seq!['/']);
    assert(line.skip(1) =~= rest);
    lemma_first_space(name, seq![space] + args, 0);
    assert(rest =~= name + (seq![space] + args));
    assert(rest.take(name.len() as int) =~= name);
    assert(rest.skip(name.len() as int + 1) =~= args);
    law_trimming(none, args, none);
    assert(none + args + none =~= args);
    let short = seq!['/'] + name;
    assert(!text::is_white(name[name.len() - 1]));
    assert(short[short.len() - 1] == name[name.len() - 1]);
    law_trimming(none, short, none);
    assert(none + short + none =~= short);
    assert(short.subrange(0, 1) =~= seq!['/']);
    assert(short.skip(1) =~= name);
    lemma_no_space(name, 0);
}

proof fn lemma_first_space(name: Seq<char>, more: Seq<char>, from: int)
    requires
        0 <= from <= name.len(),
        forall|i: int| 0 <= i < name.len() ==> !text::is_white(#[trigger] name[i]),
        more.len() > 0,
        text::is_white(more[0]),
    ensures
        text::first_space(name + more, from) == Some(name.len() as int),
    decreases name.len() - from,
{
    if from < name.len() {
        assert(!text::is_white(name[from]));
        lemma_first_space(name, more, from + 1);
    }
}

proof fn lemma_no_space(name: Seq<char>, from: int)
    requires
        0 <= from <= name.len(),
        forall|i: int| 0 <= i < name.len() ==> !text::is_white(#[trigger] name[i]),
    ensures
        text::first_space(name, from) is None,
    decreases name.len() - from,
{
    if from < name.len() {
        assert(!text::is_white(name[from]));
        lemma_no_space(name, from + 1);
    }
}

/// What each built-in command does.
pub proof fn law_builtin_commands_act(args: Seq<char>, custom: Seq<CommandView>)
    ensures
        builtin_action("quit"@, args, custom) is Quit,
        builtin_action("exit"@, args, custom) is Quit,
        builtin_action("q"@, args, custom) is Quit,
        builtin_action("clear"@, args, custom) is Clear,
        builtin_action("new"@, args, custom) is Clear,
        builtin_action("compact"@, args, custom) is Compact,
        builtin_action("init"@, args, custom) is InitProject,
        builtin_action("resume"@, args, custom) is PickSession,
        builtin_action("help"@, args, custom) is Show,
        builtin_action("model"@, Seq::empty(), custom) is PickModel,
        args.len() > 0 ==> builtin_action("model"@, args, custom) == ActionView::SetModel(args),
        builtin_action("mode"@, Seq::empty(), custom) is PickMode,
        args.len() > 0 ==> (mode_named(text::trimmed(args)) matches Some(m) ==> builtin_action(
            "mode"@,
            args,
            custom,
        ) == ActionView::SetMode(m)),
        args.len() > 0 && mode_named(text::trimmed(args)) is None ==> builtin_action(
            "mode"@,
            args,
            custom,
        ) is Show,
        builtin_action("context"@, args, custom) == ActionView::Report("context"@),
        builtin_action("cost"@, args, custom) == ActionView::Report("cost"@),
        builtin_action("tools"@, args, custom) == ActionView::Report("tools"@),
        builtin_action("mcp"@, args, custom) == ActionView::Report("mcp"@),
        builtin_action("agents"@, args, custom) == ActionView::Report("agents"@),
{
    reveal_strlit("quit");
    reveal_strlit("exit");
    reveal_strlit("q");
    reveal_strlit("?");
    reveal_strlit("clear");
    reveal_strlit("new");
    reveal_strlit("compact");
    reveal_strlit("init");
    reveal_strlit("resume");
    reveal_strlit("help");
    reveal_strlit("model");
    reveal_strlit("mode");
    reveal_strlit("context");
    reveal_strlit("cost");
    reveal_strlit("tools");
    reveal_strlit("mcp");
    reveal_strlit("agents");
    assert("quit"@.len() == 4 && "exit"@.len() == 4 && "q"@.len() == 1 && "?"@.len() == 1);
    assert("clear"@.len() == 5 && "new"@.len() == 3 && "compact"@.len() == 7 && "init"@.len() == 4);
    assert("resume"@.len() == 6 && "help"@.len() == 4 && "model"@.len() == 5 && "mode"@.len() == 4);
    assert("context"@.len() == 7 && "cost"@.len() == 4 && "tools"@.len() == 5 && "mcp"@.len() == 3
        && "agents"@.len() == 6);
    assert("quit"@[0] == 'q' && "exit"@[0] == 'e' && "q"@[0] == 'q' && "?"@[0] == '?');
    assert("clear"@[0] == 'c' && "new"@[0] == 'n' && "init"@[0] == 'i' && "resume"@[0] == 'r');
    assert("help"@[0] == 'h' && "model"@[0] == 'm' && "mode"@[0] == 'm' && "cost"@[0] == 'c');
    assert("tools"@[0] == 't' && "mcp"@[0] == 'm' && "agents"@[0] == 'a');
    assert("compact"@[3] == 'p' && "context"@[3] == 't');
}

/// The template of a name is that of the first command that has it.
pub proof fn law_templates_go_by_name(custom: Seq<CommandView>, name: Seq<char>, i: int)
    ensures
        0 <= i < custom.len() && custom[i].name == name && (forall|j: int|
            0 <= j < i ==> (#[trigger] custom[j]).name != name) ==> template_of(custom, name)
            == custom[i].template,
        (forall|j: int| 0 <= j < custom.len() ==> (#[trigger] custom[j]).name != name)
            ==> template_of(custom, name) is None,
    decreases custom.len(),
{
    if custom.len() > 0 {
        let rest = custom.skip(1);
        law_templates_go_by_name(rest, name, i - 1);
        if 0 < i < custom.len() && custom[i].name == name && (forall|j: int|
            0 <= j < i ==> (#[trigger] custom[j]).name != name) {
            assert(custom[0].name != name);
            assert(rest[i - 1] == custom[i]);
            assert forall|j: int| 0 <= j < i - 1 implies (#[trigger] rest[j]).name != name by {
                assert(rest[j] == custom[j + 1]);
            }
        }
        if forall|j: int| 0 <= j < custom.len() ==> (#[trigger] custom[j]).name != name {
            assert(custom[0].name != name);
            assert forall|j: int| 0 <= j < rest.len() implies (#[trigger] rest[j]).name != name by {
                assert(rest[j] == custom[j + 1]);
            }
        }
    }
}

// ---------------------------------------------------------------------------
// Templates
// ---------------------------------------------------------------------------

proof fn lemma_replaced_once(
    a: Seq<char>,
    pat: Seq<char>,
    b: Seq<char>,
    with: Seq<char>,
    mark: char,
)
    requires
        pat.len() > 0,
        pat[0] == mark,
        !a.contains(mark),
        !b.contains(mark),
    ensures
        text::replaced(a + pat + b, pat, with) == a + with + b,
    decreases a.len(),
{
    let s = a + pat + b;
    if a.len() == 0 {
        assert(s.subrange(0, pat.len() as int) =~= pat);
        assert(s.skip(pat.len() as int) =~= b);
        lemma_no_mark(b, pat, mark);
        law_replacing_nothing(b, pat, with);
        assert(text::replaced(s, pat, with) =~= a + with + b);
    } else {
        if text::starts_with(s, pat) {
            assert(s.subrange(0, pat.len() as int)[0] == mark);
            assert(a.contains(a[0]));
        }
        let t = a.skip(1);
        assert forall|i: int| 0 <= i < t.len() implies t[i] != mark by {
            assert(a.contains(a[i + 1]));
        }
        lemma_replaced_once(t, pat, b, with, mark);
        assert(s.skip(1) =~= t + pat + b);
        assert(text::replaced(s, pat, with) =~= a + with + b);
    }
}

proof fn lemma_no_mark(s: Seq<char>, pat: Seq<char>, mark: char)
    requires
        pat.len() > 0,
        pat[0] == mark,
        !s.contains(mark),
    ensures
        !text::contains(s, pat),
{
    if text::contains(s, pat) {
        let i = choose|i: int| text::occurs_at(s, pat, i);
        assert(s.subrange(i, i + pat.len())[0] == mark);
        assert(s.contains(s[i]));
    }
}

proof fn lemma_unmarked(template: Seq<char>, words: Seq<Seq<char>>, n: nat)
    requires
        !template.contains('$'),
    ensures
        with_words(template, words, n) == template,
    decreases n,
{
    if n > 0 {
        lemma_unmarked(template, words, (n - 1) as nat);
        let p = placeholder((n - 1) as nat);
        lemma_placeholder((n - 1) as nat);
        lemma_no_mark(template, p, '$');
        law_replacing_nothing(template, p, words[n - 1]);
    }
}

proof fn lemma_placeholder(i: nat)
    ensures
        placeholder(i).len() > 0,
        placeholder(i)[0] == '$',
        i < 9 ==> placeholder(i) == seq!['$', ('1' as u32 + i) as char],
{
    reveal_strlit("$");
    if i < 9 {
        assert(text::decimal(i + 1) =~= seq![text::digit(i + 1)]);
        assert(placeholder(i) =~= seq!['$', ('1' as u32 + i) as char]);
    }
}

/// A template without a place for its arguments has them behind it, and one that
/// gets none stays as it is.
pub proof fn law_arguments_without_a_place_come_last(template: Seq<char>, args: Seq<char>)
    requires
        !template.contains('$'),
    ensures
        args.len() > 0 ==> expanded(template, args) == template + seq!['\n', '\n'] + args,
        args.len() == 0 ==> expanded(template, args) == template,
{
    let words = text::words_of(args);
    let n = if words.len() < 9 {
        words.len()
    } else {
        9
    };
    lemma_unmarked(template, words, n);
    reveal_strlit("$ARGUMENTS");
    reveal_strlit("\n\n");
    assert("\n\n"@ =~= seq!['\n', '\n']);
    lemma_no_mark(template, "$ARGUMENTS"@, '$');
    law_replacing_nothing(template, "$ARGUMENTS"@, args);
    assert(!has_placeholder(template)) by {
        assert forall|i: nat| i < 9 implies !text::contains(template, #[trigger] placeholder(i)) by {
            lemma_placeholder(i);
            lemma_no_mark(template, placeholder(i), '$');
        }
    }
}

proof fn lemma_other_place(a: Seq<char>, pat: Seq<char>, b: Seq<char>, other: Seq<char>)
    requires
        pat.len() > 1,
        pat[0] == '$',
        other.len() > 1,
        other[0] == '$',
        other[1] != pat[1],
        !a.contains('$'),
        !b.contains('$'),
        forall|i: int| 1 <= i < pat.len() ==> pat[i] != '$',
    ensures
        !text::contains(a + pat + b, other),
{
    let s = a + pat + b;
    if text::contains(s, other) {
        let i = choose|i: int| text::occurs_at(s, other, i);
        assert(s.subrange(i, i + other.len())[0] == '$');
        assert(s.subrange(i, i + other.len())[1] == other[1]);
        if i < a.len() {
            assert(a.contains(a[i]));
        } else if i > a.len() && i < a.len() + pat.len() {
            assert(s[i] == pat[i - a.len()]);
        } else if i >= a.len() + pat.len() {
            assert(b.contains(b[i - a.len() - pat.len()]));
        } else {
            assert(s[i + 1] == pat[1]);
        }
    }
}

proof fn lemma_words_elsewhere(
    a: Seq<char>,
    b: Seq<char>,
    words: Seq<Seq<char>>,
    n: nat,
)
    requires
        n <= 9,
        !a.contains('$'),
        !b.contains('$'),
    ensures
        with_words(a + "$ARGUMENTS"@ + b, words, n) == a + "$ARGUMENTS"@ + b,
    decreases n,
{
    reveal_strlit("$ARGUMENTS");
    if n > 0 {
        lemma_words_elsewhere(a, b, words, (n - 1) as nat);
        lemma_placeholder((n - 1) as nat);
        let p = placeholder((n - 1) as nat);
        lemma_other_place(a, "$ARGUMENTS"@, b, p);
        law_replacing_nothing(a + "$ARGUMENTS"@ + b, p, words[n - 1]);
    }
}

/// All arguments go where the template has `$ARGUMENTS`.
pub proof fn law_arguments_go_in_their_place(a: Seq<char>, b: Seq<char>, args: Seq<char>)
    requires
        !a.contains('$'),
        !b.contains('$'),
    ensures
        expanded(a + "$ARGUMENTS"@ + b, args) == a + args + b,
{
    let template = a + "$ARGUMENTS"@ + b;
    let words = text::words_of(args);
    let n = if words.len() < 9 {
        words.len()
    } else {
        9
    };
    reveal_strlit("$ARGUMENTS");
    lemma_words_elsewhere(a, b, words, n);
    lemma_replaced_once(a, "$ARGUMENTS"@, b, args, '$');
    let k = a.len() as int;
    assert(template.subrange(k, k + 10) =~= "$ARGUMENTS"@);
    assert(text::occurs_at(template, "$ARGUMENTS"@, k));
    assert(text::contains(template, "$ARGUMENTS"@));
}

proof fn lemma_word_placed(
    a: Seq<char>,
    k: nat,
    b: Seq<char>,
    words: Seq<Seq<char>>,
    n: nat,
)
    requires
        k < 9,
        k < words.len(),
        n <= 9,
        !a.contains('$'),
        !b.contains('$'),
        !words[k as int].contains('$'),
    ensures
        with_words(a + placeholder(k) + b, words, n) == if n <= k {
            a + placeholder(k) + b
        } else {
            a + words[k as int] + b
        },
    decreases n,
{
    lemma_placeholder(k);
    if n > 0 {
        let i = (n - 1) as nat;
        lemma_word_placed(a, k, b, words, i);
        lemma_placeholder(i);
        if i < k {
            lemma_other_place(a, placeholder(k), b, placeholder(i));
            law_replacing_nothing(a + placeholder(k) + b, placeholder(i), words[i as int]);
        } else if i == k {
            lemma_replaced_once(a, placeholder(k), b, words[k as int], '$');
        } else {
            let s = a + words[k as int] + b;
            lemma_unmarked_three(a, words[k as int], b);
            lemma_no_mark(s, placeholder(i), '$');
            law_replacing_nothing(s, placeholder(i), words[i as int]);
        }
    }
}

proof fn lemma_unmarked_three(a: Seq<char>, w: Seq<char>, b: Seq<char>)
    requires
        !a.contains('$'),
        !w.contains('$'),
        !b.contains('$'),
    ensures
        !(a + w + b).contains('$'),
{
    let s = a + w + b;
    assert forall|i: int| 0 <= i < s.len() implies s[i] != '$' by {
        if i < a.len() {
            assert(a.contains(a[i]));
        } else if i < a.len() + w.len() {
            assert(w.contains(w[i - a.len()]));
        } else {
            assert(b.contains(b[i - a.len() - w.len()]));
        }
    }
}

/// The first argument goes where the template has `$1`, the second where it has
/// `$2`, and so on.
pub proof fn law_each_argument_has_its_place(
    a: Seq<char>,
    k: nat,
    b: Seq<char>,
    args: Seq<char>,
)
    requires
        k < 9,
        k < text::words_of(args).len(),
        !a.contains('$'),
        !b.contains('$'),
        !text::words_of(args)[k as int].contains('$'),
    ensures
        expanded(a + seq!['$', ('1' as u32 + k) as char] + b, args) == a + text::words_of(
            args,
        )[k as int] + b,
{
    lemma_placeholder(k);
    let template = a + placeholder(k) + b;
    let words = text::words_of(args);
    let n = if words.len() < 9 {
        words.len()
    } else {
        9
    };
    lemma_word_placed(a, k, b, words, n);
    let s = a + words[k as int] + b;
    lemma_unmarked_three(a, words[k as int], b);
    reveal_strlit("$ARGUMENTS");
    lemma_no_mark(s, "$ARGUMENTS"@, '$');
    law_replacing_nothing(s, "$ARGUMENTS"@, args);
    let at = a.len() as int;
    assert(template.subrange(at, at + 2) =~= placeholder(k));
    assert(text::occurs_at(template, placeholder(k), at));
    assert(text::contains(template, placeholder(k)));
}

// ---------------------------------------------------------------------------
// Files of commands and subagents
// ---------------------------------------------------------------------------

/// A file may begin with a fenced block: what stands between the fences is the
/// block, and what follows is the body.
pub proof fn law_fences_hold_a_block(
    before: Seq<char>,
    block: Seq<char>,
    body: Seq<char>,
)
    requires
        is_blank(before),
        !text::contains(block, seq!['\n', '-']),
    ensures
        fence_of(before + seq!['-', '-', '-'] + block + seq!['\n', '-', '-', '-'] + body)
            == FenceView::Closed(block, body),
{
    let open = seq!['-', '-', '-'];
    let close = seq!['\n', '-', '-', '-'];
    reveal_strlit("---");
    reveal_strlit("\n---");
    assert("---"@ =~= open);
    assert("\n---"@ =~= close);
    let after = block + close + body;
    let rest = open + after;
    assert(before + open + block + close + body =~= before + rest);
    law_trimming_the_start(before, rest);
    assert(rest.subrange(0, 3) =~= open);
    assert(rest.skip(3) =~= after);
    lemma_fence_closes(block, body);
}

proof fn lemma_fence_closes(block: Seq<char>, body: Seq<char>)
    requires
        !text::contains(block, seq!['\n', '-']),
    ensures
        text::cut_once(block + seq!['\n', '-', '-', '-'] + body, seq!['\n', '-', '-', '-']) == Some(
            (block, body),
        ),
{
    let close = seq!['\n', '-', '-', '-'];
    let after = block + close + body;
    let n = block.len() as int;
    assert(after.subrange(n, n + 4) =~= close);
    assert(text::occurs_at(after, close, n));
    text::lemma_found_from(after, close, 0);
    let j = text::found(after, close)->0;
    lemma_no_earlier_fence(block, body, j);
    assert(after.take(n) =~= block);
    assert(after.skip(n + 4) =~= body);
}

proof fn lemma_no_earlier_fence(block: Seq<char>, body: Seq<char>, j: int)
    requires
        !text::contains(block, seq!['\n', '-']),
        text::occurs_at(
            block + seq!['\n', '-', '-', '-'] + body,
            seq!['\n', '-', '-', '-'],
            j,
        ),
    ensures
        j >= block.len(),
{
    let close = seq!['\n', '-', '-', '-'];
    let after = block + close + body;
    let n = block.len() as int;
    if j < n {
        let here = after.subrange(j, j + 4);
        assert(here[0] == close[0] && here[1] == close[1]);
        assert(after[j] == '\n' && after[j + 1] == '-');
        if j + 1 < n {
            assert(block.subrange(j, j + 2) =~= seq!['\n', '-']);
            assert(text::occurs_at(block, seq!['\n', '-'], j));
        } else {
            assert(after[n] == close[0]);
        }
    }
}

/// A file that begins otherwise has no block.
pub proof fn law_files_without_fences(before: Seq<char>, s: Seq<char>)
    requires
        is_blank(before),
        s.len() > 0,
        !text::is_white(s[0]),
        s[0] != '-',
    ensures
        fence_of(before + s) is Absent,
{
    law_trimming_the_start(before, s);
    reveal_strlit("---");
    if text::starts_with(s, "---"@) {
        assert(s.subrange(0, 3)[0] == '-');
    }
}

proof fn lemma_bare(s: Seq<char>, c: char)
    requires
        s.len() > 0,
        s[0] != c,
        s[s.len() - 1] != c,
    ensures
        without_both(s, c) == s,
{
}

/// A line sets a value, with or without quotes around it.
pub proof fn law_lines_set_values(key: Seq<char>, value: Seq<char>, blank: Seq<char>)
    requires
        is_tight(key),
        !key.contains(':'),
        is_tight(value),
        is_blank(blank),
        value[0] != '"',
        value[0] != '\'',
        value[value.len() - 1] != '"',
        value[value.len() - 1] != '\'',
    ensures
        setting_of(key + seq![':'] + blank + value) == Some((key, value)),
        setting_of(key + seq![':'] + blank + (seq!['"'] + value + seq!['"'])) == Some((key, value)),
{
    reveal_strlit(":");
    assert(":"@ =~= seq![':']);
    let none: Seq<char> = Seq::empty();
    law_trimming(none, key, none);
    assert(none + key + none =~= key);
    lemma_cut_at_colon(key, blank + value);
    assert(key + seq![':'] + (blank + value) =~= key + seq![':'] + blank + value);
    law_trimming(blank, value, none);
    assert(blank + value + none =~= blank + value);
    lemma_bare(value, '"');
    lemma_bare(value, '\'');
    let quoted = seq!['"'] + value + seq!['"'];
    lemma_cut_at_colon(key, blank + quoted);
    assert(key + seq![':'] + (blank + quoted) =~= key + seq![':'] + blank + quoted);
    law_trimming(blank, quoted, none);
    assert(blank + quoted + none =~= blank + quoted);
    let half = value + seq!['"'];
    assert(quoted.skip(1) =~= half);
    assert(text::without_start(half, '"') == half);
    assert(half.drop_last() =~= value);
    assert(text::without_end(half, '"') == text::without_end(value, '"'));
    assert(text::without_end(value, '"') == value);
    assert(without_both(quoted, '"') == value);
}

proof fn lemma_cut_at_colon(key: Seq<char>, rest: Seq<char>)
    requires
        !key.contains(':'),
    ensures
        text::cut_once(key + seq![':'] + rest, ":"@) == Some((key, rest)),
{
    reveal_strlit(":");
    assert(":"@ =~= seq![':']);
    let s = key + seq![':'] + rest;
    let n = key.len() as int;
    assert(s.subrange(n, n + 1) =~= seq![':']);
    assert(text::occurs_at(s, ":"@, n));
    text::lemma_found_from(s, ":"@, 0);
    assert forall|j: int| text::occurs_at(s, ":"@, j) implies j >= n by {
        if j < n {
            assert(s.subrange(j, j + 1)[0] == ':');
            assert(key.contains(key[j]));
        }
    }
    assert(s.take(n) =~= key);
    assert(s.skip(n + 1) =~= rest);
}

/// Each key of a subagent sets what it names, a later line in place of an earlier
/// one, and no other key sets anything.
pub proof fn law_subagents_are_set_up(
    stem: Seq<char>,
    lines: Seq<Seq<char>>,
    line: Seq<char>,
)
    ensures
        ({
            let s = settings(stem, lines);
            let r = settings(stem, lines.push(line));
            match setting_of(line) {
                None => r == s,
                Some((key, value)) => {
                    &&& r.name == if key == "name"@ {
                        value
                    } else {
                        s.name
                    }
                    &&& r.description == if key == "description"@ {
                        value
                    } else {
                        s.description
                    }
                    &&& r.model == if key == "model"@ {
                        Some(value)
                    } else {
                        s.model
                    }
                    &&& r.tools == if key == "tools"@ {
                        tool_list(value)
                    } else {
                        s.tools
                    }
                },
            }
        }),
        settings(stem, Seq::empty()) == (Settings {
            name: stem,
            description: Seq::empty(),
            tools: None,
            model: None,
        }),
{
    assert(lines.push(line).drop_last() =~= lines);
    reveal_strlit("name");
    reveal_strlit("description");
    reveal_strlit("model");
    reveal_strlit("tools");
    assert("name"@.len() == 4 && "description"@.len() == 11 && "model"@.len() == 5
        && "tools"@.len() == 5);
    assert("model"@[0] == 'm' && "tools"@[0] == 't');
}

/// Each key of a custom command sets what it names.
pub proof fn law_custom_commands_are_set_up(lines: Seq<Seq<char>>, line: Seq<char>)
    ensures
        ({
            let (description, hint) = command_settings(lines);
            let (then_description, then_hint) = command_settings(lines.push(line));
            match setting_of(line) {
                None => then_description == description && then_hint == hint,
                Some((key, value)) => {
                    &&& key == "description"@ ==> then_description == value && then_hint == hint
                    &&& key == "argument-hint"@ || key == "argument_hint"@ ==> then_description
                        == description && then_hint == Some(value)
                    &&& key != "description"@ && key != "argument-hint"@ && key != "argument_hint"@
                        ==> then_description == description && then_hint == hint
                },
            }
        }),
        command_settings(Seq::empty()) == (Seq::<char>::empty(), None::<Seq<char>>),
{
    assert(lines.push(line).drop_last() =~= lines);
    reveal_strlit("description");
    reveal_strlit("argument-hint");
    reveal_strlit("argument_hint");
    assert("description"@.len() == 11 && "argument-hint"@.len() == 13 && "argument_hint"@.len()
        == 13);
}

/// Whether a name can stand in a list of tools.
pub open spec fn is_listed_name(name: Seq<char>) -> bool {
    &&& is_tight(name)
    &&& !name.contains(',')
    &&& name[0] != '"'
    &&& name[name.len() - 1] != '"'
    &&& name[0] != '['
    &&& name[name.len() - 1] != ']'
}

proof fn lemma_tool_words(names: Seq<Seq<char>>)
    requires
        forall|i: int| 0 <= i < names.len() ==> is_listed_name(#[trigger] names[i]),
    ensures
        tool_words(names) == names,
    decreases names.len(),
{
    if names.len() > 0 {
        let front = names.drop_last();
        assert forall|i: int| 0 <= i < front.len() implies is_listed_name(#[trigger] front[i]) by {
            assert(is_listed_name(names[i]));
        }
        lemma_tool_words(front);
        assert(is_listed_name(names[names.len() - 1]));
        let none: Seq<char> = Seq::empty();
        let last = names.last();
        law_trimming(none, last, none);
        assert(none + last + none =~= last);
        lemma_bare(last, '"');
        assert(front.push(last) =~= names);
    } else {
        assert(tool_words(names) =~= names);
    }
}

/// A list of tools names each of them, with or without brackets around the list.
pub proof fn law_tool_lists_name_each_tool(names: Seq<Seq<char>>)
    requires
        names.len() > 0,
        forall|i: int| 0 <= i < names.len() ==> is_listed_name(#[trigger] names[i]),
    ensures
        tool_list(text::joined(names, seq![','])) == Some(names),
        tool_list(seq!['['] + text::joined(names, seq![',']) + seq![']']) == Some(names),
{
    let list = text::joined(names, seq![',']);
    assert forall|i: int| 0 <= i < names.len() implies !(#[trigger] names[i]).contains(',') by {
        assert(is_listed_name(names[i]));
    }
    text::lemma_pieces_joined(names, ',');
    lemma_tool_words(names);
    lemma_list_ends(names);
    assert(text::without_start(list, '[') == list);
    assert(text::without_end(list, ']') == list);
    let boxed = seq!['['] + list + seq![']'];
    let half = list + seq![']'];
    assert(boxed.skip(1) =~= half);
    assert(text::without_start(half, '[') == half);
    assert(half.drop_last() =~= list);
}

proof fn lemma_list_ends(names: Seq<Seq<char>>)
    requires
        names.len() > 0,
        forall|i: int| 0 <= i < names.len() ==> is_listed_name(#[trigger] names[i]),
    ensures
        ({
            let list = text::joined(names, seq![',']);
            &&& list.len() > 0
            &&& list[0] != '['
            &&& list[list.len() - 1] != ']'
        }),
    decreases names.len(),
{
    assert(is_listed_name(names[names.len() - 1]));
    if names.len() > 1 {
        let front = names.drop_last();
        assert forall|i: int| 0 <= i < front.len() implies is_listed_name(#[trigger] front[i]) by {
            assert(is_listed_name(names[i]));
        }
        lemma_list_ends(front);
    }
}

/// White space and quotes around a name in a list do not count.
pub proof fn law_listed_names_are_bare(before: Seq<char>, name: Seq<char>, after: Seq<char>)
    requires
        is_blank(before),
        is_blank(after),
        is_listed_name(name),
    ensures
        tool_word(before + name + after) == name,
{
    law_trimming(before, name, after);
    lemma_bare(name, '"');
}

/// What comes later takes the place of what has the same name, and everything
/// else stays.
pub proof fn law_later_names_win<T>(list: Seq<T>, x: T, key: spec_fn(T) -> Seq<char>, y: T)
    ensures
        overridden(list, x, key).contains(y) == (y == x || (list.contains(y) && key(y) != key(x))),
        overridden(list, x, key).len() > 0,
        overridden(list, x, key).last() == x,
{
    let keep = crate::order::not_named(key(x), key);
    let kept = list.filter(keep);
    let r = overridden(list, x, key);
    lemma_kept(list, keep, y);
    if r.contains(y) && y != x {
        let i = choose|i: int| 0 <= i < r.len() && r[i] == y;
        assert(kept[i] == y);
    }
    if y == x {
        assert(r[kept.len() as int] == y);
    } else if kept.contains(y) {
        let i = choose|i: int| 0 <= i < kept.len() && kept[i] == y;
        assert(r[i] == y);
    }
}

/// Lists are laid over each other one by one.
pub proof fn law_lists_are_laid_over<T>(
    list: Seq<T>,
    more: Seq<T>,
    x: T,
    key: spec_fn(T) -> Seq<char>,
)
    ensures
        overlaid(list, more.push(x), key) == overridden(overlaid(list, more, key), x, key),
        overlaid(list, Seq::empty(), key) == list,
{
    assert(more.push(x).drop_last() =~= more);
}

proof fn lemma_kept<T>(s: Seq<T>, keep: spec_fn(T) -> bool, f: T)
    ensures
        s.filter(keep).contains(f) == (s.contains(f) && keep(f)),
    decreases s.len(),
{
    reveal(Seq::filter);
    if s.len() > 0 {
        let front = s.drop_last();
        lemma_kept(front, keep, f);
        let all = s.filter(keep);
        let before = front.filter(keep);
        if all.contains(f) {
            let k = choose|k: int| 0 <= k < all.len() && all[k] == f;
            if k < before.len() {
                assert(before[k] == f);
                assert(before.contains(f));
                let i = choose|i: int| 0 <= i < front.len() && front[i] == f;
                assert(s[i] == f);
            } else {
                assert(s[s.len() - 1] == f);
            }
        }
        if s.contains(f) && keep(f) {
            let i = choose|i: int| 0 <= i < s.len() && s[i] == f;
            if i < front.len() {
                assert(front[i] == f);
                assert(front.contains(f));
                let k = choose|k: int| 0 <= k < before.len() && before[k] == f;
                assert(all[k] == f);
            } else {
                assert(all[before.len() as int] == f);
            }
        }
    }
}

} // verus!
