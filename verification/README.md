# grok-cli

An agentic coding harness for xAI's Grok models: it reads code, edits it, runs
commands and iterates, in a terminal, under permission rules that the user sets.

The library under `src/` is written in Verus. It holds what the harness decides
and computes, and its contracts say what comes of it:

- `api` — the wire types, decoding of event streams, assembly of streamed
  completions, requests and retries;
- `agent` — the loop of a turn, the way of a single tool call, delegation to
  subagents, compaction and the system prompt;
- `permissions`, `hooks`, `mcp` — whether a call runs, who may veto it, and
  where borrowed tools come from;
- `tools` — the built-in tools: paths, edits, listings, searches, shells, the task
  list and web pages;
- `session`, `config`, `commands`, `cli`, `headless` — transcripts, layered
  configuration, slash commands and the command line;
- `tui` — the input box, keys, Markdown, the screen and its reports;
- `text`, `util`, `calendar`, `table`, `order`, `json`, `matching`, `frontmatter` — what the
  others stand on;
- `chat` — a small chat with one tool.

Functions named `law_…` are proofs about the library as a whole: that deny rules
are final, also inside subagents, that every tool call is answered exactly once
over any number of turns, that a finished message holds what was streamed, that
accepted paths lie within the workspace, that a resumed session is the one that
was left, and so on.

What rests on chance, the clock or another thread is left open: the time, and
which permission mode is in force at the moment when it is read from the cell
that the agent and the screen share. What is done with either is not.

Calls into outside crates go through small wrappers whose contracts are trusted.
Each names the function it calls and says what is claimed of it. Where a result
takes pages to describe — what a regular expression matches, how Markdown is
parsed — it is only given a name, and contracts speak of that name.

`app/` is the program around the library: arguments, files, processes, HTTP and the
terminal. `tests/` exercises the library from outside.
