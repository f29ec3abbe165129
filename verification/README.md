# delve

Delve keeps human and LLM collaboration as auditable session trees: an intent,
prompts beneath it, and artifacts proposed for each prompt, which are accepted,
rejected or superseded as the session goes on.

## Layout

- `src/` is the verified library, written in Verus. Public functions state
  in their contracts what they return, except where the result lies beyond
  what Verus can see: the file paths built with `Path::join`, and the two
  streaming generation functions, whose provider call cannot be named in a
  contract here. The laws of the session tree (validity means one tree under
  the intent node, what every operation keeps valid, which context a prompt
  may see, how labels and exit codes are formed) are proof functions checked
  by Verus.
  - `domain`: nodes, statuses, the session tree and its validation.
  - `tree_laws`, `context_laws`: lemmas and laws over the tree and the context.
  - `orchestrator`: context resolution, packing within a token budget, prompt
    rendering, keyword review, generation through a provider.
  - `workflow`: recording generations, accepting and rejecting artifacts,
    locating artifacts across sessions, session summaries.
  - `storage`: labels, schema versions, loading a session payload through
    migrations, events and checkpoints, session file names.
  - `providers`, `amp_stream`: provider requests and errors, the Amp command
    line and its stream-json output.
  - `cli`, `keys`, `tui`, `review`: exit codes and errors, the auto loop's
    decisions, thread ids, key handling, screen layout arithmetic, review
    keywords.
  - `text`, `model`: text helpers and their specifications.
- `app/` is the command line program around the library: argument parsing,
  files, processes, the terminal interface and the Ctrl+C handler.
- `tests/` runs the library on concrete values.

## Design choices of the program

- Suggesting the next prompt: the program asks the session's provider, on the
  session's thread, with a fixed request for "the single most useful next
  prompt" (`SUGGESTION_PROMPT` in `app/session_ops.rs`), and takes the reply
  as the suggestion.
- The provider thread id is kept beside the session tree in the session file
  (`app/records.rs`), not inside the tree.
- The Anthropic provider runs the command named by the `DELVE_ANTHROPIC_BIN`
  environment variable; the program names that provider `anthropic`.
