# co_scientist

The logic of a small research assistant, written and proved in Verus. A handful
of agents propose hypotheses, review them, set them against each other in a
tournament and test them; a terminal front end shows what they do.

## Layout

`src/` is the verified library. Contracts say what its functions return or change,
and what relates several functions is stated in public proof functions whose names
begin with `law_`.

- `agents`, `prompts`, `registry`, `tool_catalog`: who there is, which templates
  they own and which tools they may call.
- `marker`: reading tool calls out of a model's answer, completing them, and
  holding templates against what an agent may call.
- `claude_cli`, `llm_io`: the frames of the client program, when a failed query
  is repeated, and hashed embeddings.
- `agent_loop`: one turn of an agent, its prompts, and the tasks that follow it.
- `lifecycle`, `hypothesis`, `elo`: the task queue, the events, when a session
  ends, and the table of hypotheses.
- `cli`, `clock`, `db`, `id`, `json`, `text`: arguments, time, schema changes, ids,
  JSON values and strings.
- `tui`: the state of the front end, its keys, and everything that it draws.

`tests/` runs the library from outside.

`app/` is the program: SQLite, the client subprocess, the terminal and the
command line. It turns rows, frames and keys into the library's values and
carries out what the library decides. Floating-point arithmetic (ratings,
normalised embeddings) stands there too.

## What is taken on trust

A few calls into other crates stand behind functions whose contracts are not
proved: `ulid` (making, writing and reading ids), `uuid` (fresh ids), `chrono`
(the time), `sha2`, `anyhow::Error::chain`, `serde_json` (the value of a JSON text;
lists of integers), `pulldown_cmark` (the events of a Markdown text), the display
width of `ratatui`, and two functions of the standard library on strings. Each says
above it what it claims.
