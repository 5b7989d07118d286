# vesper

A local-first coding agent for the terminal. It talks to a model served by Ollama, reads and
edits the repository it is started in, runs shell and git commands, and verifies its own
edits with the project's test command.

The decisions of the agent live in a library verified with Verus (`src/`); the program
around it (`app/`) does the file system, process, network and terminal work and hands the
library plain values.

## Layout

- `src/run.rs`: one run of the tool loop as a state machine. The caller performs each
  command (ask the model, preview, ask for approval, run a tool or the verify command) and
  hands the outcome back. Its invariant: a call that runs is allowed in the session mode,
  has not failed before, and was approved where approval is needed.
- `src/protocol.rs`, `src/runtime.rs`: reading the model's replies, tool arguments,
  approval rules, previews.
- `src/sandbox.rs`: which paths a tool may touch (every accepted path lies inside the
  workspace), and the text side of the file, search and shell tools.
- `src/diff.rs`, `src/checkpoint.rs`: diffs shown before edits; checkpoints and backups.
- `src/config.rs`, `src/memory.rs`: settings layered from files, project memory.
- `src/agent.rs`, `src/cli.rs`: prompts, routing, the shell's commands and output.
- `src/gather.rs`, `src/project.rs`, `src/repo_map.rs`: orientation in a codebase.
- `src/mcp.rs`, `src/llm.rs`, `src/json.rs`, `src/tool_specs.rs`: plugin servers, chat
  messages and streams, JSON values and text, native tool descriptions.
- `src/text.rs`, `src/order.rs`, `src/paths.rs`: strings, ordering, paths.
- `app/`: the `vesper` command: CLI, REPL, watch loop, Ollama client, plugin processes,
  file and process work.
- `tests/`: tests of the library.

Laws that relate several functions are public proof functions named `law_*`.
