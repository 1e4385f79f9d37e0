# codex_tools_core

The decisions behind the tools of a coding agent, as a Verus library. What each tool answers, which
file it touches, which command it runs and what the terminal shows is stated in contracts and proved.

- `src/` is the library.
  - File tools: `read`, `edit`, `occurrence`, `request`, `apply`, `plan`, `change`, `line_range` say
    what reads and edits mean; `paths`, `walk`, `grep`, `reach` what searches find; `file_handler`,
    `file_flow`, `search_flow` run each call step by step.
  - Shell tools: `shell_tools`, `exec_flow`, `shell_flow`, `background_shell_notification`.
  - Agents and models: `agents`, `agent_summary`, `models_endpoint`.
  - Tool descriptions: `schema`, `tool_parts`, `local_tool`, `utility_tool`.
  - Terminal: `backtrack`, `transcript`, `picker`, `footer`, `exec_cell`, `streaming`, `live_table`,
    `table_layout`, `width`.
  - `outside` holds the functions of other crates that the library calls without proof.
- `app/` reads arguments, files, processes, the network and the keyboard, and hands the library what
  it found.
- `tests/` runs the library.

A tool call that needs the outside world is a state and a step function: the step takes what happened
and says what to do next. Proof functions whose names begin with `law_` state what holds of several
functions together.
