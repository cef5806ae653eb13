# inpr_os

A small desktop that runs in the browser: windows that can be dragged,
resized and closed, a task bar, a process table, a terminal with its own
shell, a virtual filesystem kept in local storage, and a tic-tac-toe game.

The logic is a library verified with Verus (`src/`); the browser side is a
thin Dioxus program around it (`app/`).

## Layout

- `src/fs/` — the filesystem tree, path resolution, reading, writing,
  creating and removing entries, the starting image, and the compact
  Base64 image format it is saved in. `laws.rs` holds what reads give back
  after writes, creations and removals.
- `src/shell/` — the shell: tokenizer, parser of pipelines and `&&` / `||` /
  `;` chains, redirections, command execution, the line editor (cursor,
  history, Tab completion with a menu) and the history file. `model.rs`
  states each key's effect; `laws.rs` holds properties that span keys and
  commands.
- `src/bins/` — the commands (`echo`, `cat`, `ls`, `rm`, `mkdir`, `touch`,
  `kill`, `ps`, `uname`, `neofetch`, ...).
- `src/wm.rs` — focus, closing and window ownership of processes.
- `src/desk.rs` — dragging and resizing steps, task-bar and desktop-icon clicks.
- `src/games/tictactoe.rs` — the game and its three levels of play.
- `src/text.rs`, `src/order.rs` — strings as character sequences, and the
  order in which completion candidates are listed.
- `tests/` — tests run against the compiled library.
- `app/` — routes, views and timers, the browser storage, and the parts
  that work with floating-point screen positions.

The desktop has no "crazy error" icon: that easter egg plays a timed table
of window events against an audio track, and the table is not available,
so it is left out. The about window's project and social lists are left
out for the same reason.
