# tymux

The logic of a terminal multiplexer, written in Verus. A daemon keeps sessions
of windows of panes; clients attach to panes from a terminal.

- `src/` is the library. Every item of it is verified, down to a few contracts
  that are believed: those of wrappers around outside crates, for identifiers
  (`uuid`), the terminal emulator and its screen (`vt100`), the configuration
  file (`toml`) and header values (`tonic`), and that of `String::push` of the standard library.
  Each of them says what it claims.
- `tests/` runs the library, with the outside crates linked.
- `app/` is the program around it: the command line, connections, processes on
  pseudo-terminals, files. It holds no rules of its own. `app/rpc.rs` alone
  speaks the daemon's protocol, through the generated crate `tymux_proto`.

| Module | What it decides |
| --- | --- |
| `layout`, `layout_laws`, `ratio` | how a window is divided among its panes |
| `engine`, `engine_laws`, `revival_laws` | what becomes of sessions, windows and panes |
| `session`, `snapshot` | what a session is, and what is shown of it |
| `persistence`, `paths` | what is stored of a session, and where |
| `replay_buffer` | what a client that reconnects is sent again |
| `emulator`, `screen` | what a pane's output makes of its screen, and what is seen of it |
| `config`, `keys`, `input`, `input_laws` | what keys mean |
| `copy_mode`, `status_bar`, `attach` | what an attached client does and draws |
| `target` | which pane a name means |
| `auth`, `messages` | what is sent along, and what is told |
| `ids`, `text` | identifiers and text |

Ratios are binary32 numbers held by their bit pattern, so that what a ratio
takes out of an extent, and when two ratios add up to one, is stated and proved
over integers.
