# hytch

A terminal session daemon: attach, detach, and resume where you left off, with
no terminal emulation in between.

`src/` is the verified library. Every function there carries its contract, and
the `law_*` proof functions state what holds of the library as a whole.

| Module | What it decides |
|---|---|
| `buffers`, `message`, `codec` | the frames of the control channel |
| `ring_buffer`, `fanout` | scrollback, and output for many clients |
| `session_log` | the on-disk log and its rotation |
| `daemon` | the daemon's event loop and its clients |
| `attach` | the attached client |
| `session`, `paths` | names, paths and the self-attach guard |
| `commands`, `listing` | kill, push, clear, rm, current and list |
| `spawn`, `cli` | starting daemons, options, and the course of a command |
| `age`, `text` | durations, numbers and strings |

`app/` is the program around it: it owns the terminal, the pty, the sockets and
the files, does what the library decides and reports back what came of it.

What is trusted and not proved are the contracts of the outside functions that
the library calls: those of the `bytes` containers in `buffers`, of tokio's
broadcast channel in `fanout`, of rustix's signal numbers in `daemon`, and of
`copy_from_slice` in `ring_buffer`.

The daemon serves control commands first and pushes last: `daemon::next_source`
picks the source, and `law_pushes_are_served_last` and
`law_kill_overtakes_pushes` state what follows. That the loop asks it for every
event, and that a push is given up after the time that `daemon::on_event` gives
it, is up to `app/daemon.rs`.
