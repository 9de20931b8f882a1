# syswatch

A system monitor in two parts: an agent that answers commands about its
machine over TCP (processor, memory, top processes, remote actions), and a
console that discovers agents on the local /24 network and drives them.

- `src/` is the verified library: command dispatch and every reply text
  (`command`), the metrics and their rendering (`model`), ranking and
  snapshot building (`snapshot`), the agent's connection state machine with
  token authentication (`session`), the console's protocol checks and its
  command console (`master`), journal lines (`clock`), character-level
  text helpers (`text`), processor loads held as single-precision bit
  patterns and shown as `{:.1}` shows them (`load`), and the memory share
  computed step by step in double precision (`binary64`).
- `app/` reads the operating system's figures, runs programs, and does the
  network and console I/O around the library. `app agent` (the default) runs
  the agent; `app master` runs the console.
- `tests/` exercise the library on concrete values.
