# runlens

A wrapper for Linux commands. It runs a command, observes it and its descendants through `/proc`, and
prints a report on standard error when the command has ended: command, duration and exit status,
processor time and memory, the process tree and what survived of it, files and byte totals, network
connections, what the observation may have missed, and what is notable.

    runlens <executable> [args...]

`src/` is the library, in Verus. Everything that is read comes in as plain values, and everything that
is decided, kept or said is stated and proved there. Two results of the standard library are taken as
they come: the text of bytes that are not text, and a span of seconds rounded to a tenth.

- `order`, `table`: ordered tables that hold one item for a key.
- `text`, `scanning`, `numbers`, `paths`, `quoting`, `formatting`, `output`: text, numbers, paths,
  command lines, and the lines of a report.
- `address`, `sockets`, `platform`, `process_files`: the files that the kernel keeps about processes,
  descriptors and sockets.
- `process`, `observed`, `boundary`: processes, the tree below one, and what one snapshot shows.
- `filesystem`, `network`, `observation`, `report`: what is kept over all snapshots, and the report.
- `session`: when to sample, what to do with signals, and how to end.
- `guarantees`, `any_order`: what holds of every observation and of every report, and what does not
  depend on the order in which processes are taken in.

`app/` reads `/proc`, starts the command, and handles signals. `tests/` runs the library on examples.
