# pausible

A bytecode virtual machine whose programs can pause themselves: at a `Yield`
the machine's state (heap, frames, stack, I/O handles and task tree) is
captured into an architecture-independent snapshot, which can be written to a
file and later restored, on the same machine or another, to continue where it
stopped. Handles are reconnected on resume by their strategy: replayed (HTTP),
reopened and sought (files) or served from the snapshot's cache (standard
streams).

## Layout

- `src/` — the library, verified with Verus: values and their arithmetic, the
  mark-and-sweep heap, the bytecode and its binary format, the interpreter,
  the snapshot format (capture, file layout, restore, reconnect, task tree),
  and the laws that tie them together (what a snapshot file reads back as,
  and what a restored machine holds of the captured one).
- `src/` does no I/O: where an instruction needs the outside world (a file, a
  socket, an HTTP request, float arithmetic or formatting) the machine stops
  with a pending host call, and the host answers it.
- `app/` — the host: it answers those calls with the file system, sockets and
  `ureq`, reconnects snapshot handles, and reads and writes snapshot files.
- `tests/` — tests on concrete programs and snapshots.
