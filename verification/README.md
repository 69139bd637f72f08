# herdr

Terminal input forwarding and host platform support for a terminal
multiplexer, written in Rust and proved with Verus.

- `src/` holds the decisions, each with a contract: how raw input is buffered
  and forwarded, how console events become bytes, which process of a pane is
  in the foreground, how the console is switched to escape sequences, which
  commands end or find a process.
- `app/` performs the system calls that those decisions ask for and hands the
  outcomes back as plain values.
- `tests/` runs the library on concrete values.

A step that needs the system is a value: the library says what to do next,
the caller does it and reports what came of it.
