# julia_daemon

A conductor that keeps Julia workers warm, and the client that talks to it.

- `src/` is the library. It holds the rules: how arguments, settings and
  messages are read and written, which worker a client gets, what becomes of
  workers that idle, fall silent or crowd memory, what a confined worker sees,
  and what the status shows. Every function states what it does and is proved
  by Verus. The laws that span functions are proof functions named `law_*`.
- `app/` is the program around it: processes, sockets, signals, the terminal,
  namespaces, and the estimates that are kept in floating point. It runs as the
  client or as the conductor, by the name that it is called by.
- `tests/` runs the library.

Outside of what is proved, the library relies on `String::push`,
`String::from_utf8_lossy`, `std::str::from_utf8`, `Path::parent` and
`SystemTime::now`; each is declared once, with what is relied on.
