# dashboard_sockets

The decisions behind the websocket endpoints of a server dashboard, verified with
[Verus](https://github.com/verus-lang/verus).

- `src/` is the library: login tokens (`token`), the two halves of the main socket
  (`reader`, `pages`), the terminal socket (`terminal`), the file socket (`file`,
  `file_session`) and the archives that directories are downloaded as (`archive`).
  Each endpoint is a machine: it is told what happened and says what to do next. Each
  machine has a model, and laws about whole runs are proved of the models.
- `app/` is ordinary Rust: it reads sockets, files and the terminal, and does what the
  machines say.
- `tests/` runs the library.

Tokens are decoded by `jsonwebtoken` and archives written by `zip`. What is relied on
of them is stated where they are called, in `src/token.rs` and `src/archive.rs`.
