# neutrino-http

The HTTP layer of a small embedded Matrix homeserver, with its logic verified by Verus.

- `src/` is the library. Requests are read, checked and answered over plain values; delivery to other
  servers, inbound transactions, joins, invites and rejections are state machines that say what is to
  be done next and are told what came of it. Each function states what it returns, and the laws that
  span several of them are public proof functions beside them.
- `app/` is the `axum` and `reqwest` code around it: routes, tasks and sockets. It reaches the store,
  the event engine, the room state machine and the sync engine through the traits in `app/ports.rs`.
- `tests/` runs the library.

What is believed of outside code is marked where it stands: identifiers are judged by `ruma`
(`src/ids.rs`), addresses are made by `reqwest`'s `Url` (`src/client.rs`), chance comes from `rand`
and time from the clock (`src/backoff.rs`), and a few functions of strings from the standard library
(`src/text.rs`, `src/backfill.rs`).
