# miurbot

The core of the MiurBot chat agent, written in Verus.

- `src/` — the verified library: the conversation turn (`chat`), start-up of
  the store (`init`), the records the store reads and writes (`store`), the
  decoding of the model server's streamed reply (`sse`, `json`, `text`), the
  settings (`config`) and the answers of the HTTP front end (`adapter`).
  The turn and the start-up are state machines: the caller carries out each
  requested action (a database query, the model call) and reports back.
- `app/` — the program around it: the axum server, the SeaORM database
  calls, the HTTP request to the model server, and loading the settings.
- `tests/` — tests of the library on concrete values.
