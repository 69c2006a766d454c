# unibot

The verified core of the UniBot desktop simulator, a tool that simulates instant-messaging
users, groups and bots. The library states and proves, with Verus, the logic that the
application's storage, window and logging layers rely on.

## Layout

- `src/` — the verified library.
  - `models.rs`, `rows.rs`, `codecs.rs`: the data model, the rows read from SQLite and how
    stored spellings decode into the model (with round-trip laws).
  - `repo.rs`: the decisions of the repositories: message routing, conversation flags, the
    packet listing query (every placeholder gets exactly one value), settings stored as text,
    group requests, folders, photos and essence messages.
  - `migrator.rs`: splitting migration scripts into statements (strings, comments and trigger
    bodies keep their semicolons) and choosing the pending migrations.
  - `logging.rs`, `json_layer.rs`: log lines read into candidates, log queries (filtering,
    newest-first order, cursor pages), log file selection and cleanup rules, level names.
  - `registry.rs`: the users that are online, their event buses and chat windows.
  - `window.rs`, `commands.rs`: identifiers, labels, addresses and titles of windows, page
    sizes and upload checks.
  - `error.rs`, `text.rs`: the error type and character-level helpers.
- `tests/`: tests of the library on concrete values.
- `app/`: the input and output around the library: the SQLite repositories, migrations,
  JSON Lines log files, upload checks that touch the file system, and the chat windows
  that the library decides to focus or create.
