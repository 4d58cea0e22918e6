# smart_agent

The Smart Agent client connects Codex (CLI and desktop app) to the Smart Agent
site: sign-in, the account's API key, the one model Codex uses, and the
one-click setup of Codex's `config.toml` and model catalog, with a way back to
the official login.

## Layout

- `src/` — the verified library (Verus). Every decision of the client lives
  here, with its contract:
  - `site.rs` — the fixed site addresses;
  - `error.rs` — the error type and the text the user reads;
  - `json.rs`, `toml_doc.rs`, `assoc.rs`, `text.rs` — the documents and
    strings the logic reads, with their mathematical models;
  - `api.rs` — reading the management API's replies and building its
    requests; the choice of the account's client key;
  - `models.rs` — the operator's client configuration, the update check, and
    the choice of the active model;
  - `codex_config.rs` — what the setup merges into `config.toml` and what
    disconnecting takes out; the laws that relate the two;
  - `codex.rs` — the environment report, the model catalog, CC Switch's
    records, backups and their rotation, the watch against Codex Desktop;
  - `connectivity.rs` — the connection self-test;
  - `store.rs` — the local account state.
- `tests/` — tests on concrete values.
- `app/` — the command-line client around the library: files, processes,
  HTTP, SQLite, and the serde copies of the library's types.
