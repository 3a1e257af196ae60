# archive_sync

Keeps an archive of relay events: opens one live subscription per saved row,
matches the events that arrive to the rows' scopes, and hands them to the
archive in batches.

- `src/` decides. It holds no socket, no store and no clock: it plans the
  subscriptions, batches the events, and says what to do next, one action at a
  time. All of it is verified, but for one trusted call: `kinds` has a stored
  list of kinds parsed by `serde_json::from_str`.
- `app/` does what `src/` decides, with tokio.

| module | what it holds |
|---|---|
| `archive`, `subscription`, `json` | saved rows, scopes, candidates; subscriptions, events; JSON values |
| `kinds`, `text`, `table`, `views` | reading and ordering kinds; decimal and comma lists; lookup by id; sequences by meaning |
| `plan` | from saved rows to subscriptions and scopes |
| `batch`, `sync`, `sync_laws` | the pending batch, the sync loop, and what holds of every run of it |
| `connection`, `connection_laws` | one relay connection: reconciling and delivering |
| `session` | connecting, backing off, connecting again |
| `control` | starting and stopping: at most one task |
