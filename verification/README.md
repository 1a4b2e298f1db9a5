# repo_dashboard

A local audit tool for Bitbucket Cloud repository access: it collects every repo's and
Project's permission grants into immutable Snapshots, diffs two Snapshots per grant
source, and shows a Roster tree of a Run pair. Permission edits can be staged, applied,
and refreshed into a new Snapshot.

## Layout

- `src/` — the library, verified with Verus:
  - `model` — Principals, grant sources, scopes, permission levels, records, fetch statuses.
  - `normalize` — fetched grant lists (with resolved group members) into records.
  - `client` — response-status classification, the retry rule, listing entries.
  - `collect` — the decisions of a Run: reply classification, the member and Project
    caches (each fetched at most once per Run), and the Snapshot's assembly.
  - `refresh` — Refresh targets and the copy-plus-refetch of a source Snapshot.
  - `apply` — routing of staged edits and the per-edit results of a batch.
  - `storage` — the row form of a Snapshot, read back losslessly.
  - `diff` — the per-grant-source diff of two Snapshots.
  - `roster` — the Roster tree, the Comparison summary and the pair statistics.
  - `credentials` — the credential and what the dashboard is told of it.
  - `text` — case folding, the order of keys, and keyed lookups.
- `tests/` — scenario tests of the library.
- `app/` — the shell around it: SQLite, the HTTP client, the OS keychain, the Run,
  Refresh and Apply loops, and the command handlers.
