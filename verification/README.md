# zoho_mail_sync

A one-way mirror of a Zoho Mail account into a local Maildir, whose decisions
are proved correct with Verus.

- `src/` is the verified library:
  - `config` — tunables and defaults, resolution of file, environment and
    command line into the settings of a run;
  - `maildir` — flag encoding, message file names, delivery paths, which
    entries of the data directory are mail folders;
  - `zoho` — folder naming (`folders`), listing entries and paging
    (`messages`), request URLs and the authorization header (`requests`),
    response classification, `Retry-After` parsing and the
    retry/backoff policy of the HTTP client;
  - `oauth` — grant code normalization and what a token answer yields;
  - `state` — the remembered account id and folder table, and where tokens
    and metadata are stored;
  - `strmap` — an insertion-ordered string-keyed map;
  - `sync` — merging remote listings, comparing remote and local state into a
    plan of downloads, moves, flag changes and deletions (only against a
    complete remote listing), the folder table recorded in `meta.json`, stale
    folders and account selection;
  - `sync_laws` — proofs that applying the plan makes the local side an exact
    mirror, that a second plan is empty, and that exactly the missing messages
    are downloaded.
- `app/` is the command-line program around it: HTTP, files, the `maildir`
  crate, concurrency, logging, and jitter.
- `tests/` exercise the library on concrete values.
