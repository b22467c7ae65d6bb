# ledgerkit

A local-first engine that turns bank CSV exports into a balanced double-entry
ledger with an append-only, hash-chained event log, written in Verus: the
library's logic carries `requires`/`ensures` contracts that Verus proves.

## Layout

- `src/` — the verified library.
  - `money`, `account`, `date`, `posting`, `transaction`, `verify`, `snapshot`:
    exact decimal amounts, hierarchical account ids, balanced transactions and
    the ledger hash.
  - `adapter`, `adapters/`, `dates`, `normalize`, `convert`: CSV adapters,
    date and merchant normalisation, and the conversion of raw rows into
    transactions with deterministic ids.
  - `dedupe`, `rules`, `reconcile`, `export`, `eval`: duplicate linking,
    categorisation rules, statement reconciliation, CSV/JSON export and the
    scoring of the planners against labelled cases.
  - `event`, `store/`: the event log, its hash chain, replay, imports,
    statement rows and the `why` explanation of a transaction.
  - `hash`, `ids`, `pattern`, `text`: the calls into `sha2`, `hex`, `uuid`,
    `regex` and `std` string functions, each behind a small trusted wrapper.
- `tests/` — the test suite, run against the compiled library.
- `app/` — the `ledgerkit` command line: argument parsing, files, the SQLite
  workspace database, serde copies of the library types, and the float
  precision/recall figures.

Laws of the library (what every operation keeps, what one call undoes) are
public proof functions named `law_*`.
