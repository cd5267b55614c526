# personal_finance

An offline-first personal finance ledger: accounts (bank, e-wallet, cash,
investment), income / expense / transfer transactions, savings pockets,
debts and receivables, a mutual-fund portfolio fed by the Bibit catalogue, and
two-way synchronisation with a Google Spreadsheet. Amounts are `i64`.

Layout:

- `src/` — the library, verified with Verus. `db.rs` holds the ledger
  (`Store`) and its well-formedness; `commands.rs` the user-facing operations;
  `listing.rs`, `report.rs` and `catalog.rs` the queries; `portfolio.rs`,
  `sync.rs` and `bibit.rs` the investment, spreadsheet and catalogue rules;
  `laws.rs` the properties that span operations; `outside.rs` the calls into
  `chrono`, `uuid`, `hex`, `aes`/`cbc` and std, with the contracts they are
  trusted to meet.
- `tests/` — tests of the library.
- `app/` — the shell: SQLite persistence (`rusqlite`), the HTTP clients
  (`reqwest`, `tokio`), JSON, the floating-point holdings computation and the
  daily portfolio job.
