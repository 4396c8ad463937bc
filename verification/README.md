# rusty_budget

A budgeting domain library verified with Verus, with a small command-line
program around it.

- `src/money.rs` — amounts in minor units of a currency: construction,
  comparison, arithmetic and display.
- `src/cqrs.rs`, `src/account.rs` — an event-sourcing core (aggregates,
  events, commands, an in-memory runtime with one append-only stream per
  aggregate, rebuilding an aggregate from a snapshot and later events) and
  a bank-account domain on top of it.
- `src/calendar.rs`, `src/holidays.rs` — the proleptic Gregorian calendar
  and the Swedish workday rules (weekends, fixed holidays, Easter-based
  holidays, Midsummer Eve, All Saints' Day, previous/next workday).
- `src/budget.rs` — budget items, bank accounts and transactions, and the
  stores that index them.
- `src/import.rs` — reading Skandiabanken statement rows, planning the
  commands that import them, and tallying the outcome.
- `src/ledger.rs` — running an import plan against a budget's accounts and
  transactions, refusing accounts and transactions it has already.
- `src/auto_budget.rs` — the budget with its periods, transactions, actual
  items and tagging rules, and the automatic budgeting of a period.
- `src/rules.rs` — deleting a tagging rule and untagging what it tagged.
- `src/snapshot.rs` — what a budget snapshot writes: the budget without its
  transactions, and the transaction rows that changed.
- `src/accounts.rs` — merging accounts whose numbers differ only in
  formatting.
- `src/user_budgets.rs` — a user's list of budgets and its default.
- `src/text.rs`, `src/framework.rs` — string operations and the shared
  command error.
- `app/` — the program: reads workbooks with calamine, imports them into
  an in-memory ledger and reports the tally; serialisable copies of the
  library's types.
- `tests/` — tests of the library.
