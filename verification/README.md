# parser

A library for bank transaction reports: reading and writing them in a binary,
a CSV and a text form, and comparing two reports, together with a small bank
model (balances, a storage of accounts, deposits, transfers, withdrawals and
their combinations) and a few service helpers (configuration, request checks,
quote stream commands).

- `src/` is the library, verified with Verus. Each format has a specification
  of what its bytes mean, and the readers and writers are proved against it;
  the public proof functions named `law_*` state what holds across calls
  (a report that is written reads back as itself, and so on).
- `tests/` runs the library on concrete values.
- `app/` holds the programs around it: the report comparator, the statement
  printer, the quote server and the serde models, which need I/O, floating
  point or derives of outside crates.
