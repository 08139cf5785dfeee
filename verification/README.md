# poprako_repo

The decision logic of the comic-translation repository adapters, written in
Verus and proved against its contracts.

- `src/` is the verified library. Unit lists (`chain`, `unit`, `paged`,
  `writes`, `readback`), member roles (`member`), Term imports (`term`), Page
  helpers (`page`), hierarchy deletion (`subtree`), avatar reservations
  (`avatar`), save receipts (`receipt`), integer column conversions
  (`numeric`), search patterns (`pattern`), errors (`error`), records
  (`model`), test entries (`fixture`) and the in-memory repository (`mock`).
- `tests/` runs the library on concrete values.
- `app/` shares the in-memory repository between concurrent operations
  behind a mutex, which Verus does not model.

Database access itself (queries, locks, batch statements) is not part of
this crate: the library takes the values such queries return and decides
what to write, and no code here runs the queries.
