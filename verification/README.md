# acb

A library for computing the adjusted cost base (ACB) and capital gains of
securities, for Canadian tax returns, with its behaviour stated in contracts
and proved with Verus.

## Layout

- `src/util`: decimals (`Dec` and sign-constrained decimals, with the
  arithmetic of `rust_decimal` behind trusted wrappers), dates (Julian day
  numbers, formatting and parsing through `time`), text helpers, ratios and
  rounding to the cent, an in-memory text buffer.
- `src/portfolio`: affiliates, currencies and exchange rates, transactions
  (`CsvTx` as read, `Tx` as checked), the CSV reader for transaction files,
  which exchange rates must be looked up, splitting transactions by
  security, expanding global splits and distributions to each affiliate,
  renames of securities, summaries of past transactions, cumulative gains
  and the tables that render them.
- `src/portfolio/bookkeeping`: per-affiliate status tracking, the delta list
  (ACB, share balance and gain after each transaction), the superficial loss
  rule and the automatic ACB adjustments it creates, and the highest daily
  and yearly total costs.
- `tests/`: tests of the library on concrete values.
- `app/`: what the library leaves to its caller: reading files, the
  environment, shared writers, tracing, zip archives, and the loop that
  fills in looked-up exchange rates.

The public proof functions named `law_*` state properties that hold across
calls (for example, that a delta starts from the status the previous delta of
the same affiliate left, or that a transaction written as a row and read back
is the same transaction).
