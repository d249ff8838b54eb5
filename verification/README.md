# portfolio_tracker

The verified core of a desktop portfolio tracker for stocks and crypto
positions, written in Verus.

- `src/` is the library, proved with Verus:
  - `symbols`: ticker pairs for Gate.io and Binance, the base asset of a
    pair, splitting a symbol list, and the quote and chart request URLs;
  - `filter`: the performance filter (market, account), the `AND` clauses it
    adds with correctly numbered placeholders, and the queries built on it;
  - `attribution`: cash effect of a transaction type, cash pseudo-symbols,
    the symbols and groups a return attribution covers, labels and names,
    and the ranking order;
  - `contract`: side and sign of a contract's profit, which liquidation
    estimate applies, defaults, and how edits combine with stored fields;
  - `monthly`: grouping of a daily series by calendar month (proved unique);
  - `drawdown`: peak-to-trough and trough-to-recovery spans in days;
  - `performance`: the time-weighted return, computed exactly as a fraction;
  - `bignum`: signed integers of any size, for those exact fractions;
  - `quotes`: failure messages and the outcome of a batch of quote requests;
  - `schema`: the stored-schema check of the transaction types;
  - `text`: character helpers, white-space trimming and decimal formatting.
- `app/` holds what Verus does not check: SQLite storage, HTTP requests, and
  the floating-point return, drawdown and risk figures, calling the library
  for every rule it states.
- `tests/` runs the library on concrete values.
