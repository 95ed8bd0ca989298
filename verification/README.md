# rust_bt

A daily backtester for A-share stock selection strategies, with its decision
logic verified by Verus.

- `src/` — the verified library: instrument codes and enumerated parameters,
  the trading calendar and date parsing, the row ordering, validation and
  joining of the market tables, the split of a signal table into days and
  its filtering, the Top-K and Top-K-dropout
  selection, order grouping and purchase reduction, configuration checks, the
  lot rule for purchases and the trace array of the report's plot. Every
  public function states its result in its contract; the properties that span
  functions are public proof functions (`law_*`).
- `app/` — the program around it: reading CSV / Parquet / YAML, the
  floating-point account, execution prices and costs, the report and its HTML
  page, and the command line.
- `tests/` — tests of the library on concrete values.
