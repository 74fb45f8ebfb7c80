# fints_statements

Reads the bank statements that FinTS servers deliver, with proofs in Verus of what
is read from them.

- CAMT account reports, from XML: `camt`, with `camt_assign` (where each text of a
  report goes), `camt_types` and `camt_laws`.
- MT940 statements: `mt940_parse`, with `statement` (what the `mt940` crate reads),
  `fields` (which texts it can be handed) and `mt940_laws`.
- Interim reports of pending transactions: `pending`, with `summaries` (the totals
  that the bank gives) and `pending_laws`.
- Shared parts: `amount`, `date`, `text`, `types`, `error`, `xml`, `writing_laws`.

Each function states what it returns over views of its arguments. The modules whose
names end in `laws` hold what is proved of the functions together.

What outside crates do (`quick-xml`, `chrono`, `rust_decimal`, `encoding_rs`,
`mt940`) is stated in the contracts of the functions that call them; each names the
function that it calls. `app/` adds logging and the types of those crates.
