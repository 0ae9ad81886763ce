# ooxml_xlsx

A verified library for reading and editing the XML parts of XLSX workbooks:
cell references and ranges, worksheets, shared strings, defined names,
hyperlinks, frozen panes, number formats and cell styles, workbook metadata,
relationships, pivot tables, and the plans behind range exports and cell
edits. Every function in `src/` carries a contract that Verus proves.

## Layout

- `src/` — the library, written in Verus. Each module states its data as
  spec functions over `Seq`, `Map` and plain values, and its operations
  with `requires`/`ensures` over them. The XML and JSON readers of the
  `quick-xml` and `serde_json` crates are called through a handful of small
  wrappers whose contracts name what those crates return.
- `tests/` — ordinary Rust tests that run the compiled library.
- `app/` — a small command-line front end that reads part files, calls the
  library and prints JSON.

## Verification

Verus verifies `src/lib.rs` and everything it reaches; the tests run with
the outside crates linked.
