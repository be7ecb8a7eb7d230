# excel_network

A desktop spreadsheet store for invoices and stock cards: sheets of typed
rows (text, number, date cells), configured per sheet type, imported from
JSON documents, edited, collapsed by an identity column and exported to
workbooks.

The logic lives in `src/` and is verified with Verus:

- `models`, `order`, `sorting`: cells, rows and sheets; the order of values
  and rows by prioritized headers; a stable sort with its laws (it permutes,
  it sorts under a transitive order, it keeps equal rows in order).
- `client_models`, `config`, `example`: the configuration of sheet types,
  the lookups the screens make in it, and an example configuration.
- `json`, `import`: reading rows out of a JSON document by an import
  configuration.
- `collapse`, `edits`, `session`, `paging`, `headers`, `search`: collapsing
  rows that share an identity, editing ranges of cells, the pending edits of
  a shown sheet and how they are saved, loading pages of rows, the primary
  row's header layout, and the sheet search.
- `export`: the layout of an exported worksheet.
- `ids`: row identifiers, their text form and reading it back.

`app/` is the unverified shell: configuration file, JSON and workbook files,
floating-point computations, and a command loop on standard input.
