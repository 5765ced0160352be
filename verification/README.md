# wincleaner

The decision logic of a Windows disk-cleanup MCP server, verified with Verus.

- `src/` is the verified library: the command-line and path parsing that
  registry entries need (`command`, `envpath`), the repair of mis-decoded
  text (`encoding`), the rules that pick `AppData` leftovers, obsolete
  downloads, large folders and build-tool signatures (`appdata`, `scan`,
  `registry`), and the sizing and ordering of listings (`sizes`). The
  character model (white space, trimming, searching, lowercase) is in `text`.
- `app/` is the server itself: the MCP tool router, file-system walks,
  registry access and environment lookups. It hands plain values to the
  library and turns its results into the JSON that the tools return.
- `tests/` runs the library on concrete values.
