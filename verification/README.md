# ghostty_config

Completion engine for Ghostty's configuration language, verified with Verus.

- `src/` — the verified library: line parsing (`context`), text operations
  (`text`), completion items (`item`), the schema and key completion
  (`schema`), value completion by type (`values`), the open documents
  (`documents`), request handling (`completion`), the extension's binary
  lookup decisions (`extension`) and the library's laws (`laws`).
- `app/` — the language server (stdin/stdout, async) and the editor
  extension glue. They do the I/O and run its steps in order; what is
  computed along the way (names, paths, filters, completions, the documents'
  texts, which step comes next in the binary lookup) comes from the library.
- `tests/` — tests of the library on concrete values.

The language server embeds the schema from `schema/ghostty-config.schema.json`.
