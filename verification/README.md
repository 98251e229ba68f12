# parc

A Markdown notes vault: fragments with YAML frontmatter, typed by schemas,
linked by wiki-links, tagged, searched through a small query language and
an SQLite index, with history, attachments, lifecycle hooks, WebAssembly
plugins, and a JSON-RPC server.

- `src/` is the library, written in Verus: the fragment format, schemas
  and validation, the search language and its SQL, links and tags, doctor
  checks, dates, the JSON-RPC layer, the rules for vaults, hooks and
  plugins, and what the server and the desktop commands compute. Each
  function carries a contract, and the properties that span functions are
  stated and proved as proof functions.
- `tests/` runs the library on concrete values.
- `app/` is the program around it: the server's stdio and socket
  transports, the file system, the SQLite index, the wasmtime plugin host,
  the fuzzy finder, and the desktop command layer.
