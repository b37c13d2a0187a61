# winreg

A registry of keys and values in which each predefined root key (`HKEY_USERS`,
`HKEY_LOCAL_MACHINE`, ...) keeps its storage as one JSON document. Keys are JSON objects;
a value is an object holding the strings `value` (its bytes as UTF-8 text) and `vtype`
(the name of its type).

- `src/` is the verified library (Verus): the document model (`json`), path splitting
  (`path`), the requests on keys (`reg_key`), the predefined handles and value types
  (`enums`), the byte/unit conversions (`common`), reading a document from its JSON text
  with `serde_json` (`storage`) and the proved properties (`laws`).
  The requests work on a document held in memory.
- `app/` reads the bytes of a key's file before each request and writes the document back
  after, converting the library's document into `serde_json` values for writing.
- `tests/` runs the library on concrete registries.
