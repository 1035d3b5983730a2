# odoo_lint

The rules and helpers of a linter for Odoo addons, verified with Verus.

- `src/` is the library. `text`, `tokens`, `ast`, `path` and `version` hold the data that the rules
  read; `removal` and `wrap` compute edits; `manifest` and `classes` answer questions about
  manifests and classes; `deprecated` reports calls to deprecated ORM methods.
- `app/` turns paths, syntax trees and semantic models of the `ruff_*` crates into the library's
  types, and looks for manifests on disk.
- `tests/` runs the library on concrete inputs.

Three calls are trusted rather than proved, each behind a function that says what it claims:
the tokenizer of `ruff_python_trivia`, the code generator of `ruff_python_codegen`, and UTF-8
decoding in the standard library.
