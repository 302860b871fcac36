# banco_memoria

An in-memory key/value database driven by a line-oriented command language
(`ADD <key> <value...>`, `GET <key>`, `EXIT`), with optional Lua extensions
that validate, rewrite and format values.

- `src/` is the library, verified with Verus:
  - `text`: Unicode white space, trimming, word splitting, string helpers;
  - `error`: the errors answered to the user and how they are shown;
  - `parser`: the command language;
  - `storage`: the store and its reverse index (value to keys);
  - `extension_manager`: choosing extensions by key prefix, running their
    hooks, and turning Lua errors into short messages;
  - `lua`: the trusted calls into the `mlua` interpreter;
  - `session`: one step of the interactive session;
  - `laws`: properties of the whole, proved over the models.
- `app/` is the program: terminal input and output, and reading the
  `extensions` directory.
- `tests/` runs the library on concrete inputs.
