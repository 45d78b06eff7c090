# kolom

The verified core of the Kolom toolchain, a Bengali programming language.
Every function in `src/` carries a contract that Verus proves.

- `lexer`, `lexer_spec`: the lexer. `lexer_spec` states, lexeme by lexeme,
  what the tokens and diagnostics of a source text are; `lex` is proved to
  produce exactly those. Identifiers are compared in Unicode NFC, numbers
  may use Bengali or ASCII digits.
- `editor`: the text buffer of the `পাতা` editor, its key handling and the
  decisions of its loop.
- `cli`: what the command line decides: the subcommand, the arguments of
  `যোগ`, a new project's source, and how diagnostics are shown.
- `link`: targets of native builds and the linker command for one, from
  what was found on disk.
- `json`, `strlib`, `numlib`, `sorting`, `calendar`: the JSON, text,
  integer, random, sorting and date functions of the standard library.
- `paths`: the `পাথ` module: joining paths, file and directory names and
  extensions, over the platform's own path handling.
- `env`: the interpreter's variables in nested scopes: definition,
  lookup, assignment and the closing of a scope.
- `ctypes`, `cexpr`, `symbols`, `stable_ast`: names and expressions that the
  back ends write, and the stable text form of diagnostics.
- `chelpers`, `ctemplates`: the C back end's runtime and the helpers it
  writes once per type (print functions, text conversions, deep copies,
  arrays, maps, shared cells), each from a C template with numbered holes.

`app/` holds the `kolom` program: argument handling, files, the terminal
loop of the editor, and starting the linker.
