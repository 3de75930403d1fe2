# syma_lsp

The core of a language server for Syma, verified with Verus.

- `src/` is the library. It holds the open documents and the symbols that they
  define, and it decides how every message of an editor is answered:
  diagnostics, completions, hover texts, definitions, outlines, signature help,
  renames, workspace symbols, references, code actions, folding ranges, semantic
  tokens and highlights. Its functions are proved to compute what the
  specification functions beside them say, and the `law_..` functions prove what
  follows from that.
- `tests/` runs the library on concrete values.
- `app/` is the program: it reads messages from standard input, asks the Syma
  lexer, parser and environment when the library wants to know something of the
  language, and writes the answers to standard output.

Columns of cursor positions count the bytes of the line before the cursor;
columns of ranges that the library returns count characters.
