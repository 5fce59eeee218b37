# side

The Side scripting language and its `spack` tool chain, with the language
core verified by Verus.

- `src/` is the verified library: the lexer (`lexer`, `token`), the parser
  and its grammar (`parser`, `parser_spec`, `ast`), values and their
  operators (`value`), runtime errors (`error`), the evaluation machine
  (`machine` states what one step does, `interpreter` runs it), log records
  (`logger`), executable packing (`packer`), project descriptions
  (`project`) and the commands of the tool (`command`).
- The interpreter never performs input or output itself: each call of
  `Interpreter::resume` returns an `Action` (print, read a line, sleep, touch
  a file, do binary64 arithmetic, load or call a native module, ...) and the
  host answers it with an `Event` on the next call.
- `app/` is the host: the command line and REPL, files, native libraries,
  floating point and the log files.
- `tests/` runs scripts through a simulated host and checks the library's
  parts on concrete inputs.
