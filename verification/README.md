# delo

A compiler front end for Delo, a small statically typed language whose
variables keep their history (`x@-1` reads the previous value of `x`, `x@=0`
its first value), with the C support code its programs need, verified with
Verus.  The lowering of a checked program's statements and expressions to C
is not part of this library, so the command-line program stops after type
checking.

## Layout

- `src/` — the verified library.
  - `token`, `scanner`: tokens and the scanner, specified by a lexing
    function over the source characters.
  - `ast`, `parser`: the syntax tree and the recursive-descent parser.
  - `types`, `renaming`, `unifier`, `type_env`, `type_ops`, `type_rules`,
    `check_rules`, `type_checker`: types and the renaming of their type
    variables, unification with an occurs check, scoped environments and
    the type checker.
  - `code_generator`, `c_names`, `c_templates`, `c_runtime`, `c_helpers`,
    `c_user_types`, `c_format`, `c_tracked`, `declarations`, `sorted_keys`:
    the parts of C generation that do not walk a program's statements: C
    names of types, the instantiations a program needs (kept sorted and without duplicates), the C definitions of arrays,
    maps, ranges, tuples, histories and user types, their printing
    functions, and the globals of variables whose history is kept.
  - `error`, `report`, `lines`, `text`: error values and their messages,
    and text helpers.
  - `compiler_runner`, `test_runner`: what the command-line driver and the
    test runner decide, on plain values.
  - `lox`: the parts of the bundled Lox interpreter that need no floating
    point.
- `tests/` — tests of the library.
- `app/` — the command-line program: reading files, running the C compiler,
  printing.
