# stylex

A compiler for atomic styles, with its behaviour stated and proved.

Styles are objects of ECMAScript values that are known at compile time. The library turns
them into class names and CSS rules: it checks and flattens the objects, expands shorthand
properties, normalizes values, orders conditions, hashes declarations and writes the rules
for both directions. It also compiles animations, fallback positions, view transitions,
variables, constants and themes, resolves the modules that export them, and finds the scopes
of a module.

- `src/` is the library. Its contracts are stated over mathematical models of the values:
  sequences of characters for texts, sequences of entries for objects, exact numbers for
  doubles. What holds of several functions together stands in public proof functions.
- `tests/` runs it on concrete values.
- `app/` connects it to the outside: files, JSON texts, settings of the process, and the
  syntax trees of a parser.

The file system is asked, not read: where the resolution of an import needs to know something,
it returns the question, and `app/` answers it.
