# serow

A verified library for Serow, a small spec-first language: every public function
declares its intent, contract, examples, properties, effects and implementation.

The library parses Serow sources, checks them (duplicate symbols and intents,
required sections, repeated evidence, ambiguous calls, module dependencies and
architecture policy, effects), evaluates expressions and runs each example with
the preconditions and contracts of its direct call, formats them canonically, lowers checked programs to
an intermediate representation, answers ledger queries (symbols, callees,
dependents, impact), applies structured source patches, compares a change with
its baseline for the unattended certification gates, and renders the files of a
generated Rust crate. Each function states what it returns in its contract, and
Verus proves it.

Layout:

- `src/` the library, one module per concern (`parser`, `checker`, `checks`, `evaluator`, `values`, `evidence`,
  `formatter`, `ir`, `ledger`, `impact`, `patch`, `edits`, `plan`, `artifacts`, ...).
- `tests/` tests of the library on concrete sources.
- `app/` the `serow` command line: argument handling, files and printing.
