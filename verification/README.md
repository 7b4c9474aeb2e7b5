# clairvoyance

The specification side of a symbolic execution engine for Clarity smart
contracts, written in Verus.

A function's doc comment may hold a `(@clairvoyance ...)` program: halting
states, invariants and state writes that every terminating state of the
function must satisfy. The library finds those programs in comments, decodes
their expressions into symbolic terms, checks the terminating states an engine
computed against the halting states a program gives, writes the failure
report, translates path predicates into SMT-LIB, and makes the decisions of
the `sym` command line (`check`, `induct`, `exec-func`, `reachable`): which
functions and pairs to run, what each run's outcome reads as, and the exit
code.

Layout:

- `src/` — the verified library, one module per concern (`scan`, `decode`,
  `command`, `matching`, `failures`, `report`, `smt`, `cli`, `induct`, ...).
- `tests/` — tests of the library.
- `app/` — the `clairvoyance` program: arguments, files, the solver process,
  and printing.
