# preduce

A parallel, language-agnostic, automatic test case reducer, with its logic
verified by Verus.

`preduce` takes a large test case that exhibits some interesting behavior and
finds a smaller test case that exhibits the same behavior. Reducers generate
candidate reductions, workers judge them with an is-interesting predicate,
and a supervisor keeps the smallest interesting test case found so far.

## Layout

- `src/` is the verified library:
  - `test_case`, `score`, `traits`, `error`: test cases, their hashes and
    sizes, scores, and the interfaces of reducers, predicates and oracles;
  - `interesting`, `reducers`, `oracle`, `queue`: predicate combinators, the
    fused reducer, the oracles that score candidates, and the priority queue
    of candidates;
  - `actors`: the decisions of the supervisor, the reducer actors, the
    workers and the logger, as state machines from events to actions, and
    the handles the actors talk through;
  - `ipc`: the protocol between `preduce` and reducer scripts;
  - `ranges`, `script_ranges`, `range_order`, `finders`, `lines`,
    `line_chunks`, `script`, `clex`, `clang_delta`, `clang_format`,
    `topformflat`: the states of the reducer scripts, and the ranges of the
    seed they try removing.
- `tests/` exercises the library on concrete values.
- `app/` is the `preduce` program: argument parsing, threads, files, child
  processes and the built-in reducer scripts (`preduce reducer-script
  <name>`), all driving the library.
