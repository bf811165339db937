# trustworthiness_checker

A verified library for the runtime-verification tool of the same name: the
stream specification language (lexer, parser and specification model), the
restriction of a specification to the streams monitored at one location, and
the distributed side of monitoring (distribution graphs with their distances,
the labellings that place variables at locations, the scheduler's decisions,
and the setup decisions of the monitor, input and output builders).

- `src/` holds the library; every function in it carries a contract proved
  by Verus, except the small wrappers through which it calls `petgraph`,
  `rand`, `serde_json`, `serde_json5` and a few std functions: their
  contracts are trusted, not proved, and documented beside them.
- `tests/` exercises the library on concrete values.
- `app/` is the work scheduler program: it reads a labelled distribution
  graph, runs the scheduler loop and sends each location its work over MQTT,
  leaving every decision to the library.
