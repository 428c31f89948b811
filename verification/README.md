# mal

A Make-a-Lisp interpreter whose reader, printer, environments, built-in
functions and evaluator are verified with Verus.

- `src/` is the verified library. `evaluation.rs` states the meaning of every
  form as spec functions (`ev`, `step_list`, ...) and implements them in
  `Runtime::evaluate`, which runs tail positions in a loop. `laws.rs` holds the
  properties proved across functions.
- Evaluation works on a `Runtime`: environment frames, atom cells, the text
  printed, and the files and clock readings the host supplied. When it needs a
  file (`slurp`) or the time (`time-ms`) it stops with `Halt::NeedFile` or
  `Halt::NeedClock`; the host supplies it and runs the same evaluation again
  from the state it started in. Each evaluation has a step budget (`fuel`);
  a larger budget never changes an evaluation that finished.
- `app/main.rs` is the read-eval-print loop: line editing, files, the clock and
  printing.
