# cp_sat_bridge

A bridge from linear problems with floating-point coefficients, as good_lp states them, to the
CP-SAT solver of Google OR-Tools, verified with Verus.

- `src/` is the verified library. A problem is converted to an integer model exactly or not at all;
  constraints and hints are converted as they are added; a solver response is interpreted.
  `laws.rs` holds what is proved of the library as a whole, above all that the model says what the
  problem says (`law_model_exact`) and that an optimal solution of the model is one of the problem
  (`law_optimal_solution_is_best`).
- Floating-point numbers are handled by their bit patterns. `format.rs` states which number a
  pattern stands for and what rounding to nearest means; `float.rs` and `arithmetic.rs` compute with
  patterns.
- `app/` runs the solver through its Rust bindings, which need an installed OR-Tools.
- `tests/` runs the library, with a solver for small models that tries every assignment.
