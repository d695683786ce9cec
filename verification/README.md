# problemreductions

Models of computational problems — on graphs, Boolean formulas and integer
algebra — each with validating constructors, the value ranges of its
configurations, and an evaluator that tells whether a configuration is
feasible and what it is worth. The library is written in Verus: every
function carries a contract over a mathematical model of its inputs, and
Verus proves the code against it.

Layout:

- `src/types.rs` — the values an evaluation returns and the error kinds.
- `src/topology.rs` — simple and directed graphs given by edge lists;
  `src/ungraph.rs` — undirected graphs held in `petgraph`'s `Graph`.
- `src/sums.rs`, `src/linalg.rs`, `src/big_elim.rs` — checked sums, exact
  integer linear algebra, and elimination over `num_bigint` integers.
- `src/models/graph`, `src/models/formula`, `src/models/algebraic` — the
  problems; `src/models/decision.rs` turns an optimization problem into its
  decision version.
- `src/solvers.rs` — exhaustive search.
- `tests/` — tests of the library on concrete instances.
- `app/` — JSON forms of instances (serde), and the integer linear and
  bounded integer quadratic programs with their floating-point objectives,
  outside the verified library.
