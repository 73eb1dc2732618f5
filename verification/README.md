# problemreductions

Models of classical combinatorial decision and optimization problems (graph
problems and a large family of scheduling, database, string and coding
problems), written in Verus. Each model stores an instance, states its
well-formedness as a type invariant, and evaluates a candidate configuration;
every evaluation is proved to return exactly what a specification over the
instance's mathematical view says.

Layout:

- `src/topology.rs`, `src/types.rs`: graphs and the result types (`Or`, `Min`, `Max`).
- `src/models/graph`, `src/models/misc`: the problem models.
- `src/util.rs`: shared sequences, counts, sums and Lehmer codes.
- `src/dag.rs`, `src/reach.rs`, `src/fd.rs`: topological orders and earliest
  starts, reachability, closures of functional dependencies.
- `src/flow.rs`, `src/circulation.rs`: maximum flow with a saturated-cut
  certificate, and circulations with lower bounds.
- `src/message.rs`: error texts that embed numbers.
- `app/`: the one model whose values are floating point.
- `tests/`: scenarios for the models and concrete checks of the laws.
