# deed

The core of the Deed graph database as a Verus library.

- `src/` is the library. Verus proves every function in it against its
  `requires` / `ensures` contract, where it has one (a few, such as the
  clock readers, promise nothing of their result); the public `law_*` proof
  functions state properties that span several operations (what a read
  gives back of a write, what a refusal leaves unchanged, what every
  operation keeps). Calls into outside crates (hashing, compression,
  random numbers, clocks, the concurrent map of the graph store) go
  through small wrappers whose contracts say what the crates document.
- `tests/` runs the library with the outside crates linked.
- `app/` is the runtime around the library: files, sockets, timers,
  threads, Prometheus metrics, serde formats, and the parts that compute
  with floating-point numbers (plan costs, pheromones, property
  comparisons in query filters, topology statistics).
