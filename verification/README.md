# artificial_systems

Lattice models on a 2D torus, verified with Verus.

- `src/torus.rs`: the mathematical model — wrap-around coordinates, row-major
  flat indices, neighbour sums, the Ising bond-energy sum, and the lemmas that
  relate them (among them: the cost of flipping a spin is exactly the change in
  energy it causes).
- `src/lattice.rs`: `Grid2D` (dimensions, indexing, toroidal neighbours) and
  `LatticeState<T>` (one value per site).
- `src/spin.rs`, `src/binary.rs`: the site states.
- `src/ising.rs`, `src/spin_lattice.rs`: two Ising lattices, one over
  `LatticeState<SpinHalf>`, one over a flat `i8` buffer.
- `src/contact_process.rs`: the contact-process lattice, its attempt rule and
  its sweep.
- `src/mcmc.rs`: the Metropolis decision for a single flip and the Metropolis
  sweep of both Ising lattices.

`app/` holds what the library leaves to its callers: random draws from
uniform floats, the `f64` observables, the samplers with
their real-valued acceptance tests, the wasm-bindgen models and the Bevy demo.
