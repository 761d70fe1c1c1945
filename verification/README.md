# symplectic_geometry

Symplectic matrices, Hamiltonian systems and symplectic integrators.

- `src/` is the verified library. It holds everything that does not depend
  on the scalar type: the shape-level matrix and state-vector operations
  (`layout`), the canonical symplectic form `J = [[0, I], [-I, 0]]` with its
  exact integer entries and the laws `J^2 = -I` and `J^T = -J` (`form`),
  phase points, trajectories and the recording of an orbit of a one-step
  map (`phase`), and the symplectic-matrix and Hamiltonian-system types
  (`system`).
- `app/` instantiates these with `f64` and holds the floating-point
  numerics: matrix arithmetic, the matrix exponential, Gauss-Jordan
  elimination, the Euler, symplectic Euler and Stormer-Verlet steps, and the
  energy and volume diagnostics.
- `tests/` exercises the library on concrete values.
