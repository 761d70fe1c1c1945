//! Symplectic geometry: the shape-level structure of phase space, the
//! canonical symplectic form, Hamiltonian systems and trajectories.
//!
//! Every item here is independent of the scalar type: matrices and vectors
//! are generic over their entries, and the canonical form `J` is held with
//! its exact integer entries.

pub mod layout;
pub mod form;
pub mod phase;
pub mod system;
