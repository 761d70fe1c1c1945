//! Symplectic matrices and quadratic Hamiltonian systems.

use vstd::prelude::*;
use crate::phase::join_state;

verus! {

/// A matrix `M` of `Sp(2n)`, which satisfies `M^T J M = J`. The
/// constructor does not check that condition.
#[derive(Debug, Clone)]
pub struct SymplecticMatrix<T> {
    pub data: Vec<Vec<T>>,
}

impl<T> SymplecticMatrix<T> {
    /// Wrap a raw matrix, unchecked.
    pub fn new(data: Vec<Vec<T>>) -> (m: Self)
        ensures
            m.data == data,
    {
        SymplecticMatrix { data }
    }

    /// The dimension `2n`: the number of rows.
    pub fn dim(&self) -> (d: usize)
        ensures
            d == self.data@.len(),
    {
        self.data.len()
    }
}

/// A Hamiltonian system with quadratic energy `H(x) = x^T H x / 2` on the
/// state `x = [q; p]`, and its initial condition `(q0, p0)`.
#[derive(Debug, Clone)]
pub struct HamiltonianSystem<T> {
    pub h: Vec<Vec<T>>,
    pub q0: Vec<T>,
    pub p0: Vec<T>,
}

impl<T: Copy> HamiltonianSystem<T> {
    /// A system with energy matrix `h` and initial condition `(q0, p0)`.
    pub fn new(h: Vec<Vec<T>>, q0: Vec<T>, p0: Vec<T>) -> (sys: Self)
        ensures
            sys.h == h,
            sys.q0 == q0,
            sys.p0 == p0,
    {
        HamiltonianSystem { h, q0, p0 }
    }

    /// The dimension `n` of configuration space.
    pub fn n(&self) -> (n: usize)
        ensures
            n == self.q0@.len(),
    {
        self.q0.len()
    }

    /// The initial full state `[q0; p0]`.
    pub fn initial_state(&self) -> (x: Vec<T>)
        requires
            self.q0@.len() + self.p0@.len() <= usize::MAX,
        ensures
            x@ == self.q0@ + self.p0@,
    {
        join_state(&self.q0, &self.p0)
    }
}

} // verus!
