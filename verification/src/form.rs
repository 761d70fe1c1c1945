//! The canonical symplectic form on a phase space of dimension `2n`.

use vstd::prelude::*;
use crate::layout::{entry, has_shape, vec_filled};

verus! {

/// Entry `(r, c)` of the canonical block matrix `J = [[0, I_n], [-I_n, 0]]`.
pub open spec fn canonical_j(n: nat, r: int, c: int) -> int {
    if 0 <= r < n && c == r + n {
        1
    } else if n <= r < 2 * n && c == r - n {
        -1
    } else {
        0
    }
}

/// The canonical form pairs each position `q_i` with its own momentum
/// `p_i`, with the same sign for every pair: `J[i][n + i] = 1`,
/// `J[n + i][i] = -1` for every `i < n`, and every other entry is `0`.
pub proof fn lemma_canonical_pairs(n: nat)
    ensures
        forall|r: int, c: int|
            0 <= r < 2 * n && 0 <= c < 2 * n ==> #[trigger] canonical_j(n, r, c) == (if c == r + n {
                1int
            } else if r == c + n {
                -1int
            } else {
                0int
            }),
{
}

/// `f(0) + f(1) + ... + f(len - 1)`.
pub open spec fn sum_to(len: int, f: spec_fn(int) -> int) -> int
    decreases len,
{
    if len <= 0 {
        0
    } else {
        sum_to(len - 1, f) + f(len - 1)
    }
}

/// Entry `(r, c)` of the product `J * J` on a space of dimension `2n`.
pub open spec fn j_squared(n: nat, r: int, c: int) -> int {
    sum_to((2 * n) as int, |l: int| canonical_j(n, r, l) * canonical_j(n, l, c))
}

/// A sum whose terms vanish everywhere but at one index is that term.
pub proof fn lemma_sum_single_term(len: int, f: spec_fn(int) -> int, at: int)
    requires
        0 <= at < len,
        forall|l: int| 0 <= l < len && l != at ==> #[trigger] f(l) == 0,
    ensures
        sum_to(len, f) == f(at),
    decreases len,
{
    if len - 1 == at {
        lemma_sum_zero_terms(len - 1, f);
    } else {
        lemma_sum_single_term(len - 1, f, at);
    }
}

/// A sum of vanishing terms is zero.
pub proof fn lemma_sum_zero_terms(len: int, f: spec_fn(int) -> int)
    requires
        forall|l: int| 0 <= l < len ==> #[trigger] f(l) == 0,
    ensures
        sum_to(len, f) == 0,
    decreases len,
{
    if len > 0 {
        lemma_sum_zero_terms(len - 1, f);
    }
}

/// The canonical form squares to minus the identity: `J * J = -I`.
pub proof fn lemma_j_squared_is_minus_identity(n: nat)
    ensures
        forall|r: int, c: int|
            0 <= r < 2 * n && 0 <= c < 2 * n ==> #[trigger] j_squared(n, r, c) == (if r == c {
                -1int
            } else {
                0int
            }),
{
    assert forall|r: int, c: int| 0 <= r < 2 * n && 0 <= c < 2 * n implies #[trigger] j_squared(
        n,
        r,
        c,
    ) == (if r == c {
        -1int
    } else {
        0int
    }) by {
        let f = |l: int| canonical_j(n, r, l) * canonical_j(n, l, c);
        let at = if r < n {
            r + n
        } else {
            r - n
        };
        assert forall|l: int| 0 <= l < 2 * n && l != at implies #[trigger] f(l) == 0 by {
            assert(canonical_j(n, r, l) == 0);
        }
        lemma_sum_single_term((2 * n) as int, f, at);
    }
}

/// The canonical form is antisymmetric: `J^T = -J`.
pub proof fn lemma_j_antisymmetric(n: nat)
    ensures
        forall|r: int, c: int|
            0 <= r < 2 * n && 0 <= c < 2 * n ==> #[trigger] canonical_j(n, c, r) == -canonical_j(
                n,
                r,
                c,
            ),
{
}

/// The canonical symplectic form `omega` on `R^{2n}`, held as the block
/// matrix `J = [[0, I], [-I, 0]]` with its exact entries.
#[derive(Debug, Clone)]
pub struct SymplecticForm {
    /// The phase-space dimension `2n`.
    pub dim: usize,
    j_matrix: Vec<Vec<i8>>,
}

impl SymplecticForm {
    /// The phase-space dimension `2n`.
    pub closed spec fn dimension(self) -> nat {
        self.dim as nat
    }

    /// `J` is the canonical matrix of dimension `dim`, which is even.
    pub closed spec fn wf(self) -> bool {
        &&& self.dim % 2 == 0
        &&& has_shape(self.j_matrix@, self.dim as nat, self.dim as nat)
        &&& forall|r: int, c: int|
            0 <= r < self.dim && 0 <= c < self.dim ==> entry(self.j_matrix@, r, c) as int
                == canonical_j((self.dim / 2) as nat, r, c)
    }

    /// The canonical symplectic form on `R^{2n}`.
    pub fn new(n: usize) -> (form: Self)
        requires
            2 * n <= usize::MAX,
        ensures
            form.wf(),
            form.dimension() == 2 * n,
    {
        let dim = 2 * n;
        let mut j: Vec<Vec<i8>> = Vec::new();
        let mut r: usize = 0;
        while r < dim
            invariant
                dim == 2 * n,
                r <= dim,
                has_shape(j@, r as nat, dim as nat),
                forall|i: int, c: int|
                    0 <= i < r && 0 <= c < dim ==> entry(j@, i, c) as int == canonical_j(
                        n as nat,
                        i,
                        c,
                    ),
            decreases dim - r,
        {
            let mut row = vec_filled(dim, 0i8);
            if r < n {
                row.set(r + n, 1i8);
            } else {
                row.set(r - n, -1i8);
            }
            let ghost prev = j@;
            j.push(row);
            assert forall|i: int, c: int| 0 <= i <= r && 0 <= c < dim implies entry(j@, i, c) as int
                == canonical_j(n as nat, i, c) by {
                if i < r {
                    assert(j@[i] == prev[i]);
                    assert(entry(j@, i, c) == entry(prev, i, c));
                }
            }
            r = r + 1;
        }
        SymplecticForm { dim, j_matrix: j }
    }

    /// The matrix `J`, with entries `0`, `1` and `-1`.
    pub fn j(&self) -> (m: &Vec<Vec<i8>>)
        requires
            self.wf(),
        ensures
            self.dimension() % 2 == 0,
            has_shape(m@, self.dimension(), self.dimension()),
            forall|r: int, c: int|
                0 <= r < self.dimension() && 0 <= c < self.dimension() ==> entry(m@, r, c) as int
                    == canonical_j(
                    (self.dimension() / 2) as nat,
                    r,
                    c,
                ),
            forall|r: int, c: int|
                0 <= r < self.dimension() && 0 <= c < self.dimension() ==> #[trigger] entry(m@, r, c)
                    as int == (if c == r + self.dimension() / 2 {
                    1int
                } else if r == c + self.dimension() / 2 {
                    -1int
                } else {
                    0int
                }),
    {
        proof {
            lemma_canonical_pairs((self.dim / 2) as nat);
        }
        &self.j_matrix
    }
}

} // verus!
