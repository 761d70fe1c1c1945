//! Points of phase space and trajectories through it.

use vstd::prelude::*;

verus! {

/// A point in phase space: positions `q` and momenta `p`.
#[derive(Debug, Clone)]
pub struct PhasePoint<T> {
    pub q: Vec<T>,
    pub p: Vec<T>,
}

/// A trajectory through phase space: the visited points and their times.
#[derive(Debug, Clone)]
pub struct Trajectory<T> {
    pub points: Vec<PhasePoint<T>>,
    pub times: Vec<T>,
}

/// The positions of a full state `[q; p]` whose position part has length `n`.
pub open spec fn state_positions<T>(state: Seq<T>, n: int) -> Seq<T> {
    state.take(n)
}

/// The momenta of a full state `[q; p]` whose position part has length `n`.
pub open spec fn state_momenta<T>(state: Seq<T>, n: int) -> Seq<T> {
    state.skip(n)
}

/// `pt` is the state `state` cut after its first `n` entries.
pub open spec fn is_split_of<T>(pt: PhasePoint<T>, state: Seq<T>, n: int) -> bool {
    pt.q@ == state_positions(state, n) && pt.p@ == state_momenta(state, n)
}

/// Cut a full state `[q; p]` into its positions (the first `n` entries) and
/// its momenta (the rest).
pub fn split_state<T: Copy>(state: &Vec<T>, n: usize) -> (pt: PhasePoint<T>)
    requires
        n <= state@.len(),
    ensures
        is_split_of(pt, state@, n as int),
        pt.q@.len() == n,
        pt.q@ + pt.p@ == state@,
{
    let len = state.len();
    let mut q: Vec<T> = Vec::new();
    let mut i: usize = 0;
    while i < n
        invariant
            n <= len,
            len == state@.len(),
            i <= n,
            q@ == state@.take(i as int),
        decreases n - i,
    {
        q.push(state[i]);
        i = i + 1;
        assert(q@ =~= state@.take(i as int));
    }
    let mut p: Vec<T> = Vec::new();
    while i < len
        invariant
            n <= i <= len,
            len == state@.len(),
            p@ == state@.subrange(n as int, i as int),
        decreases len - i,
    {
        p.push(state[i]);
        i = i + 1;
        assert(p@ =~= state@.subrange(n as int, i as int));
    }
    assert(p@ =~= state@.skip(n as int));
    proof {
        lemma_join_split(state@, n as int);
    }
    PhasePoint { q, p }
}

/// The full state `[q; p]`.
pub fn join_state<T: Copy>(q: &Vec<T>, p: &Vec<T>) -> (state: Vec<T>)
    requires
        q@.len() + p@.len() <= usize::MAX,
    ensures
        state@ == q@ + p@,
{
    let mut s: Vec<T> = Vec::new();
    let mut i: usize = 0;
    while i < q.len()
        invariant
            i <= q@.len(),
            s@ == q@.take(i as int),
        decreases q@.len() - i,
    {
        s.push(q[i]);
        i = i + 1;
        assert(s@ =~= q@.take(i as int));
    }
    assert(q@.take(q@.len() as int) =~= q@);
    let mut j: usize = 0;
    while j < p.len()
        invariant
            j <= p@.len(),
            s@ == q@ + p@.take(j as int),
        decreases p@.len() - j,
    {
        s.push(p[j]);
        j = j + 1;
        assert(s@ =~= q@ + p@.take(j as int));
    }
    assert(p@.take(p@.len() as int) =~= p@);
    s
}

/// Joining the two halves of a cut state gives the state back.
pub proof fn lemma_join_split<T>(state: Seq<T>, n: int)
    requires
        0 <= n <= state.len(),
    ensures
        state_positions(state, n) + state_momenta(state, n) == state,
{
    assert(state.take(n) + state.skip(n) =~= state);
}

/// Cutting a joined state after its positions gives the positions and the
/// momenta back.
pub proof fn lemma_split_join<T>(q: Seq<T>, p: Seq<T>)
    ensures
        state_positions(q + p, q.len() as int) == q,
        state_momenta(q + p, q.len() as int) == p,
{
    assert((q + p).take(q.len() as int) =~= q);
    assert((q + p).skip(q.len() as int) =~= p);
}

/// `states` are the `steps + 1` states reached from `initial` by applying
/// `step` again and again: `states[0]` is `initial` and each next state is an
/// outcome of `step` on the one before.
pub open spec fn is_orbit<T, F: Fn(&Vec<T>) -> Vec<T>>(
    states: Seq<Vec<T>>,
    initial: Vec<T>,
    step: F,
    steps: nat,
) -> bool {
    &&& states.len() == steps + 1
    &&& states[0] == initial
    &&& forall|k: int| 0 <= k < steps ==> call_ensures(step, (&states[k],), #[trigger] states[k + 1])
}

/// `points` are the states of `states`, each cut after its first `n` entries.
pub open spec fn cuts_of<T>(points: Seq<PhasePoint<T>>, states: Seq<Vec<T>>, n: int) -> bool {
    &&& points.len() == states.len()
    &&& forall|k: int| 0 <= k < states.len() ==> is_split_of(#[trigger] points[k], states[k]@, n)
}

/// A recorded orbit starts at the initial state, and each recorded point
/// after the first, joined back into a full state, is an outcome of the
/// one-step map on the point recorded just before it.
pub proof fn lemma_recorded_steps<T, F: Fn(&Vec<T>) -> Vec<T>>(
    points: Seq<PhasePoint<T>>,
    states: Seq<Vec<T>>,
    initial: Vec<T>,
    step: F,
    steps: nat,
    n: int,
)
    requires
        0 <= n,
        is_orbit(states, initial, step, steps),
        cuts_of(points, states, n),
        forall|k: int| 0 <= k <= steps ==> n <= (#[trigger] states[k])@.len(),
    ensures
        points.len() == steps + 1,
        points[0].q@ + points[0].p@ == initial@,
        forall|k: int|
            #![trigger points[k]]
            0 <= k < steps ==> exists|s: Vec<T>, r: Vec<T>|
                #[trigger] call_ensures(step, (&s,), r) && s@ == points[k].q@ + points[k].p@ && r@
                    == points[k + 1].q@ + points[k + 1].p@,
{
    assert(is_split_of(points[0], states[0]@, n));
    lemma_join_split(states[0]@, n);
    assert forall|k: int|
        #![trigger points[k]]
        0 <= k < steps implies exists|s: Vec<T>, r: Vec<T>|
            #[trigger] call_ensures(step, (&s,), r) && s@ == points[k].q@ + points[k].p@ && r@
                == points[k + 1].q@ + points[k + 1].p@ by {
        assert(n <= states[k]@.len());
        assert(n <= states[k + 1]@.len());
        assert(is_split_of(points[k], states[k]@, n));
        assert(is_split_of(points[k + 1], states[k + 1]@, n));
        lemma_join_split(states[k]@, n);
        lemma_join_split(states[k + 1]@, n);
        assert(call_ensures(step, (&states[k],), states[k + 1]));
    }
}

/// The phase points visited by `steps` applications of the one-step map
/// `step` from `initial`: `steps + 1` points, the first of them `initial`,
/// each full state cut into positions (its first `n` entries) and momenta.
pub fn record_points<T: Copy, F: Fn(&Vec<T>) -> Vec<T>>(
    initial: Vec<T>,
    n: usize,
    steps: usize,
    step: F,
) -> (points: Vec<PhasePoint<T>>)
    requires
        n <= initial@.len(),
        steps < usize::MAX,
        forall|s: Vec<T>| n <= s@.len() ==> call_requires(step, (&s,)),
        forall|s: Vec<T>, r: Vec<T>|
                n <= s@.len() && call_ensures(step, (&s,), r) ==> n <= r@.len(),
    ensures
        points@.len() == steps + 1,
        is_split_of(points@[0], initial@, n as int),
        exists|states: Seq<Vec<T>>|
            is_orbit(states, initial, step, steps as nat) && #[trigger] cuts_of(points@, states, n as int),
        points@[0].q@ + points@[0].p@ == initial@,
        forall|k: int|
            #![trigger points@[k]]
            0 <= k < steps ==> exists|s: Vec<T>, r: Vec<T>|
                #[trigger] call_ensures(step, (&s,), r) && s@ == points@[k].q@ + points@[k].p@ && r@
                    == points@[k + 1].q@ + points@[k + 1].p@,
{
    let ghost start = initial;
    let mut state = initial;
    let mut points: Vec<PhasePoint<T>> = Vec::new();
    points.push(split_state(&state, n));
    let ghost mut states: Seq<Vec<T>> = seq![start];
    let mut k: usize = 0;
    while k < steps
        invariant
            k <= steps,
            steps < usize::MAX,
            n <= state@.len(),
            forall|s: Vec<T>| n <= s@.len() ==> call_requires(step, (&s,)),
            forall|s: Vec<T>, r: Vec<T>|
                n <= s@.len() && call_ensures(step, (&s,), r) ==> n <= r@.len(),
            states.len() == k + 1,
            states[0] == start,
            states[k as int] == state,
            forall|j: int| 0 <= j < k ==> call_ensures(step, (&states[j],), #[trigger] states[j + 1]),
            forall|j: int| 0 <= j <= k ==> n <= (#[trigger] states[j])@.len(),
            cuts_of(points@, states, n as int),
        decreases steps - k,
    {
        let next = step(&state);
        proof {
            states = states.push(next);
        }
        state = next;
        let pt = split_state(&state, n);
        points.push(pt);
        k = k + 1;
        assert(forall|j: int| 0 <= j < k ==> states[j] == states.drop_last()[j]);
    }
    assert(is_orbit(states, start, step, steps as nat));
    proof {
        lemma_recorded_steps(points@, states, start, step, steps as nat, n as int);
    }
    points
}

} // verus!
