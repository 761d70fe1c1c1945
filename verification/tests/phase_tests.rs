use symplectic_geometry::phase::{join_state, record_points, split_state, PhasePoint, Trajectory};
use symplectic_geometry::system::{HamiltonianSystem, SymplecticMatrix};

#[test]
fn split_state_cuts_after_n() {
    let s = vec![1.0, 2.0, 3.0, 4.0];
    let pt = split_state(&s, 2);
    assert_eq!(pt.q, vec![1.0, 2.0]);
    assert_eq!(pt.p, vec![3.0, 4.0]);
    let all_q = split_state(&s, 4);
    assert_eq!(all_q.q, s);
    assert!(all_q.p.is_empty());
    let all_p = split_state(&s, 0);
    assert!(all_p.q.is_empty());
    assert_eq!(all_p.p, s);
}

#[test]
fn join_state_concatenates() {
    assert_eq!(join_state(&vec![1, 2], &vec![3]), vec![1, 2, 3]);
    assert_eq!(join_state(&Vec::<i32>::new(), &vec![5]), vec![5]);
    assert!(join_state(&Vec::<i32>::new(), &Vec::new()).is_empty());
}

#[test]
fn split_join_round_trip() {
    let q = vec![0.5, -1.5, 2.0];
    let p = vec![3.25, 4.0, -0.125];
    let s = join_state(&q, &p);
    let pt = split_state(&s, q.len());
    assert_eq!(pt.q, q);
    assert_eq!(pt.p, p);
    assert_eq!(join_state(&pt.q, &pt.p), s);
}

#[test]
fn record_points_counts_steps_plus_one() {
    // A rotation of the integer lattice (q, p) -> (p, -q).
    let rot = |s: &Vec<i64>| vec![s[1], -s[0]];
    let pts = record_points(vec![1i64, 0], 1, 4, rot);
    assert_eq!(pts.len(), 5);
    let qs: Vec<i64> = pts.iter().map(|pt| pt.q[0]).collect();
    let ps: Vec<i64> = pts.iter().map(|pt| pt.p[0]).collect();
    assert_eq!(qs, vec![1, 0, -1, 0, 1]);
    assert_eq!(ps, vec![0, -1, 0, 1, 0]);
}

#[test]
fn record_points_with_no_step_keeps_initial() {
    let pts = record_points(vec![3.0, 4.0], 1, 0, |s: &Vec<f64>| s.clone());
    assert_eq!(pts.len(), 1);
    assert_eq!(pts[0].q, vec![3.0]);
    assert_eq!(pts[0].p, vec![4.0]);
}

#[test]
fn trajectory_holds_points_and_times() {
    let pts = record_points(vec![1.0, 0.0], 1, 2, |s: &Vec<f64>| vec![s[0] + s[1], s[1] - s[0]]);
    let traj = Trajectory { points: pts, times: vec![0.0, 0.5, 1.0] };
    let copy = traj.clone();
    assert_eq!(copy.points.len(), 3);
    assert_eq!(copy.points[1].q, vec![1.0]);
    assert_eq!(copy.points[1].p, vec![-1.0]);
    assert_eq!(copy.points[2].q, vec![0.0]);
    assert_eq!(copy.points[2].p, vec![-2.0]);
    let pp = PhasePoint { q: vec![1.0], p: vec![2.0] };
    assert_eq!(pp.clone().p, vec![2.0]);
}

#[test]
fn hamiltonian_system_initial_state() {
    let h = vec![vec![1.0, 0.0], vec![0.0, 1.0]];
    let sys = HamiltonianSystem::new(h.clone(), vec![1.0], vec![0.0]);
    assert_eq!(sys.n(), 1);
    assert_eq!(sys.initial_state(), vec![1.0, 0.0]);
    assert_eq!(sys.h, h);
    let sys2 = HamiltonianSystem::new(vec![vec![0.0; 4]; 4], vec![1.0, 0.5], vec![0.0, 1.0]);
    assert_eq!(sys2.n(), 2);
    assert_eq!(sys2.initial_state(), vec![1.0, 0.5, 0.0, 1.0]);
}

#[test]
fn symplectic_matrix_dim_counts_rows() {
    let m = SymplecticMatrix::new(vec![vec![1.0, 0.0], vec![0.0, 1.0]]);
    assert_eq!(m.dim(), 2);
    let e: SymplecticMatrix<f64> = SymplecticMatrix::new(Vec::new());
    assert_eq!(e.dim(), 0);
}
