use symplectic_geometry::form::SymplecticForm;
use symplectic_geometry::layout::mat_identity;

fn to_f64(m: &Vec<Vec<i8>>) -> Vec<Vec<f64>> {
    m.iter().map(|row| row.iter().map(|&x| x as f64).collect()).collect()
}

fn mul(a: &Vec<Vec<f64>>, b: &Vec<Vec<f64>>) -> Vec<Vec<f64>> {
    let r = a.len();
    let c = b[0].len();
    let k = b.len();
    let mut out = vec![vec![0.0; c]; r];
    for i in 0..r {
        for j in 0..c {
            let mut s = 0.0;
            for l in 0..k {
                s += a[i][l] * b[l][j];
            }
            out[i][j] = s;
        }
    }
    out
}

#[test]
fn test_symplectic_form_j_properties() {
    let omega = SymplecticForm::new(2); // 4x4
    let j = to_f64(omega.j());
    // J^2 = -I
    let j2 = mul(&j, &j);
    let neg_id: Vec<Vec<f64>> = mat_identity(4, 0.0f64, 1.0f64)
        .iter()
        .map(|row| row.iter().map(|v| v * -1.0).collect())
        .collect();
    for i in 0..4 {
        for j_idx in 0..4 {
            assert!((j2[i][j_idx] - neg_id[i][j_idx]).abs() < 1e-12);
        }
    }
}

#[test]
fn form_dimension_is_twice_n() {
    assert_eq!(SymplecticForm::new(3).dim, 6);
    assert_eq!(SymplecticForm::new(1).dim, 2);
    let empty = SymplecticForm::new(0);
    assert_eq!(empty.dim, 0);
    assert!(empty.j().is_empty());
}

#[test]
fn form_j_has_canonical_blocks() {
    let omega = SymplecticForm::new(2);
    let expected: Vec<Vec<i8>> = vec![
        vec![0, 0, 1, 0],
        vec![0, 0, 0, 1],
        vec![-1, 0, 0, 0],
        vec![0, -1, 0, 0],
    ];
    assert_eq!(omega.j(), &expected);
}

#[test]
fn form_j_pairs_each_position_with_its_momentum() {
    // omega(q_1, p_1) = J[0][n] = 1 and omega(p_1, q_1) = -1.
    let omega = SymplecticForm::new(1);
    assert_eq!(omega.j(), &vec![vec![0i8, 1], vec![-1i8, 0]]);
}

#[test]
fn form_j_squared_is_minus_identity_exactly() {
    for n in 0..5usize {
        let omega = SymplecticForm::new(n);
        let j = omega.j();
        let d = 2 * n;
        for r in 0..d {
            for c in 0..d {
                let mut s: i64 = 0;
                for l in 0..d {
                    s += (j[r][l] as i64) * (j[l][c] as i64);
                }
                assert_eq!(s, if r == c { -1 } else { 0 });
            }
        }
    }
}

#[test]
fn form_j_is_antisymmetric() {
    let omega = SymplecticForm::new(3);
    let j = omega.j();
    for r in 0..6 {
        for c in 0..6 {
            assert_eq!(j[c][r], -j[r][c]);
        }
    }
}

#[test]
fn form_clone_keeps_j() {
    let omega = SymplecticForm::new(2);
    let copy = omega.clone();
    assert_eq!(copy.dim, 4);
    assert_eq!(copy.j(), omega.j());
}
