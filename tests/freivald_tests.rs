use freivald::field::Fe;
use freivald::freivald::{check_matrix_dimensions, Freivald};
use freivald::matrix::Matrix;

fn random_matrix(n: usize) -> Matrix {
    let mut data = Vec::new();
    for _ in 0..n * n {
        data.push(Fe::random());
    }
    Matrix::from_row_major(n, n, data).unwrap()
}

fn matrix_of(nrows: usize, ncols: usize, entries: &[u64]) -> Matrix {
    let data = entries.iter().map(|v| Fe::from_u64(*v)).collect();
    Matrix::from_row_major(nrows, ncols, data).unwrap()
}

fn entries(m: &Matrix) -> Vec<Fe> {
    let mut data = Vec::new();
    for i in 0..m.nrows() {
        for j in 0..m.ncols() {
            data.push(m.get(i, j));
        }
    }
    data
}

fn product(a: &Matrix, b: &Matrix) -> Matrix {
    let n = a.nrows();
    let mut data = Vec::new();
    for i in 0..n {
        for k in 0..n {
            let mut acc = Fe::zero();
            for j in 0..n {
                acc = acc.add(&a.get(i, j).mul(&b.get(j, k)));
            }
            data.push(acc);
        }
    }
    Matrix::from_row_major(n, n, data).unwrap()
}

fn perturbed(m: &Matrix, i: usize, j: usize) -> Matrix {
    let mut data = entries(m);
    let k = i * m.ncols() + j;
    data[k] = data[k].add(&Fe::from_u64(1));
    Matrix::from_row_major(m.nrows(), m.ncols(), data).unwrap()
}

fn same(u: &[Fe], v: &[Fe]) -> bool {
    u.len() == v.len() && u.iter().zip(v.iter()).all(|(x, y)| x.equals(y))
}

#[test]
fn freivald_verify_success_test() {
    for n in [3usize, 3, 12] {
        let a = random_matrix(n);
        let a_dot_a = product(&a, &a);
        let freivald = Freivald::new(a_dot_a.nrows());
        assert!(freivald.verify(&a, &a, &a_dot_a));
    }
}

#[test]
fn freivald_verify_fail_test() {
    let a = random_matrix(3);
    let b = random_matrix(3);
    let c = random_matrix(12);
    let a_dot_a = product(&a, &a);
    let b_dot_b = product(&b, &b);
    let c_dot_c = product(&c, &c);
    assert!(!Freivald::new(3).verify(&a, &b, &a_dot_a));
    assert!(!Freivald::new(3).verify(&b, &a, &b_dot_b));
    // shapes differ: rejected before any product
    assert!(!Freivald::new(12).verify(&c, &b, &c_dot_c));
}

#[test]
fn perturbed_product_is_rejected() {
    let a = random_matrix(3);
    let c = product(&a, &a);
    assert!(Freivald::new(3).verify(&a, &a, &c));
    let wrong = perturbed(&c, 1, 2);
    assert!(!Freivald::new(3).verify(&a, &a, &wrong));
    assert!(!Freivald::verify_once(&a, &a, &wrong));
}

#[test]
fn shape_mismatch_is_rejected() {
    let a = random_matrix(3);
    let b = random_matrix(4);
    let c = random_matrix(3);
    assert!(!check_matrix_dimensions(&a, &b, &c));
    assert!(!Freivald::new(3).verify(&a, &b, &c));
    assert!(!Freivald::verify_once(&a, &b, &c));
}

#[test]
fn non_square_is_rejected() {
    let a = matrix_of(2, 3, &[1, 2, 3, 4, 5, 6]);
    assert!(!check_matrix_dimensions(&a, &a, &a));
    let sq = matrix_of(2, 2, &[1, 2, 3, 4]);
    assert!(check_matrix_dimensions(&sq, &sq, &sq));
    let other = matrix_of(2, 2, &[0, 0, 0, 0]);
    assert!(check_matrix_dimensions(&sq, &other, &sq));
}

#[test]
fn guard_accepts_any_square_matrix_against_itself() {
    for n in [0usize, 1, 5] {
        let a = random_matrix(n);
        assert!(check_matrix_dimensions(&a, &a, &a));
    }
}

#[test]
fn known_product_with_chosen_points() {
    // [1 2; 3 4] * [5 6; 7 8] = [19 22; 43 50]
    let a = matrix_of(2, 2, &[1, 2, 3, 4]);
    let b = matrix_of(2, 2, &[5, 6, 7, 8]);
    let c = matrix_of(2, 2, &[19, 22, 43, 50]);
    let points = vec![Fe::from_u64(2), Fe::from_u64(7), Fe::from_u64(0)];
    let freivald = Freivald::with_points(&points, 2);
    assert!(freivald.verify(&a, &b, &c));
    let wrong = matrix_of(2, 2, &[19, 22, 43, 51]);
    assert!(!freivald.verify(&a, &b, &wrong));
}

#[test]
fn zero_point_misses_a_change_off_the_first_column() {
    // the vector for 0 is (1, 0): only the first column of the claim is seen
    let a = matrix_of(2, 2, &[1, 2, 3, 4]);
    let b = matrix_of(2, 2, &[5, 6, 7, 8]);
    let wrong = matrix_of(2, 2, &[19, 23, 43, 50]);
    let zero_only = Freivald::with_points(&vec![Fe::from_u64(0)], 2);
    assert!(zero_only.verify(&a, &b, &wrong));
    let with_two = Freivald::with_points(&vec![Fe::from_u64(0), Fe::from_u64(2)], 2);
    assert!(!with_two.verify(&a, &b, &wrong));
}

#[test]
fn wrong_claim_rejected_whichever_round_fails() {
    let a = random_matrix(4);
    let c = product(&a, &a);
    let wrong = perturbed(&c, 3, 3);
    // the failing round first, last, or everywhere
    let orders = [
        vec![Fe::from_u64(3), Fe::from_u64(0), Fe::from_u64(0)],
        vec![Fe::from_u64(0), Fe::from_u64(0), Fe::from_u64(3)],
        vec![Fe::from_u64(3), Fe::from_u64(5), Fe::from_u64(9)],
    ];
    for points in orders.iter() {
        assert!(!Freivald::with_points(points, 4).verify(&a, &a, &wrong));
        assert!(Freivald::with_points(points, 4).verify(&a, &a, &c));
    }
}

#[test]
fn independent_verifiers_both_accept() {
    let a = random_matrix(5);
    let b = random_matrix(5);
    let c = product(&a, &b);
    let first = Freivald::new(5);
    let second = Freivald::new(5);
    assert!(first.verify(&a, &b, &c));
    assert!(second.verify(&a, &b, &c));
    assert!(Freivald::verify_once(&a, &b, &c));
}

#[test]
fn repeated_trials_reject_near_misses() {
    let a = random_matrix(3);
    let b = random_matrix(3);
    let c = product(&a, &b);
    for t in 0..20usize {
        let wrong = perturbed(&c, t % 3, (t / 3) % 3);
        assert!(!Freivald::verify_once(&a, &b, &wrong));
    }
}

#[test]
fn empty_matrices_are_accepted() {
    let e = matrix_of(0, 0, &[]);
    assert!(check_matrix_dimensions(&e, &e, &e));
    assert!(Freivald::new(0).verify(&e, &e, &e));
}

#[test]
fn one_by_one_reduces_to_scalar_equality() {
    let a = matrix_of(1, 1, &[6]);
    let b = matrix_of(1, 1, &[7]);
    let good = matrix_of(1, 1, &[42]);
    let bad = matrix_of(1, 1, &[41]);
    assert!(Freivald::new(1).verify(&a, &b, &good));
    assert!(!Freivald::new(1).verify(&a, &b, &bad));
}

#[test]
fn field_operations_on_small_values() {
    let two = Fe::from_u64(2);
    let three = Fe::from_u64(3);
    assert!(two.mul(&three).equals(&Fe::from_u64(6)));
    assert!(two.add(&three).equals(&Fe::from_u64(5)));
    assert!(!two.equals(&three));
    assert_eq!(Fe::from_u64(9).limbs(), [9, 0, 0, 0, 0, 0]);
}

#[test]
fn field_operations_wrap_at_the_modulus() {
    // 2^63 raised to the 7th power, reduced modulo the prime
    let base = Fe::from_u64(1 << 63);
    let mut acc = Fe::from_u64(1);
    for _ in 0..7 {
        acc = acc.mul(&base);
    }
    assert_eq!(
        acc.limbs(),
        [
            0x5bdc_d3fb_c6fb_4127,
            0xd59f_d911_d05d_d4b7,
            0x8847_3291_51d7_c161,
            0xb779_9098_005e_76dd,
            0x3877_5ca2_aa15_70b4,
            0x0fe0_ca85_f54b_a04d,
        ]
    );
    // a carry into the second limb
    assert_eq!(base.add(&base).limbs(), [0, 1, 0, 0, 0, 0]);
}

#[test]
fn mul_vec_of_known_matrix() {
    let a = matrix_of(2, 3, &[1, 2, 3, 4, 5, 6]);
    let x = vec![Fe::from_u64(1), Fe::from_u64(10), Fe::from_u64(100)];
    let y = a.mul_vec(&x);
    let expected = vec![Fe::from_u64(321), Fe::from_u64(654)];
    assert!(same(&y, &expected));
}

#[test]
fn from_row_major_checks_the_count() {
    let data = vec![Fe::from_u64(1), Fe::from_u64(2), Fe::from_u64(3)];
    assert!(Matrix::from_row_major(2, 2, data).is_none());
    let m = matrix_of(2, 2, &[1, 2, 3, 4]);
    assert!(m.get(1, 0).equals(&Fe::from_u64(3)));
    assert!(m.is_square());
    assert_eq!(m.ncols(), 2);
}

#[test]
fn mul_vec_with_no_columns_gives_zeros() {
    let a = Matrix::from_row_major(2, 0, Vec::new()).unwrap();
    let y = a.mul_vec(&Vec::new());
    assert!(same(&y, &[Fe::zero(), Fe::zero()]));
}
