use cube_core::Orientation;
use cube_core::Permutation;

#[test]
fn test_compose_permutations() {
    let p1 = Permutation::new(5, vec![0, 1, 2, 4, 3]);
    let p2 = Permutation::new(5, vec![0, 1, 3, 2, 4]);
    let p3 = Permutation::new(5, vec![0, 1, 4, 2, 3]);

    /*
    0 1 2 3 4 // identity
    0 1 2 4 3 // swap 3 and 4
    0 1 4 2 3 // swap 2 and 3
    */
    let c = p1.compose(&p2);
    assert_eq!(c.n, p3.n);
    assert_eq!(c.pv, p3.pv);
}

#[test]
fn test_compose_orientations() {
    let o1 = Orientation::new(5, 3, vec![0, 1, 2, 0, 1]);
    let o2 = Orientation::new(5, 3, vec![0, 1, 0, 1, 2]);
    let o3 = Orientation::new(5, 3, vec![0, 2, 2, 1, 0]);

    let c = o1.compose(&o2);
    assert_eq!(c.n, o3.n);
    assert_eq!(c.states, o3.states);
    assert_eq!(c.ov, o3.ov);
}

#[test]
fn test_permutation_identity() {
    let p = Permutation::identity(8);
    assert_eq!(p.n, 8);
    assert_eq!(p.pv, vec![0, 1, 2, 3, 4, 5, 6, 7]);
}

#[test]
fn test_orientation_identity() {
    let o = Orientation::identity(12, 2);
    assert_eq!(o.n, 12);
    assert_eq!(o.states, 2);
    assert_eq!(o.ov, vec![0; 12]);
}

#[test]
fn test_permutation_compose_inverse_is_identity() {
    let p = Permutation::new(6, vec![2, 0, 5, 1, 4, 3]);
    let q = p.inverse();
    let left = p.compose(&q);
    assert_eq!(left.pv, vec![0, 1, 2, 3, 4, 5]);
    let right = q.compose(&p);
    assert_eq!(right.pv, vec![0, 1, 2, 3, 4, 5]);
}

#[test]
fn test_orientation_compose_inverse_is_identity() {
    let o = Orientation::new(8, 3, vec![0, 1, 2, 2, 1, 0, 1, 2]);
    let inv = o.inverse();
    assert_eq!(inv.ov, vec![0, 2, 1, 1, 2, 0, 2, 1]);
    let c = o.compose(&inv);
    assert_eq!(c.ov, vec![0; 8]);
}

#[test]
fn test_permutation_inverse_values() {
    let p = Permutation::new(4, vec![2, 0, 3, 1]);
    let q = p.inverse();
    assert_eq!(q.pv, vec![1, 3, 0, 2]);
}
