use cube_core::codec::factorial;
use cube_core::Orientation;
use cube_core::Permutation;

#[test]
fn test_permutation_to_from_int() {
    for i in 0..factorial(6) {
        let p = Permutation::from_int(i, 6);
        assert_eq!(p.to_int(), i);
    }
}

#[test]
fn test_orientation_to_from_int() {
    for i in 0..3u64.pow(6) {
        let o = Orientation::from_int(i, 6, 3);
        assert_eq!(o.to_int(), i);
    }
}

#[test]
fn test_factorial_values() {
    assert_eq!(factorial(0), 1);
    assert_eq!(factorial(1), 1);
    assert_eq!(factorial(8), 40320);
    assert_eq!(factorial(12), 479001600);
    assert_eq!(factorial(20), 2432902008176640000);
}

#[test]
fn test_permutation_rank_known_values() {
    // the identity ranks to zero
    let id = Permutation::new(8, vec![0, 1, 2, 3, 4, 5, 6, 7]);
    assert_eq!(id.to_int(), 0);
    // the corner permutation after one up-face turn
    let u = Permutation::new(8, vec![3, 0, 1, 2, 4, 5, 6, 7]);
    assert_eq!(u.to_int(), 15120);
    // the reverse permutation takes the largest rank
    let rev = Permutation::new(5, vec![4, 3, 2, 1, 0]);
    assert_eq!(rev.to_int(), factorial(5) - 1);
}

#[test]
fn test_permutation_unrank_known_values() {
    let p = Permutation::from_int(0, 8);
    assert_eq!(p.pv, vec![0, 1, 2, 3, 4, 5, 6, 7]);
    let q = Permutation::from_int(15120, 8);
    assert_eq!(q.pv, vec![3, 0, 1, 2, 4, 5, 6, 7]);
    let top = Permutation::from_int(factorial(5) - 1, 5);
    assert_eq!(top.pv, vec![4, 3, 2, 1, 0]);
}

#[test]
fn test_orientation_rank_known_values() {
    let zero = Orientation::new(8, 3, vec![0; 8]);
    assert_eq!(zero.to_int(), 0);
    let one = Orientation::new(4, 3, vec![0, 0, 1, 2]);
    assert_eq!(one.to_int(), 5);
    let top = Orientation::new(4, 2, vec![1, 1, 1, 1]);
    assert_eq!(top.to_int(), 15);
}

#[test]
fn test_orientation_unrank_known_values() {
    let o = Orientation::from_int(5, 4, 3);
    assert_eq!(o.ov, vec![0, 0, 1, 2]);
    let e = Orientation::from_int(0, 12, 2);
    assert_eq!(e.ov, vec![0; 12]);
}

#[test]
fn test_empty_and_single_roundtrip() {
    let p0 = Permutation::from_int(0, 0);
    assert_eq!(p0.to_int(), 0);
    let p1 = Permutation::from_int(0, 1);
    assert_eq!(p1.to_int(), 0);
    assert_eq!(p1.pv, vec![0]);
    let o0 = Orientation::from_int(0, 0, 3);
    assert_eq!(o0.to_int(), 0);
}

#[test]
fn test_edge_orientation_roundtrip_full_domain() {
    for i in 0..2u64.pow(12) {
        let o = Orientation::from_int(i, 12, 2);
        assert_eq!(o.to_int(), i);
    }
}

#[test]
fn test_rank_then_unrank_restores_permutation() {
    let vectors = [
        vec![0u8, 1, 2, 3, 4, 5, 6, 7],
        vec![3, 0, 1, 2, 4, 5, 6, 7],
        vec![7, 6, 5, 4, 3, 2, 1, 0],
        vec![4, 1, 2, 0, 7, 5, 6, 3],
    ];
    for v in vectors.iter() {
        let rank = Permutation::new(8, v.clone()).to_int();
        let back = Permutation::from_int(rank, 8);
        assert_eq!(&back.pv, v);
    }
}

#[test]
fn test_rank_then_unrank_restores_orientation() {
    let vectors = [vec![0u8; 8], vec![1, 0, 0, 2, 2, 0, 0, 1], vec![2; 8]];
    for v in vectors.iter() {
        let rank = Orientation::new(8, 3, v.clone()).to_int();
        let back = Orientation::from_int(rank, 8, 3);
        assert_eq!(&back.ov, v);
    }
}
