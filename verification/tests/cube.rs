use cube_core::cube::CubeSlow;
use cube_core::moves::all_moves;
use cube_core::moves::derived_double;
use cube_core::moves::derived_inverse;
use cube_core::moves::move_r;
use cube_core::moves::move_u;
use cube_core::Orientation;
use cube_core::Permutation;

#[test]
fn test_identity_cube_shape() {
    let full = CubeSlow::new(true);
    assert_eq!(full.co, vec![0; 8]);
    assert_eq!(full.cp, vec![0, 1, 2, 3, 4, 5, 6, 7]);
    assert_eq!(full.eo, Some(vec![0; 12]));
    assert_eq!(full.ep, Some(vec![0, 1, 2, 3, 4, 5, 6, 7, 8, 9, 10, 11]));
    let corners = CubeSlow::new(false);
    assert_eq!(corners.eo, None);
    assert_eq!(corners.ep, None);
}

#[test]
fn test_apply_move_u_from_identity() {
    let c = CubeSlow::new(true).apply_move(&move_u());
    assert_eq!(c.cp, vec![3, 0, 1, 2, 4, 5, 6, 7]);
    assert_eq!(c.co, vec![0; 8]);
    assert_eq!(c.ep, Some(vec![3, 0, 1, 2, 4, 5, 6, 7, 8, 9, 10, 11]));
    assert_eq!(c.eo, Some(vec![0; 12]));
}

#[test]
fn test_base_moves_have_order_four() {
    let moves = all_moves();
    for k in 0..6 {
        let m = &moves[k];
        let c = CubeSlow::new(true)
            .apply_move(m)
            .apply_move(m)
            .apply_move(m)
            .apply_move(m);
        assert_eq!(c.cp, vec![0, 1, 2, 3, 4, 5, 6, 7]);
        assert_eq!(c.co, vec![0; 8]);
        assert_eq!(c.ep, Some(vec![0, 1, 2, 3, 4, 5, 6, 7, 8, 9, 10, 11]));
        assert_eq!(c.eo, Some(vec![0; 12]));
    }
}

#[test]
fn test_move_then_derived_inverse_is_identity() {
    let moves = all_moves();
    for k in 0..6 {
        let c = CubeSlow::new(true)
            .apply_move(&moves[k])
            .apply_move(&moves[k + 12]);
        assert_eq!(c.cp, vec![0, 1, 2, 3, 4, 5, 6, 7]);
        assert_eq!(c.co, vec![0; 8]);
        assert_eq!(c.ep, Some(vec![0, 1, 2, 3, 4, 5, 6, 7, 8, 9, 10, 11]));
        assert_eq!(c.eo, Some(vec![0; 12]));
    }
}

#[test]
fn test_r_then_r_inverse_restores_all_coordinates() {
    let r = move_r();
    let r3 = derived_inverse(&r);
    let c = CubeSlow::new(true).apply_move(&r).apply_move(&r3);
    assert_eq!(Orientation::new(8, 3, c.co).to_int(), 0);
    assert_eq!(Permutation::new(8, c.cp).to_int(), 0);
    assert_eq!(Orientation::new(12, 2, c.eo.unwrap()).to_int(), 0);
    assert_eq!(Permutation::new(12, c.ep.unwrap()).to_int(), 0);
}

#[test]
fn test_corner_permutation_coordinate_after_u() {
    let identity = CubeSlow::new(true);
    assert_eq!(Permutation::new(8, identity.cp).to_int(), 0);
    let after_u = CubeSlow::new(true).apply_move(&move_u());
    let expected = Permutation::new(8, vec![3, 0, 1, 2, 4, 5, 6, 7]).to_int();
    assert_eq!(Permutation::new(8, after_u.cp).to_int(), expected);
    assert_eq!(expected, 15120);
}

#[test]
fn test_derived_double_matches_two_applications() {
    let u = move_u();
    let u2 = derived_double(&u);
    assert_eq!(u2.cp, vec![2, 3, 0, 1, 4, 5, 6, 7]);
    assert_eq!(u2.co, vec![0; 8]);
    assert_eq!(u2.ep, vec![2, 3, 0, 1, 4, 5, 6, 7, 8, 9, 10, 11]);
    let r2 = derived_double(&move_r());
    assert_eq!(r2.cp, vec![7, 1, 2, 4, 3, 5, 6, 0]);
    assert_eq!(r2.co, vec![0; 8]);
    assert_eq!(r2.ep, vec![0, 1, 2, 11, 7, 5, 6, 4, 8, 9, 10, 3]);
    assert_eq!(r2.eo, vec![0; 12]);
}

#[test]
fn test_derived_inverse_matches_three_applications() {
    let r3 = derived_inverse(&move_r());
    assert_eq!(r3.cp, vec![3, 1, 2, 7, 0, 5, 6, 4]);
    assert_eq!(r3.co, vec![1, 0, 0, 2, 2, 0, 0, 1]);
    assert_eq!(r3.ep, vec![0, 1, 2, 7, 3, 5, 6, 11, 8, 9, 10, 4]);
    assert_eq!(r3.eo, vec![0, 0, 0, 1, 1, 0, 0, 1, 0, 0, 0, 1]);
}

#[test]
fn test_orientation_parity_along_random_walk() {
    let moves = all_moves();
    let mut c = CubeSlow::new(true);
    let walk = [1usize, 7, 0, 13, 5, 16, 2, 9, 4, 11, 3, 17, 6, 8, 10];
    for &k in walk.iter() {
        c = c.apply_move(&moves[k]);
        let co_sum: u32 = c.co.iter().map(|&x| x as u32).sum();
        let eo_sum: u32 = c.eo.as_ref().unwrap().iter().map(|&x| x as u32).sum();
        assert_eq!(co_sum % 3, 0);
        assert_eq!(eo_sum % 2, 0);
    }
}

#[test]
fn test_from_params_defaults() {
    let c = CubeSlow::from_params(None, None, None, None, true);
    assert_eq!(c.co, vec![0; 8]);
    assert_eq!(c.cp, vec![0, 1, 2, 3, 4, 5, 6, 7]);
    assert_eq!(c.eo, Some(vec![0; 12]));
    assert_eq!(c.ep, Some(vec![0, 1, 2, 3, 4, 5, 6, 7, 8, 9, 10, 11]));
    let with_co = CubeSlow::from_params(Some(vec![1, 2, 0, 0, 0, 0, 0, 0]), None, None, None, true);
    assert_eq!(with_co.co, vec![1, 2, 0, 0, 0, 0, 0, 0]);
    assert_eq!(with_co.cp, vec![0, 1, 2, 3, 4, 5, 6, 7]);
}

#[test]
fn test_to_move_freezes_state() {
    let c = CubeSlow::new(true).apply_move(&move_r());
    let m = c._to_move();
    assert_eq!(m.cp, vec![4, 1, 2, 0, 7, 5, 6, 3]);
    assert_eq!(m.co, vec![1, 0, 0, 2, 2, 0, 0, 1]);
    let corners_only = CubeSlow::new(false)._to_move();
    assert_eq!(corners_only.eo, vec![0; 12]);
    assert_eq!(corners_only.ep, vec![0; 12]);
}

#[test]
fn test_corners_only_cube_moves() {
    let moves = all_moves();
    let mut c = CubeSlow::new(false);
    for _ in 0..4 {
        c = c.apply_move(&moves[1]);
        assert_eq!(c.eo, None);
        assert_eq!(c.ep, None);
    }
    assert_eq!(c.cp, vec![0, 1, 2, 3, 4, 5, 6, 7]);
    assert_eq!(c.co, vec![0; 8]);
}

#[test]
fn test_coordinate_conversion_round_trip() {
    let c = CubeSlow::from_coordinates(17, 15120, 2048, 479001599);
    let (co, cp, eo, ep) = c.to_coordinates();
    assert_eq!((co, cp, eo, ep), (17, 15120, 2048, 479001599));
}

#[test]
fn test_identity_cube_coordinates_are_zero() {
    let (co, cp, eo, ep) = CubeSlow::new(true).to_coordinates();
    assert_eq!((co, cp, eo, ep), (0, 0, 0, 0));
}

#[test]
fn test_coordinates_after_scramble_and_back() {
    let moves = all_moves();
    let scrambled = CubeSlow::new(true)
        .apply_move(&moves[1])
        .apply_move(&moves[0])
        .apply_move(&moves[13]);
    let (co, cp, eo, ep) = scrambled.to_coordinates();
    let rebuilt = CubeSlow::from_coordinates(co, cp, eo, ep);
    let (co2, cp2, eo2, ep2) = rebuilt.to_coordinates();
    assert_eq!((co, cp, eo, ep), (co2, cp2, eo2, ep2));
}
