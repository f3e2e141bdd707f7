use cube_core::cube::CubeSlow;
use cube_core::moves::all_moves;
use cube_core::table::ep_transition;
use cube_core::table::CubeFast;
use cube_core::table::MoveTable;
use cube_core::Orientation;
use cube_core::Permutation;

#[test]
fn test_move_table_sizes() {
    let moves = all_moves();
    let t = MoveTable::new(&moves[0]);
    assert_eq!(t.co_table.len(), 6561);
    assert_eq!(t.cp_table.len(), 40320);
    assert_eq!(t.eo_table.len(), 4096);
}

#[test]
fn test_co_table_matches_direct_application() {
    let moves = all_moves();
    let m = &moves[1];
    let t = MoveTable::new(m);
    for i in (0..6561u64).step_by(53) {
        let o = Orientation::from_int(i, 8, 3);
        let direct = Orientation::new(
            8,
            3,
            CubeSlow::from_params(Some(o.ov), None, None, None, true)
                .apply_move(m)
                .co,
        )
        .to_int();
        assert_eq!(t.co_table[i as usize], direct);
    }
}

#[test]
fn test_cp_table_matches_direct_application() {
    let moves = all_moves();
    let m = &moves[2];
    let t = MoveTable::new(m);
    for i in (0..40320u64).step_by(389) {
        let p = Permutation::from_int(i, 8);
        let direct = Permutation::new(
            8,
            CubeSlow::from_params(None, Some(p.pv), None, None, true)
                .apply_move(m)
                .cp,
        )
        .to_int();
        assert_eq!(t.cp_table[i as usize], direct);
    }
}

#[test]
fn test_eo_table_matches_direct_application() {
    let moves = all_moves();
    let m = &moves[4];
    let t = MoveTable::new(m);
    for i in (0..4096u64).step_by(37) {
        let o = Orientation::from_int(i, 12, 2);
        let direct = Orientation::new(
            12,
            2,
            CubeSlow::from_params(None, None, Some(o.ov), None, true)
                .apply_move(m)
                .eo
                .unwrap(),
        )
        .to_int();
        assert_eq!(t.eo_table[i as usize], direct);
    }
}

#[test]
fn test_ep_transition_matches_direct_application() {
    let moves = all_moves();
    let m = &moves[1];
    let samples = [0u64, 1, 2, 100, 40319, 479001599, 123456789, 98765432];
    for &i in samples.iter() {
        let p = Permutation::from_int(i, 12);
        let direct = Permutation::new(
            12,
            CubeSlow::from_params(None, None, None, Some(p.pv), true)
                .apply_move(m)
                .ep
                .unwrap(),
        )
        .to_int();
        assert_eq!(ep_transition(m, i), direct);
    }
}

#[test]
fn test_ep_transition_round_trip() {
    let moves = all_moves();
    let samples = [0u64, 7, 5040, 479001599, 271828182];
    for k in 0..6 {
        for &i in samples.iter() {
            let there = ep_transition(&moves[k], i);
            let back = ep_transition(&moves[k + 12], there);
            assert_eq!(back, i);
        }
    }
}

#[test]
fn test_cube_fast_solved_and_move_round_trip() {
    let mut cf = CubeFast::new();
    assert_eq!(cf.co, 0);
    assert_eq!(cf.cp, 0);
    assert_eq!(cf.eo, 0);
    assert_eq!(cf.ep, 0);
    // a right turn followed by its inverse restores the solved state
    cf.apply_move_index(1);
    cf.apply_move_index(13);
    assert_eq!(cf.co, 0);
    assert_eq!(cf.cp, 0);
    assert_eq!(cf.eo, 0);
    assert_eq!(cf.ep, 0);
    // the corner-permutation coordinate after one up-face turn
    cf.apply_move_index(0);
    assert_eq!(cf.cp, 15120);
}

#[test]
fn test_table_parity_of_reachable_coordinates() {
    let moves = all_moves();
    let t = MoveTable::new(&moves[1]);
    // starting from solved, follow corner-orientation coordinates through
    // the table; every reachable coordinate must decode to a vector whose
    // sum is divisible by 3
    let mut coord: u64 = 0;
    for _ in 0..9 {
        coord = t.co_table[coord as usize];
        let o = Orientation::from_int(coord, 8, 3);
        let sum: u32 = o.ov.iter().map(|&x| x as u32).sum();
        assert_eq!(sum % 3, 0);
    }
}
