//! The eighteen face moves: six base quarter turns given as data (slot
//! conventions: corners URF, ULF, ULB, URB, DRF, DLF, DLB, DRB; edges
//! UF, UL, UB, UR, FR, FL, BL, BR, DF, DL, DB, DR), with the double and
//! inverse turns derived by self-composition rather than authored by
//! hand.

use crate::cube::cube_apply_v;
use crate::cube::identity_cube_v;
use crate::cube::lemma_orient_step_identity;
use crate::cube::lemma_perm_compose_identity;
use crate::cube::lemma_orient_step_valid;
use crate::cube::move_then;
use crate::cube::move_wf_v;
use crate::cube::CubeSlow;
use crate::cube::CubeV;
use crate::cube::Move;
use crate::cube::MoveV;
use crate::group::lemma_perm_compose_valid;
use vstd::prelude::*;

verus! {

pub open spec fn move_u_v() -> MoveV {
    MoveV {
        co: seq![0u8, 0u8, 0u8, 0u8, 0u8, 0u8, 0u8, 0u8],
        cp: seq![3u8, 0u8, 1u8, 2u8, 4u8, 5u8, 6u8, 7u8],
        eo: seq![0u8, 0u8, 0u8, 0u8, 0u8, 0u8, 0u8, 0u8, 0u8, 0u8, 0u8, 0u8],
        ep: seq![3u8, 0u8, 1u8, 2u8, 4u8, 5u8, 6u8, 7u8, 8u8, 9u8, 10u8, 11u8],
    }
}

pub open spec fn move_r_v() -> MoveV {
    MoveV {
        co: seq![1u8, 0u8, 0u8, 2u8, 2u8, 0u8, 0u8, 1u8],
        cp: seq![4u8, 1u8, 2u8, 0u8, 7u8, 5u8, 6u8, 3u8],
        eo: seq![0u8, 0u8, 0u8, 1u8, 1u8, 0u8, 0u8, 1u8, 0u8, 0u8, 0u8, 1u8],
        ep: seq![0u8, 1u8, 2u8, 4u8, 11u8, 5u8, 6u8, 3u8, 8u8, 9u8, 10u8, 7u8],
    }
}

pub open spec fn move_f_v() -> MoveV {
    MoveV {
        co: seq![2u8, 1u8, 0u8, 0u8, 1u8, 2u8, 0u8, 0u8],
        cp: seq![1u8, 5u8, 2u8, 3u8, 0u8, 4u8, 6u8, 7u8],
        eo: seq![0u8, 0u8, 0u8, 0u8, 0u8, 0u8, 0u8, 0u8, 0u8, 0u8, 0u8, 0u8],
        ep: seq![5u8, 1u8, 2u8, 3u8, 0u8, 8u8, 6u8, 7u8, 4u8, 9u8, 10u8, 11u8],
    }
}

pub open spec fn move_d_v() -> MoveV {
    MoveV {
        co: seq![0u8, 0u8, 0u8, 0u8, 0u8, 0u8, 0u8, 0u8],
        cp: seq![0u8, 1u8, 2u8, 3u8, 5u8, 6u8, 7u8, 4u8],
        eo: seq![0u8, 0u8, 0u8, 0u8, 0u8, 0u8, 0u8, 0u8, 0u8, 0u8, 0u8, 0u8],
        ep: seq![0u8, 1u8, 2u8, 3u8, 4u8, 5u8, 6u8, 7u8, 9u8, 10u8, 11u8, 8u8],
    }
}

pub open spec fn move_l_v() -> MoveV {
    MoveV {
        co: seq![0u8, 2u8, 1u8, 0u8, 0u8, 1u8, 2u8, 0u8],
        cp: seq![0u8, 2u8, 6u8, 3u8, 4u8, 1u8, 5u8, 7u8],
        eo: seq![0u8, 1u8, 0u8, 0u8, 0u8, 1u8, 1u8, 0u8, 0u8, 1u8, 0u8, 0u8],
        ep: seq![0u8, 6u8, 2u8, 3u8, 4u8, 1u8, 9u8, 7u8, 8u8, 5u8, 10u8, 11u8],
    }
}

pub open spec fn move_b_v() -> MoveV {
    MoveV {
        co: seq![0u8, 0u8, 2u8, 1u8, 0u8, 0u8, 1u8, 2u8],
        cp: seq![0u8, 1u8, 3u8, 7u8, 4u8, 5u8, 2u8, 6u8],
        eo: seq![0u8, 0u8, 0u8, 0u8, 0u8, 0u8, 0u8, 0u8, 0u8, 0u8, 0u8, 0u8],
        ep: seq![0u8, 1u8, 7u8, 3u8, 4u8, 5u8, 2u8, 10u8, 8u8, 9u8, 6u8, 11u8],
    }
}

/// The base quarter turn of face `k`, in the order U, R, F, D, L, B.
pub open spec fn base_move_v(k: int) -> MoveV {
    if k == 0 {
        move_u_v()
    } else if k == 1 {
        move_r_v()
    } else if k == 2 {
        move_f_v()
    } else if k == 3 {
        move_d_v()
    } else if k == 4 {
        move_l_v()
    } else {
        move_b_v()
    }
}

/// The `k`-th of the eighteen moves, in the order U, R, F, D, L, B, then
/// the six double turns, then the six inverse quarter turns.
pub open spec fn nth_move_v(k: int) -> MoveV {
    if 0 <= k < 6 {
        base_move_v(k)
    } else if 6 <= k < 12 {
        move_then(base_move_v(k - 6), base_move_v(k - 6))
    } else {
        move_then(move_then(base_move_v(k - 12), base_move_v(k - 12)), base_move_v(k - 12))
    }
}

/// Every base quarter turn is a well-formed move.
pub proof fn lemma_base_moves_wf(k: int)
    requires
        0 <= k < 6,
    ensures
        move_wf_v(base_move_v(k)),
{
}

/// A byte vector from eight given entries.
fn vec8(a0: u8, a1: u8, a2: u8, a3: u8, a4: u8, a5: u8, a6: u8, a7: u8) -> (r: Vec<u8>)
    ensures
        r@ == seq![a0, a1, a2, a3, a4, a5, a6, a7],
{
    let mut r: Vec<u8> = Vec::new();
    r.push(a0);
    r.push(a1);
    r.push(a2);
    r.push(a3);
    r.push(a4);
    r.push(a5);
    r.push(a6);
    r.push(a7);
    proof {
        assert(r@ =~= seq![a0, a1, a2, a3, a4, a5, a6, a7]);
    }
    r
}

/// A byte vector from twelve given entries.
fn vec12(
    a0: u8,
    a1: u8,
    a2: u8,
    a3: u8,
    a4: u8,
    a5: u8,
    a6: u8,
    a7: u8,
    a8: u8,
    a9: u8,
    a10: u8,
    a11: u8,
) -> (r: Vec<u8>)
    ensures
        r@ == seq![a0, a1, a2, a3, a4, a5, a6, a7, a8, a9, a10, a11],
{
    let mut r: Vec<u8> = Vec::new();
    r.push(a0);
    r.push(a1);
    r.push(a2);
    r.push(a3);
    r.push(a4);
    r.push(a5);
    r.push(a6);
    r.push(a7);
    r.push(a8);
    r.push(a9);
    r.push(a10);
    r.push(a11);
    proof {
        assert(r@ =~= seq![a0, a1, a2, a3, a4, a5, a6, a7, a8, a9, a10, a11]);
    }
    r
}

/// The base quarter turn of the up face.
pub fn move_u() -> (m: Move)
    ensures
        m@ == move_u_v(),
        move_wf_v(m@),
{
    let m = Move {
        co: vec8(0, 0, 0, 0, 0, 0, 0, 0),
        cp: vec8(3, 0, 1, 2, 4, 5, 6, 7),
        eo: vec12(0, 0, 0, 0, 0, 0, 0, 0, 0, 0, 0, 0),
        ep: vec12(3, 0, 1, 2, 4, 5, 6, 7, 8, 9, 10, 11),
    };
    proof {
        assert(m@ =~= move_u_v());
        lemma_base_moves_wf(0);
    }
    m
}

/// The base quarter turn of the right face.
pub fn move_r() -> (m: Move)
    ensures
        m@ == move_r_v(),
        move_wf_v(m@),
{
    let m = Move {
        co: vec8(1, 0, 0, 2, 2, 0, 0, 1),
        cp: vec8(4, 1, 2, 0, 7, 5, 6, 3),
        eo: vec12(0, 0, 0, 1, 1, 0, 0, 1, 0, 0, 0, 1),
        ep: vec12(0, 1, 2, 4, 11, 5, 6, 3, 8, 9, 10, 7),
    };
    proof {
        assert(m@ =~= move_r_v());
        lemma_base_moves_wf(1);
    }
    m
}

/// The base quarter turn of the front face.
pub fn move_f() -> (m: Move)
    ensures
        m@ == move_f_v(),
        move_wf_v(m@),
{
    let m = Move {
        co: vec8(2, 1, 0, 0, 1, 2, 0, 0),
        cp: vec8(1, 5, 2, 3, 0, 4, 6, 7),
        eo: vec12(0, 0, 0, 0, 0, 0, 0, 0, 0, 0, 0, 0),
        ep: vec12(5, 1, 2, 3, 0, 8, 6, 7, 4, 9, 10, 11),
    };
    proof {
        assert(m@ =~= move_f_v());
        lemma_base_moves_wf(2);
    }
    m
}

/// The base quarter turn of the down face.
pub fn move_d() -> (m: Move)
    ensures
        m@ == move_d_v(),
        move_wf_v(m@),
{
    let m = Move {
        co: vec8(0, 0, 0, 0, 0, 0, 0, 0),
        cp: vec8(0, 1, 2, 3, 5, 6, 7, 4),
        eo: vec12(0, 0, 0, 0, 0, 0, 0, 0, 0, 0, 0, 0),
        ep: vec12(0, 1, 2, 3, 4, 5, 6, 7, 9, 10, 11, 8),
    };
    proof {
        assert(m@ =~= move_d_v());
        lemma_base_moves_wf(3);
    }
    m
}

/// The base quarter turn of the left face.
pub fn move_l() -> (m: Move)
    ensures
        m@ == move_l_v(),
        move_wf_v(m@),
{
    let m = Move {
        co: vec8(0, 2, 1, 0, 0, 1, 2, 0),
        cp: vec8(0, 2, 6, 3, 4, 1, 5, 7),
        eo: vec12(0, 1, 0, 0, 0, 1, 1, 0, 0, 1, 0, 0),
        ep: vec12(0, 6, 2, 3, 4, 1, 9, 7, 8, 5, 10, 11),
    };
    proof {
        assert(m@ =~= move_l_v());
        lemma_base_moves_wf(4);
    }
    m
}

/// The base quarter turn of the back face.
pub fn move_b() -> (m: Move)
    ensures
        m@ == move_b_v(),
        move_wf_v(m@),
{
    let m = Move {
        co: vec8(0, 0, 2, 1, 0, 0, 1, 2),
        cp: vec8(0, 1, 3, 7, 4, 5, 2, 6),
        eo: vec12(0, 0, 0, 0, 0, 0, 0, 0, 0, 0, 0, 0),
        ep: vec12(0, 1, 7, 3, 4, 5, 2, 10, 8, 9, 6, 11),
    };
    proof {
        assert(m@ =~= move_b_v());
        lemma_base_moves_wf(5);
    }
    m
}

/// Applying a move to the identity cube leaves exactly the move's own
/// components as the state.
pub proof fn lemma_apply_to_identity(m: MoveV)
    requires
        move_wf_v(m),
    ensures
        cube_apply_v(identity_cube_v(true), m) == cube_of_move_v(m),
{
    lemma_orient_step_identity(m.cp, m.co, 8, 3);
    lemma_orient_step_identity(m.ep, m.eo, 12, 2);
    lemma_perm_compose_identity(m.cp, 8);
    lemma_perm_compose_identity(m.ep, 12);
    assert(cube_apply_v(identity_cube_v(true), m) =~= cube_of_move_v(m));
}

/// The full-cube state whose components are the move's own components.
pub open spec fn cube_of_move_v(m: MoveV) -> CubeV {
    CubeV { co: m.co, cp: m.cp, eo: m.eo, ep: m.ep, is_333: true }
}

/// A well-formed composite of two well-formed moves.
pub proof fn lemma_move_then_wf(m1: MoveV, m2: MoveV)
    requires
        move_wf_v(m1),
        move_wf_v(m2),
    ensures
        move_wf_v(move_then(m1, m2)),
{
    lemma_perm_compose_valid(m1.cp, m2.cp, 8);
    lemma_perm_compose_valid(m1.ep, m2.ep, 12);
    lemma_orient_step_valid(m1.co, m2.cp, m2.co, 8, 3);
    lemma_orient_step_valid(m1.eo, m2.ep, m2.eo, 12, 2);
}

/// The double turn derived from a base move by applying it twice to the
/// identity cube and freezing the result.
pub fn derived_double(m: &Move) -> (r: Move)
    requires
        move_wf_v(m@),
    ensures
        r@ == move_then(m@, m@),
        move_wf_v(r@),
{
    let c1 = CubeSlow::new(true).apply_move(m);
    let c2 = c1.apply_move(m);
    let r = c2._to_move();
    proof {
        lemma_apply_to_identity(m@);
        assert(c1@.co == m@.co);
        assert(r@ =~= move_then(m@, m@));
        lemma_move_then_wf(m@, m@);
    }
    r
}

/// The inverse quarter turn derived from a base move by applying it
/// three times to the identity cube and freezing the result.
pub fn derived_inverse(m: &Move) -> (r: Move)
    requires
        move_wf_v(m@),
    ensures
        r@ == move_then(move_then(m@, m@), m@),
        move_wf_v(r@),
{
    let c1 = CubeSlow::new(true).apply_move(m);
    let c2 = c1.apply_move(m);
    let c3 = c2.apply_move(m);
    let r = c3._to_move();
    proof {
        lemma_apply_to_identity(m@);
        assert(c2@.co == move_then(m@, m@).co);
        assert(r@ =~= move_then(move_then(m@, m@), m@));
        lemma_move_then_wf(m@, m@);
        lemma_move_then_wf(move_then(m@, m@), m@);
    }
    r
}

/// All eighteen legal moves, in the order U, R, F, D, L, B, U2, R2, F2,
/// D2, L2, B2, U', R', F', D', L', B'.
pub fn all_moves() -> (r: Vec<Move>)
    ensures
        r@.len() == 18,
        forall|k: int| 0 <= k < 18 ==> (#[trigger] r@[k])@ == nth_move_v(k),
        forall|k: int| 0 <= k < 18 ==> move_wf_v(nth_move_v(k)),
{
    let mut r: Vec<Move> = Vec::new();
    let u = move_u();
    let rr = move_r();
    let f = move_f();
    let d = move_d();
    let l = move_l();
    let b = move_b();
    let u2 = derived_double(&u);
    let r2 = derived_double(&rr);
    let f2 = derived_double(&f);
    let d2 = derived_double(&d);
    let l2 = derived_double(&l);
    let b2 = derived_double(&b);
    let u3 = derived_inverse(&u);
    let r3 = derived_inverse(&rr);
    let f3 = derived_inverse(&f);
    let d3 = derived_inverse(&d);
    let l3 = derived_inverse(&l);
    let b3 = derived_inverse(&b);
    r.push(u);
    r.push(rr);
    r.push(f);
    r.push(d);
    r.push(l);
    r.push(b);
    r.push(u2);
    r.push(r2);
    r.push(f2);
    r.push(d2);
    r.push(l2);
    r.push(b2);
    r.push(u3);
    r.push(r3);
    r.push(f3);
    r.push(d3);
    r.push(l3);
    r.push(b3);
    proof {
        assert forall|k: int| 0 <= k < 18 implies (#[trigger] r@[k])@ == nth_move_v(k)
            && move_wf_v(nth_move_v(k)) by {
            if k < 6 {
                lemma_base_moves_wf(k);
            } else if k < 12 {
                lemma_base_moves_wf(k - 6);
                lemma_move_then_wf(base_move_v(k - 6), base_move_v(k - 6));
            } else {
                lemma_base_moves_wf(k - 12);
                lemma_move_then_wf(base_move_v(k - 12), base_move_v(k - 12));
                lemma_move_then_wf(
                    move_then(base_move_v(k - 12), base_move_v(k - 12)),
                    base_move_v(k - 12),
                );
            }
        }
    }
    r
}

} // verus!
