//! Group-theoretic laws of the move algebra, proved once and for all:
//! associativity of move application, the order of the base quarter
//! turns, the derived inverses, and the orientation parity invariants.

use crate::cube::cube_apply_v;
use crate::cube::cube_wf_v;
use crate::cube::identity_cube_v;
use crate::cube::move_then;
use crate::cube::move_wf_v;
use crate::cube::orient_step;
use crate::cube::CubeV;
use crate::cube::MoveV;
use crate::group::is_orient;
use crate::group::is_perm;
use crate::moves::base_move_v;
use crate::moves::nth_move_v;
use crate::moves::cube_of_move_v;
use crate::moves::lemma_apply_to_identity;
use crate::moves::lemma_base_moves_wf;
use crate::moves::move_b_v;
use crate::moves::move_d_v;
use crate::moves::move_f_v;
use crate::moves::move_l_v;
use crate::moves::move_r_v;
use crate::moves::move_u_v;
use vstd::prelude::*;

verus! {

/// `m` is one of the six base quarter turns.
pub open spec fn is_base_move_v(m: MoveV) -> bool {
    exists|k: int| 0 <= k < 6 && m == base_move_v(k)
}

/// Applying any base quarter turn four times to the identity cube
/// returns the identity cube.
pub proof fn lemma_base_move_order_four(m: MoveV)
    requires
        is_base_move_v(m),
    ensures
        cube_apply_v(
            cube_apply_v(cube_apply_v(cube_apply_v(identity_cube_v(true), m), m), m),
            m,
        ) == identity_cube_v(true),
{
    let k = choose|k: int| 0 <= k < 6 && m == base_move_v(k);
    if k == 0 {
        lemma_order_four_u();
    } else if k == 1 {
        lemma_order_four_r();
    } else if k == 2 {
        lemma_order_four_f();
    } else if k == 3 {
        lemma_order_four_d();
    } else if k == 4 {
        lemma_order_four_l();
    } else {
        lemma_order_four_b();
    }
}

#[verifier::rlimit(60)]
proof fn lemma_order_four_u()
    ensures
        cube_apply_v(
            cube_apply_v(
                cube_apply_v(cube_apply_v(identity_cube_v(true), move_u_v()), move_u_v()),
                move_u_v(),
            ),
            move_u_v(),
        ) == identity_cube_v(true),
{
    lemma_base_moves_wf(0);
    let m = move_u_v();
    lemma_apply_to_identity(m);
    let c1 = cube_apply_v(identity_cube_v(true), m);
    assert(c1 == cube_of_move_v(m));
    let c2 = cube_apply_v(c1, m);
    assert(c2.co =~= seq![0u8, 0u8, 0u8, 0u8, 0u8, 0u8, 0u8, 0u8]);
    assert(c2.cp =~= seq![2u8, 3u8, 0u8, 1u8, 4u8, 5u8, 6u8, 7u8]);
    assert(c2.eo =~= seq![0u8, 0u8, 0u8, 0u8, 0u8, 0u8, 0u8, 0u8, 0u8, 0u8, 0u8, 0u8]);
    assert(c2.ep =~= seq![2u8, 3u8, 0u8, 1u8, 4u8, 5u8, 6u8, 7u8, 8u8, 9u8, 10u8, 11u8]);
    let c3 = cube_apply_v(c2, m);
    assert(c3.co =~= seq![0u8, 0u8, 0u8, 0u8, 0u8, 0u8, 0u8, 0u8]);
    assert(c3.cp =~= seq![1u8, 2u8, 3u8, 0u8, 4u8, 5u8, 6u8, 7u8]);
    assert(c3.eo =~= seq![0u8, 0u8, 0u8, 0u8, 0u8, 0u8, 0u8, 0u8, 0u8, 0u8, 0u8, 0u8]);
    assert(c3.ep =~= seq![1u8, 2u8, 3u8, 0u8, 4u8, 5u8, 6u8, 7u8, 8u8, 9u8, 10u8, 11u8]);
    let c4 = cube_apply_v(c3, m);
    assert(c4.co =~= identity_cube_v(true).co);
    assert(c4.cp =~= identity_cube_v(true).cp);
    assert(c4.eo =~= identity_cube_v(true).eo);
    assert(c4.ep =~= identity_cube_v(true).ep);
    assert(c4 =~= identity_cube_v(true));
}

#[verifier::rlimit(60)]
proof fn lemma_order_four_r()
    ensures
        cube_apply_v(
            cube_apply_v(
                cube_apply_v(cube_apply_v(identity_cube_v(true), move_r_v()), move_r_v()),
                move_r_v(),
            ),
            move_r_v(),
        ) == identity_cube_v(true),
{
    lemma_base_moves_wf(1);
    let m = move_r_v();
    lemma_apply_to_identity(m);
    let c1 = cube_apply_v(identity_cube_v(true), m);
    assert(c1 == cube_of_move_v(m));
    let c2 = cube_apply_v(c1, m);
    assert(c2.co =~= seq![0u8, 0u8, 0u8, 0u8, 0u8, 0u8, 0u8, 0u8]);
    assert(c2.cp =~= seq![7u8, 1u8, 2u8, 4u8, 3u8, 5u8, 6u8, 0u8]);
    assert(c2.eo =~= seq![0u8, 0u8, 0u8, 0u8, 0u8, 0u8, 0u8, 0u8, 0u8, 0u8, 0u8, 0u8]);
    assert(c2.ep =~= seq![0u8, 1u8, 2u8, 11u8, 7u8, 5u8, 6u8, 4u8, 8u8, 9u8, 10u8, 3u8]);
    let c3 = cube_apply_v(c2, m);
    assert(c3.co =~= seq![1u8, 0u8, 0u8, 2u8, 2u8, 0u8, 0u8, 1u8]);
    assert(c3.cp =~= seq![3u8, 1u8, 2u8, 7u8, 0u8, 5u8, 6u8, 4u8]);
    assert(c3.eo =~= seq![0u8, 0u8, 0u8, 1u8, 1u8, 0u8, 0u8, 1u8, 0u8, 0u8, 0u8, 1u8]);
    assert(c3.ep =~= seq![0u8, 1u8, 2u8, 7u8, 3u8, 5u8, 6u8, 11u8, 8u8, 9u8, 10u8, 4u8]);
    let c4 = cube_apply_v(c3, m);
    assert(c4.co =~= identity_cube_v(true).co);
    assert(c4.cp =~= identity_cube_v(true).cp);
    assert(c4.eo =~= identity_cube_v(true).eo);
    assert(c4.ep =~= identity_cube_v(true).ep);
    assert(c4 =~= identity_cube_v(true));
}

#[verifier::rlimit(60)]
proof fn lemma_order_four_f()
    ensures
        cube_apply_v(
            cube_apply_v(
                cube_apply_v(cube_apply_v(identity_cube_v(true), move_f_v()), move_f_v()),
                move_f_v(),
            ),
            move_f_v(),
        ) == identity_cube_v(true),
{
    lemma_base_moves_wf(2);
    let m = move_f_v();
    lemma_apply_to_identity(m);
    let c1 = cube_apply_v(identity_cube_v(true), m);
    assert(c1 == cube_of_move_v(m));
    let c2 = cube_apply_v(c1, m);
    assert(c2.co =~= seq![0u8, 0u8, 0u8, 0u8, 0u8, 0u8, 0u8, 0u8]);
    assert(c2.cp =~= seq![5u8, 4u8, 2u8, 3u8, 1u8, 0u8, 6u8, 7u8]);
    assert(c2.eo =~= seq![0u8, 0u8, 0u8, 0u8, 0u8, 0u8, 0u8, 0u8, 0u8, 0u8, 0u8, 0u8]);
    assert(c2.ep =~= seq![8u8, 1u8, 2u8, 3u8, 5u8, 4u8, 6u8, 7u8, 0u8, 9u8, 10u8, 11u8]);
    let c3 = cube_apply_v(c2, m);
    assert(c3.co =~= seq![2u8, 1u8, 0u8, 0u8, 1u8, 2u8, 0u8, 0u8]);
    assert(c3.cp =~= seq![4u8, 0u8, 2u8, 3u8, 5u8, 1u8, 6u8, 7u8]);
    assert(c3.eo =~= seq![0u8, 0u8, 0u8, 0u8, 0u8, 0u8, 0u8, 0u8, 0u8, 0u8, 0u8, 0u8]);
    assert(c3.ep =~= seq![4u8, 1u8, 2u8, 3u8, 8u8, 0u8, 6u8, 7u8, 5u8, 9u8, 10u8, 11u8]);
    let c4 = cube_apply_v(c3, m);
    assert(c4.co =~= identity_cube_v(true).co);
    assert(c4.cp =~= identity_cube_v(true).cp);
    assert(c4.eo =~= identity_cube_v(true).eo);
    assert(c4.ep =~= identity_cube_v(true).ep);
    assert(c4 =~= identity_cube_v(true));
}

#[verifier::rlimit(60)]
proof fn lemma_order_four_d()
    ensures
        cube_apply_v(
            cube_apply_v(
                cube_apply_v(cube_apply_v(identity_cube_v(true), move_d_v()), move_d_v()),
                move_d_v(),
            ),
            move_d_v(),
        ) == identity_cube_v(true),
{
    lemma_base_moves_wf(3);
    let m = move_d_v();
    lemma_apply_to_identity(m);
    let c1 = cube_apply_v(identity_cube_v(true), m);
    assert(c1 == cube_of_move_v(m));
    let c2 = cube_apply_v(c1, m);
    assert(c2.co =~= seq![0u8, 0u8, 0u8, 0u8, 0u8, 0u8, 0u8, 0u8]);
    assert(c2.cp =~= seq![0u8, 1u8, 2u8, 3u8, 6u8, 7u8, 4u8, 5u8]);
    assert(c2.eo =~= seq![0u8, 0u8, 0u8, 0u8, 0u8, 0u8, 0u8, 0u8, 0u8, 0u8, 0u8, 0u8]);
    assert(c2.ep =~= seq![0u8, 1u8, 2u8, 3u8, 4u8, 5u8, 6u8, 7u8, 10u8, 11u8, 8u8, 9u8]);
    let c3 = cube_apply_v(c2, m);
    assert(c3.co =~= seq![0u8, 0u8, 0u8, 0u8, 0u8, 0u8, 0u8, 0u8]);
    assert(c3.cp =~= seq![0u8, 1u8, 2u8, 3u8, 7u8, 4u8, 5u8, 6u8]);
    assert(c3.eo =~= seq![0u8, 0u8, 0u8, 0u8, 0u8, 0u8, 0u8, 0u8, 0u8, 0u8, 0u8, 0u8]);
    assert(c3.ep =~= seq![0u8, 1u8, 2u8, 3u8, 4u8, 5u8, 6u8, 7u8, 11u8, 8u8, 9u8, 10u8]);
    let c4 = cube_apply_v(c3, m);
    assert(c4.co =~= identity_cube_v(true).co);
    assert(c4.cp =~= identity_cube_v(true).cp);
    assert(c4.eo =~= identity_cube_v(true).eo);
    assert(c4.ep =~= identity_cube_v(true).ep);
    assert(c4 =~= identity_cube_v(true));
}

#[verifier::rlimit(60)]
proof fn lemma_order_four_l()
    ensures
        cube_apply_v(
            cube_apply_v(
                cube_apply_v(cube_apply_v(identity_cube_v(true), move_l_v()), move_l_v()),
                move_l_v(),
            ),
            move_l_v(),
        ) == identity_cube_v(true),
{
    lemma_base_moves_wf(4);
    let m = move_l_v();
    lemma_apply_to_identity(m);
    let c1 = cube_apply_v(identity_cube_v(true), m);
    assert(c1 == cube_of_move_v(m));
    let c2 = cube_apply_v(c1, m);
    assert(c2.co =~= seq![0u8, 0u8, 0u8, 0u8, 0u8, 0u8, 0u8, 0u8]);
    assert(c2.cp =~= seq![0u8, 6u8, 5u8, 3u8, 4u8, 2u8, 1u8, 7u8]);
    assert(c2.eo =~= seq![0u8, 0u8, 0u8, 0u8, 0u8, 0u8, 0u8, 0u8, 0u8, 0u8, 0u8, 0u8]);
    assert(c2.ep =~= seq![0u8, 9u8, 2u8, 3u8, 4u8, 6u8, 5u8, 7u8, 8u8, 1u8, 10u8, 11u8]);
    let c3 = cube_apply_v(c2, m);
    assert(c3.co =~= seq![0u8, 2u8, 1u8, 0u8, 0u8, 1u8, 2u8, 0u8]);
    assert(c3.cp =~= seq![0u8, 5u8, 1u8, 3u8, 4u8, 6u8, 2u8, 7u8]);
    assert(c3.eo =~= seq![0u8, 1u8, 0u8, 0u8, 0u8, 1u8, 1u8, 0u8, 0u8, 1u8, 0u8, 0u8]);
    assert(c3.ep =~= seq![0u8, 5u8, 2u8, 3u8, 4u8, 9u8, 1u8, 7u8, 8u8, 6u8, 10u8, 11u8]);
    let c4 = cube_apply_v(c3, m);
    assert(c4.co =~= identity_cube_v(true).co);
    assert(c4.cp =~= identity_cube_v(true).cp);
    assert(c4.eo =~= identity_cube_v(true).eo);
    assert(c4.ep =~= identity_cube_v(true).ep);
    assert(c4 =~= identity_cube_v(true));
}

#[verifier::rlimit(60)]
proof fn lemma_order_four_b()
    ensures
        cube_apply_v(
            cube_apply_v(
                cube_apply_v(cube_apply_v(identity_cube_v(true), move_b_v()), move_b_v()),
                move_b_v(),
            ),
            move_b_v(),
        ) == identity_cube_v(true),
{
    lemma_base_moves_wf(5);
    let m = move_b_v();
    lemma_apply_to_identity(m);
    let c1 = cube_apply_v(identity_cube_v(true), m);
    assert(c1 == cube_of_move_v(m));
    let c2 = cube_apply_v(c1, m);
    assert(c2.co =~= seq![0u8, 0u8, 0u8, 0u8, 0u8, 0u8, 0u8, 0u8]);
    assert(c2.cp =~= seq![0u8, 1u8, 7u8, 6u8, 4u8, 5u8, 3u8, 2u8]);
    assert(c2.eo =~= seq![0u8, 0u8, 0u8, 0u8, 0u8, 0u8, 0u8, 0u8, 0u8, 0u8, 0u8, 0u8]);
    assert(c2.ep =~= seq![0u8, 1u8, 10u8, 3u8, 4u8, 5u8, 7u8, 6u8, 8u8, 9u8, 2u8, 11u8]);
    let c3 = cube_apply_v(c2, m);
    assert(c3.co =~= seq![0u8, 0u8, 2u8, 1u8, 0u8, 0u8, 1u8, 2u8]);
    assert(c3.cp =~= seq![0u8, 1u8, 6u8, 2u8, 4u8, 5u8, 7u8, 3u8]);
    assert(c3.eo =~= seq![0u8, 0u8, 0u8, 0u8, 0u8, 0u8, 0u8, 0u8, 0u8, 0u8, 0u8, 0u8]);
    assert(c3.ep =~= seq![0u8, 1u8, 6u8, 3u8, 4u8, 5u8, 10u8, 2u8, 8u8, 9u8, 7u8, 11u8]);
    let c4 = cube_apply_v(c3, m);
    assert(c4.co =~= identity_cube_v(true).co);
    assert(c4.cp =~= identity_cube_v(true).cp);
    assert(c4.eo =~= identity_cube_v(true).eo);
    assert(c4.ep =~= identity_cube_v(true).ep);
    assert(c4 =~= identity_cube_v(true));
}


/// Applying a well-formed move preserves cube well-formedness.
pub proof fn lemma_cube_apply_wf(c: CubeV, m: MoveV)
    requires
        cube_wf_v(c),
        move_wf_v(m),
    ensures
        cube_wf_v(cube_apply_v(c, m)),
{
    crate::group::lemma_perm_compose_valid(c.cp, m.cp, 8);
    crate::cube::lemma_orient_step_valid(c.co, m.cp, m.co, 8, 3);
    if c.is_333 {
        crate::group::lemma_perm_compose_valid(c.ep, m.ep, 12);
        crate::cube::lemma_orient_step_valid(c.eo, m.ep, m.eo, 12, 2);
    }
}

/// The identity cube is well formed.
pub proof fn lemma_identity_cube_wf(full: bool)
    ensures
        cube_wf_v(identity_cube_v(full)),
{
    assert(is_perm(crate::group::identity_seq(8), 8));
    assert(is_perm(crate::group::identity_seq(12), 12));
}

/// Move application is an action: applying `m1` and then `m2` reaches
/// the same state as applying their composite in one step.
pub proof fn lemma_cube_apply_then(c: CubeV, m1: MoveV, m2: MoveV)
    requires
        cube_wf_v(c),
        move_wf_v(m1),
        move_wf_v(m2),
    ensures
        cube_apply_v(cube_apply_v(c, m1), m2) == cube_apply_v(c, move_then(m1, m2)),
{
    let lhs = cube_apply_v(cube_apply_v(c, m1), m2);
    let rhs = cube_apply_v(c, move_then(m1, m2));
    assert forall|i: int| 0 <= i < 8 implies lhs.cp[i] == rhs.cp[i] by {
        assert((m2.cp[i] as int) < 8);
    }
    assert forall|i: int| 0 <= i < 8 implies lhs.co[i] == rhs.co[i] by {
        let j = m2.cp[i] as int;
        let a = c.co[m1.cp[j] as int] as int;
        let b = m1.co[j] as int;
        let e = m2.co[i] as int;
        vstd::arithmetic::div_mod::lemma_add_mod_noop(a + b, e, 3);
        vstd::arithmetic::div_mod::lemma_add_mod_noop_right(a, b + e, 3);
        vstd::arithmetic::div_mod::lemma_small_mod(e as nat, 3);
        assert(((a + b) % 3 + e) % 3 == (a + b + e) % 3);
        assert((a + (b + e) % 3) % 3 == (a + b + e) % 3);
    }
    assert(lhs.cp =~= rhs.cp);
    assert(lhs.co =~= rhs.co);
    if c.is_333 {
        assert forall|i: int| 0 <= i < 12 implies lhs.ep[i] == rhs.ep[i] by {
            assert((m2.ep[i] as int) < 12);
        }
        assert forall|i: int| 0 <= i < 12 implies lhs.eo[i] == rhs.eo[i] by {
            let j = m2.ep[i] as int;
            let a = c.eo[m1.ep[j] as int] as int;
            let b = m1.eo[j] as int;
            let e = m2.eo[i] as int;
            vstd::arithmetic::div_mod::lemma_add_mod_noop(a + b, e, 2);
            vstd::arithmetic::div_mod::lemma_add_mod_noop_right(a, b + e, 2);
            vstd::arithmetic::div_mod::lemma_small_mod(e as nat, 2);
            assert(((a + b) % 2 + e) % 2 == (a + b + e) % 2);
            assert((a + (b + e) % 2) % 2 == (a + b + e) % 2);
        }
        assert(lhs.ep =~= rhs.ep);
        assert(lhs.eo =~= rhs.eo);
    } else {
        assert(lhs.ep =~= rhs.ep);
        assert(lhs.eo =~= rhs.eo);
    }
    assert(lhs =~= rhs);
}

/// Applying a base quarter turn and then its derived inverse (the turn
/// composed with itself twice more) returns the identity cube.
pub proof fn lemma_base_move_inverse(m: MoveV)
    requires
        is_base_move_v(m),
    ensures
        cube_apply_v(
            cube_apply_v(identity_cube_v(true), m),
            move_then(move_then(m, m), m),
        ) == identity_cube_v(true),
{
    let k = choose|k: int| 0 <= k < 6 && m == base_move_v(k);
    lemma_base_moves_wf(k);
    crate::moves::lemma_move_then_wf(m, m);
    crate::moves::lemma_move_then_wf(move_then(m, m), m);
    lemma_identity_cube_wf(true);
    lemma_cube_apply_wf(identity_cube_v(true), m);
    let c1 = cube_apply_v(identity_cube_v(true), m);
    lemma_cube_apply_then(c1, move_then(m, m), m);
    lemma_cube_apply_then(c1, m, m);
    lemma_base_move_order_four(m);
}

/// The sum of the entries of `s` at positions `k` and later.
pub open spec fn sum_from(s: Seq<u8>, k: int) -> int
    decreases s.len() - k,
{
    if k < 0 || k >= s.len() {
        0
    } else {
        s[k] + sum_from(s, k + 1)
    }
}

/// The sum of all entries of `s`.
pub open spec fn seq_sum(s: Seq<u8>) -> int {
    sum_from(s, 0)
}

/// The sum of the entries of `o` selected by the entries of `p` at
/// positions `k` and later.
pub open spec fn sel_sum_from(o: Seq<u8>, p: Seq<u8>, k: int) -> int
    decreases p.len() - k,
{
    if k < 0 || k >= p.len() {
        0
    } else {
        o[p[k] as int] + sel_sum_from(o, p, k + 1)
    }
}

/// Some entry of `p` at position `k` or later equals `x`.
spec fn hit_from(p: Seq<u8>, k: int, x: int) -> bool {
    exists|i: int| k <= i < p.len() && p[i] == x as u8
}

/// The sum of the entries of `o` at positions `x` and later that are
/// selected by some entry of `p` at position `k` or later.
spec fn masked_from(o: Seq<u8>, p: Seq<u8>, k: int, x: int) -> int
    decreases o.len() - x,
{
    if x < 0 || x >= o.len() {
        0
    } else {
        (if hit_from(p, k, x) {
            o[x] as int
        } else {
            0
        }) + masked_from(o, p, k, x + 1)
    }
}

/// Dropping entry `k` from the selection removes exactly its summand.
proof fn lemma_masked_drop(o: Seq<u8>, p: Seq<u8>, k: int, x: int)
    requires
        o.len() <= 256,
        0 <= k < p.len(),
        (p[k] as int) < o.len(),
        forall|i: int| k < i < p.len() ==> p[i] != p[k],
        0 <= x,
    ensures
        masked_from(o, p, k, x) == masked_from(o, p, k + 1, x) + (if x <= p[k] {
            o[p[k] as int] as int
        } else {
            0int
        }),
    decreases o.len() - x,
{
    if x >= o.len() {
    } else {
        lemma_masked_drop(o, p, k, x + 1);
        if x == p[k] as int {
            assert(hit_from(p, k, x));
            assert(!hit_from(p, k + 1, x));
        } else {
            if hit_from(p, k, x) {
                let i = choose|i: int| k <= i < p.len() && p[i] == x as u8;
                assert(i > k);
                assert(hit_from(p, k + 1, x));
            }
        }
    }
}

/// No entry at or past the end of `p` selects anything.
proof fn lemma_masked_empty(o: Seq<u8>, p: Seq<u8>, x: int)
    ensures
        masked_from(o, p, p.len() as int, x) == 0,
    decreases o.len() - x,
{
    if !(x < 0 || x >= o.len()) {
        lemma_masked_empty(o, p, x + 1);
    }
}

/// A selection sum equals the corresponding masked sum.
proof fn lemma_sel_masked(o: Seq<u8>, p: Seq<u8>, k: int)
    requires
        o.len() <= 256,
        0 <= k <= p.len(),
        forall|i: int| k <= i < p.len() ==> (p[i] as int) < o.len(),
        forall|i: int, j: int| k <= i < j < p.len() ==> p[i] != p[j],
    ensures
        sel_sum_from(o, p, k) == masked_from(o, p, k, 0),
    decreases p.len() - k,
{
    if k == p.len() {
        lemma_masked_empty(o, p, 0);
    } else {
        lemma_sel_masked(o, p, k + 1);
        lemma_masked_drop(o, p, k, 0);
    }
}

/// When `p` is a bijection, every position of `o` is selected.
proof fn lemma_masked_full(o: Seq<u8>, p: Seq<u8>, n: nat, x: int)
    requires
        is_perm(p, n),
        o.len() == n,
        0 <= x,
    ensures
        masked_from(o, p, 0, x) == sum_from(o, x),
    decreases o.len() - x,
{
    if x < o.len() {
        lemma_masked_full(o, p, n, x + 1);
        crate::group::lemma_perm_attains(p, n, x as u8);
        assert(hit_from(p, 0, x));
    }
}

/// Summing the entries of `o` in the order given by a bijection gives
/// the same total as summing them in place.
pub proof fn lemma_sum_permuted(o: Seq<u8>, p: Seq<u8>, n: nat)
    requires
        is_perm(p, n),
        o.len() == n,
    ensures
        sel_sum_from(o, p, 0) == seq_sum(o),
{
    crate::group::lemma_perm_bound(p, n);
    lemma_sel_masked(o, p, 0);
    lemma_masked_full(o, p, n, 0);
}

/// The sum of an orientation step is congruent to the sum of the
/// selected entries plus the sum of the increments.
proof fn lemma_orient_step_sum(o: Seq<u8>, p: Seq<u8>, d: Seq<u8>, n: nat, r: nat, k: int)
    requires
        is_perm(p, n),
        o.len() == n,
        d.len() == n,
        1 <= r <= 256,
        0 <= k,
    ensures
        sum_from(orient_step(o, p, d, r), k) % (r as int) == (sel_sum_from(o, p, k) + sum_from(
            d,
            k,
        )) % (r as int),
    decreases n - k,
{
    let st = orient_step(o, p, d, r);
    let m = r as int;
    if k >= n {
    } else {
        lemma_orient_step_sum(o, p, d, n, r, k + 1);
        let x = o[p[k] as int] + d[k];
        let s2 = sum_from(st, k + 1);
        let rest = sel_sum_from(o, p, k + 1) + sum_from(d, k + 1);
        assert(st[k] == (x % m) as u8);
        vstd::arithmetic::div_mod::lemma_mod_division_less_than_divisor(x, m);
        // fold the head modulus into the sum
        vstd::arithmetic::div_mod::lemma_add_mod_noop(x, s2, m);
        vstd::arithmetic::div_mod::lemma_add_mod_noop((x % m), s2, m);
        vstd::arithmetic::div_mod::lemma_mod_twice(x, m);
        assert((x % m + s2) % m == (x + s2) % m);
        // replace the tail by its congruent value
        vstd::arithmetic::div_mod::lemma_add_mod_noop_right(x, s2, m);
        vstd::arithmetic::div_mod::lemma_add_mod_noop_right(x, rest, m);
        assert((x + s2) % m == (x + rest) % m);
    }
}

/// Orientation-sum parity is preserved by applying a move: if the state
/// sum and the move's increment sum are both divisible by the radix,
/// so is the sum after the step.  This is the cube parity law for one
/// application.
pub proof fn lemma_orient_step_parity(o: Seq<u8>, p: Seq<u8>, d: Seq<u8>, n: nat, r: nat)
    requires
        is_perm(p, n),
        o.len() == n,
        d.len() == n,
        1 <= r <= 256,
        seq_sum(o) % (r as int) == 0,
        seq_sum(d) % (r as int) == 0,
    ensures
        seq_sum(orient_step(o, p, d, r)) % (r as int) == 0,
{
    let m = r as int;
    lemma_orient_step_sum(o, p, d, n, r, 0);
    lemma_sum_permuted(o, p, n);
    vstd::arithmetic::div_mod::lemma_add_mod_noop(seq_sum(o), seq_sum(d), m);
    vstd::arithmetic::div_mod::lemma_small_mod(0, r);
}

/// The move that changes nothing.
pub open spec fn identity_move_v() -> MoveV {
    MoveV {
        co: crate::group::zero_seq(8),
        cp: crate::group::identity_seq(8),
        eo: crate::group::zero_seq(12),
        ep: crate::group::identity_seq(12),
    }
}

/// Applying the identity move changes nothing.
pub proof fn lemma_apply_identity_move(c: CubeV)
    requires
        cube_wf_v(c),
    ensures
        cube_apply_v(c, identity_move_v()) == c,
{
    let m = identity_move_v();
    assert(is_perm(m.cp, 8));
    assert(is_perm(m.ep, 12));
    let r = cube_apply_v(c, m);
    assert forall|i: int| 0 <= i < 8 implies r.co[i] == c.co[i] by {
        vstd::arithmetic::div_mod::lemma_small_mod(c.co[i] as nat, 3);
    }
    assert(r.co =~= c.co);
    assert(r.cp =~= c.cp);
    if c.is_333 {
        assert forall|i: int| 0 <= i < 12 implies r.eo[i] == c.eo[i] by {
            vstd::arithmetic::div_mod::lemma_small_mod(c.eo[i] as nat, 2);
        }
        assert(r.eo =~= c.eo);
        assert(r.ep =~= c.ep);
    } else {
        assert(r.eo =~= c.eo);
        assert(r.ep =~= c.ep);
    }
    assert(r =~= c);
}

/// Applying a move to a move frozen as a state is the same as freezing
/// the composite move.
proof fn lemma_cube_of_move_apply(a: MoveV, b: MoveV)
    ensures
        cube_apply_v(cube_of_move_v(a), b) == cube_of_move_v(move_then(a, b)),
{
    assert(cube_apply_v(cube_of_move_v(a), b) =~= cube_of_move_v(move_then(a, b)));
}

/// Move composition is associative.
pub proof fn lemma_move_then_assoc(a: MoveV, b: MoveV, c: MoveV)
    requires
        move_wf_v(a),
        move_wf_v(b),
        move_wf_v(c),
    ensures
        move_then(move_then(a, b), c) == move_then(a, move_then(b, c)),
{
    assert(cube_wf_v(cube_of_move_v(a)));
    lemma_cube_apply_then(cube_of_move_v(a), b, c);
    lemma_cube_of_move_apply(a, b);
    lemma_cube_of_move_apply(move_then(a, b), c);
    lemma_cube_of_move_apply(a, move_then(b, c));
    let lhs = move_then(move_then(a, b), c);
    let rhs = move_then(a, move_then(b, c));
    assert(cube_of_move_v(lhs) == cube_of_move_v(rhs));
    assert(lhs =~= rhs);
}

/// The fourth power of a base quarter turn is the identity move.
pub proof fn lemma_base_move_fourth_identity(m: MoveV)
    requires
        is_base_move_v(m),
    ensures
        move_then(move_then(move_then(m, m), m), m) == identity_move_v(),
{
    let k = choose|k: int| 0 <= k < 6 && m == base_move_v(k);
    lemma_base_moves_wf(k);
    crate::moves::lemma_move_then_wf(m, m);
    crate::moves::lemma_move_then_wf(move_then(m, m), m);
    crate::moves::lemma_move_then_wf(move_then(move_then(m, m), m), m);
    lemma_identity_cube_wf(true);
    let id = identity_cube_v(true);
    lemma_cube_apply_then(id, m, m);
    lemma_cube_apply_then(id, move_then(m, m), m);
    lemma_cube_apply_then(id, move_then(move_then(m, m), m), m);
    lemma_base_move_order_four(m);
    let m4 = move_then(move_then(move_then(m, m), m), m);
    lemma_apply_to_identity(m4);
    assert(cube_of_move_v(m4) == id);
    assert(m4 =~= identity_move_v());
}

/// Applying a base quarter turn and then its derived inverse restores
/// any well-formed state, not only the identity cube.
pub proof fn lemma_move_inverse_cancels(c: CubeV, m: MoveV)
    requires
        cube_wf_v(c),
        is_base_move_v(m),
    ensures
        cube_apply_v(cube_apply_v(c, m), move_then(move_then(m, m), m)) == c,
{
    let k = choose|k: int| 0 <= k < 6 && m == base_move_v(k);
    lemma_base_moves_wf(k);
    let minv = move_then(move_then(m, m), m);
    crate::moves::lemma_move_then_wf(m, m);
    crate::moves::lemma_move_then_wf(move_then(m, m), m);
    lemma_cube_apply_then(c, m, minv);
    lemma_move_then_assoc(m, m, m);
    lemma_move_then_assoc(m, move_then(m, m), m);
    assert(move_then(m, minv) == move_then(move_then(m, move_then(m, m)), m));
    lemma_base_move_fourth_identity(m);
    lemma_apply_identity_move(c);
}

/// Composing a base move's tables with its derived inverse move's
/// tables yields the identity mapping on every coordinate.
pub proof fn lemma_table_inverse(
    t1: crate::table::MoveTable,
    t2: crate::table::MoveTable,
    k: int,
    co: Seq<u8>,
    cp: Seq<u8>,
    eo: Seq<u8>,
)
    requires
        0 <= k < 6,
        crate::table::move_table_ok(t1, nth_move_v(k)),
        crate::table::move_table_ok(t2, nth_move_v(k + 12)),
        is_orient(co, 8, 3),
        is_perm(cp, 8),
        is_orient(eo, 12, 2),
    ensures
        0 <= crate::codec::orient_rank(co, 3) < 6561,
        0 <= crate::codec::perm_rank(cp) < 40320,
        0 <= crate::codec::orient_rank(eo, 2) < 4096,
        t2.co_table@[t1.co_table@[crate::codec::orient_rank(co, 3)] as int]
            == crate::codec::orient_rank(co, 3),
        t2.cp_table@[t1.cp_table@[crate::codec::perm_rank(cp)] as int]
            == crate::codec::perm_rank(cp),
        t2.eo_table@[t1.eo_table@[crate::codec::orient_rank(eo, 2)] as int]
            == crate::codec::orient_rank(eo, 2),
{
    let m = base_move_v(k);
    let minv = nth_move_v(k + 12);
    lemma_base_moves_wf(k);
    crate::moves::lemma_move_then_wf(m, m);
    crate::moves::lemma_move_then_wf(move_then(m, m), m);
    crate::table::lemma_table_matches_direct(t1, m, co, cp, eo);
    let c = CubeV {
        co,
        cp,
        eo,
        ep: crate::group::identity_seq(12),
        is_333: true,
    };
    assert(is_perm(crate::group::identity_seq(12), 12));
    assert(cube_wf_v(c));
    assert(is_base_move_v(m));
    lemma_move_inverse_cancels(c, m);
    lemma_cube_apply_wf(c, m);
    let c1 = cube_apply_v(c, m);
    crate::table::lemma_table_matches_direct(t2, minv, c1.co, c1.cp, c1.eo);
    assert(cube_apply_v(c1, minv).co == co);
    assert(cube_apply_v(c1, minv).cp == cp);
    assert(cube_apply_v(c1, minv).eo == eo);
}

/// The all-zero vector sums to zero.
proof fn lemma_sum_zero(n: nat, k: int)
    requires
        0 <= k,
    ensures
        sum_from(crate::group::zero_seq(n), k) == 0,
    decreases n - k,
{
    if k < n {
        lemma_sum_zero(n, k + 1);
    }
}

/// Every one of the eighteen moves is well formed, and its corner
/// increments sum to a multiple of 3 and its edge increments to a
/// multiple of 2.
pub proof fn lemma_nth_move_parity(k: int)
    requires
        0 <= k < 18,
    ensures
        move_wf_v(nth_move_v(k)),
        seq_sum(nth_move_v(k).co) % 3 == 0,
        seq_sum(nth_move_v(k).eo) % 2 == 0,
{
    if k < 6 {
        lemma_base_move_parity(k);
    } else if k < 12 {
        let b = base_move_v(k - 6);
        lemma_base_move_parity(k - 6);
        crate::moves::lemma_move_then_wf(b, b);
        lemma_orient_step_parity(b.co, b.cp, b.co, 8, 3);
        lemma_orient_step_parity(b.eo, b.ep, b.eo, 12, 2);
    } else {
        let b = base_move_v(k - 12);
        let bb = move_then(b, b);
        lemma_base_move_parity(k - 12);
        crate::moves::lemma_move_then_wf(b, b);
        crate::moves::lemma_move_then_wf(bb, b);
        lemma_orient_step_parity(b.co, b.cp, b.co, 8, 3);
        lemma_orient_step_parity(b.eo, b.ep, b.eo, 12, 2);
        lemma_orient_step_parity(bb.co, b.cp, b.co, 8, 3);
        lemma_orient_step_parity(bb.eo, b.ep, b.eo, 12, 2);
    }
}

/// The six base quarter turns carry balanced orientation increments.
proof fn lemma_base_move_parity(k: int)
    requires
        0 <= k < 6,
    ensures
        move_wf_v(base_move_v(k)),
        seq_sum(base_move_v(k).co) % 3 == 0,
        seq_sum(base_move_v(k).eo) % 2 == 0,
{
    lemma_base_moves_wf(k);
    reveal_with_fuel(sum_from, 14);
    if k == 0 {
        assert(seq_sum(move_u_v().co) == 0);
        assert(seq_sum(move_u_v().eo) == 0);
    } else if k == 1 {
        assert(seq_sum(move_r_v().co) == 6);
        assert(seq_sum(move_r_v().eo) == 4);
    } else if k == 2 {
        assert(seq_sum(move_f_v().co) == 6);
        assert(seq_sum(move_f_v().eo) == 0);
    } else if k == 3 {
        assert(seq_sum(move_d_v().co) == 0);
        assert(seq_sum(move_d_v().eo) == 0);
    } else if k == 4 {
        assert(seq_sum(move_l_v().co) == 6);
        assert(seq_sum(move_l_v().eo) == 4);
    } else {
        assert(seq_sum(move_b_v().co) == 6);
        assert(seq_sum(move_b_v().eo) == 0);
    }
}

/// The state reached from `c` by the sequence of move indices `ks`.
pub open spec fn cube_apply_indices(c: CubeV, ks: Seq<int>) -> CubeV
    decreases ks.len(),
{
    if ks.len() == 0 {
        c
    } else {
        cube_apply_indices(cube_apply_v(c, nth_move_v(ks[0])), ks.subrange(1, ks.len() as int))
    }
}

/// The cube parity law: corner-orientation sum modulo 3 and
/// edge-orientation sum modulo 2 are preserved by every sequence of
/// legal moves.
pub proof fn lemma_parity_invariant(c: CubeV, ks: Seq<int>)
    requires
        cube_wf_v(c),
        c.is_333,
        seq_sum(c.co) % 3 == 0,
        seq_sum(c.eo) % 2 == 0,
        forall|j: int| 0 <= j < ks.len() ==> 0 <= #[trigger] ks[j] < 18,
    ensures
        cube_wf_v(cube_apply_indices(c, ks)),
        cube_apply_indices(c, ks).is_333,
        seq_sum(cube_apply_indices(c, ks).co) % 3 == 0,
        seq_sum(cube_apply_indices(c, ks).eo) % 2 == 0,
    decreases ks.len(),
{
    if ks.len() > 0 {
        let m = nth_move_v(ks[0]);
        lemma_nth_move_parity(ks[0]);
        lemma_cube_apply_wf(c, m);
        lemma_orient_step_parity(c.co, m.cp, m.co, 8, 3);
        lemma_orient_step_parity(c.eo, m.ep, m.eo, 12, 2);
        let rest = ks.subrange(1, ks.len() as int);
        assert(forall|j: int| 0 <= j < rest.len() ==> 0 <= #[trigger] rest[j] < 18);
        lemma_parity_invariant(cube_apply_v(c, m), rest);
    }
}

/// The parity law anchored at the identity cube: every state reachable
/// by legal moves from the solved cube has balanced orientation sums.
pub proof fn lemma_parity_from_identity(ks: Seq<int>)
    requires
        forall|j: int| 0 <= j < ks.len() ==> 0 <= #[trigger] ks[j] < 18,
    ensures
        seq_sum(cube_apply_indices(identity_cube_v(true), ks).co) % 3 == 0,
        seq_sum(cube_apply_indices(identity_cube_v(true), ks).eo) % 2 == 0,
{
    lemma_identity_cube_wf(true);
    lemma_sum_zero(8, 0);
    lemma_sum_zero(12, 0);
    vstd::arithmetic::div_mod::lemma_small_mod(0, 3);
    vstd::arithmetic::div_mod::lemma_small_mod(0, 2);
    lemma_parity_invariant(identity_cube_v(true), ks);
}

/// The parity law holds of table-derived transitions too: a
/// corner-orientation coordinate with balanced sum steps, through the
/// table, to a coordinate whose vector again has balanced sum.
pub proof fn lemma_co_table_parity(t: Seq<u64>, m: MoveV, s: Seq<u8>, s2: Seq<u8>)
    requires
        crate::table::co_table_ok(t, m),
        move_wf_v(m),
        seq_sum(m.co) % 3 == 0,
        is_orient(s, 8, 3),
        seq_sum(s) % 3 == 0,
        is_orient(s2, 8, 3),
        crate::codec::orient_rank(s2, 3) == t[crate::codec::orient_rank(s, 3)],
    ensures
        seq_sum(s2) % 3 == 0,
{
    crate::cube::lemma_orient_step_valid(s, m.cp, m.co, 8, 3);
    crate::codec::lemma_orient_rank_injective(s2, orient_step(s, m.cp, m.co, 3), 8, 3);
    lemma_orient_step_parity(s, m.cp, m.co, 8, 3);
}

/// The edge-orientation counterpart over the table.
pub proof fn lemma_eo_table_parity(t: Seq<u64>, m: MoveV, s: Seq<u8>, s2: Seq<u8>)
    requires
        crate::table::eo_table_ok(t, m),
        move_wf_v(m),
        seq_sum(m.eo) % 2 == 0,
        is_orient(s, 12, 2),
        seq_sum(s) % 2 == 0,
        is_orient(s2, 12, 2),
        crate::codec::orient_rank(s2, 2) == t[crate::codec::orient_rank(s, 2)],
    ensures
        seq_sum(s2) % 2 == 0,
{
    crate::cube::lemma_orient_step_valid(s, m.ep, m.eo, 12, 2);
    crate::codec::lemma_orient_rank_injective(s2, orient_step(s, m.ep, m.eo, 2), 12, 2);
    lemma_orient_step_parity(s, m.ep, m.eo, 12, 2);
}

} // verus!
