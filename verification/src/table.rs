//! Transition tables: for one move and one coordinate family, the total
//! mapping from every coordinate to the coordinate reached by applying
//! that move.  The three small families (corner orientation, corner
//! permutation, edge orientation) are materialized as dense
//! index-addressed tables; the edge-permutation family, whose domain of
//! 12! values is too large to hold eighteen times over, is served by an
//! on-demand transition function with the same contract.

use crate::codec::fact;
use crate::codec::lemma_fact_8;
use crate::codec::lemma_fact_12;
use crate::codec::lemma_pow_2_12;
use crate::codec::lemma_pow_3_8;
use crate::codec::lemma_orient_rank_from_bounds;
use crate::codec::lemma_orient_rank_injective;
use crate::codec::lemma_perm_rank_from_bounds;
use crate::codec::lemma_perm_rank_injective;
use crate::codec::orient_rank;
use crate::codec::perm_rank;
use crate::cube::copy_vec;
use crate::cube::move_wf_v;
use crate::cube::orient_step;
use crate::cube::CubeSlow;
use crate::cube::Move;
use crate::cube::MoveV;
use crate::group::is_orient;
use crate::group::is_perm;
use crate::group::perm_compose;
use crate::group::Orientation;
use crate::group::Permutation;
use crate::moves::all_moves;
use crate::moves::nth_move_v;
use vstd::arithmetic::power::pow;
use vstd::prelude::*;

verus! {

/// A dense corner-orientation table for move `m`: entry `i` is the
/// coordinate reached from the state of coordinate `i`.
pub open spec fn co_table_ok(t: Seq<u64>, m: MoveV) -> bool {
    &&& t.len() == 6561
    &&& forall|i: int| 0 <= i < t.len() ==> (#[trigger] t[i]) < 6561
    &&& forall|s: Seq<u8>| #[trigger] is_orient(s, 8, 3) ==> t[orient_rank(s, 3)] == orient_rank(
        orient_step(s, m.cp, m.co, 3),
        3,
    )
}

/// A dense corner-permutation table for move `m`.
pub open spec fn cp_table_ok(t: Seq<u64>, m: MoveV) -> bool {
    &&& t.len() == 40320
    &&& forall|i: int| 0 <= i < t.len() ==> (#[trigger] t[i]) < 40320
    &&& forall|s: Seq<u8>| #[trigger] is_perm(s, 8) ==> t[perm_rank(s)] == perm_rank(
        perm_compose(s, m.cp),
    )
}

/// A dense edge-orientation table for move `m`.
pub open spec fn eo_table_ok(t: Seq<u64>, m: MoveV) -> bool {
    &&& t.len() == 4096
    &&& forall|i: int| 0 <= i < t.len() ==> (#[trigger] t[i]) < 4096
    &&& forall|s: Seq<u8>| #[trigger] is_orient(s, 12, 2) ==> t[orient_rank(s, 2)] == orient_rank(
        orient_step(s, m.ep, m.eo, 2),
        2,
    )
}

/// Dense transition tables for one move over the three small coordinate
/// families; `table[i]` is the coordinate after applying the move.
pub struct MoveTable {
    pub co_table: Vec<u64>,
    pub cp_table: Vec<u64>,
    pub eo_table: Vec<u64>,
}

/// All three tables agree with direct application of move `m`.
pub open spec fn move_table_ok(t: MoveTable, m: MoveV) -> bool {
    &&& co_table_ok(t.co_table@, m)
    &&& cp_table_ok(t.cp_table@, m)
    &&& eo_table_ok(t.eo_table@, m)
}

fn build_co_table(m: &Move) -> (t: Vec<u64>)
    requires
        move_wf_v(m@),
    ensures
        co_table_ok(t@, m@),
{
    proof {
        lemma_pow_3_8();
    }
    let mut t: Vec<u64> = Vec::new();
    let mut i: u64 = 0;
    while i < 6561
        invariant
            i <= 6561,
            move_wf_v(m@),
            t@.len() == i,
            pow(3, 8) == 6561,
            forall|j: int| 0 <= j < i ==> (#[trigger] t@[j]) < 6561,
            forall|s: Seq<u8>| #[trigger] is_orient(s, 8, 3) && 0 <= orient_rank(s, 3) < i
                ==> t@[orient_rank(s, 3)] == orient_rank(orient_step(s, m@.cp, m@.co, 3), 3),
        decreases 6561 - i,
    {
        let o = Orientation::from_int(i, 8, 3);
        let ghost src = o.ov@;
        let cube = CubeSlow::from_params(Some(o.ov), None, None, None, true);
        let stepped = cube.apply_move(m);
        let res: u64 = Orientation::new(8, 3, stepped.co).to_int();
        proof {
            assert(stepped@.co == orient_step(src, m@.cp, m@.co, 3));
            lemma_orient_rank_from_bounds(stepped@.co, 3, 0);
            assert(res < 6561);
        }
        t.push(res);
        proof {
            assert forall|s: Seq<u8>| #[trigger] is_orient(s, 8, 3) && 0 <= orient_rank(s, 3)
                < i + 1 implies t@[orient_rank(s, 3)] == orient_rank(
                orient_step(s, m@.cp, m@.co, 3),
                3,
            ) by {
                lemma_orient_rank_from_bounds(s, 3, 0);
                if orient_rank(s, 3) == i {
                    lemma_orient_rank_injective(s, src, 8, 3);
                }
            }
        }
        i = i + 1;
    }
    proof {
        assert forall|s: Seq<u8>| #[trigger] is_orient(s, 8, 3) implies t@[orient_rank(s, 3)]
            == orient_rank(orient_step(s, m@.cp, m@.co, 3), 3) by {
            lemma_orient_rank_from_bounds(s, 3, 0);
        }
    }
    t
}

fn build_cp_table(m: &Move) -> (t: Vec<u64>)
    requires
        move_wf_v(m@),
    ensures
        cp_table_ok(t@, m@),
{
    proof {
        lemma_fact_8();
    }
    let mut t: Vec<u64> = Vec::new();
    let mut i: u64 = 0;
    while i < 40320
        invariant
            i <= 40320,
            move_wf_v(m@),
            t@.len() == i,
            fact(8) == 40320,
            forall|j: int| 0 <= j < i ==> (#[trigger] t@[j]) < 40320,
            forall|s: Seq<u8>| #[trigger] is_perm(s, 8) && 0 <= perm_rank(s) < i
                ==> t@[perm_rank(s)] == perm_rank(perm_compose(s, m@.cp)),
        decreases 40320 - i,
    {
        let p = Permutation::from_int(i, 8);
        let ghost src = p.pv@;
        let cube = CubeSlow::from_params(None, Some(p.pv), None, None, true);
        let stepped = cube.apply_move(m);
        let res: u64 = Permutation::new(8, stepped.cp).to_int();
        proof {
            assert(stepped@.cp == perm_compose(src, m@.cp));
            lemma_perm_rank_from_bounds(stepped@.cp, 0);
            assert(res < 40320);
        }
        t.push(res);
        proof {
            assert forall|s: Seq<u8>| #[trigger] is_perm(s, 8) && 0 <= perm_rank(s) < i
                + 1 implies t@[perm_rank(s)] == perm_rank(perm_compose(s, m@.cp)) by {
                lemma_perm_rank_from_bounds(s, 0);
                if perm_rank(s) == i {
                    lemma_perm_rank_injective(s, src, 8);
                }
            }
        }
        i = i + 1;
    }
    proof {
        assert forall|s: Seq<u8>| #[trigger] is_perm(s, 8) implies t@[perm_rank(s)] == perm_rank(
            perm_compose(s, m@.cp),
        ) by {
            lemma_perm_rank_from_bounds(s, 0);
        }
    }
    t
}

fn build_eo_table(m: &Move) -> (t: Vec<u64>)
    requires
        move_wf_v(m@),
    ensures
        eo_table_ok(t@, m@),
{
    proof {
        lemma_pow_2_12();
    }
    let mut t: Vec<u64> = Vec::new();
    let mut i: u64 = 0;
    while i < 4096
        invariant
            i <= 4096,
            move_wf_v(m@),
            t@.len() == i,
            pow(2, 12) == 4096,
            forall|j: int| 0 <= j < i ==> (#[trigger] t@[j]) < 4096,
            forall|s: Seq<u8>| #[trigger] is_orient(s, 12, 2) && 0 <= orient_rank(s, 2) < i
                ==> t@[orient_rank(s, 2)] == orient_rank(orient_step(s, m@.ep, m@.eo, 2), 2),
        decreases 4096 - i,
    {
        let o = Orientation::from_int(i, 12, 2);
        let ghost src = o.ov@;
        let cube = CubeSlow::from_params(None, None, Some(o.ov), None, true);
        let stepped = cube.apply_move(m);
        let eo_vec: Vec<u8> = match stepped.eo {
            Some(v) => v,
            None => Vec::new(),
        };
        let res: u64 = Orientation::new(12, 2, eo_vec).to_int();
        proof {
            assert(stepped@.eo == orient_step(src, m@.ep, m@.eo, 2));
            lemma_orient_rank_from_bounds(stepped@.eo, 2, 0);
            assert(res < 4096);
        }
        t.push(res);
        proof {
            assert forall|s: Seq<u8>| #[trigger] is_orient(s, 12, 2) && 0 <= orient_rank(s, 2)
                < i + 1 implies t@[orient_rank(s, 2)] == orient_rank(
                orient_step(s, m@.ep, m@.eo, 2),
                2,
            ) by {
                lemma_orient_rank_from_bounds(s, 2, 0);
                if orient_rank(s, 2) == i {
                    lemma_orient_rank_injective(s, src, 12, 2);
                }
            }
        }
        i = i + 1;
    }
    proof {
        assert forall|s: Seq<u8>| #[trigger] is_orient(s, 12, 2) implies t@[orient_rank(s, 2)]
            == orient_rank(orient_step(s, m@.ep, m@.eo, 2), 2) by {
            lemma_orient_rank_from_bounds(s, 2, 0);
        }
    }
    t
}

impl MoveTable {
    /// Enumerate every coordinate of the three small families, apply the
    /// move to the reconstructed state, re-rank, and record the result.
    pub fn new(m: &Move) -> (t: MoveTable)
        requires
            move_wf_v(m@),
        ensures
            move_table_ok(t, m@),
    {
        MoveTable {
            co_table: build_co_table(m),
            cp_table: build_cp_table(m),
            eo_table: build_eo_table(m),
        }
    }
}

/// The edge-permutation transition for move `m`, computed on demand:
/// unrank, apply, re-rank.  Same contract as a dense table entry, with
/// none of the 12!-sized storage.
pub fn ep_transition(m: &Move, coord: u64) -> (r: u64)
    requires
        move_wf_v(m@),
        coord < fact(12),
    ensures
        r < fact(12),
        forall|s: Seq<u8>| #[trigger] is_perm(s, 12) && perm_rank(s) == coord ==> r == perm_rank(
            perm_compose(s, m@.ep),
        ),
{
    proof {
        lemma_fact_12();
        crate::codec::lemma_fact_mono(12, 20);
        crate::codec::lemma_fact_20();
    }
    let p = Permutation::from_int(coord, 12);
    let ghost src = p.pv@;
    let mep = Permutation::new(12, copy_vec(&m.ep));
    let stepped = p.compose(&mep);
    let r: u64 = stepped.to_int();
    proof {
        lemma_perm_rank_from_bounds(stepped.pv@, 0);
        assert forall|s: Seq<u8>| #[trigger] is_perm(s, 12) && perm_rank(s)
            == coord implies r == perm_rank(perm_compose(s, m@.ep)) by {
            lemma_perm_rank_injective(s, src, 12);
        }
    }
    r
}

/// A cube state in compact coordinate form, together with the dense
/// transition tables for all eighteen moves and the moves themselves
/// (used for the on-demand edge-permutation transitions).
pub struct CubeFast {
    pub co: u64,
    pub cp: u64,
    pub eo: u64,
    pub ep: u64,
    pub move_info: Vec<MoveTable>,
    pub moves: Vec<Move>,
}

impl CubeFast {
    /// Tables are present for all eighteen moves and every coordinate is
    /// in its family's range.
    pub open spec fn wf(&self) -> bool {
        &&& self.move_info@.len() == 18
        &&& self.moves@.len() == 18
        &&& forall|k: int| 0 <= k < 18 ==> move_table_ok(#[trigger] self.move_info@[k],
            nth_move_v(k))
        &&& forall|k: int| 0 <= k < 18 ==> (#[trigger] self.moves@[k])@ == nth_move_v(k)
            && move_wf_v(nth_move_v(k))
        &&& self.co < 6561
        &&& self.cp < 40320
        &&& self.eo < 4096
        &&& self.ep < fact(12)
    }

    /// The solved cube in coordinate form, with the transition tables
    /// for all eighteen moves built by full enumeration.
    pub fn new() -> (r: CubeFast)
        ensures
            r.wf(),
            r.co == 0 && r.cp == 0 && r.eo == 0 && r.ep == 0,
    {
        let moves = all_moves();
        let mut move_info: Vec<MoveTable> = Vec::new();
        let mut k: usize = 0;
        while k < 18
            invariant
                k <= 18,
                moves@.len() == 18,
                forall|j: int| 0 <= j < 18 ==> (#[trigger] moves@[j])@ == nth_move_v(j)
                    && move_wf_v(nth_move_v(j)),
                move_info@.len() == k,
                forall|j: int| 0 <= j < k ==> move_table_ok(#[trigger] move_info@[j],
                    nth_move_v(j)),
            decreases 18 - k,
        {
            let t = MoveTable::new(&moves[k]);
            move_info.push(t);
            k = k + 1;
        }
        proof {
            crate::codec::lemma_fact_pos(12);
        }
        CubeFast { co: 0, cp: 0, eo: 0, ep: 0, move_info, moves }
    }

    /// Step this coordinate state in place by the `k`-th move: the
    /// three small coordinates through the dense tables, the edge
    /// permutation on demand.
    pub fn apply_move_index(&mut self, k: usize)
        requires
            old(self).wf(),
            k < 18,
        ensures
            final(self).wf(),
            final(self).move_info@ == old(self).move_info@,
            final(self).moves@ == old(self).moves@,
            final(self).co == old(self).move_info@[k as int].co_table@[old(self).co as int],
            final(self).cp == old(self).move_info@[k as int].cp_table@[old(self).cp as int],
            final(self).eo == old(self).move_info@[k as int].eo_table@[old(self).eo as int],
            forall|s: Seq<u8>| #[trigger] is_perm(s, 12) && perm_rank(s) == old(self).ep
                ==> final(self).ep == perm_rank(perm_compose(s, nth_move_v(k as int).ep)),
    {
        let co: u64 = self.move_info[k].co_table[self.co as usize];
        let cp: u64 = self.move_info[k].cp_table[self.cp as usize];
        let eo: u64 = self.move_info[k].eo_table[self.eo as usize];
        let ep: u64 = ep_transition(&self.moves[k], self.ep);
        self.co = co;
        self.cp = cp;
        self.eo = eo;
        self.ep = ep;
    }
}

/// Table lookups and direct computation never disagree: for any valid
/// vector in a family, the table entry at its rank is exactly the rank
/// of the vector with the move applied directly.
pub proof fn lemma_table_matches_direct(t: MoveTable, m: MoveV, co: Seq<u8>, cp: Seq<u8>, eo: Seq<u8>)
    requires
        move_table_ok(t, m),
        is_orient(co, 8, 3),
        is_perm(cp, 8),
        is_orient(eo, 12, 2),
    ensures
        0 <= orient_rank(co, 3) < 6561,
        0 <= perm_rank(cp) < 40320,
        0 <= orient_rank(eo, 2) < 4096,
        t.co_table@[orient_rank(co, 3)] == orient_rank(orient_step(co, m.cp, m.co, 3), 3),
        t.cp_table@[perm_rank(cp)] == perm_rank(perm_compose(cp, m.cp)),
        t.eo_table@[orient_rank(eo, 2)] == orient_rank(orient_step(eo, m.ep, m.eo, 2), 2),
{
    lemma_pow_3_8();
    lemma_pow_2_12();
    lemma_fact_8();
    lemma_orient_rank_from_bounds(co, 3, 0);
    lemma_perm_rank_from_bounds(cp, 0);
    lemma_orient_rank_from_bounds(eo, 2, 0);
}

/// Rebuilding a table is deterministic: any two tables meeting the
/// contract for the same move agree at the rank of every valid vector.
pub proof fn lemma_table_deterministic(
    t1: MoveTable,
    t2: MoveTable,
    m: MoveV,
    co: Seq<u8>,
    cp: Seq<u8>,
    eo: Seq<u8>,
)
    requires
        move_table_ok(t1, m),
        move_table_ok(t2, m),
        is_orient(co, 8, 3),
        is_perm(cp, 8),
        is_orient(eo, 12, 2),
    ensures
        t1.co_table@[orient_rank(co, 3)] == t2.co_table@[orient_rank(co, 3)],
        t1.cp_table@[perm_rank(cp)] == t2.cp_table@[perm_rank(cp)],
        t1.eo_table@[orient_rank(eo, 2)] == t2.eo_table@[orient_rank(eo, 2)],
{
    lemma_table_matches_direct(t1, m, co, cp, eo);
    lemma_table_matches_direct(t2, m, co, cp, eo);
}

} // verus!
