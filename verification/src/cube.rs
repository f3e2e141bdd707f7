//! Move algebra on explicit cube states: the `Move` delta type, the
//! `CubeSlow` explicit state, application of a move to a state, and the
//! derivation of the full set of eighteen face moves from the six base
//! quarter turns.

use crate::group::identity_seq;
use crate::group::is_orient;
use crate::group::is_perm;
use crate::group::lemma_perm_compose_valid;
use crate::group::perm_compose;
use crate::group::zero_seq;
use vstd::prelude::*;

verus! {

/// A named move: a permutation-plus-orientation delta.  For each
/// destination slot `i`, `cp[i]` / `ep[i]` name the source slot whose
/// piece moves there, and `co[i]` / `eo[i]` the orientation increment
/// added to it, modulo 3 for corners and 2 for edges.
pub struct Move {
    pub co: Vec<u8>,
    pub cp: Vec<u8>,
    pub eo: Vec<u8>,
    pub ep: Vec<u8>,
}

/// An explicit cube state: corner data always present, edge data present
/// exactly when the cube is a full three-layer cube.
pub struct CubeSlow {
    pub co: Vec<u8>,
    pub cp: Vec<u8>,
    pub eo: Option<Vec<u8>>,
    pub ep: Option<Vec<u8>>,
    pub is_333: bool,
}

/// Mathematical view of a `Move`: its four component sequences.
#[verifier::ext_equal]
pub ghost struct MoveV {
    pub co: Seq<u8>,
    pub cp: Seq<u8>,
    pub eo: Seq<u8>,
    pub ep: Seq<u8>,
}

/// Mathematical view of a `CubeSlow`; the edge sequences are empty for a
/// cube without edges.
#[verifier::ext_equal]
pub ghost struct CubeV {
    pub co: Seq<u8>,
    pub cp: Seq<u8>,
    pub eo: Seq<u8>,
    pub ep: Seq<u8>,
    pub is_333: bool,
}

impl View for Move {
    type V = MoveV;

    open spec fn view(&self) -> MoveV {
        MoveV { co: self.co@, cp: self.cp@, eo: self.eo@, ep: self.ep@ }
    }
}

impl View for CubeSlow {
    type V = CubeV;

    open spec fn view(&self) -> CubeV {
        CubeV {
            co: self.co@,
            cp: self.cp@,
            eo: if self.eo.is_some() {
                self.eo.unwrap()@
            } else {
                Seq::empty()
            },
            ep: if self.ep.is_some() {
                self.ep.unwrap()@
            } else {
                Seq::empty()
            },
            is_333: self.is_333,
        }
    }
}

/// A move is well formed when its permutation components are bijections
/// and its orientation components are valid orientation vectors.
pub open spec fn move_wf_v(m: MoveV) -> bool {
    &&& is_perm(m.cp, 8)
    &&& is_orient(m.co, 8, 3)
    &&& is_perm(m.ep, 12)
    &&& is_orient(m.eo, 12, 2)
}

/// A cube view is well formed when its components are valid for its
/// shape.
pub open spec fn cube_wf_v(c: CubeV) -> bool {
    &&& is_orient(c.co, 8, 3)
    &&& is_perm(c.cp, 8)
    &&& c.is_333 ==> is_orient(c.eo, 12, 2) && is_perm(c.ep, 12)
    &&& !c.is_333 ==> c.eo == Seq::<u8>::empty() && c.ep == Seq::<u8>::empty()
}

impl CubeSlow {
    /// Well-formedness of the explicit representation: edge storage
    /// matches the shape flag and the view is well formed.
    pub open spec fn wf(&self) -> bool {
        &&& self.eo.is_some() == self.is_333
        &&& self.ep.is_some() == self.is_333
        &&& cube_wf_v(self@)
    }
}

/// The orientation component of applying a move: the new entry at slot
/// `i` is the source slot's orientation plus the move's increment,
/// modulo the radix.
pub open spec fn orient_step(o: Seq<u8>, p: Seq<u8>, d: Seq<u8>, states: nat) -> Seq<u8> {
    Seq::new(p.len(), |i: int| ((o[p[i] as int] + d[i]) % (states as int)) as u8)
}

/// Applying a move to a cube state: the move's permutation selects
/// source slots from the current state, then the move's orientation
/// increments are added.
pub open spec fn cube_apply_v(c: CubeV, m: MoveV) -> CubeV {
    CubeV {
        co: orient_step(c.co, m.cp, m.co, 3),
        cp: perm_compose(c.cp, m.cp),
        eo: if c.is_333 {
            orient_step(c.eo, m.ep, m.eo, 2)
        } else {
            Seq::empty()
        },
        ep: if c.is_333 {
            perm_compose(c.ep, m.ep)
        } else {
            Seq::empty()
        },
        is_333: c.is_333,
    }
}

/// The identity cube state, with or without edges.
pub open spec fn identity_cube_v(full: bool) -> CubeV {
    CubeV {
        co: zero_seq(8),
        cp: identity_seq(8),
        eo: if full {
            zero_seq(12)
        } else {
            Seq::empty()
        },
        ep: if full {
            identity_seq(12)
        } else {
            Seq::empty()
        },
        is_333: full,
    }
}

/// The move equivalent to performing `m1` and then `m2`.
pub open spec fn move_then(m1: MoveV, m2: MoveV) -> MoveV {
    MoveV {
        co: orient_step(m1.co, m2.cp, m2.co, 3),
        cp: perm_compose(m1.cp, m2.cp),
        eo: orient_step(m1.eo, m2.ep, m2.eo, 2),
        ep: perm_compose(m1.ep, m2.ep),
    }
}

/// An orientation step always yields a valid orientation vector.
pub proof fn lemma_orient_step_valid(o: Seq<u8>, p: Seq<u8>, d: Seq<u8>, n: nat, states: nat)
    requires
        is_perm(p, n),
        o.len() == n,
        d.len() == n,
        states >= 1,
    ensures
        is_orient(orient_step(o, p, d, states), n, states),
{
    let r = orient_step(o, p, d, states);
    assert forall|i: int| 0 <= i < n implies (r[i] as nat) < states by {
        vstd::arithmetic::div_mod::lemma_mod_division_less_than_divisor(
            o[p[i] as int] + d[i],
            states as int,
        );
    }
}

/// Stepping the identity orientation vector returns the move's own
/// increments.
pub proof fn lemma_orient_step_identity(p: Seq<u8>, d: Seq<u8>, n: nat, states: nat)
    requires
        is_perm(p, n),
        is_orient(d, n, states),
        states >= 1,
    ensures
        orient_step(zero_seq(n), p, d, states) == d,
{
    let r = orient_step(zero_seq(n), p, d, states);
    assert forall|i: int| 0 <= i < n implies r[i] == d[i] by {
        vstd::arithmetic::div_mod::lemma_small_mod(d[i] as nat, states);
    }
    assert(r =~= d);
}

/// Composing with the identity permutation on the left returns the
/// permutation itself.
pub proof fn lemma_perm_compose_identity(p: Seq<u8>, n: nat)
    requires
        is_perm(p, n),
    ensures
        perm_compose(identity_seq(n), p) == p,
{
    crate::group::lemma_perm_bound(p, n);
    assert(perm_compose(identity_seq(n), p) =~= p);
}

/// Copy a byte vector.
pub(crate) fn copy_vec(v: &Vec<u8>) -> (r: Vec<u8>)
    ensures
        r@ == v@,
{
    let n: usize = v.len();
    let mut r: Vec<u8> = Vec::new();
    let mut i: usize = 0;
    while i < n
        invariant
            i <= n,
            v@.len() == n,
            r@.len() == i,
            forall|j: int| 0 <= j < i ==> r@[j] == v@[j],
        decreases n - i,
    {
        r.push(v[i]);
        i = i + 1;
    }
    proof {
        assert(r@ =~= v@);
    }
    r
}

/// A byte vector of `n` zeros.
fn zeros(n: usize) -> (r: Vec<u8>)
    ensures
        r@ == zero_seq(n as nat),
{
    let mut r: Vec<u8> = Vec::new();
    let mut i: usize = 0;
    while i < n
        invariant
            i <= n,
            r@.len() == i,
            forall|j: int| 0 <= j < i ==> r@[j] == 0u8,
        decreases n - i,
    {
        r.push(0u8);
        i = i + 1;
    }
    proof {
        assert(r@ =~= zero_seq(n as nat));
    }
    r
}

/// The identity byte vector `[0, 1, .., n-1]`.
fn iota(n: usize) -> (r: Vec<u8>)
    requires
        n <= 255,
    ensures
        r@ == identity_seq(n as nat),
{
    let mut r: Vec<u8> = Vec::new();
    let mut i: usize = 0;
    while i < n
        invariant
            i <= n,
            n <= 255,
            r@.len() == i,
            forall|j: int| 0 <= j < i ==> r@[j] == j as u8,
        decreases n - i,
    {
        r.push(i as u8);
        i = i + 1;
    }
    proof {
        assert(r@ =~= identity_seq(n as nat));
    }
    r
}

impl CubeSlow {
    /// The identity (solved) cube, with edges exactly when `is_333`.
    pub fn new(is_333: bool) -> (r: CubeSlow)
        ensures
            r.wf(),
            r@ == identity_cube_v(is_333),
    {
        let r = CubeSlow {
            co: zeros(8),
            cp: iota(8),
            eo: if is_333 {
                Some(zeros(12))
            } else {
                None
            },
            ep: if is_333 {
                Some(iota(12))
            } else {
                None
            },
            is_333,
        };
        proof {
            assert(r@ =~= identity_cube_v(is_333));
            assert(is_perm(identity_seq(8), 8));
            assert(is_perm(identity_seq(12), 12));
        }
        r
    }

    /// Build a cube from whichever components are given; missing
    /// components default to the identity.
    pub fn from_params(
        co: Option<Vec<u8>>,
        cp: Option<Vec<u8>>,
        eo: Option<Vec<u8>>,
        ep: Option<Vec<u8>>,
        is_333: bool,
    ) -> (r: CubeSlow)
        requires
            co.is_some() ==> is_orient(co.unwrap()@, 8, 3),
            cp.is_some() ==> is_perm(cp.unwrap()@, 8),
            eo.is_some() ==> is_orient(eo.unwrap()@, 12, 2),
            ep.is_some() ==> is_perm(ep.unwrap()@, 12),
            !is_333 ==> eo.is_none() && ep.is_none(),
        ensures
            r.wf(),
            r.is_333 == is_333,
            r@.co == (if co.is_some() {
                co.unwrap()@
            } else {
                zero_seq(8)
            }),
            r@.cp == (if cp.is_some() {
                cp.unwrap()@
            } else {
                identity_seq(8)
            }),
            is_333 ==> r@.eo == (if eo.is_some() {
                eo.unwrap()@
            } else {
                zero_seq(12)
            }),
            is_333 ==> r@.ep == (if ep.is_some() {
                ep.unwrap()@
            } else {
                identity_seq(12)
            }),
    {
        let rco: Vec<u8> = match co {
            Some(v) => v,
            None => zeros(8),
        };
        let rcp: Vec<u8> = match cp {
            Some(v) => v,
            None => iota(8),
        };
        let reo: Option<Vec<u8>> = match eo {
            Some(v) => Some(v),
            None => if is_333 {
                Some(zeros(12))
            } else {
                None
            },
        };
        let rep: Option<Vec<u8>> = match ep {
            Some(v) => Some(v),
            None => if is_333 {
                Some(iota(12))
            } else {
                None
            },
        };
        let r = CubeSlow { co: rco, cp: rcp, eo: reo, ep: rep, is_333 };
        proof {
            assert(is_perm(identity_seq(8), 8));
            assert(is_perm(identity_seq(12), 12));
        }
        r
    }

    /// Apply a move, producing the new cube state; the receiver is
    /// unchanged.
    pub fn apply_move(&self, m: &Move) -> (r: CubeSlow)
        requires
            self.wf(),
            move_wf_v(m@),
        ensures
            r.wf(),
            r@ == cube_apply_v(self@, m@),
    {
        let mut co: Vec<u8> = Vec::new();
        let mut cp: Vec<u8> = Vec::new();
        let mut i: usize = 0;
        while i < 8
            invariant
                i <= 8,
                self.wf(),
                move_wf_v(m@),
                co@.len() == i,
                cp@.len() == i,
                forall|j: int| 0 <= j < i ==> cp@[j] == self.cp@[m.cp@[j] as int],
                forall|j: int| 0 <= j < i ==> co@[j] == ((self.co@[m.cp@[j] as int] + m.co@[j])
                    % 3) as u8,
            decreases 8 - i,
        {
            let src: usize = m.cp[i] as usize;
            cp.push(self.cp[src]);
            co.push((self.co[src] + m.co[i]) % 3);
            i = i + 1;
        }
        let mut eo: Option<Vec<u8>> = None;
        let mut ep: Option<Vec<u8>> = None;
        if self.is_333 {
            let seo: &Vec<u8> = self.eo.as_ref().unwrap();
            let sep: &Vec<u8> = self.ep.as_ref().unwrap();
            let mut eo2: Vec<u8> = Vec::new();
            let mut ep2: Vec<u8> = Vec::new();
            let mut k: usize = 0;
            while k < 12
                invariant
                    k <= 12,
                    self.wf(),
                    self.is_333,
                    move_wf_v(m@),
                    seo@ == self@.eo,
                    sep@ == self@.ep,
                    eo2@.len() == k,
                    ep2@.len() == k,
                    forall|j: int| 0 <= j < k ==> ep2@[j] == self@.ep[m.ep@[j] as int],
                    forall|j: int| 0 <= j < k ==> eo2@[j] == ((self@.eo[m.ep@[j] as int]
                        + m.eo@[j]) % 2) as u8,
                decreases 12 - k,
            {
                let src: usize = m.ep[k] as usize;
                ep2.push(sep[src]);
                eo2.push((seo[src] + m.eo[k]) % 2);
                k = k + 1;
            }
            eo = Some(eo2);
            ep = Some(ep2);
        }
        let r = CubeSlow { co, cp, eo, ep, is_333: self.is_333 };
        proof {
            let target = cube_apply_v(self@, m@);
            assert(r@.co =~= target.co);
            assert(r@.cp =~= target.cp);
            assert(r@.eo =~= target.eo);
            assert(r@.ep =~= target.ep);
            assert(r@ =~= target);
            lemma_perm_compose_valid(self@.cp, m@.cp, 8);
            lemma_orient_step_valid(self@.co, m@.cp, m@.co, 8, 3);
            if self.is_333 {
                lemma_perm_compose_valid(self@.ep, m@.ep, 12);
                lemma_orient_step_valid(self@.eo, m@.ep, m@.eo, 12, 2);
            }
        }
        r
    }

    /// Freeze this state as a standalone `Move` delta; used to
    /// materialize derived (double and inverse) moves as data.
    pub fn _to_move(&self) -> (r: Move)
        requires
            self.wf(),
        ensures
            r@.co == self@.co,
            r@.cp == self@.cp,
            self.is_333 ==> r@.eo == self@.eo && r@.ep == self@.ep,
            !self.is_333 ==> r@.eo == zero_seq(12) && r@.ep == zero_seq(12),
            self.is_333 ==> move_wf_v(r@),
    {
        let eo: Vec<u8> = if self.is_333 {
            copy_vec(self.eo.as_ref().unwrap())
        } else {
            zeros(12)
        };
        let ep: Vec<u8> = if self.is_333 {
            copy_vec(self.ep.as_ref().unwrap())
        } else {
            zeros(12)
        };
        Move { co: copy_vec(&self.co), cp: copy_vec(&self.cp), eo, ep }
    }
}

} // verus!
