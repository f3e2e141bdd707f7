//! Group algebra on permutation and orientation vectors: composition,
//! inverse, and the identity elements, independent of cube semantics.

use vstd::prelude::*;

verus! {

/// `s` is a bijection of `{0, .., n-1}`: `n` pairwise-distinct entries,
/// each below `n`.
pub open spec fn is_perm(s: Seq<u8>, n: nat) -> bool {
    &&& s.len() == n
    &&& forall|i: int| 0 <= i < n ==> (s[i] as nat) < n
    &&& forall|i: int, j: int| 0 <= i < j < n ==> s[i] != s[j]
}

/// `s` is an orientation vector of length `n` over radix `states`.
pub open spec fn is_orient(s: Seq<u8>, n: nat, states: nat) -> bool {
    &&& s.len() == n
    &&& forall|i: int| 0 <= i < n ==> (s[i] as nat) < states
}

/// The identity permutation `[0, 1, .., n-1]`.
pub open spec fn identity_seq(n: nat) -> Seq<u8> {
    Seq::new(n, |i: int| i as u8)
}

/// The identity orientation vector `[0, 0, .., 0]`.
pub open spec fn zero_seq(n: nat) -> Seq<u8> {
    Seq::new(n, |i: int| 0u8)
}

/// Composition of permutations: entry `i` of the result is `a[b[i]]`,
/// i.e. `b`'s relabeling is applied first, as `b`'s action on `a`.
pub open spec fn perm_compose(a: Seq<u8>, b: Seq<u8>) -> Seq<u8> {
    Seq::new(b.len(), |i: int| a[b[i] as int])
}

/// Composition of orientation vectors: elementwise sum modulo the radix.
pub open spec fn orient_compose(a: Seq<u8>, b: Seq<u8>, states: nat) -> Seq<u8> {
    Seq::new(a.len(), |i: int| ((a[i] + b[i]) % (states as int)) as u8)
}

/// Elementwise inverse of an orientation vector modulo the radix.
pub open spec fn orient_inverse(s: Seq<u8>, states: nat) -> Seq<u8> {
    Seq::new(s.len(), |i: int| (((states as int) - s[i]) % (states as int)) as u8)
}

/// A permutation vector of fixed length `n`; `pv[i]` names the slot whose
/// piece moves to slot `i` under the permutation's action.
pub struct Permutation {
    pub n: usize,
    pub pv: Vec<u8>,
}

/// An orientation vector of fixed length `n` over radix `states`.
pub struct Orientation {
    pub n: usize,
    pub states: u8,
    pub ov: Vec<u8>,
}

impl Permutation {
    /// The vector has the declared length.
    pub open spec fn wf(&self) -> bool {
        self.pv@.len() == self.n
    }

    /// The vector is a bijection of `{0, .., n-1}`.
    pub open spec fn valid(&self) -> bool {
        is_perm(self.pv@, self.n as nat)
    }

    pub fn new(n: usize, pv: Vec<u8>) -> (r: Permutation)
        requires
            pv@.len() == n,
        ensures
            r.n == n,
            r.pv@ == pv@,
            r.wf(),
    {
        Permutation { n, pv }
    }

    pub fn identity(n: usize) -> (r: Permutation)
        requires
            n <= 255,
        ensures
            r.n == n,
            r.pv@ == identity_seq(n as nat),
            r.valid(),
    {
        let mut v: Vec<u8> = Vec::new();
        let mut i: usize = 0;
        while i < n
            invariant
                i <= n,
                n <= 255,
                v@.len() == i,
                forall|j: int| 0 <= j < i ==> v@[j] == j as u8,
            decreases n - i,
        {
            v.push(i as u8);
            i = i + 1;
        }
        proof {
            assert(v@ =~= identity_seq(n as nat));
        }
        Permutation { n, pv: v }
    }

    /// The unique two-sided inverse under `compose`: the result `q`
    /// satisfies `q[p[i]] == i` for every slot `i`.
    pub fn inverse(&self) -> (r: Permutation)
        requires
            self.valid(),
        ensures
            r.n == self.n,
            r.pv@.len() == self.n,
            forall|i: int| 0 <= i < self.n ==> r.pv@[self.pv@[i] as int] == i as u8,
            r.valid(),
    {
        proof {
            lemma_perm_bound(self.pv@, self.n as nat);
        }
        let n: usize = self.n;
        let mut v: Vec<u8> = Vec::new();
        let mut i: usize = 0;
        while i < n
            invariant
                i <= n,
                v@.len() == i,
                forall|j: int| 0 <= j < i ==> v@[j] == 0u8,
            decreases n - i,
        {
            v.push(0u8);
            i = i + 1;
        }
        let mut k: usize = 0;
        while k < n
            invariant
                k <= n,
                n == self.n,
                n <= 256,
                self.valid(),
                v@.len() == n,
                forall|j: int| 0 <= j < k ==> v@[self.pv@[j] as int] == j as u8,
            decreases n - k,
        {
            let slot: u8 = self.pv[k];
            v.set(slot as usize, k as u8);
            proof {
                assert(forall|j: int|
                    0 <= j < k ==> self.pv@[j] != self.pv@[k as int]);
            }
            k = k + 1;
        }
        proof {
            lemma_inverse_of_perm_valid(self.pv@, v@, self.n as nat);
        }
        Permutation { n, pv: v }
    }

    /// Composition with `rhs` acting first: entry `i` of the result is
    /// `self.pv[rhs.pv[i]]`.
    pub fn compose(&self, rhs: &Permutation) -> (r: Permutation)
        requires
            self.wf(),
            rhs.valid(),
            self.n == rhs.n,
        ensures
            r.n == self.n,
            r.pv@ == perm_compose(self.pv@, rhs.pv@),
            self.valid() ==> r.valid(),
    {
        let n: usize = self.n;
        let mut v: Vec<u8> = Vec::new();
        let mut i: usize = 0;
        while i < n
            invariant
                i <= n,
                n == self.n == rhs.n,
                self.wf(),
                rhs.valid(),
                v@.len() == i,
                forall|j: int| 0 <= j < i ==> v@[j] == self.pv@[rhs.pv@[j] as int],
            decreases n - i,
        {
            v.push(self.pv[rhs.pv[i] as usize]);
            i = i + 1;
        }
        proof {
            assert(v@ =~= perm_compose(self.pv@, rhs.pv@));
            if self.valid() {
                lemma_perm_compose_valid(self.pv@, rhs.pv@, self.n as nat);
            }
        }
        Permutation { n, pv: v }
    }
}

impl Orientation {
    /// The vector has the declared length and the radix is positive.
    pub open spec fn wf(&self) -> bool {
        self.ov@.len() == self.n && self.states >= 1
    }

    /// Every entry lies below the radix.
    pub open spec fn valid(&self) -> bool {
        self.wf() && is_orient(self.ov@, self.n as nat, self.states as nat)
    }

    pub fn new(n: usize, states: u8, ov: Vec<u8>) -> (r: Orientation)
        requires
            ov@.len() == n,
            states >= 1,
        ensures
            r.n == n,
            r.states == states,
            r.ov@ == ov@,
            r.wf(),
    {
        Orientation { n, states, ov }
    }

    pub fn identity(n: usize, states: u8) -> (r: Orientation)
        requires
            states >= 1,
        ensures
            r.n == n,
            r.states == states,
            r.ov@ == zero_seq(n as nat),
            r.valid(),
    {
        let mut v: Vec<u8> = Vec::new();
        let mut i: usize = 0;
        while i < n
            invariant
                i <= n,
                v@.len() == i,
                forall|j: int| 0 <= j < i ==> v@[j] == 0u8,
            decreases n - i,
        {
            v.push(0u8);
            i = i + 1;
        }
        proof {
            assert(v@ =~= zero_seq(n as nat));
        }
        Orientation { n, states, ov: v }
    }

    /// Elementwise inverse modulo the radix.
    pub fn inverse(&self) -> (r: Orientation)
        requires
            self.valid(),
        ensures
            r.n == self.n,
            r.states == self.states,
            r.ov@ == orient_inverse(self.ov@, self.states as nat),
            r.valid(),
    {
        let n: usize = self.n;
        let mut v: Vec<u8> = Vec::new();
        let mut i: usize = 0;
        while i < n
            invariant
                i <= n,
                n == self.n,
                self.valid(),
                v@.len() == i,
                forall|j: int| 0 <= j < i ==> v@[j]
                    == (((self.states as int) - self.ov@[j]) % (self.states as int)) as u8,
            decreases n - i,
        {
            v.push((self.states - self.ov[i]) % self.states);
            i = i + 1;
        }
        proof {
            assert(v@ =~= orient_inverse(self.ov@, self.states as nat));
        }
        Orientation { n: self.n, states: self.states, ov: v }
    }

    /// Elementwise sum with `rhs` modulo the shared radix.
    pub fn compose(&self, rhs: &Orientation) -> (r: Orientation)
        requires
            self.wf(),
            rhs.wf(),
            self.n == rhs.n,
            self.states == rhs.states,
        ensures
            r.n == self.n,
            r.states == self.states,
            r.ov@ == orient_compose(self.ov@, rhs.ov@, self.states as nat),
            r.valid(),
    {
        let n: usize = self.n;
        let mut v: Vec<u8> = Vec::new();
        let mut i: usize = 0;
        while i < n
            invariant
                i <= n,
                n == self.n == rhs.n,
                self.wf(),
                rhs.wf(),
                v@.len() == i,
                forall|j: int| 0 <= j < i ==> v@[j]
                    == ((self.ov@[j] + rhs.ov@[j]) % (self.states as int)) as u8,
            decreases n - i,
        {
            let sum: u16 = self.ov[i] as u16 + rhs.ov[i] as u16;
            v.push((sum % (self.states as u16)) as u8);
            i = i + 1;
        }
        proof {
            assert(v@ =~= orient_compose(self.ov@, rhs.ov@, self.states as nat));
        }
        Orientation { n: self.n, states: self.states, ov: v }
    }
}

/// Composing a permutation with its inverse, in either order, yields the
/// identity permutation.
pub proof fn lemma_perm_compose_inverse(p: Seq<u8>, q: Seq<u8>, n: nat)
    requires
        is_perm(p, n),
        q.len() == n,
        forall|i: int| 0 <= i < n ==> q[p[i] as int] == i as u8,
    ensures
        perm_compose(q, p) == identity_seq(n),
        perm_compose(p, q) == identity_seq(n),
{
    lemma_perm_bound(p, n);
    lemma_inverse_of_perm_valid(p, q, n);
    assert forall|x: int| 0 <= x < n implies perm_compose(p, q)[x] == x as u8 by {
        lemma_perm_attains(p, n, x as u8);
        let i = choose|i: int| 0 <= i < n && p[i] == x as u8;
        assert(q[x] == i as u8);
    }
    assert(perm_compose(q, p) =~= identity_seq(n));
    assert(perm_compose(p, q) =~= identity_seq(n));
}

/// Composing an orientation vector with its elementwise inverse yields
/// the identity orientation vector.
pub proof fn lemma_orient_compose_inverse(o: Seq<u8>, n: nat, states: nat)
    requires
        is_orient(o, n, states),
        1 <= states <= 256,
    ensures
        orient_compose(o, orient_inverse(o, states), states) == zero_seq(n),
{
    let s = states as int;
    assert forall|i: int| 0 <= i < n implies orient_compose(o, orient_inverse(o, states),
        states)[i] == 0u8 by {
        let bi = orient_inverse(o, states)[i];
        assert(bi == ((s - o[i]) % s) as u8);
        if o[i] == 0 {
            vstd::arithmetic::div_mod::lemma_mod_self_0(s);
            assert(bi == 0u8);
            vstd::arithmetic::div_mod::lemma_small_mod(0, states);
            assert((o[i] + bi) % s == 0);
        } else {
            vstd::arithmetic::div_mod::lemma_small_mod((s - o[i]) as nat, states);
            assert(bi == (s - o[i]) as u8);
            vstd::arithmetic::div_mod::lemma_mod_self_0(s);
            assert((o[i] + bi) % s == 0);
        }
    }
    assert(orient_compose(o, orient_inverse(o, states), states) =~= zero_seq(n));
}

/// Composing two bijections yields a bijection.
pub proof fn lemma_perm_compose_valid(a: Seq<u8>, b: Seq<u8>, n: nat)
    requires
        is_perm(a, n),
        is_perm(b, n),
    ensures
        is_perm(perm_compose(a, b), n),
{
    let c = perm_compose(a, b);
    assert forall|i: int, j: int| 0 <= i < j < n implies c[i] != c[j] by {
        assert(b[i] != b[j]);
        if b[i] < b[j] {
            assert(a[b[i] as int] != a[b[j] as int]);
        } else {
            assert(a[b[j] as int] != a[b[i] as int]);
        }
    }
}

/// A vector satisfying the defining equation of the inverse of a
/// bijection is itself a bijection.
proof fn lemma_inverse_of_perm_valid(p: Seq<u8>, q: Seq<u8>, n: nat)
    requires
        is_perm(p, n),
        q.len() == n,
        n <= 256,
        forall|i: int| 0 <= i < n ==> q[p[i] as int] == i as u8,
    ensures
        is_perm(q, n),
{
    assert forall|x: int| 0 <= x < n implies (q[x] as nat) < n by {
        lemma_perm_attains(p, n, x as u8);
        let i = choose|i: int| 0 <= i < n && p[i] == x as u8;
        assert(q[x] == i as u8);
    }
    assert forall|x: int, y: int| 0 <= x < y < n implies q[x] != q[y] by {
        lemma_perm_attains(p, n, x as u8);
        lemma_perm_attains(p, n, y as u8);
        let i = choose|i: int| 0 <= i < n && p[i] == x as u8;
        let j = choose|j: int| 0 <= j < n && p[j] == y as u8;
        assert(q[x] == i as u8);
        assert(q[y] == j as u8);
    }
}

/// Composing with the identity permutation on the right changes
/// nothing.
pub proof fn lemma_perm_compose_right_identity(p: Seq<u8>, n: nat)
    requires
        p.len() == n,
        n <= 256,
    ensures
        perm_compose(p, identity_seq(n)) == p,
{
    assert(perm_compose(p, identity_seq(n)) =~= p);
}

/// Composition of permutations is associative.
pub proof fn lemma_perm_compose_assoc(a: Seq<u8>, b: Seq<u8>, c: Seq<u8>, n: nat)
    requires
        a.len() == n,
        is_perm(b, n),
        is_perm(c, n),
    ensures
        perm_compose(perm_compose(a, b), c) == perm_compose(a, perm_compose(b, c)),
{
    assert forall|i: int| 0 <= i < n implies perm_compose(perm_compose(a, b), c)[i]
        == perm_compose(a, perm_compose(b, c))[i] by {
        assert((c[i] as nat) < n);
    }
    assert(perm_compose(perm_compose(a, b), c) =~= perm_compose(a, perm_compose(b, c)));
}

/// Composing with the identity orientation vector changes nothing.
pub proof fn lemma_orient_compose_identity(o: Seq<u8>, n: nat, states: nat)
    requires
        is_orient(o, n, states),
        1 <= states <= 256,
    ensures
        orient_compose(o, zero_seq(n), states) == o,
{
    assert forall|i: int| 0 <= i < n implies orient_compose(o, zero_seq(n), states)[i]
        == o[i] by {
        vstd::arithmetic::div_mod::lemma_small_mod(o[i] as nat, states);
    }
    assert(orient_compose(o, zero_seq(n), states) =~= o);
}

/// Composition of orientation vectors is associative.
pub proof fn lemma_orient_compose_assoc(a: Seq<u8>, b: Seq<u8>, c: Seq<u8>, n: nat, states: nat)
    requires
        is_orient(a, n, states),
        is_orient(b, n, states),
        is_orient(c, n, states),
        1 <= states <= 256,
    ensures
        orient_compose(orient_compose(a, b, states), c, states) == orient_compose(
            a,
            orient_compose(b, c, states),
            states,
        ),
{
    let m = states as int;
    assert forall|i: int| 0 <= i < n implies orient_compose(orient_compose(a, b, states), c,
        states)[i] == orient_compose(a, orient_compose(b, c, states), states)[i] by {
        let x = a[i] as int;
        let y = b[i] as int;
        let z = c[i] as int;
        vstd::arithmetic::div_mod::lemma_add_mod_noop(x + y, z, m);
        vstd::arithmetic::div_mod::lemma_add_mod_noop_right(x, y + z, m);
        vstd::arithmetic::div_mod::lemma_small_mod(z as nat, states);
        assert(((x + y) % m + z) % m == (x + y + z) % m);
        assert((x + (y + z) % m) % m == (x + y + z) % m);
    }
    assert(orient_compose(orient_compose(a, b, states), c, states) =~= orient_compose(
        a,
        orient_compose(b, c, states),
        states,
    ));
}

/// Count of positions `j` in `[lo, hi)` with `s[j] < v`.
pub open spec fn count_lt_range(s: Seq<u8>, lo: int, hi: int, v: u8) -> int
    decreases hi - lo,
{
    if lo < 0 || lo >= hi || hi > s.len() {
        0
    } else {
        (if s[lo] < v { 1int } else { 0int }) + count_lt_range(s, lo + 1, hi, v)
    }
}

/// Count of positions `j` in `[lo, hi)` with `s[j] == v`.
pub open spec fn count_eq_range(s: Seq<u8>, lo: int, hi: int, v: u8) -> int
    decreases hi - lo,
{
    if lo < 0 || lo >= hi || hi > s.len() {
        0
    } else {
        (if s[lo] == v { 1int } else { 0int }) + count_eq_range(s, lo + 1, hi, v)
    }
}

/// Positions split between values below `v` and values equal to `v`
/// when no value exceeds `v`.
proof fn lemma_count_le_total(s: Seq<u8>, lo: int, hi: int, v: u8)
    requires
        0 <= lo <= hi <= s.len(),
        forall|i: int| lo <= i < hi ==> s[i] <= v,
    ensures
        count_lt_range(s, lo, hi, v) + count_eq_range(s, lo, hi, v) == hi - lo,
    decreases hi - lo,
{
    if lo < hi {
        lemma_count_le_total(s, lo + 1, hi, v);
    }
}

/// No more than 256 distinct values fit in a byte.
pub proof fn lemma_perm_bound(s: Seq<u8>, n: nat)
    requires
        is_perm(s, n),
    ensures
        n <= 256,
{
    if n > 256 {
        lemma_count_lt_le_value(s, 0, n as int, 255u8);
        lemma_count_eq_distinct(s, 0, n as int, 255u8);
        lemma_count_le_total(s, 0, n as int, 255u8);
    }
}

/// A bijection of `{0, .., n-1}` attains the value `v` below `n`.
pub proof fn lemma_perm_attains(s: Seq<u8>, n: nat, v: u8)
    requires
        is_perm(s, n),
        (v as nat) < n,
    ensures
        exists|i: int| 0 <= i < n && s[i] == v,
{
    lemma_perm_bound(s, n);
    let hi = n as int;
    if v < 255 {
        lemma_distinct_bounded_counts(s, 0, hi, hi);
        assert(count_lt_range(s, 0, hi, v) == v);
        assert(count_lt_range(s, 0, hi, (v + 1) as u8) == v + 1);
        lemma_count_lt_succ(s, 0, hi, v);
        assert(count_eq_range(s, 0, hi, v) == 1);
    } else {
        lemma_count_le_total(s, 0, hi, 255u8);
        lemma_count_lt_le_value(s, 0, hi, 255u8);
    }
    lemma_count_eq_witness(s, 0, hi, v);
}

/// Splitting a `<`-count at `v+1` into the count below `v` and the count
/// of `v` itself.
pub proof fn lemma_count_lt_succ(s: Seq<u8>, lo: int, hi: int, v: u8)
    requires
        v < 255,
    ensures
        count_lt_range(s, lo, hi, (v + 1) as u8) == count_lt_range(s, lo, hi, v)
            + count_eq_range(s, lo, hi, v),
    decreases hi - lo,
{
    if !(lo < 0 || lo >= hi || hi > s.len()) {
        lemma_count_lt_succ(s, lo + 1, hi, v);
    }
}

/// A positive `==`-count yields a witness position.
pub proof fn lemma_count_eq_witness(s: Seq<u8>, lo: int, hi: int, v: u8)
    requires
        count_eq_range(s, lo, hi, v) >= 1,
    ensures
        exists|i: int| lo <= i < hi && i < s.len() && s[i] == v,
    decreases hi - lo,
{
    if !(lo < 0 || lo >= hi || hi > s.len()) {
        if s[lo] == v {
            assert(lo <= lo < hi && lo < s.len() && s[lo] == v);
        } else {
            lemma_count_eq_witness(s, lo + 1, hi, v);
            let i = choose|i: int| lo + 1 <= i < hi && i < s.len() && s[i] == v;
            assert(lo <= i < hi && i < s.len() && s[i] == v);
        }
    }
}

/// Positions holding pairwise-distinct values match any value at most once.
pub proof fn lemma_count_eq_distinct(s: Seq<u8>, lo: int, hi: int, v: u8)
    requires
        forall|i: int, j: int| lo <= i < j < hi && 0 <= i && j < s.len() ==> s[i] != s[j],
    ensures
        count_eq_range(s, lo, hi, v) <= 1,
        count_eq_range(s, lo, hi, v) >= 0,
    decreases hi - lo,
{
    if !(lo < 0 || lo >= hi || hi > s.len()) {
        lemma_count_eq_distinct(s, lo + 1, hi, v);
        if s[lo] == v {
            lemma_count_eq_absent(s, lo + 1, hi, v);
        }
    }
}

/// A value held at no position of the range has `==`-count zero.
pub proof fn lemma_count_eq_absent(s: Seq<u8>, lo: int, hi: int, v: u8)
    requires
        forall|i: int| lo <= i < hi && 0 <= i && i < s.len() ==> s[i] != v,
    ensures
        count_eq_range(s, lo, hi, v) == 0,
    decreases hi - lo,
{
    if !(lo < 0 || lo >= hi || hi > s.len()) {
        lemma_count_eq_absent(s, lo + 1, hi, v);
    }
}

/// `<`-counts are bounded by the length of the range.
pub proof fn lemma_count_lt_bounds(s: Seq<u8>, lo: int, hi: int, v: u8)
    ensures
        0 <= count_lt_range(s, lo, hi, v),
        count_lt_range(s, lo, hi, v) <= (if hi > lo { hi - lo } else { 0 }),
    decreases hi - lo,
{
    if !(lo < 0 || lo >= hi || hi > s.len()) {
        lemma_count_lt_bounds(s, lo + 1, hi, v);
    }
}

/// Over pairwise-distinct values, fewer than `v` positions hold a value
/// below `v`.
pub proof fn lemma_count_lt_le_value(s: Seq<u8>, lo: int, hi: int, v: u8)
    requires
        forall|i: int, j: int| lo <= i < j < hi && 0 <= i && j < s.len() ==> s[i] != s[j],
    ensures
        count_lt_range(s, lo, hi, v) <= v,
    decreases v,
{
    if v == 0 {
        lemma_count_lt_zero(s, lo, hi);
    } else {
        lemma_count_lt_le_value(s, lo, hi, (v - 1) as u8);
        lemma_count_lt_succ(s, lo, hi, (v - 1) as u8);
        lemma_count_eq_distinct(s, lo, hi, (v - 1) as u8);
    }
}

/// No unsigned value lies below zero.
proof fn lemma_count_lt_zero(s: Seq<u8>, lo: int, hi: int)
    ensures
        count_lt_range(s, lo, hi, 0u8) == 0,
    decreases hi - lo,
{
    if !(lo < 0 || lo >= hi || hi > s.len()) {
        lemma_count_lt_zero(s, lo + 1, hi);
    }
}

/// When every value in the range lies below `k`, the `<`-count at `k` is
/// the whole range.
proof fn lemma_count_lt_complete(s: Seq<u8>, lo: int, hi: int, k: u8)
    requires
        0 <= lo <= hi <= s.len(),
        forall|i: int| lo <= i < hi ==> s[i] < k,
    ensures
        count_lt_range(s, lo, hi, k) == hi - lo,
    decreases hi - lo,
{
    if lo < hi {
        lemma_count_lt_complete(s, lo + 1, hi, k);
    }
}

/// Raising the threshold by `d` raises a `<`-count over distinct values
/// by at most `d`.
pub proof fn lemma_count_lt_step_bound(s: Seq<u8>, lo: int, hi: int, v: u8, w: u8)
    requires
        v <= w,
        forall|i: int, j: int| lo <= i < j < hi && 0 <= i && j < s.len() ==> s[i] != s[j],
    ensures
        count_lt_range(s, lo, hi, w) <= count_lt_range(s, lo, hi, v) + (w - v),
    decreases w - v,
{
    if v < w {
        lemma_count_lt_step_bound(s, lo, hi, v, (w - 1) as u8);
        lemma_count_lt_succ(s, lo, hi, (w - 1) as u8);
        lemma_count_eq_distinct(s, lo, hi, (w - 1) as u8);
    }
}

/// A range of `k` pairwise-distinct values all below `k` holds exactly
/// `v` values below `v`, for every threshold `v <= k`.
pub proof fn lemma_distinct_bounded_counts(s: Seq<u8>, lo: int, hi: int, k: int)
    requires
        0 <= lo <= hi <= s.len(),
        hi - lo == k,
        k <= 256,
        forall|i: int| lo <= i < hi ==> (s[i] as int) < k,
        forall|i: int, j: int| lo <= i < j < hi ==> s[i] != s[j],
    ensures
        forall|v: u8| (v as int) <= k ==> #[trigger] count_lt_range(s, lo, hi, v) == v,
{
    assert forall|v: u8| (v as int) <= k implies #[trigger] count_lt_range(s, lo, hi, v)
        == v by {
        lemma_count_lt_le_value(s, lo, hi, v);
        if k <= 255 {
            lemma_count_lt_complete(s, lo, hi, k as u8);
            lemma_count_lt_step_bound(s, lo, hi, v, k as u8);
        } else {
            lemma_count_le_total(s, lo, hi, 255u8);
            lemma_count_eq_distinct(s, lo, hi, 255u8);
            lemma_count_lt_step_bound(s, lo, hi, v, 255u8);
        }
    }
}

} // verus!
