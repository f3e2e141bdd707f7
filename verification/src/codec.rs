//! Coordinate codec: bijective ranking and unranking between permutation
//! or orientation vectors and dense integer coordinates.  A permutation of
//! length `n` is ranked by its Lehmer code into `[0, n!)`; an orientation
//! vector of length `n` over radix `r` is ranked by mixed-radix positional
//! value into `[0, r^n)`.

use crate::cube::copy_vec;
use crate::cube::CubeSlow;
use crate::group::count_lt_range;
use crate::group::is_orient;
use crate::group::is_perm;
use crate::group::lemma_count_lt_bounds;
use crate::group::lemma_count_lt_step_bound;
use crate::group::lemma_count_lt_succ;
use crate::group::lemma_distinct_bounded_counts;
use crate::group::Orientation;
use crate::group::Permutation;
use vstd::arithmetic::power::pow;
use vstd::prelude::*;

verus! {

/// `n` factorial.
pub open spec fn fact(n: nat) -> nat
    decreases n,
{
    if n == 0 {
        1
    } else {
        n * fact((n - 1) as nat)
    }
}

pub proof fn lemma_fact_pos(n: nat)
    ensures
        fact(n) >= 1,
    decreases n,
{
    if n > 0 {
        lemma_fact_pos((n - 1) as nat);
        let f = fact((n - 1) as nat) as int;
        assert(fact(n) == n * fact((n - 1) as nat));
        assert(n * f >= f) by (nonlinear_arith)
            requires
                n >= 1,
                f >= 0,
        ;
    }
}

pub proof fn lemma_fact_mono(m: nat, n: nat)
    requires
        m <= n,
    ensures
        fact(m) <= fact(n),
    decreases n,
{
    if m < n {
        lemma_fact_mono(m, (n - 1) as nat);
        lemma_fact_pos((n - 1) as nat);
        let f = fact((n - 1) as nat) as int;
        assert(fact(n) == n * fact((n - 1) as nat));
        assert(n * f >= f) by (nonlinear_arith)
            requires
                n >= 1,
                f >= 0,
        ;
    }
}

pub proof fn lemma_fact_20()
    ensures
        fact(20) == 2432902008176640000,
{
    reveal_with_fuel(fact, 21);
}

/// Largest `n` whose factorial fits a `u64` coordinate.
pub const MAX_PERM_LEN: usize = 20;

pub fn factorial(n: u64) -> (r: u64)
    requires
        n <= MAX_PERM_LEN as u64,
    ensures
        r == fact(n as nat),
    decreases n,
{
    proof {
        lemma_fact_mono(n as nat, 20);
        lemma_fact_20();
    }
    if n == 0 {
        1
    } else {
        let sub: u64 = factorial(n - 1);
        proof {
            assert(fact(n as nat) == n * fact((n - 1) as nat));
        }
        n * sub
    }
}

pub proof fn lemma_pow_3_8()
    ensures
        pow(3, 8) == 6561,
{
    reveal_with_fuel(vstd::arithmetic::power::pow, 9);
}

pub proof fn lemma_pow_2_12()
    ensures
        pow(2, 12) == 4096,
{
    reveal_with_fuel(vstd::arithmetic::power::pow, 13);
}

pub proof fn lemma_fact_8()
    ensures
        fact(8) == 40320,
{
    reveal_with_fuel(fact, 9);
}

pub proof fn lemma_fact_12()
    ensures
        fact(12) == 479001600,
{
    reveal_with_fuel(fact, 13);
}

/// The Lehmer digit of `s` at position `p`: how many later positions hold
/// a smaller value.
pub open spec fn lehmer_digit(s: Seq<u8>, p: int) -> int {
    count_lt_range(s, p + 1, s.len() as int, s[p])
}

/// The factorial-base value of the Lehmer digits of `s` at positions
/// `p` and later.
pub open spec fn perm_rank_from(s: Seq<u8>, p: int) -> int
    decreases s.len() - p,
{
    if p < 0 || p >= s.len() {
        0
    } else {
        lehmer_digit(s, p) * fact((s.len() - 1 - p) as nat) + perm_rank_from(s, p + 1)
    }
}

/// The Lehmer rank of a permutation vector, in `[0, len!)`.
pub open spec fn perm_rank(s: Seq<u8>) -> int {
    perm_rank_from(s, 0)
}

/// The mixed-radix value of the entries of `s` at positions `p` and
/// later, over radix `states`.
pub open spec fn orient_rank_from(s: Seq<u8>, states: nat, p: int) -> int
    decreases s.len() - p,
{
    if p < 0 || p >= s.len() {
        0
    } else {
        s[p] * pow(states as int, (s.len() - 1 - p) as nat) + orient_rank_from(s, states, p + 1)
    }
}

/// The mixed-radix rank of an orientation vector, in `[0, states^len)`.
pub open spec fn orient_rank(s: Seq<u8>, states: nat) -> int {
    orient_rank_from(s, states, 0)
}

pub proof fn lemma_perm_rank_from_bounds(s: Seq<u8>, p: int)
    requires
        0 <= p <= s.len(),
    ensures
        0 <= perm_rank_from(s, p) < fact((s.len() - p) as nat),
    decreases s.len() - p,
{
    let n = s.len() as int;
    if p == n {
        lemma_fact_pos((n - p) as nat);
    } else {
        lemma_perm_rank_from_bounds(s, p + 1);
        lemma_count_lt_bounds(s, p + 1, n, s[p]);
        lemma_fact_pos((n - 1 - p) as nat);
        let d = lehmer_digit(s, p);
        let f = fact((n - 1 - p) as nat) as int;
        assert(fact((n - p) as nat) == (n - p) * fact((n - 1 - p) as nat));
        assert(d * f >= 0) by (nonlinear_arith)
            requires
                d >= 0,
                f >= 0,
        ;
        assert(d * f + f <= (n - p) * f) by (nonlinear_arith)
            requires
                d <= n - 1 - p,
                f >= 1,
        ;
    }
}

pub proof fn lemma_orient_rank_from_bounds(s: Seq<u8>, states: nat, p: int)
    requires
        0 <= p <= s.len(),
        is_orient(s, s.len(), states),
        states >= 1,
    ensures
        0 <= orient_rank_from(s, states, p) < pow(states as int, (s.len() - p) as nat),
    decreases s.len() - p,
{
    let n = s.len() as int;
    let b = states as int;
    if p == n {
        vstd::arithmetic::power::lemma_pow_positive(b, (n - p) as nat);
    } else {
        lemma_orient_rank_from_bounds(s, states, p + 1);
        vstd::arithmetic::power::lemma_pow_positive(b, (n - 1 - p) as nat);
        let w = pow(b, (n - 1 - p) as nat);
        assert(pow(b, (n - p) as nat) == b * w) by {
            vstd::arithmetic::power::lemma_pow_adds(b, 1, (n - 1 - p) as nat);
            vstd::arithmetic::power::lemma_pow1(b);
        }
        assert(s[p] * w >= 0) by (nonlinear_arith)
            requires
                s[p] >= 0,
                w >= 0,
        ;
        assert(s[p] * w + w <= b * w) by (nonlinear_arith)
            requires
                s[p] <= b - 1,
                w >= 1,
        ;
    }
}

/// Counts over a range depend only on the entries in that range.
pub proof fn lemma_count_lt_agree(a: Seq<u8>, b: Seq<u8>, lo: int, hi: int, v: u8)
    requires
        a.len() == b.len(),
        forall|j: int| lo <= j < hi && 0 <= j && j < a.len() ==> a[j] == b[j],
    ensures
        count_lt_range(a, lo, hi, v) == count_lt_range(b, lo, hi, v),
    decreases hi - lo,
{
    if !(lo < 0 || lo >= hi || hi > a.len()) {
        lemma_count_lt_agree(a, b, lo + 1, hi, v);
    }
}

/// Two ranges whose entries fall on the same side of their respective
/// thresholds have equal counts.
pub proof fn lemma_count_lt_pointwise(a: Seq<u8>, b: Seq<u8>, lo: int, hi: int, va: u8, vb: u8)
    requires
        a.len() == b.len(),
        forall|j: int| lo <= j < hi && 0 <= j && j < a.len() ==> ((a[j] < va) <==> (b[j] < vb)),
    ensures
        count_lt_range(a, lo, hi, va) == count_lt_range(b, lo, hi, vb),
    decreases hi - lo,
{
    if !(lo < 0 || lo >= hi || hi > a.len()) {
        lemma_count_lt_pointwise(a, b, lo + 1, hi, va, vb);
    }
}

/// Extending a count range by one position on the right.
pub proof fn lemma_count_lt_extend(s: Seq<u8>, lo: int, hi: int, v: u8)
    requires
        0 <= lo <= hi < s.len(),
    ensures
        count_lt_range(s, lo, hi + 1, v) == count_lt_range(s, lo, hi, v) + (if s[hi] < v {
            1int
        } else {
            0int
        }),
    decreases hi - lo,
{
    if lo < hi {
        lemma_count_lt_extend(s, lo + 1, hi, v);
    } else {
        assert(count_lt_range(s, lo + 1, hi + 1, v) == 0);
        assert(count_lt_range(s, lo, hi, v) == 0);
    }
}

/// Factorial-base values agree when all digits from `p` on agree.
pub proof fn lemma_perm_rank_from_digits(a: Seq<u8>, b: Seq<u8>, p: int)
    requires
        a.len() == b.len(),
        forall|q: int| p <= q < a.len() && 0 <= q ==> lehmer_digit(a, q) == lehmer_digit(b, q),
    ensures
        perm_rank_from(a, p) == perm_rank_from(b, p),
    decreases a.len() - p,
{
    if !(p < 0 || p >= a.len()) {
        lemma_perm_rank_from_digits(a, b, p + 1);
    }
}

/// Mixed-radix values agree when the entries from `p` on agree.
pub proof fn lemma_orient_rank_from_agree(a: Seq<u8>, b: Seq<u8>, states: nat, p: int)
    requires
        a.len() == b.len(),
        forall|q: int| p <= q < a.len() && 0 <= q ==> a[q] == b[q],
    ensures
        orient_rank_from(a, states, p) == orient_rank_from(b, states, p),
    decreases a.len() - p,
{
    if !(p < 0 || p >= a.len()) {
        lemma_orient_rank_from_agree(a, b, states, p + 1);
    }
}

impl Permutation {
    /// The Lehmer rank of this vector: accumulate
    /// `t = t * (n - p) + (later entries smaller than entry p)` across the
    /// positions from the left.
    pub fn to_int(&self) -> (r: u64)
        requires
            self.wf(),
            self.n <= MAX_PERM_LEN,
        ensures
            r == perm_rank(self.pv@),
    {
        let n: usize = self.n;
        let ghost s = self.pv@;
        proof {
            lemma_perm_rank_from_bounds(s, 0);
            lemma_fact_mono(n as nat, 20);
            lemma_fact_20();
        }
        let mut t: u64 = 0;
        let mut p: usize = 0;
        while p < n
            invariant
                p <= n,
                n == self.n <= 20,
                self.wf(),
                s == self.pv@,
                t * fact((n - p) as nat) + perm_rank_from(s, p as int) == perm_rank(s),
                0 <= perm_rank(s) < fact(n as nat) <= fact(20) == 2432902008176640000,
            decreases n - p,
        {
            let mut c: u64 = 0;
            let mut j: usize = p + 1;
            while j < n
                invariant
                    p < j <= n,
                    n == self.n <= 20,
                    self.wf(),
                    s == self.pv@,
                    c == count_lt_range(s, p as int + 1, j as int, s[p as int]),
                    c <= j,
                decreases n - j,
            {
                proof {
                    lemma_count_lt_extend(s, p as int + 1, j as int, s[p as int]);
                }
                if self.pv[j] < self.pv[p] {
                    c = c + 1;
                }
                j = j + 1;
            }
            proof {
                assert(c == lehmer_digit(s, p as int));
                lemma_perm_rank_from_bounds(s, p as int);
                lemma_perm_rank_from_bounds(s, p as int + 1);
                lemma_fact_pos((n - p - 1) as nat);
                let f1 = fact((n - p) as nat) as int;
                let f2 = fact((n - p - 1) as nat) as int;
                assert(f1 == (n - p) * f2);
                assert(t * f1 <= perm_rank(s));
                assert(t * (n - p) <= t * f1) by (nonlinear_arith)
                    requires
                        f1 == (n - p) * f2,
                        f2 >= 1,
                        t >= 0,
                        n - p >= 0,
                ;
                assert((t * (n - p) + c) * f2 == t * f1 + c * f2) by (nonlinear_arith)
                    requires
                        f1 == (n - p) * f2,
                ;
                assert((t * (n - p) + c) * f2 + perm_rank_from(s, p as int + 1) == perm_rank(
                    s,
                ));
                assert(c * f2 + perm_rank_from(s, p as int + 1) == perm_rank_from(
                    s,
                    p as int,
                ));
                assert((t * (n - p) + c) * f2 <= perm_rank(s));
                assert(t * (n - p) + c <= (t * (n - p) + c) * f2) by (nonlinear_arith)
                    requires
                        f2 >= 1,
                        t * (n - p) + c >= 0,
                ;
            }
            t = t * ((n - p) as u64) + c;
            p = p + 1;
        }
        proof {
            assert(p == n);
            assert(fact(0) == 1);
            assert(fact((n - p) as nat) == 1);
            assert(perm_rank_from(s, p as int) == 0);
            assert(t * fact((n - p) as nat) == t) by (nonlinear_arith)
                requires
                    fact((n - p) as nat) == 1,
            ;
            assert(t == perm_rank(s));
        }
        t
    }

    /// Decode a Lehmer rank back into the unique permutation vector that
    /// ranks to it: extract digits by repeated division from the right,
    /// repairing index collisions by incrementing later entries.
    pub fn from_int(coord: u64, length: usize) -> (r: Permutation)
        requires
            length <= MAX_PERM_LEN,
            coord < fact(length as nat),
        ensures
            r.n == length,
            r.valid(),
            perm_rank(r.pv@) == coord,
    {
        let n: usize = length;
        let mut perm: Vec<u8> = Vec::new();
        let mut z: usize = 0;
        while z < n
            invariant
                z <= n,
                perm@.len() == z,
                forall|q: int| 0 <= q < z ==> perm@[q] == 0u8,
            decreases n - z,
        {
            perm.push(0u8);
            z = z + 1;
        }
        if n == 0 {
            return Permutation { n, pv: perm };
        }
        let mut rem: u64 = coord;
        let mut i: usize = n - 1;
        proof {
            assert(fact(0) == 1);
            assert(fact(1) == 1);
            assert forall|v: u8| (v as int) <= 1 implies #[trigger] count_lt_range(
                perm@,
                n - 1,
                n as int,
                v,
            ) == v as int by {
                assert(count_lt_range(perm@, n as int, n as int, v) == 0);
            }
            assert(count_lt_range(perm@, n as int, n as int, perm@[n - 1]) == 0);
            assert(perm_rank_from(perm@, n as int) == 0);
            assert(perm_rank_from(perm@, n - 1) == 0);
            assert(fact((n - (n - 1)) as nat) == 1);
            assert(coord == rem * fact((n - (n - 1)) as nat) + perm_rank_from(
                perm@,
                n - 1,
            ));
        }
        while i >= 1
            invariant
                i < n <= 20,
                perm@.len() == n,
                rem <= coord,
                coord < fact(n as nat),
                // entries in the processed suffix are distinct
                forall|a: int, b: int| i <= a < b < n ==> perm@[a] != perm@[b],
                // entries in the processed suffix lie below its length
                forall|a: int| i <= a < n ==> (perm@[a] as int) < n - i,
                // the processed suffix holds exactly v values below v
                forall|v: u8| (v as int) <= n - i ==> #[trigger] count_lt_range(
                    perm@,
                    i as int,
                    n as int,
                    v,
                ) == v as int,
                // digits extracted so far recombine with the remainder
                coord == rem * fact((n - i) as nat) + perm_rank_from(perm@, i as int),
            decreases i,
        {
            let p: usize = i - 1;
            let radix: u64 = (n - p) as u64;
            let d: u64 = rem % radix;
            let rem2: u64 = rem / radix;
            let ghost s0 = perm@;
            perm.set(p, d as u8);
            let ghost s1 = perm@;
            let mut j: usize = i;
            while j < n
                invariant
                    i <= j <= n,
                    i == p + 1,
                    p < n <= 20,
                    perm@.len() == n,
                    s1.len() == n,
                    d < n - p,
                    s1[p as int] == d as u8,
                    forall|q: int| 0 <= q < i ==> perm@[q] == s1[q],
                    forall|q: int| i <= q < j ==> perm@[q] == (if s1[q] >= d as u8 {
                        (s1[q] + 1) as u8
                    } else {
                        s1[q]
                    }),
                    forall|q: int| j <= q < n ==> perm@[q] == s1[q],
                    forall|a: int| i <= a < n ==> (s1[a] as int) < n - i,
                decreases n - j,
            {
                let e: u8 = perm[j];
                proof {
                    assert(perm@[j as int] == s1[j as int]);
                    assert((s1[j as int] as int) < n - i);
                    assert(e < 20);
                }
                if e >= d as u8 {
                    perm.set(j, e + 1);
                }
                j = j + 1;
            }
            let ghost f = perm@;
            proof {
                lemma_unrank_step(s0, s1, f, n as nat, i as int, d as int);
                // rebuild the remainder equation
                let np: int = n - p;
                vstd::arithmetic::div_mod::lemma_fundamental_div_mod(rem as int, np as int);
                let f1 = fact((n - i) as nat) as int;
                let f2 = fact((n - p) as nat) as int;
                assert(f2 == np * f1);
                assert((rem2 * np + d) * f1 == rem2 * f2 + d * f1) by (nonlinear_arith)
                    requires
                        f2 == np * f1,
                ;
                assert(perm_rank_from(f, p as int) == d * f1 + perm_rank_from(s0, i as int));
                assert(rem == np * rem2 + d);
                assert(coord == rem * f1 + perm_rank_from(s0, i as int));
                assert(rem * f1 == (rem2 * np + d) * f1) by (nonlinear_arith)
                    requires
                        rem == np * rem2 + d,
                ;
                assert(coord == rem2 * f2 + perm_rank_from(f, p as int));
                // the new remainder still fits
                lemma_perm_rank_from_bounds(f, p as int);
                lemma_fact_pos((n - p) as nat);
                assert(rem2 * f2 <= coord) by (nonlinear_arith)
                    requires
                        coord == rem2 * f2 + perm_rank_from(f, p as int),
                        perm_rank_from(f, p as int) >= 0,
                ;
                assert(rem2 <= rem2 * f2) by (nonlinear_arith)
                    requires
                        f2 >= 1,
                        rem2 >= 0,
                ;
            }
            rem = rem2;
            i = p;
        }
        proof {
            assert(i == 0);
            lemma_perm_rank_from_bounds(perm@, 0);
            let fn_ = fact(n as nat) as int;
            if rem >= 1 {
                assert(rem * fn_ >= fn_) by (nonlinear_arith)
                    requires
                        rem >= 1,
                        fn_ >= 0,
                ;
            }
            assert(rem == 0);
            assert(is_perm(perm@, n as nat));
        }
        Permutation { n, pv: perm }
    }
}

impl Orientation {
    /// The mixed-radix rank of this vector: accumulate
    /// `t = t * states + entry` across the positions from the left.
    pub fn to_int(&self) -> (r: u64)
        requires
            self.valid(),
            pow(self.states as int, self.n as nat) <= u64::MAX,
        ensures
            r == orient_rank(self.ov@, self.states as nat),
    {
        let n: usize = self.n;
        let b: u64 = self.states as u64;
        let ghost s = self.ov@;
        let ghost st = self.states as nat;
        proof {
            lemma_orient_rank_from_bounds(s, st, 0);
        }
        let mut t: u64 = 0;
        let mut p: usize = 0;
        while p < n
            invariant
                p <= n,
                n == self.n,
                b == self.states,
                self.valid(),
                s == self.ov@,
                st == self.states as nat,
                st >= 1,
                t * pow(st as int, (n - p) as nat) + orient_rank_from(s, st, p as int)
                    == orient_rank(s, st),
                0 <= orient_rank(s, st) < pow(st as int, n as nat) <= u64::MAX,
            decreases n - p,
        {
            proof {
                lemma_orient_rank_from_bounds(s, st, p as int);
                lemma_orient_rank_from_bounds(s, st, p as int + 1);
                let w1 = pow(st as int, (n - p) as nat);
                let w2 = pow(st as int, (n - p - 1) as nat);
                vstd::arithmetic::power::lemma_pow_positive(st as int, (n - p - 1) as nat);
                assert(w1 == st * w2) by {
                    vstd::arithmetic::power::lemma_pow_adds(st as int, 1, (n - p - 1) as nat);
                    vstd::arithmetic::power::lemma_pow1(st as int);
                }
                assert(t * w1 <= orient_rank(s, st));
                assert(t * b <= t * w1) by (nonlinear_arith)
                    requires
                        w1 == b * w2,
                        w2 >= 1,
                        t >= 0,
                        b >= 0,
                ;
                assert((t * b + s[p as int]) * w2 == t * w1 + s[p as int] * w2)
                    by (nonlinear_arith)
                    requires
                        w1 == b * w2,
                ;
                assert((t * b + s[p as int]) * w2 + orient_rank_from(s, st, p as int + 1)
                    == orient_rank(s, st));
                assert(t * b + s[p as int] <= (t * b + s[p as int]) * w2) by (nonlinear_arith)
                    requires
                        w2 >= 1,
                        t * b + s[p as int] >= 0,
                ;
            }
            t = t * b + (self.ov[p] as u64);
            p = p + 1;
        }
        proof {
            assert(p == n);
            vstd::arithmetic::power::lemma_pow0(st as int);
            assert(orient_rank_from(s, st, p as int) == 0);
            assert(t * pow(st as int, (n - p) as nat) == t) by (nonlinear_arith)
                requires
                    pow(st as int, (n - p) as nat) == 1,
            ;
        }
        t
    }

    /// Decode a mixed-radix rank back into the unique orientation vector
    /// that ranks to it, filling positions from the right by repeated
    /// division.
    pub fn from_int(coord: u64, length: usize, states: u8) -> (r: Orientation)
        requires
            states >= 1,
            coord < pow(states as int, length as nat),
        ensures
            r.n == length,
            r.states == states,
            r.valid(),
            orient_rank(r.ov@, states as nat) == coord,
    {
        let n: usize = length;
        let ghost st = states as nat;
        let mut ov: Vec<u8> = Vec::new();
        let mut z: usize = 0;
        while z < n
            invariant
                z <= n,
                ov@.len() == z,
                forall|q: int| 0 <= q < z ==> ov@[q] == 0u8,
            decreases n - z,
        {
            ov.push(0u8);
            z = z + 1;
        }
        let mut rem: u64 = coord;
        let mut i: usize = n;
        proof {
            vstd::arithmetic::power::lemma_pow0(st as int);
            assert(orient_rank_from(ov@, st, n as int) == 0);
        }
        while i >= 1
            invariant
                i <= n,
                ov@.len() == n,
                st == states as nat,
                st >= 1,
                coord < pow(st as int, n as nat),
                forall|q: int| 0 <= q < i ==> ov@[q] == 0u8,
                forall|q: int| i <= q < n ==> (ov@[q] as int) < states,
                coord == rem * pow(st as int, (n - i) as nat) + orient_rank_from(
                    ov@,
                    st,
                    i as int,
                ),
            decreases i,
        {
            let p: usize = i - 1;
            let d: u64 = rem % (states as u64);
            let rem2: u64 = rem / (states as u64);
            let ghost s0 = ov@;
            ov.set(p, d as u8);
            proof {
                lemma_orient_rank_from_agree(ov@, s0, st, i as int);
                vstd::arithmetic::div_mod::lemma_fundamental_div_mod(
                    rem as int,
                    states as int,
                );
                let w1 = pow(st as int, (n - i) as nat);
                let w2 = pow(st as int, (n - p) as nat);
                vstd::arithmetic::power::lemma_pow_positive(st as int, (n - i) as nat);
                assert(w2 == st * w1) by {
                    vstd::arithmetic::power::lemma_pow_adds(st as int, 1, (n - i) as nat);
                    vstd::arithmetic::power::lemma_pow1(st as int);
                }
                assert(rem == states * rem2 + d);
                assert(coord == rem * w1 + orient_rank_from(s0, st, i as int));
                assert(rem * w1 == rem2 * w2 + d * w1) by (nonlinear_arith)
                    requires
                        rem == states * rem2 + d,
                        w2 == states * w1,
                ;
                assert(orient_rank_from(ov@, st, p as int) == d * w1 + orient_rank_from(
                    s0,
                    st,
                    i as int,
                ));
                assert(coord == rem2 * w2 + orient_rank_from(ov@, st, p as int));
                assert(is_orient(ov@, n as nat, st));
                lemma_orient_rank_from_bounds(ov@, st, p as int);
                assert(rem2 * w2 <= coord) by (nonlinear_arith)
                    requires
                        coord == rem2 * w2 + orient_rank_from(ov@, st, p as int),
                        orient_rank_from(ov@, st, p as int) >= 0,
                ;
            }
            rem = rem2;
            i = p;
        }
        proof {
            assert(i == 0);
            let wn = pow(st as int, n as nat);
            if rem >= 1 {
                assert(rem * wn >= wn) by (nonlinear_arith)
                    requires
                        rem >= 1,
                        wn >= 0,
                ;
            }
            lemma_orient_rank_from_bounds(ov@, st, 0);
            assert(rem == 0);
        }
        Orientation { n, states, ov }
    }
}

/// Mixed-radix ranking is injective: two valid orientation vectors with
/// the same rank are equal.
pub proof fn lemma_orient_rank_injective(a: Seq<u8>, b: Seq<u8>, n: nat, states: nat)
    requires
        is_orient(a, n, states),
        is_orient(b, n, states),
        states >= 1,
        orient_rank(a, states) == orient_rank(b, states),
    ensures
        a == b,
{
    lemma_orient_rank_from_injective(a, b, n, states, 0);
    assert(a =~= b);
}

proof fn lemma_orient_rank_from_injective(a: Seq<u8>, b: Seq<u8>, n: nat, states: nat, p: int)
    requires
        is_orient(a, n, states),
        is_orient(b, n, states),
        states >= 1,
        0 <= p <= n,
        orient_rank_from(a, states, p) == orient_rank_from(b, states, p),
    ensures
        forall|q: int| p <= q < n ==> a[q] == b[q],
    decreases n - p,
{
    if p < n {
        let w = pow(states as int, (n - 1 - p) as nat);
        vstd::arithmetic::power::lemma_pow_positive(states as int, (n - 1 - p) as nat);
        lemma_orient_rank_from_bounds(a, states, p + 1);
        lemma_orient_rank_from_bounds(b, states, p + 1);
        let x = orient_rank_from(a, states, p);
        vstd::arithmetic::div_mod::lemma_fundamental_div_mod_converse(
            x,
            w,
            a[p] as int,
            orient_rank_from(a, states, p + 1),
        );
        vstd::arithmetic::div_mod::lemma_fundamental_div_mod_converse(
            x,
            w,
            b[p] as int,
            orient_rank_from(b, states, p + 1),
        );
        assert(a[p] == b[p]);
        lemma_orient_rank_from_injective(a, b, n, states, p + 1);
    }
}

/// For a valid permutation, the Lehmer digit at `p` is the entry at `p`
/// minus the number of earlier positions holding a smaller value.
proof fn lemma_lehmer_digit_front(s: Seq<u8>, n: nat, p: int)
    requires
        is_perm(s, n),
        0 <= p < n,
    ensures
        lehmer_digit(s, p) == s[p] - count_lt_range(s, 0, p, s[p]),
{
    let hi = n as int;
    crate::group::lemma_perm_bound(s, n);
    lemma_distinct_bounded_counts(s, 0, hi, hi);
    assert(count_lt_range(s, 0, hi, s[p]) == s[p] as int);
    lemma_count_lt_split(s, 0, p + 1, hi, s[p]);
    lemma_count_lt_extend(s, 0, p, s[p]);
}

/// A `<`-count over a range is the sum of the counts over its two halves.
proof fn lemma_count_lt_split(s: Seq<u8>, lo: int, mid: int, hi: int, v: u8)
    requires
        0 <= lo <= mid <= hi <= s.len(),
    ensures
        count_lt_range(s, lo, hi, v) == count_lt_range(s, lo, mid, v) + count_lt_range(
            s,
            mid,
            hi,
            v,
        ),
    decreases mid - lo,
{
    if lo < mid {
        lemma_count_lt_split(s, lo + 1, mid, hi, v);
    } else {
        assert(count_lt_range(s, lo, mid, v) == 0);
    }
}

/// Valid permutations that agree up to `p` and diverge at `p` rank in the
/// order of their entries at `p`.
proof fn lemma_perm_rank_from_strict(a: Seq<u8>, b: Seq<u8>, n: nat, p: int)
    requires
        is_perm(a, n),
        is_perm(b, n),
        0 <= p < n,
        forall|q: int| 0 <= q < p ==> a[q] == b[q],
        a[p] < b[p],
    ensures
        perm_rank_from(a, p) < perm_rank_from(b, p),
{
    let hi = n as int;
    let da = lehmer_digit(a, p);
    let db = lehmer_digit(b, p);
    lemma_lehmer_digit_front(a, n, p);
    lemma_lehmer_digit_front(b, n, p);
    // the two prefixes agree, so their counts agree
    lemma_count_lt_agree(a, b, 0, p, b[p]);
    // between the two thresholds the prefix holds at most the gap minus one
    lemma_count_lt_step_bound(a, 0, p, (a[p] + 1) as u8, b[p]);
    lemma_count_lt_succ(a, 0, p, a[p]);
    crate::group::lemma_count_eq_absent(a, 0, p, a[p]);
    assert(count_lt_range(a, 0, p, b[p]) <= count_lt_range(a, 0, p, a[p]) + (b[p] - a[p] - 1));
    assert(db >= da + 1);
    let f = fact((n - 1 - p) as nat) as int;
    lemma_fact_pos((n - 1 - p) as nat);
    lemma_perm_rank_from_bounds(a, p + 1);
    lemma_perm_rank_from_bounds(b, p + 1);
    assert(da * f + f <= db * f) by (nonlinear_arith)
        requires
            da + 1 <= db,
            f >= 1,
    ;
    assert(db * f <= db * f + perm_rank_from(b, p + 1));
}

/// Lehmer ranking is injective: two valid permutations of the same
/// length with the same rank are equal.
pub proof fn lemma_perm_rank_injective(a: Seq<u8>, b: Seq<u8>, n: nat)
    requires
        is_perm(a, n),
        is_perm(b, n),
        perm_rank(a) == perm_rank(b),
    ensures
        a == b,
{
    lemma_perm_rank_from_injective(a, b, n, 0);
    assert(a =~= b);
}

proof fn lemma_perm_rank_from_injective(a: Seq<u8>, b: Seq<u8>, n: nat, p: int)
    requires
        is_perm(a, n),
        is_perm(b, n),
        0 <= p <= n,
        forall|q: int| 0 <= q < p ==> a[q] == b[q],
        perm_rank_from(a, p) == perm_rank_from(b, p),
    ensures
        forall|q: int| p <= q < n ==> a[q] == b[q],
    decreases n - p,
{
    if p < n {
        if a[p] < b[p] {
            lemma_perm_rank_from_strict(a, b, n, p);
        } else if b[p] < a[p] {
            lemma_perm_rank_from_strict(b, a, n, p);
        }
        assert(a[p] == b[p]);
        // equal prefixes through p give equal digits at p
        lemma_lehmer_digit_front(a, n, p);
        lemma_lehmer_digit_front(b, n, p);
        lemma_count_lt_agree(a, b, 0, p, a[p]);
        assert(lehmer_digit(a, p) == lehmer_digit(b, p));
        assert(perm_rank_from(a, p + 1) == perm_rank_from(b, p + 1));
        lemma_perm_rank_from_injective(a, b, n, p + 1);
    }
}

/// One step of Lehmer decoding: writing digit `d` at position `i - 1` of
/// a sequence whose suffix from `i` is a partial permutation, then
/// incrementing suffix entries at or above `d`, extends the partial
/// permutation one slot leftward and prepends `d` to its digits.
proof fn lemma_unrank_step(s0: Seq<u8>, s1: Seq<u8>, f: Seq<u8>, n: nat, i: int, d: int)
    requires
        1 <= i < n <= 20,
        s0.len() == n,
        s1.len() == n,
        f.len() == n,
        0 <= d < n - i + 1,
        s1 == s0.update(i - 1, d as u8),
        forall|q: int| 0 <= q < i ==> f[q] == s1[q],
        forall|q: int| i <= q < n ==> f[q] == (if s1[q] >= d as u8 {
            (s1[q] + 1) as u8
        } else {
            s1[q]
        }),
        forall|a: int, b: int| i <= a < b < n ==> s0[a] != s0[b],
        forall|a: int| i <= a < n ==> (s0[a] as int) < n - i,
        forall|v: u8| (v as int) <= n - i ==> #[trigger] count_lt_range(s0, i, n as int, v)
            == v as int,
    ensures
        forall|a: int, b: int| i - 1 <= a < b < n ==> f[a] != f[b],
        forall|a: int| i - 1 <= a < n ==> (f[a] as int) < n - i + 1,
        forall|v: u8| (v as int) <= n - i + 1 ==> #[trigger] count_lt_range(f, i - 1, n as int, v)
            == v as int,
        perm_rank_from(f, i - 1) == d * fact((n - i) as nat) + perm_rank_from(s0, i),
{
    let p = i - 1;
    let hi = n as int;
    assert(forall|q: int| i <= q < n ==> s1[q] == s0[q]);
    assert(f[p] == d as u8);
    // distinctness of the new suffix
    assert forall|a: int, b: int| p <= a < b < n implies f[a] != f[b] by {
        if a == p {
            if s1[b] >= d as u8 {
                assert(f[b] == s1[b] + 1);
            }
        } else {
            assert(s1[a] != s1[b]);
        }
    }
    // bound on the new suffix
    assert forall|a: int| p <= a < n implies (f[a] as int) < n - i + 1 by {
        if a > p {
            assert((s1[a] as int) < n - i);
        }
    }
    // counts for the new suffix
    assert forall|v: u8| (v as int) <= n - i + 1 implies #[trigger] count_lt_range(
        f,
        p,
        hi,
        v,
    ) == v as int by {
        assert(count_lt_range(f, p, hi, v) == (if f[p] < v {
            1int
        } else {
            0int
        }) + count_lt_range(f, p + 1, hi, v));
        if (v as int) <= d {
            // small thresholds see the shifted entries unchanged
            lemma_count_lt_pointwise(f, s0, i, hi, v, v);
            assert(count_lt_range(s0, i, hi, v) == v as int);
        } else {
            // larger thresholds absorb the shift and count the new digit
            let w = (v - 1) as u8;
            assert forall|q: int| i <= q < hi implies ((f[q] < v) <==> (s0[q] < w)) by {
                if s0[q] >= d as u8 {
                    assert(f[q] == s0[q] + 1);
                }
            }
            lemma_count_lt_pointwise(f, s0, i, hi, v, w);
            assert(count_lt_range(s0, i, hi, w) == w as int);
        }
    }
    // the digit written at p is d
    assert(lehmer_digit(f, p) == d) by {
        assert forall|q: int| i <= q < hi implies ((f[q] < d as u8) <==> (s0[q] < d as u8)) by {
            if s0[q] >= d as u8 {
                assert(f[q] == s0[q] + 1);
            }
        }
        lemma_count_lt_pointwise(f, s0, i, hi, d as u8, d as u8);
        assert(count_lt_range(s0, i, hi, d as u8) == d);
    }
    // digits at later positions are untouched by the shift
    assert forall|q: int| i <= q < n implies lehmer_digit(f, q) == lehmer_digit(s0, q) by {
        assert forall|j: int| q + 1 <= j < hi implies ((f[j] < f[q]) <==> (s0[j] < s0[q])) by {
            assert(s1[j] == s0[j]);
            assert(s1[q] == s0[q]);
        }
        lemma_count_lt_pointwise(f, s0, q + 1, hi, f[q], s0[q]);
    }
    lemma_perm_rank_from_digits(f, s0, i);
    assert(perm_rank_from(f, p) == lehmer_digit(f, p) * fact((n - 1 - p) as nat)
        + perm_rank_from(f, i));
}


impl CubeSlow {
    /// The four coordinate integers of this full-cube state: corner
    /// orientation, corner permutation, edge orientation, edge
    /// permutation.
    pub fn to_coordinates(&self) -> (r: (u64, u64, u64, u64))
        requires
            self.wf(),
            self.is_333,
        ensures
            r.0 == orient_rank(self@.co, 3),
            r.1 == perm_rank(self@.cp),
            r.2 == orient_rank(self@.eo, 2),
            r.3 == perm_rank(self@.ep),
    {
        proof {
            lemma_pow_3_8();
            lemma_pow_2_12();
        }
        let co: u64 = Orientation::new(8, 3, copy_vec(&self.co)).to_int();
        let cp: u64 = Permutation::new(8, copy_vec(&self.cp)).to_int();
        let eo: u64 = Orientation::new(12, 2, copy_vec(self.eo.as_ref().unwrap())).to_int();
        let ep: u64 = Permutation::new(12, copy_vec(self.ep.as_ref().unwrap())).to_int();
        (co, cp, eo, ep)
    }

    /// The unique full-cube state whose four coordinates are the given
    /// integers.
    pub fn from_coordinates(co: u64, cp: u64, eo: u64, ep: u64) -> (r: CubeSlow)
        requires
            co < 6561,
            cp < 40320,
            eo < 4096,
            ep < fact(12),
        ensures
            r.wf(),
            r.is_333,
            orient_rank(r@.co, 3) == co,
            perm_rank(r@.cp) == cp,
            orient_rank(r@.eo, 2) == eo,
            perm_rank(r@.ep) == ep,
    {
        proof {
            lemma_pow_3_8();
            lemma_pow_2_12();
            lemma_fact_8();
            lemma_fact_12();
            lemma_fact_mono(12, 20);
        }
        let oc = Orientation::from_int(co, 8, 3);
        let pc = Permutation::from_int(cp, 8);
        let oe = Orientation::from_int(eo, 12, 2);
        let pe = Permutation::from_int(ep, 12);
        CubeSlow::from_params(Some(oc.ov), Some(pc.pv), Some(oe.ov), Some(pe.pv), true)
    }
}

} // verus!
