use vstd::prelude::*;
use crate::embedding::{DIM, MAX_SLOT};
use crate::store::vector_wf;

verus! {

/// Sum of the products of the first `n` slots of `a` and `b`.
pub open spec fn dot_upto(a: Seq<u64>, b: Seq<u64>, n: int) -> int
    decreases n,
{
    if n <= 0 {
        0
    } else {
        dot_upto(a, b, n - 1) + a[n - 1] as int * b[n - 1] as int
    }
}

pub open spec fn dot(a: Seq<u64>, b: Seq<u64>) -> int {
    dot_upto(a, b, DIM as int)
}

/// Cosine similarity of a stored vector and a query vector, kept exact.
///
/// The similarity is `dot / sqrt(record_norm_sq * query_norm_sq)`, and `0`
/// when either squared norm is `0`. All slots are non-negative, so the
/// similarity lies in `[0, 1]`.
#[derive(Clone, Copy, Debug, PartialEq, Eq)]
pub struct Score {
    pub dot: u64,
    pub record_norm_sq: u64,
    pub query_norm_sq: u64,
}

impl Score {
    /// Numerator of the squared similarity.
    pub open spec fn num(&self) -> int {
        if self.record_norm_sq == 0 || self.query_norm_sq == 0 {
            0
        } else {
            self.dot as int * self.dot as int
        }
    }

    /// Denominator of the squared similarity; always positive.
    pub open spec fn den(&self) -> int {
        if self.record_norm_sq == 0 || self.query_norm_sq == 0 {
            1
        } else {
            self.record_norm_sq as int * self.query_norm_sq as int
        }
    }
}

/// The score of `r` against `q`, from the two vectors.
pub open spec fn score_of(r: Seq<u64>, q: Seq<u64>) -> Score {
    Score { dot: dot(r, q) as u64, record_norm_sq: dot(r, r) as u64, query_norm_sq: dot(q, q) as u64 }
}

/// Fraction `n1 / d1` is at most `n2 / d2` (denominators positive).
pub open spec fn frac_le(n1: int, d1: int, n2: int, d2: int) -> bool {
    n1 * d2 <= n2 * d1
}

/// Similarity of `a` is at most that of `b`.
pub open spec fn score_le(a: Score, b: Score) -> bool {
    frac_le(a.num(), a.den(), b.num(), b.den())
}

/// Equal similarity.
pub open spec fn score_eq(a: Score, b: Score) -> bool {
    score_le(a, b) && score_le(b, a)
}

pub proof fn lemma_dot_bound(a: Seq<u64>, b: Seq<u64>, n: int)
    requires
        vector_wf(a),
        vector_wf(b),
        0 <= n <= DIM,
    ensures
        0 <= dot_upto(a, b, n) <= n * (MAX_SLOT as int * MAX_SLOT as int),
    decreases n,
{
    if n > 0 {
        lemma_dot_bound(a, b, n - 1);
        let x = a[n - 1] as int;
        let y = b[n - 1] as int;
        assert(0 <= x * y <= MAX_SLOT as int * MAX_SLOT as int) by (nonlinear_arith)
            requires 0 <= x <= MAX_SLOT as int, 0 <= y <= MAX_SLOT as int;
    }
}

/// Exact dot product of two well-formed vectors.
pub fn dot_product(a: &Vec<u64>, b: &Vec<u64>) -> (r: u64)
    requires
        vector_wf(a@),
        vector_wf(b@),
    ensures
        r as int == dot(a@, b@),
{
    let mut acc: u64 = 0;
    let mut k: usize = 0;
    while k < DIM
        invariant
            vector_wf(a@),
            vector_wf(b@),
            k <= DIM,
            acc as int == dot_upto(a@, b@, k as int),
        decreases DIM - k,
    {
        proof {
            lemma_dot_bound(a@, b@, k as int + 1);
        }
        acc = acc + a[k] * b[k];
        k = k + 1;
    }
    acc
}

/// The exact score of a stored vector against a query vector.
pub fn cosine_score(r: &Vec<u64>, q: &Vec<u64>) -> (s: Score)
    requires
        vector_wf(r@),
        vector_wf(q@),
    ensures
        s == score_of(r@, q@),
        s.dot as int == dot(r@, q@),
        s.record_norm_sq as int == dot(r@, r@),
        s.query_norm_sq as int == dot(q@, q@),
{
    Score { dot: dot_product(r, q), record_norm_sq: dot_product(r, r), query_norm_sq: dot_product(q, q) }
}

proof fn lemma_score_bounds(s: Score)
    requires
        s.dot as int <= DIM as int * (MAX_SLOT as int * MAX_SLOT as int),
        s.record_norm_sq as int <= DIM as int * (MAX_SLOT as int * MAX_SLOT as int),
        s.query_norm_sq as int <= DIM as int * (MAX_SLOT as int * MAX_SLOT as int),
    ensures
        0 <= s.num() < 0x1_0000_0000_0000_0000_0000_0000_0000_0000,
        0 < s.den() < 0x1_0000_0000_0000_0000_0000_0000_0000_0000,
{
    let m = DIM as int * (MAX_SLOT as int * MAX_SLOT as int);
    assert(m < 0x200_0000_0000_0000);
    assert(m * m < 0x1_0000_0000_0000_0000_0000_0000_0000_0000) by (nonlinear_arith)
        requires 0 <= m < 0x200_0000_0000_0000;
    let d = s.dot as int;
    let x = s.record_norm_sq as int;
    let y = s.query_norm_sq as int;
    assert(0 <= d * d <= m * m) by (nonlinear_arith)
        requires 0 <= d <= m;
    assert(0 <= x * y <= m * m) by (nonlinear_arith)
        requires 0 <= x <= m, 0 <= y <= m;
    assert(x != 0 && y != 0 ==> x * y > 0) by (nonlinear_arith)
        requires 0 <= x, 0 <= y;
}

/// The squared similarity as a fraction `(num, den)` of machine integers.
pub fn score_fraction(s: &Score) -> (r: (u128, u128))
    requires
        s.dot as int <= DIM as int * (MAX_SLOT as int * MAX_SLOT as int),
        s.record_norm_sq as int <= DIM as int * (MAX_SLOT as int * MAX_SLOT as int),
        s.query_norm_sq as int <= DIM as int * (MAX_SLOT as int * MAX_SLOT as int),
    ensures
        r.0 as int == s.num(),
        r.1 as int == s.den(),
        r.1 > 0,
{
    proof {
        lemma_score_bounds(*s);
    }
    if s.record_norm_sq == 0 || s.query_norm_sq == 0 {
        (0, 1)
    } else {
        let d = s.dot as u128;
        (d * d, s.record_norm_sq as u128 * s.query_norm_sq as u128)
    }
}

/// Compares two non-negative fractions by their continued-fraction expansions,
/// so that no product of the operands is ever formed.
pub fn fraction_le(n1: u128, d1: u128, n2: u128, d2: u128) -> (r: bool)
    requires
        d1 > 0,
        d2 > 0,
    ensures
        r == frac_le(n1 as int, d1 as int, n2 as int, d2 as int),
    decreases d1 + d2,
{
    let a1 = n1 / d1;
    let a2 = n2 / d2;
    let r1 = n1 % d1;
    let r2 = n2 % d2;
    proof {
        lemma_frac_split(n1 as int, d1 as int, n2 as int, d2 as int);
    }
    if a1 != a2 {
        a1 < a2
    } else if r1 == 0 {
        true
    } else if r2 == 0 {
        false
    } else {
        fraction_le(d2, r2, d1, r1)
    }
}

proof fn lemma_frac_split(n1: int, d1: int, n2: int, d2: int)
    requires
        n1 >= 0,
        n2 >= 0,
        d1 > 0,
        d2 > 0,
    ensures
        n1 / d1 < n2 / d2 ==> frac_le(n1, d1, n2, d2),
        n1 / d1 > n2 / d2 ==> !frac_le(n1, d1, n2, d2),
        n1 / d1 == n2 / d2 ==> (frac_le(n1, d1, n2, d2) <==> (n1 % d1) * d2 <= (n2 % d2) * d1),
        n1 / d1 == n2 / d2 && n1 % d1 == 0 ==> frac_le(n1, d1, n2, d2),
        n1 / d1 == n2 / d2 && n1 % d1 > 0 && n2 % d2 == 0 ==> !frac_le(n1, d1, n2, d2),
        n1 / d1 == n2 / d2 && n1 % d1 > 0 && n2 % d2 > 0 ==> (frac_le(n1, d1, n2, d2) <==> frac_le(d2, n2 % d2, d1, n1 % d1)),
{
    let a1 = n1 / d1;
    let a2 = n2 / d2;
    let r1 = n1 % d1;
    let r2 = n2 % d2;
    assert(n1 == a1 * d1 + r1 && 0 <= r1 < d1) by {
        vstd::arithmetic::div_mod::lemma_fundamental_div_mod(n1, d1);
    }
    assert(n2 == a2 * d2 + r2 && 0 <= r2 < d2) by {
        vstd::arithmetic::div_mod::lemma_fundamental_div_mod(n2, d2);
    }
    assert(n1 * d2 - n2 * d1 == (a1 - a2) * d1 * d2 + r1 * d2 - r2 * d1) by (nonlinear_arith)
        requires n1 == a1 * d1 + r1, n2 == a2 * d2 + r2;
    if a1 < a2 {
        assert((a1 - a2) * d1 * d2 <= -(d1 * d2)) by (nonlinear_arith)
            requires a1 < a2, d1 > 0, d2 > 0;
        assert(r1 * d2 < d1 * d2) by (nonlinear_arith)
            requires 0 <= r1 < d1, d2 > 0;
        assert(r2 * d1 >= 0) by (nonlinear_arith)
            requires r2 >= 0, d1 > 0;
    }
    if a1 > a2 {
        assert((a1 - a2) * d1 * d2 >= d1 * d2) by (nonlinear_arith)
            requires a1 > a2, d1 > 0, d2 > 0;
        assert(r2 * d1 < d2 * d1) by (nonlinear_arith)
            requires 0 <= r2 < d2, d1 > 0;
        assert(r1 * d2 >= 0) by (nonlinear_arith)
            requires r1 >= 0, d2 > 0;
    }
    if a1 == a2 {
        assert((a1 - a2) * d1 * d2 == 0) by (nonlinear_arith)
            requires a1 == a2;
        assert(r1 * d2 == d2 * r1 && r2 * d1 == d1 * r2) by (nonlinear_arith);
        assert(r2 * d1 >= 0) by (nonlinear_arith)
            requires r2 >= 0, d1 > 0;
        assert(r1 > 0 ==> r1 * d2 > 0) by (nonlinear_arith)
            requires r1 >= 0, d2 > 0;
        assert(r1 == 0 ==> r1 * d2 == 0);
        assert(r2 == 0 ==> r2 * d1 == 0);
    }
}

} // verus!
