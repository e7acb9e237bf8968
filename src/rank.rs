use vstd::prelude::*;
use crate::embedding::{DIM, MAX_SLOT};
use crate::score::{Score, score_le, score_eq, frac_le, score_fraction, fraction_le};

verus! {

/// Scores whose squared similarity fits the fraction comparison.
pub open spec fn score_bounded(s: Score) -> bool {
    &&& s.dot as int <= DIM as int * (MAX_SLOT as int * MAX_SLOT as int)
    &&& s.record_norm_sq as int <= DIM as int * (MAX_SLOT as int * MAX_SLOT as int)
    &&& s.query_norm_sq as int <= DIM as int * (MAX_SLOT as int * MAX_SLOT as int)
}

/// Entry `i` comes before entry `j`: a higher similarity, or the same
/// similarity and an earlier position.
pub open spec fn ranks_above(s: Seq<Score>, i: int, j: int) -> bool {
    !score_le(s[i], s[j]) || (score_eq(s[i], s[j]) && i < j)
}

/// `ord` lists the positions of the best `k` entries of `s`, best first; ties
/// keep the order of `s`.
pub open spec fn is_top_ranking(s: Seq<Score>, ord: Seq<int>, k: int) -> bool {
    &&& ord.len() == (if k < s.len() { k } else { s.len() as int })
    &&& forall|t: int| 0 <= t < ord.len() ==> 0 <= #[trigger] ord[t] < s.len()
    &&& forall|a: int, b: int|
        0 <= a < b < ord.len() ==> ranks_above(s, #[trigger] ord[a], #[trigger] ord[b])
    &&& forall|t: int, j: int|
        0 <= t < ord.len() && 0 <= j < s.len() && !ord.contains(j) ==> #[trigger] ranks_above(s, ord[t], j)
}

pub proof fn lemma_den_pos(s: Score)
    ensures
        s.den() > 0,
        s.num() >= 0,
{
    if s.record_norm_sq != 0 && s.query_norm_sq != 0 {
        let x = s.record_norm_sq as int;
        let y = s.query_norm_sq as int;
        let d = s.dot as int;
        assert(x * y > 0) by (nonlinear_arith)
            requires x > 0, y > 0;
        assert(d * d >= 0) by (nonlinear_arith);
    }
}

proof fn lemma_frac_trans(n1: int, d1: int, n2: int, d2: int, n3: int, d3: int)
    requires
        d1 > 0,
        d2 > 0,
        d3 > 0,
    ensures
        frac_le(n1, d1, n2, d2) && frac_le(n2, d2, n3, d3) ==> frac_le(n1, d1, n3, d3),
        !frac_le(n2, d2, n1, d1) && frac_le(n2, d2, n3, d3) ==> !frac_le(n3, d3, n1, d1),
        frac_le(n1, d1, n2, d2) && !frac_le(n3, d3, n2, d2) ==> !frac_le(n3, d3, n1, d1),
{
    if n1 * d2 <= n2 * d1 && n2 * d3 <= n3 * d2 {
        assert(n1 * d3 <= n3 * d1) by (nonlinear_arith)
            requires n1 * d2 <= n2 * d1, n2 * d3 <= n3 * d2, d1 > 0, d2 > 0, d3 > 0;
    }
    if n1 * d2 < n2 * d1 && n2 * d3 <= n3 * d2 {
        assert(n1 * d3 < n3 * d1) by (nonlinear_arith)
            requires n1 * d2 < n2 * d1, n2 * d3 <= n3 * d2, d1 > 0, d2 > 0, d3 > 0;
    }
    if n1 * d2 <= n2 * d1 && n2 * d3 < n3 * d2 {
        assert(n1 * d3 < n3 * d1) by (nonlinear_arith)
            requires n1 * d2 <= n2 * d1, n2 * d3 < n3 * d2, d1 > 0, d2 > 0, d3 > 0;
    }
}

proof fn lemma_ranks_trans(s: Seq<Score>, i: int, j: int, k: int)
    requires
        ranks_above(s, i, j),
        ranks_above(s, j, k),
        0 <= i < s.len(),
        0 <= j < s.len(),
        0 <= k < s.len(),
    ensures
        ranks_above(s, i, k),
{
    lemma_den_pos(s[i]);
    lemma_den_pos(s[j]);
    lemma_den_pos(s[k]);
    lemma_frac_trans(s[k].num(), s[k].den(), s[j].num(), s[j].den(), s[i].num(), s[i].den());
    lemma_frac_trans(s[i].num(), s[i].den(), s[j].num(), s[j].den(), s[k].num(), s[k].den());
}

proof fn lemma_ranks_total(s: Seq<Score>, i: int, j: int)
    requires
        i != j,
    ensures
        ranks_above(s, i, j) || ranks_above(s, j, i),
{
}

/// Whether entry `i` ranks above entry `j`.
fn above(scores: &Vec<Score>, i: usize, j: usize) -> (r: bool)
    requires
        i < scores@.len(),
        j < scores@.len(),
        score_bounded(scores@[i as int]),
        score_bounded(scores@[j as int]),
    ensures
        r == ranks_above(scores@, i as int, j as int),
{
    let (pi, qi) = score_fraction(&scores[i]);
    let (pj, qj) = score_fraction(&scores[j]);
    let i_le_j = fraction_le(pi, qi, pj, qj);
    if !i_le_j {
        true
    } else {
        fraction_le(pj, qj, pi, qi) && i < j
    }
}

/// Positions of the `k` best entries of `scores`, best first, ties in order
/// of position.
pub fn top_ranked(scores: &Vec<Score>, k: usize) -> (ord: Vec<usize>)
    requires
        forall|i: int| 0 <= i < scores@.len() ==> #[trigger] score_bounded(scores@[i]),
    ensures
        is_top_ranking(scores@, ord@.map_values(|x: usize| x as int), k as int),
{
    let n = scores.len();
    let limit = if k < n { k } else { n };
    let mut taken: Vec<bool> = vec![false; n];
    let mut ord: Vec<usize> = Vec::new();
    while ord.len() < limit
        invariant
            n == scores@.len(),
            limit <= n,
            limit == (if k < n { k } else { n }),
            forall|i: int| 0 <= i < scores@.len() ==> #[trigger] score_bounded(scores@[i]),
            ord@.len() <= limit,
            taken@.len() == n,
            forall|t: int| 0 <= t < ord@.len() ==> #[trigger] ord@[t] < n,
            forall|j: int| 0 <= j < n ==> (#[trigger] taken@[j] <==> ord@.contains(j as usize)),
            forall|a: int, b: int|
                0 <= a < b < ord@.len() ==> ranks_above(
                    scores@,
                    #[trigger] ord@[a] as int,
                    #[trigger] ord@[b] as int,
                ),
            forall|t: int, j: int|
                0 <= t < ord@.len() && 0 <= j < n && !taken@[j] ==> #[trigger] ranks_above(scores@, ord@[t] as int, j),
        decreases limit - ord@.len(),
    {
        proof {
            lemma_some_free(ord@, n as int);
        }
        let mut best: usize = n;
        let mut j: usize = 0;
        while j < n
            invariant
                n == scores@.len(),
                taken@.len() == n,
                j <= n,
                forall|i: int| 0 <= i < scores@.len() ==> #[trigger] score_bounded(scores@[i]),
                best == n || (best < j && !taken@[best as int]),
                forall|x: int|
                    0 <= x < j && !#[trigger] taken@[x] ==> best < n && (x == best as int
                        || ranks_above(scores@, best as int, x)),
            decreases n - j,
        {
            if !taken[j] {
                if best == n {
                    best = j;
                } else if above(scores, j, best) {
                    proof {
                        assert forall|x: int|
                            0 <= x < j && !#[trigger] taken@[x] && x != best as int implies ranks_above(
                            scores@,
                            j as int,
                            x,
                        ) by {
                            lemma_ranks_trans(scores@, j as int, best as int, x);
                        }
                    }
                    best = j;
                } else {
                    proof {
                        lemma_ranks_total(scores@, j as int, best as int);
                    }
                }
            }
            j = j + 1;
        }
        proof {
            let x = choose|x: int| 0 <= x < n && !#[trigger] ord@.contains(x as usize);
            assert(!taken@[x]);
        }
        let ghost prev = ord@;
        let ghost prev_taken = taken@;
        taken.set(best, true);
        ord.push(best);
        proof {
            assert forall|j: int| 0 <= j < n implies (#[trigger] taken@[j] <==> ord@.contains(
                j as usize,
            )) by {
                if j == best as int {
                    assert(ord@[prev.len() as int] == best);
                } else {
                    if ord@.contains(j as usize) {
                        let t = choose|t: int| 0 <= t < ord@.len() && ord@[t] == j as usize;
                        assert(t < prev.len());
                        assert(prev.contains(j as usize));
                    }
                    if prev.contains(j as usize) {
                        let t = choose|t: int| 0 <= t < prev.len() && prev[t] == j as usize;
                        assert(ord@[t] == j as usize);
                    }
                }
            }
            assert forall|a: int, b: int|
                0 <= a < b < ord@.len() implies ranks_above(
                scores@,
                #[trigger] ord@[a] as int,
                #[trigger] ord@[b] as int,
            ) by {
                if b == prev.len() {
                    assert(!prev_taken[best as int]);
                }
            }
        }
    }
    proof {
        let m = ord@.map_values(|x: usize| x as int);
        assert forall|t: int, j: int|
            0 <= t < m.len() && 0 <= j < scores@.len() && !m.contains(j) implies #[trigger] ranks_above(scores@, m[t], j) by {
            if taken@[j] {
                assert(ord@.contains(j as usize));
                let u = choose|u: int| 0 <= u < ord@.len() && ord@[u] == j as usize;
                assert(m[u] == j);
            }
        }
    }
    ord
}

/// Fewer than `n` positions leave some position below `n` out.
proof fn lemma_some_free(ord: Seq<usize>, n: int)
    requires
        ord.len() < n,
        n <= usize::MAX + 1,
    ensures
        exists|j: int| 0 <= j < n && !#[trigger] ord.contains(j as usize),
{
    if forall|j: int| 0 <= j < n ==> #[trigger] ord.contains(j as usize) {
        let f = |j: usize| j as int;
        let s = Set::new(|j: int| 0 <= j < n);
        let img = ord.to_set().map(f);
        assert forall|j: int| #[trigger] s.contains(j) implies img.contains(j) by {
            assert(ord.contains(j as usize));
            assert(ord.to_set().contains(j as usize));
            assert(f(j as usize) == j);
        }
        vstd::set_lib::lemma_int_range(0, n);
        assert(s =~= vstd::set_lib::set_int_range(0, n));
        ord.lemma_cardinality_of_set();
        vstd::set_lib::lemma_map_size(ord.to_set(), img, f);
        vstd::set_lib::lemma_len_subset(s, img);
    }
}

} // verus!
