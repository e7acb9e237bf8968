use vstd::prelude::*;
use vstd::string::StringSliceAdditionalSpecFns;
use crate::embedding::{DIM, slot_sums, zero_sums, embedding_of, lemma_slot_sums_len};
use crate::rank::lemma_den_pos;
use crate::score::{Score, dot, dot_upto, score_of, score_le};
use crate::search::scores_of;
use crate::store::{NoteRecord, records_wf, record_wf, upserted, has_name, vector_wf};

verus! {

/// The embedding is a function of the text alone: equal texts embed equally.
pub proof fn lemma_embed_deterministic(a: &str, b: &str)
    requires
        a@ == b@,
    ensures
        embedding_of(a.spec_bytes()) == embedding_of(b.spec_bytes()),
{
}

/// The empty text embeds to the zero vector.
pub proof fn lemma_embed_empty_is_zero()
    ensures
        slot_sums(Seq::<u8>::empty()) == zero_sums(),
{
}

proof fn lemma_slot_sums_nonneg(b: Seq<u8>)
    ensures
        forall|k: int| 0 <= k < DIM ==> #[trigger] slot_sums(b)[k] >= 0,
    decreases b.len(),
{
    lemma_slot_sums_len(b);
    if b.len() > 0 {
        lemma_slot_sums_nonneg(b.drop_last());
        lemma_slot_sums_len(b.drop_last());
    }
}

/// A text with a non-zero byte embeds to a non-zero vector, so that its
/// normalised embedding has unit length: the slot of that byte is positive.
pub proof fn lemma_embed_nonzero(b: Seq<u8>, i: int)
    requires
        0 <= i < b.len(),
        b[i] != 0,
    ensures
        slot_sums(b)[i % (DIM as int)] > 0,
    decreases b.len(),
{
    lemma_slot_sums_len(b);
    lemma_slot_sums_len(b.drop_last());
    lemma_slot_sums_nonneg(b.drop_last());
    if i < b.len() - 1 {
        lemma_embed_nonzero(b.drop_last(), i);
    }
}

/// Upserting a record leaves exactly one record under its file name, keeps
/// the store well formed, and grows it only when the name was new.
pub proof fn lemma_upsert_single(s: Seq<NoteRecord>, r: NoteRecord)
    requires
        records_wf(s),
        record_wf(r),
    ensures
        records_wf(upserted(s, r)),
        exists|i: int|
            0 <= i < upserted(s, r).len() && #[trigger] upserted(s, r)[i] == r && forall|j: int|
                0 <= j < upserted(s, r).len() && upserted(s, r)[j].filename@ == r.filename@ ==> j
                    == i,
        upserted(s, r).len() == if has_name(s, r.filename@) {
            s.len()
        } else {
            s.len() + 1
        },
{
    let u = upserted(s, r);
    if has_name(s, r.filename@) {
        let i = choose|i: int| 0 <= i < s.len() && #[trigger] s[i].filename@ == r.filename@;
        assert(u[i] == r);
        assert forall|j: int| 0 <= j < u.len() && u[j].filename@ == r.filename@ implies j == i by {
            if j != i {
                assert(s[j].filename@ != s[i].filename@);
            }
        }
        assert forall|x: int, y: int|
            0 <= x < u.len() && 0 <= y < u.len() && x != y implies #[trigger] u[x].filename@
            != #[trigger] u[y].filename@ by {
            if x != i && y != i {
                assert(s[x].filename@ != s[y].filename@);
            } else if x == i {
                assert(s[y].filename@ != s[i].filename@);
            } else {
                assert(s[x].filename@ != s[i].filename@);
            }
        }
        assert(records_wf(u));
    } else {
        let i = s.len() as int;
        assert(u[i] == r);
        assert forall|j: int| 0 <= j < u.len() && u[j].filename@ == r.filename@ implies j == i by {
            if j != i {
                assert(s[j].filename@ == r.filename@);
            }
        }
        assert forall|x: int, y: int|
            0 <= x < u.len() && 0 <= y < u.len() && x != y implies #[trigger] u[x].filename@
            != #[trigger] u[y].filename@ by {
            if x != i && y != i {
                assert(s[x].filename@ != s[y].filename@);
            } else if x == i {
                assert(s[y].filename@ != r.filename@);
            } else {
                assert(s[x].filename@ != r.filename@);
            }
        }
        assert(records_wf(u));
    }
}

/// Two upserts under different file names both stay visible, in either order
/// of arrival: no update is lost when the keys differ.
pub proof fn lemma_distinct_upserts_kept(s: Seq<NoteRecord>, a: NoteRecord, b: NoteRecord)
    requires
        records_wf(s),
        record_wf(a),
        record_wf(b),
        a.filename@ != b.filename@,
    ensures
        upserted(upserted(s, a), b).contains(a),
        upserted(upserted(s, a), b).contains(b),
        upserted(upserted(s, b), a).contains(a),
        upserted(upserted(s, b), a).contains(b),
{
    lemma_upsert_after(s, a, b);
    lemma_upsert_after(s, b, a);
}

proof fn lemma_upsert_after(s: Seq<NoteRecord>, a: NoteRecord, b: NoteRecord)
    requires
        records_wf(s),
        record_wf(a),
        record_wf(b),
        a.filename@ != b.filename@,
    ensures
        upserted(upserted(s, a), b).contains(a),
        upserted(upserted(s, a), b).contains(b),
{
    lemma_upsert_single(s, a);
    let u = upserted(s, a);
    let ia = choose|i: int|
        0 <= i < u.len() && #[trigger] u[i] == a && forall|j: int|
            0 <= j < u.len() && u[j].filename@ == a.filename@ ==> j == i;
    lemma_upsert_single(u, b);
    let w = upserted(u, b);
    let ib = choose|i: int|
        0 <= i < w.len() && #[trigger] w[i] == b && forall|j: int|
            0 <= j < w.len() && w[j].filename@ == b.filename@ ==> j == i;
    assert(w.contains(b));
    if has_name(u, b.filename@) {
        let k = choose|k: int| 0 <= k < u.len() && #[trigger] u[k].filename@ == b.filename@;
        assert(k != ia);
        assert(w[ia] == a);
    } else {
        assert(w[ia] == a);
    }
}

/// Two records that read the same: equal file names, texts and vectors.
pub open spec fn same_record(a: NoteRecord, b: NoteRecord) -> bool {
    &&& a.filename@ == b.filename@
    &&& a.content@ == b.content@
    &&& a.vector@ == b.vector@
}

/// Re-indexing a note that the store already holds unchanged gives back the
/// same records, so saving a loaded store after such an upsert writes the
/// state that was read.
pub proof fn lemma_reindex_unchanged(s: Seq<NoteRecord>, r: NoteRecord, k: int)
    requires
        records_wf(s),
        0 <= k < s.len(),
        same_record(s[k], r),
    ensures
        upserted(s, r).len() == s.len(),
        forall|i: int| 0 <= i < s.len() ==> #[trigger] same_record(upserted(s, r)[i], s[i]),
{
    assert(s[k].filename@ == r.filename@);
    assert(has_name(s, r.filename@));
    let i = choose|i: int| 0 <= i < s.len() && #[trigger] s[i].filename@ == r.filename@;
    if i != k {
        assert(s[i].filename@ != s[k].filename@);
    }
    assert forall|j: int| 0 <= j < s.len() implies #[trigger] same_record(upserted(s, r)[j], s[j]) by {
        if j == i {
            assert(upserted(s, r)[j] == r);
        }
    }
}

proof fn lemma_step_cs(a: int, b: int, c: int, x: int, y: int)
    requires
        a >= 0,
        b >= 0,
        c >= 0,
        x >= 0,
        y >= 0,
        c * c <= a * b,
    ensures
        (c + x * y) * (c + x * y) <= (a + x * x) * (b + y * y),
{
    let u = a * (y * y) + b * (x * x);
    let v = 2 * c * (x * y);
    let p = (x * y) * (x * y);
    let abp = (a * b) * p;
    let ccp = (c * c) * p;
    assert(u >= 0) by (nonlinear_arith)
        requires a >= 0, b >= 0, u == a * (y * y) + b * (x * x);
    assert(v >= 0) by (nonlinear_arith)
        requires c >= 0, x >= 0, y >= 0, v == 2 * c * (x * y);
    assert(u * u >= 4 * abp) by (nonlinear_arith)
        requires u == a * (y * y) + b * (x * x), abp == (a * b) * ((x * y) * (x * y));
    assert(abp >= ccp) by (nonlinear_arith)
        requires c * c <= a * b, abp == (a * b) * p, ccp == (c * c) * p, p == (x * y) * (x * y);
    assert(v * v == 4 * ccp) by (nonlinear_arith)
        requires v == 2 * c * (x * y), ccp == (c * c) * ((x * y) * (x * y));
    assert(u >= v) by (nonlinear_arith)
        requires u >= 0, v >= 0, u * u >= v * v;
    assert((c + x * y) * (c + x * y) == c * c + v + (x * y) * (x * y)) by (nonlinear_arith)
        requires v == 2 * c * (x * y);
    assert((a + x * x) * (b + y * y) == a * b + u + (x * y) * (x * y)) by (nonlinear_arith)
        requires u == a * (y * y) + b * (x * x);
}

proof fn lemma_cauchy_schwarz_upto(r: Seq<u64>, q: Seq<u64>, n: int)
    requires
        0 <= n <= r.len(),
        n <= q.len(),
    ensures
        dot_upto(r, q, n) * dot_upto(r, q, n) <= dot_upto(r, r, n) * dot_upto(q, q, n),
        dot_upto(r, q, n) >= 0,
        dot_upto(r, r, n) >= 0,
        dot_upto(q, q, n) >= 0,
    decreases n,
{
    if n > 0 {
        lemma_cauchy_schwarz_upto(r, q, n - 1);
        let x = r[n - 1] as int;
        let y = q[n - 1] as int;
        assert(x * y >= 0 && x * x >= 0 && y * y >= 0) by (nonlinear_arith)
            requires x >= 0, y >= 0;
        lemma_step_cs(dot_upto(r, r, n - 1), dot_upto(q, q, n - 1), dot_upto(r, q, n - 1), x, y);
    }
}

/// Cosine similarity never exceeds that of the query with itself: a record
/// whose vector equals the query's has the highest score of the store, and
/// that score is exactly one when the query vector is not zero.
pub proof fn lemma_exact_match_is_best(recs: Seq<NoteRecord>, q: Seq<u64>, i: int)
    requires
        records_wf(recs),
        0 <= i < recs.len(),
        recs[i].vector@ == q,
    ensures
        forall|j: int|
            0 <= j < recs.len() ==> score_le(
                #[trigger] scores_of(recs, q)[j],
                scores_of(recs, q)[i],
            ),
        dot(q, q) != 0 ==> scores_of(recs, q)[i].num() == scores_of(recs, q)[i].den(),
{
    let s = scores_of(recs, q);
    assert(record_wf(recs[i]));
    lemma_cauchy_schwarz_upto(q, q, DIM as int);
    assert forall|j: int| 0 <= j < recs.len() implies score_le(#[trigger] s[j], s[i]) by {
        let r = recs[j].vector@;
        assert(record_wf(recs[j]));
        lemma_cauchy_schwarz_upto(r, q, DIM as int);
        lemma_dot_fits(r, q);
        lemma_dot_fits(r, r);
        lemma_dot_fits(q, q);
        lemma_den_pos(s[j]);
        let c = dot(r, q);
        let a = dot(r, r);
        let b = dot(q, q);
        assert(s[i] == score_of(q, q));
        assert(s[j] == score_of(r, q));
        if b == 0 {
            assert(s[j].num() == 0);
            assert(s[i].num() == 0);
        } else if a == 0 {
            assert(s[j].num() == 0);
            assert(s[i].num() == b * b);
            assert(b * b >= 0) by (nonlinear_arith);
            assert(s[i].num() * s[j].den() >= 0) by (nonlinear_arith)
                requires s[i].num() >= 0, s[j].den() > 0;
        } else {
            assert(s[j].num() == c * c && s[j].den() == a * b);
            assert(s[i].num() == b * b && s[i].den() == b * b);
            assert(c * c * (b * b) <= (b * b) * (a * b)) by (nonlinear_arith)
                requires c * c <= a * b, b >= 0;
        }
    }
    lemma_dot_fits(q, q);
    assert(s[i] == score_of(q, q));
}

proof fn lemma_dot_fits(r: Seq<u64>, q: Seq<u64>)
    requires
        vector_wf(r),
        vector_wf(q),
    ensures
        0 <= dot(r, q) <= u64::MAX,
        dot(r, q) as u64 as int == dot(r, q),
{
    crate::score::lemma_dot_bound(r, q, DIM as int);
}

} // verus!
