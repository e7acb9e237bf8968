use vstd::prelude::*;
use vstd::string::StringSliceAdditionalSpecFns;
use crate::embedding::{DIM, MAX_SLOT, MAX_TEXT_BYTES, simple_embed, embedding_of};
use crate::rank::{is_top_ranking, score_bounded, top_ranked};
use crate::score::{Score, score_of, cosine_score, lemma_dot_bound};
use crate::store::{NoteRecord, VectorStore, vector_wf};

verus! {

/// Most results a search returns.
pub const TOP_K: usize = 5;

/// Characters of a note's content kept in a result.
pub const SNIPPET_CHARS: usize = 200;

/// One ranked note.
pub struct SearchResult {
    pub title: String,
    pub path: String,
    pub score: Score,
    pub content_snippet: String,
}

/// The first `SNIPPET_CHARS` characters of `c`.
pub open spec fn snippet_of(c: Seq<char>) -> Seq<char> {
    if c.len() <= SNIPPET_CHARS {
        c
    } else {
        c.take(SNIPPET_CHARS as int)
    }
}

/// Score of every record of `recs` against the query vector `q`.
pub open spec fn scores_of(recs: Seq<NoteRecord>, q: Seq<u64>) -> Seq<Score> {
    Seq::new(recs.len(), |i: int| score_of(recs[i].vector@, q))
}

/// `res` is the result that record `rec` gives against the query vector `q`.
pub open spec fn result_for(res: SearchResult, rec: NoteRecord, q: Seq<u64>) -> bool {
    &&& res.title@ == rec.filename@
    &&& res.path@ == rec.filename@
    &&& res.score == score_of(rec.vector@, q)
    &&& res.content_snippet@ == snippet_of(rec.content@)
}

/// `r` lists, best first, the results of the records that `ord` ranks.
pub open spec fn results_in_order(
    r: Seq<SearchResult>,
    recs: Seq<NoteRecord>,
    q: Seq<u64>,
    ord: Seq<int>,
) -> bool {
    &&& r.len() == ord.len()
    &&& forall|t: int| 0 <= t < ord.len() ==> result_for(#[trigger] r[t], recs[ord[t]], q)
}

/// The first `SNIPPET_CHARS` characters of `content`.
pub fn snippet(content: &String) -> (r: String)
    ensures
        r@ == snippet_of(content@),
{
    let s = content.as_str();
    let n = s.unicode_len();
    let end = if n < SNIPPET_CHARS { n } else { SNIPPET_CHARS };
    let r = s.substring_char(0, end).to_owned();
    proof {
        if content@.len() <= SNIPPET_CHARS {
            assert(content@.subrange(0, end as int) =~= content@);
        }
    }
    r
}

/// A query short enough to be ranked yields a well-formed vector.
pub proof fn lemma_query_vector_wf(v: Seq<u64>, len: int)
    requires
        v.len() == DIM,
        0 <= len <= MAX_TEXT_BYTES,
        forall|k: int| 0 <= k < DIM ==> #[trigger] v[k] <= 255 * (len / (DIM as int) + 1),
    ensures
        vector_wf(v),
{
    assert(len / (DIM as int) <= 43690);
    assert forall|k: int| 0 <= k < v.len() implies #[trigger] v[k] <= MAX_SLOT by {
        assert(v[k] <= 255 * (len / (DIM as int) + 1));
    }
}

/// Ranks every record of `store` by cosine similarity to `query` and returns
/// the best `TOP_K`, best first; equal scores keep the order of the store.
/// A query longer than `MAX_TEXT_BYTES` bytes cannot be embedded for ranking
/// and finds nothing.
pub fn search(store: &VectorStore, query: &str) -> (r: Vec<SearchResult>)
    requires
        store.wf(),
    ensures
        store.records@.len() == 0 ==> r@.len() == 0,
        forall|t: int| 0 <= t < r@.len() ==> #[trigger] score_bounded(r@[t].score),
        query.spec_bytes().len() > MAX_TEXT_BYTES ==> r@.len() == 0,
        query.spec_bytes().len() <= MAX_TEXT_BYTES ==> exists|ord: Seq<int>|
            #[trigger] is_top_ranking(
                scores_of(store.records@, embedding_of(query.spec_bytes())),
                ord,
                TOP_K as int,
            ) && results_in_order(
                r@,
                store.records@,
                embedding_of(query.spec_bytes()),
                ord,
            ),
{
    if query.as_bytes().len() > MAX_TEXT_BYTES {
        return Vec::new();
    }
    let qv = simple_embed(query);
    let ghost q = embedding_of(query.spec_bytes());
    proof {
        lemma_query_vector_wf(qv@, query.spec_bytes().len() as int);
    }
    let n = store.records.len();
    let mut scores: Vec<Score> = Vec::new();
    let mut i: usize = 0;
    while i < n
        invariant
            n == store.records@.len(),
            store.wf(),
            qv@ == q,
            vector_wf(q),
            i <= n,
            scores@.len() == i,
            forall|j: int| 0 <= j < i ==> #[trigger] scores@[j] == score_of(store.records@[j].vector@, q),
            forall|j: int| 0 <= j < i ==> #[trigger] score_bounded(scores@[j]),
        decreases n - i,
    {
        let rec = &store.records[i];
        proof {
            assert(crate::store::record_wf(store.records@[i as int]));
            lemma_dot_bound(rec.vector@, q, DIM as int);
            lemma_dot_bound(rec.vector@, rec.vector@, DIM as int);
            lemma_dot_bound(q, q, DIM as int);
        }
        let s = cosine_score(&rec.vector, &qv);
        scores.push(s);
        i = i + 1;
    }
    proof {
        assert(scores@ =~= scores_of(store.records@, q));
        assert(forall|j: int| 0 <= j < n ==> #[trigger] score_bounded(scores@[j]));
    }
    let ord = top_ranked(&scores, TOP_K);
    let ghost ordi = ord@.map_values(|x: usize| x as int);
    let mut results: Vec<SearchResult> = Vec::new();
    let mut t: usize = 0;
    while t < ord.len()
        invariant
            n == store.records@.len(),
            scores@ == scores_of(store.records@, q),
            is_top_ranking(scores@, ordi, TOP_K as int),
            ordi == ord@.map_values(|x: usize| x as int),
            t <= ord@.len(),
            results@.len() == t,
            forall|u: int| 0 <= u < t ==> result_for(#[trigger] results@[u], store.records@[ordi[u]], q),
            forall|u: int| 0 <= u < t ==> #[trigger] score_bounded(results@[u].score),
            forall|j: int| 0 <= j < n ==> #[trigger] score_bounded(scores@[j]),
        decreases ord@.len() - t,
    {
        let j = ord[t];
        assert(ordi[t as int] == j as int);
        let rec = &store.records[j];
        let res = SearchResult {
            title: rec.filename.clone(),
            path: rec.filename.clone(),
            score: scores[j],
            content_snippet: snippet(&rec.content),
        };
        results.push(res);
        t = t + 1;
    }
    proof {
        assert(results_in_order(results@, store.records@, q, ordi));
    }
    results
}

} // verus!
