use vstd::prelude::*;
use vstd::string::StringSliceAdditionalSpecFns;
use crate::embedding::{MAX_TEXT_BYTES, embedding_of};
use crate::rank::{is_top_ranking, score_bounded};
use crate::score::{fraction_le, frac_le, score_fraction, lemma_dot_bound};
use crate::text::{digit_char, digit_str};
use crate::embedding::DIM;
use crate::score::{Score, score_of};
use crate::search::{SearchResult, TOP_K, search, scores_of, snippet, snippet_of};
use crate::store::{NoteRecord, VectorStore};

verus! {

/// The extractive answer to a question: the best-matching note, or nothing.
pub enum Reply {
    NoNotes,
    FromNote { title: String, score: Score, snippet: String },
}

/// `r` is the reply built from the ranked results `ord` of `recs` against `q`.
pub open spec fn reply_for(r: Reply, recs: Seq<NoteRecord>, q: Seq<u64>, ord: Seq<int>) -> bool {
    if ord.len() == 0 {
        r is NoNotes
    } else {
        match r {
            Reply::FromNote { title, score, snippet } => {
                &&& title@ == recs[ord[0]].filename@
                &&& score == score_of(recs[ord[0]].vector@, q)
                &&& snippet@ == snippet_of(recs[ord[0]].content@)
            },
            Reply::NoNotes => false,
        }
    }
}

proof fn lemma_snippet_idempotent(c: Seq<char>)
    ensures
        snippet_of(snippet_of(c)) == snippet_of(c),
{
}

/// The reply for a list of search results: the first result's title, score
/// and snippet, or `NoNotes` when the list is empty.
pub fn compose_reply(results: &Vec<SearchResult>) -> (r: Reply)
    ensures
        results@.len() == 0 <==> r is NoNotes,
        results@.len() > 0 ==> match r {
            Reply::FromNote { title, score, snippet } => {
                &&& title@ == results@[0].title@
                &&& score == results@[0].score
                &&& snippet@ == snippet_of(results@[0].content_snippet@)
            },
            Reply::NoNotes => false,
        },
{
    if results.len() == 0 {
        Reply::NoNotes
    } else {
        let top = &results[0];
        Reply::FromNote {
            title: top.title.clone(),
            score: top.score,
            snippet: snippet(&top.content_snippet),
        }
    }
}

/// The reply to `query` from the best-matching note of `store`.
pub fn best_reply(store: &VectorStore, query: &str) -> (r: Reply)
    requires
        store.wf(),
    ensures
        r matches Reply::FromNote { score, .. } ==> score_bounded(score),
        store.records@.len() == 0 ==> r is NoNotes,
        query.spec_bytes().len() > MAX_TEXT_BYTES ==> r is NoNotes,
        query.spec_bytes().len() <= MAX_TEXT_BYTES ==> exists|ord: Seq<int>|
            #[trigger] is_top_ranking(
                scores_of(store.records@, embedding_of(query.spec_bytes())),
                ord,
                TOP_K as int,
            ) && reply_for(r, store.records@, embedding_of(query.spec_bytes()), ord),
{
    let results = search(store, query);
    let r = compose_reply(&results);
    proof {
        if results@.len() > 0 && query.spec_bytes().len() <= MAX_TEXT_BYTES {
            let q = embedding_of(query.spec_bytes());
            let ord = choose|ord: Seq<int>|
                #[trigger] is_top_ranking(scores_of(store.records@, q), ord, TOP_K as int)
                    && crate::search::results_in_order(results@, store.records@, q, ord);
            lemma_snippet_idempotent(store.records@[ord[0]].content@);
            assert(reply_for(r, store.records@, q, ord));
        }
    }
    r
}

/// The answer shown when no note matches.
pub open spec fn fallback_text() -> Seq<char> {
    "I couldn't find any relevant notes to answer your question."@
}

/// The text of a reply; `score_text` is the score written with two decimals.
pub open spec fn reply_text(r: Reply, score_text: Seq<char>) -> Seq<char> {
    match r {
        Reply::NoNotes => fallback_text(),
        Reply::FromNote { title, score, snippet } => "Based on your note '"@ + title@
            + "' (Score: "@ + score_text + "):\n\n"@ + snippet@
            + "\n\n(Note: Full LLM generation coming in next phase)"@,
    }
}

/// Writes a reply out as text.
pub fn render_reply(reply: &Reply, score_text: &str) -> (r: String)
    ensures
        r@ == reply_text(*reply, score_text@),
{
    let mut r = String::new();
    match reply {
        Reply::NoNotes => {
            r.append("I couldn't find any relevant notes to answer your question.");
        },
        Reply::FromNote { title, score, snippet } => {
            r.append("Based on your note '");
            r.append(title.as_str());
            r.append("' (Score: ");
            r.append(score_text);
            r.append("):\n\n");
            r.append(snippet.as_str());
            r.append("\n\n(Note: Full LLM generation coming in next phase)");
        },
    }
    r
}

/// Largest `k <= top` with `k == 0` or `(2k - 1)^2 / 40000 <= num / den`:
/// a hundred times the similarity, rounded half up.
pub open spec fn percent_upto(s: Score, top: int) -> int
    decreases top,
{
    if top <= 0 {
        0
    } else if frac_le((2 * top - 1) * (2 * top - 1), 40000, s.num(), s.den()) {
        top
    } else {
        percent_upto(s, top - 1)
    }
}

/// The similarity in hundredths, rounded to the nearest (halves up); a
/// similarity never exceeds one, so this is at most 100.
pub open spec fn score_percent(s: Score) -> int {
    percent_upto(s, 100)
}

/// The similarity written with two decimals, as `0.83` or `1.00`.
pub open spec fn score_text_of(s: Score) -> Seq<char> {
    let k = score_percent(s);
    seq![digit_char((k / 100) as nat), '.', digit_char(((k / 10) % 10) as nat), digit_char(
        (k % 10) as nat,
    )]
}

proof fn lemma_percent_range(s: Score, top: int)
    requires
        0 <= top,
    ensures
        0 <= percent_upto(s, top) <= top,
    decreases top,
{
    if top > 0 {
        lemma_percent_range(s, top - 1);
    }
}

/// Writes the similarity of `s` with two decimals.
pub fn format_score(s: &Score) -> (r: String)
    requires
        score_bounded(*s),
    ensures
        r@ == score_text_of(*s),
{
    let (p, q) = score_fraction(s);
    let mut k: u32 = 100;
    let mut found = false;
    while !found && k > 0
        invariant
            k <= 100,
            p as int == s.num(),
            q as int == s.den(),
            q > 0,
            !found ==> percent_upto(*s, 100) == percent_upto(*s, k as int),
            found ==> percent_upto(*s, 100) == k,
        decreases 2 * (k as int) + if found { 0int } else { 1int },
    {
        let odd = (2 * k - 1) as u128;
        proof {
            assert(odd * odd <= 40000) by (nonlinear_arith)
                requires odd <= 199;
        }
        if fraction_le(odd * odd, 40000, p, q) {
            found = true;
        } else {
            k = k - 1;
        }
    }
    proof {
        lemma_percent_range(*s, 100);
        assert(score_percent(*s) == k);
    }
    let mut r = String::new();
    r.append(digit_str(k / 100));
    r.append(".");
    r.append(digit_str((k / 10) % 10));
    r.append(digit_str(k % 10));
    proof {
        reveal_strlit(".");
        assert(r@ =~= score_text_of(*s));
    }
    r
}

/// The answer text to a question whose best `TOP_K` notes are `ord`.
pub open spec fn answer_text(recs: Seq<NoteRecord>, q: Seq<u64>, ord: Seq<int>) -> Seq<char> {
    if ord.len() == 0 {
        fallback_text()
    } else {
        let rec = recs[ord[0]];
        "Based on your note '"@ + rec.filename@ + "' (Score: "@ + score_text_of(
            score_of(rec.vector@, q),
        ) + "):\n\n"@ + snippet_of(rec.content@)
            + "\n\n(Note: Full LLM generation coming in next phase)"@
    }
}

/// Answers `query` from the best-matching note of `store`: its title, its
/// score with two decimals and the start of its text, or a fixed fallback
/// when no note matches.
pub fn chat(store: &VectorStore, query: &str) -> (r: String)
    requires
        store.wf(),
    ensures
        store.records@.len() == 0 ==> r@ == fallback_text(),
        query.spec_bytes().len() > MAX_TEXT_BYTES ==> r@ == fallback_text(),
        query.spec_bytes().len() <= MAX_TEXT_BYTES ==> exists|ord: Seq<int>|
            #[trigger] is_top_ranking(
                scores_of(store.records@, embedding_of(query.spec_bytes())),
                ord,
                TOP_K as int,
            ) && r@ == answer_text(store.records@, embedding_of(query.spec_bytes()), ord),
{
    let reply = best_reply(store, query);
    let text = match &reply {
        Reply::NoNotes => String::new(),
        Reply::FromNote { title, score, snippet } => {
            format_score(score)
        },
    };
    render_reply(&reply, text.as_str())
}

} // verus!
