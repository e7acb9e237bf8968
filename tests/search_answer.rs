use notes_index::answer::{best_reply, chat, compose_reply, format_score, render_reply, Reply};
use notes_index::embedding::simple_embed;
use notes_index::search::{search, snippet, SearchResult};
use notes_index::score::Score;
use notes_index::store::{NoteRecord, VectorStore};

fn store_of(notes: &[(&str, &str)]) -> VectorStore {
    let mut s = VectorStore::new();
    for (name, content) in notes {
        s.upsert(NoteRecord {
            filename: name.to_string(),
            content: content.to_string(),
            vector: simple_embed(content),
        });
    }
    s
}

fn cosine(s: &Score) -> f64 {
    if s.record_norm_sq == 0 || s.query_norm_sq == 0 {
        0.0
    } else {
        s.dot as f64 / ((s.record_norm_sq as f64) * (s.query_norm_sq as f64)).sqrt()
    }
}

fn titles(r: &[SearchResult]) -> Vec<String> {
    r.iter().map(|x| x.title.clone()).collect()
}

#[test]
fn search_on_empty_store_is_empty() {
    let store = VectorStore::new();
    assert!(search(&store, "anything").is_empty());
}

#[test]
fn chat_on_empty_store_gives_fallback() {
    let store = VectorStore::new();
    assert_eq!(chat(&store, "anything"), "I couldn't find any relevant notes to answer your question.");
    let reply = best_reply(&store, "anything");
    assert!(matches!(reply, Reply::NoNotes));
    assert_eq!(
        render_reply(&reply, "0.00"),
        "I couldn't find any relevant notes to answer your question."
    );
}

#[test]
fn search_results_descend_by_score() {
    let store = store_of(&[
        ("one.md", "zzzz"),
        ("two.md", "the quick brown fox"),
        ("three.md", "quick fox"),
        ("four.md", "brown"),
    ]);
    let r = search(&store, "quick fox");
    assert_eq!(r.len(), 4);
    for w in r.windows(2) {
        assert!(cosine(&w[0].score) >= cosine(&w[1].score));
    }
    assert_eq!(r[0].title, "three.md");
    assert!((cosine(&r[0].score) - 1.0).abs() < 1e-12);
}

#[test]
fn exact_content_match_has_top_score() {
    let store = store_of(&[("x.md", "alpha beta"), ("y.md", "gamma"), ("z.md", "beta alpha gamma")]);
    let r = search(&store, "gamma");
    assert_eq!(r[0].title, "y.md");
    let s = &r[0].score;
    assert_eq!((s.dot as u128) * (s.dot as u128), (s.record_norm_sq as u128) * (s.query_norm_sq as u128));
    for x in &r {
        assert!(cosine(&x.score) <= cosine(s) + 1e-12);
    }
}

#[test]
fn end_to_end_cat_dog_ranking() {
    let store = store_of(&[("a.md", "cat dog"), ("b.md", "cat dog cat")]);
    let r = search(&store, "cat dog");
    assert_eq!(titles(&r), vec!["a.md".to_string(), "b.md".to_string()]);
    assert_eq!(r[0].score, Score { dot: 66620, record_norm_sq: 66620, query_norm_sq: 66620 });
    assert_eq!(r[1].score, Score { dot: 66620, record_norm_sq: 100310, query_norm_sq: 66620 });
    assert!((cosine(&r[0].score) - 1.0).abs() < 1e-12);
    assert!((cosine(&r[1].score) - (66620.0f64 / 100310.0).sqrt()).abs() < 1e-12);
    assert_eq!(r[1].path, "b.md");
    assert_eq!(r[1].content_snippet, "cat dog cat");
}

#[test]
fn equal_scores_keep_store_order() {
    let store = store_of(&[("p.md", "same"), ("q.md", "other"), ("r.md", "same")]);
    let r = search(&store, "same");
    assert_eq!(titles(&r)[..2].to_vec(), vec!["p.md".to_string(), "r.md".to_string()]);
}

#[test]
fn search_keeps_at_most_five() {
    let store = store_of(&[
        ("1.md", "a"), ("2.md", "bb"), ("3.md", "ccc"), ("4.md", "dddd"),
        ("5.md", "eeeee"), ("6.md", "ffffff"), ("7.md", "a"),
    ]);
    let r = search(&store, "a");
    assert_eq!(r.len(), 5);
    assert_eq!(r[0].title, "1.md");
    assert_eq!(r[1].title, "7.md");
    assert_eq!(titles(&r)[2..].to_vec(), vec!["2.md".to_string(), "3.md".to_string(), "4.md".to_string()]);
}

#[test]
fn zero_vectors_score_zero() {
    let store = store_of(&[("e.md", ""), ("n.md", "note")]);
    let r = search(&store, "note");
    assert_eq!(titles(&r), vec!["n.md".to_string(), "e.md".to_string()]);
    assert_eq!(cosine(&r[1].score), 0.0);
    let q = search(&store, "");
    assert_eq!(titles(&q), vec!["e.md".to_string(), "n.md".to_string()]);
}

#[test]
fn oversized_query_finds_nothing() {
    let store = store_of(&[("a.md", "a")]);
    let q = "a".repeat(16 * 1024 * 1024 + 1);
    assert!(search(&store, &q).is_empty());
}

#[test]
fn snippet_keeps_first_two_hundred_chars() {
    let long: String = "é".repeat(250);
    assert_eq!(snippet(&long).chars().count(), 200);
    assert_eq!(snippet(&long), "é".repeat(200));
    assert_eq!(snippet(&"short".to_string()), "short");
    let store = store_of(&[("l.md", &long)]);
    let r = search(&store, "é");
    assert_eq!(r[0].content_snippet, "é".repeat(200));
}

#[test]
fn chat_names_top_note() {
    let store = store_of(&[("a.md", "cat dog"), ("b.md", "cat dog cat")]);
    assert_eq!(
        chat(&store, "cat dog"),
        "Based on your note 'a.md' (Score: 1.00):\n\ncat dog\n\n(Note: Full LLM generation coming in next phase)"
    );
    let reply = best_reply(&store, "cat dog");
    match &reply {
        Reply::FromNote { title, score, snippet } => {
            assert_eq!(title, "a.md");
            assert_eq!(snippet, "cat dog");
            assert!((cosine(score) - 1.0).abs() < 1e-12);
        }
        Reply::NoNotes => panic!("expected a note"),
    }
    assert_eq!(
        render_reply(&reply, "1.00"),
        "Based on your note 'a.md' (Score: 1.00):\n\ncat dog\n\n(Note: Full LLM generation coming in next phase)"
    );
}

#[test]
fn compose_reply_from_results() {
    assert!(matches!(compose_reply(&Vec::new()), Reply::NoNotes));
    let r = vec![SearchResult {
        title: "t.md".to_string(),
        path: "t.md".to_string(),
        score: Score { dot: 1, record_norm_sq: 1, query_norm_sq: 1 },
        content_snippet: "body".to_string(),
    }];
    match compose_reply(&r) {
        Reply::FromNote { title, snippet, .. } => {
            assert_eq!(title, "t.md");
            assert_eq!(snippet, "body");
        }
        Reply::NoNotes => panic!("expected a note"),
    }
}

#[test]
fn score_is_written_with_two_decimals() {
    assert_eq!(format_score(&Score { dot: 66620, record_norm_sq: 100310, query_norm_sq: 66620 }), "0.81");
    assert_eq!(format_score(&Score { dot: 5, record_norm_sq: 25, query_norm_sq: 1 }), "1.00");
    assert_eq!(format_score(&Score { dot: 0, record_norm_sq: 0, query_norm_sq: 9 }), "0.00");
    assert_eq!(format_score(&Score { dot: 1, record_norm_sq: 64, query_norm_sq: 1 }), "0.13");
    assert_eq!(format_score(&Score { dot: 1, record_norm_sq: 10000, query_norm_sq: 1 }), "0.01");
    assert_eq!(format_score(&Score { dot: 1, record_norm_sq: 40001, query_norm_sq: 1 }), "0.00");
}

#[test]
fn chat_answers_with_rounded_score() {
    let store = store_of(&[("b.md", "cat dog cat")]);
    assert_eq!(
        chat(&store, "cat dog"),
        "Based on your note 'b.md' (Score: 0.81):\n\ncat dog cat\n\n(Note: Full LLM generation coming in next phase)"
    );
}
