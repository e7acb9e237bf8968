use notes_index::embedding::{simple_embed, DIM};
use notes_index::store::{NoteRecord, StoreError, VectorStore};
use notes_index::indexer::{index_note, IndexError};

fn record(name: &str, content: &str) -> NoteRecord {
    NoteRecord {
        filename: name.to_string(),
        content: content.to_string(),
        vector: simple_embed(content),
    }
}

#[test]
fn embed_empty_is_zero_vector() {
    let v = simple_embed("");
    assert_eq!(v.len(), DIM);
    assert!(v.iter().all(|&x| x == 0));
}

#[test]
fn embed_accumulates_bytes_by_position() {
    let v = simple_embed("ab");
    assert_eq!(v[0], 97);
    assert_eq!(v[1], 98);
    assert!(v[2..].iter().all(|&x| x == 0));
    let long = "a".repeat(DIM + 1);
    let w = simple_embed(&long);
    assert_eq!(w[0], 194);
    assert_eq!(w[1], 97);
    assert_eq!(w[DIM - 1], 97);
}

#[test]
fn embed_multibyte_text_uses_utf8_bytes() {
    let v = simple_embed("é");
    assert_eq!(v[0], 0xc3);
    assert_eq!(v[1], 0xa9);
}

#[test]
fn embed_is_deterministic_and_unit_after_scaling() {
    let a = simple_embed("hello notes");
    let b = simple_embed("hello notes");
    assert_eq!(a, b);
    let norm: f64 = a.iter().map(|&x| (x as f64) * (x as f64)).sum::<f64>().sqrt();
    assert!(norm > 0.0);
    let unit: f64 = a.iter().map(|&x| (x as f64 / norm).powi(2)).sum();
    assert!((unit - 1.0).abs() < 1e-9);
}

#[test]
fn upsert_replaces_record_with_same_name() {
    let mut store = VectorStore::new();
    store.upsert(record("a.md", "first"));
    store.upsert(record("b.md", "other"));
    store.upsert(record("a.md", "second"));
    assert_eq!(store.len(), 2);
    let named: Vec<&NoteRecord> = store.records.iter().filter(|r| r.filename == "a.md").collect();
    assert_eq!(named.len(), 1);
    assert_eq!(named[0].content, "second");
    assert_eq!(store.records[0].filename, "a.md");
    assert_eq!(store.records[0].vector, simple_embed("second"));
}

#[test]
fn upsert_appends_new_name() {
    let mut store = VectorStore::new();
    store.upsert(record("a.md", "x"));
    store.upsert(record("b.md", "y"));
    assert_eq!(store.len(), 2);
    assert_eq!(store.records[1].filename, "b.md");
}

#[test]
fn upserts_of_distinct_names_are_both_kept() {
    let mut one = VectorStore::new();
    one.upsert(record("base.md", "base"));
    one.upsert(record("x.md", "x text"));
    one.upsert(record("y.md", "y text"));
    let mut two = VectorStore::new();
    two.upsert(record("base.md", "base"));
    two.upsert(record("y.md", "y text"));
    two.upsert(record("x.md", "x text"));
    for s in [&one, &two] {
        assert!(s.records.iter().any(|r| r.filename == "x.md" && r.content == "x text"));
        assert!(s.records.iter().any(|r| r.filename == "y.md" && r.content == "y text"));
        assert_eq!(s.len(), 3);
    }
}

#[test]
fn index_note_embeds_and_upserts() {
    let mut store = VectorStore::new();
    assert_eq!(index_note(&mut store, "n.md".to_string(), "text".to_string()), Ok(()));
    assert_eq!(index_note(&mut store, "n.md".to_string(), "text two".to_string()), Ok(()));
    assert_eq!(store.len(), 1);
    assert_eq!(store.records[0].content, "text two");
    assert_eq!(store.records[0].vector, simple_embed("text two"));
}

#[test]
fn index_note_refuses_oversized_text() {
    let mut store = VectorStore::new();
    let big = "a".repeat(16 * 1024 * 1024 + 1);
    assert_eq!(index_note(&mut store, "big.md".to_string(), big), Err(IndexError::Unsupported));
    assert_eq!(store.len(), 0);
    let edge = "a".repeat(16 * 1024 * 1024);
    assert_eq!(index_note(&mut store, "edge.md".to_string(), edge), Ok(()));
    assert_eq!(store.len(), 1);
}

#[test]
fn snapshot_records_are_validated() {
    let ok = VectorStore::from_records(vec![record("a.md", "a"), record("b.md", "b")]);
    assert!(ok.is_ok());
    let dup = VectorStore::from_records(vec![record("a.md", "a"), record("a.md", "b")]);
    assert_eq!(dup.err(), Some(StoreError::Corrupt));
    let mut short = record("a.md", "a");
    short.vector.pop();
    assert_eq!(VectorStore::from_records(vec![short]).err(), Some(StoreError::Corrupt));
    let mut huge = record("a.md", "a");
    huge.vector[3] = u64::MAX;
    assert_eq!(VectorStore::from_records(vec![huge]).err(), Some(StoreError::Corrupt));
    let empty = VectorStore::from_records(Vec::new());
    assert_eq!(empty.map(|s| s.len()).ok(), Some(0));
}

#[test]
fn reindexing_unchanged_note_keeps_store() {
    let mut store = VectorStore::new();
    assert_eq!(index_note(&mut store, "a.md".to_string(), "alpha".to_string()), Ok(()));
    assert_eq!(index_note(&mut store, "b.md".to_string(), "beta".to_string()), Ok(()));
    let before: Vec<(String, String, Vec<u64>)> =
        store.records.iter().map(|r| (r.filename.clone(), r.content.clone(), r.vector.clone())).collect();
    assert_eq!(index_note(&mut store, "a.md".to_string(), "alpha".to_string()), Ok(()));
    let after: Vec<(String, String, Vec<u64>)> =
        store.records.iter().map(|r| (r.filename.clone(), r.content.clone(), r.vector.clone())).collect();
    assert_eq!(before, after);
}
