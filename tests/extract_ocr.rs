use notes_index::embedding::simple_embed;
use notes_index::extract::{annotate, first_image_target, local_image_target};
use notes_index::indexer::{is_note_event, make_record, next_phase, ChangeKind, IndexError, IndexPhase, Indexer};
use notes_index::ocr::OcrEngine;
use notes_index::store::VectorStore;

fn target(content: &str, r: Option<(usize, usize)>) -> Option<String> {
    r.map(|(s, e)| content[s..e].to_string())
}

#[test]
fn local_image_gets_ocr_block() {
    let content = "# Saved\n\n![shot](tweet.png)\n\nmore text";
    let t = target(content, local_image_target(content));
    assert_eq!(t.as_deref(), Some("tweet.png"));
    let engine = OcrEngine::new();
    let text = engine.process_image("tweet.png", true);
    assert_eq!(text, "Just setting up my MyAINote");
    let indexer = Indexer::new("/notes".to_string(), "/home/u".to_string());
    let mut store = VectorStore::new();
    assert_eq!(indexer.index_text(&mut store, "tweet.md".to_string(), content.to_string(), &text), Ok(()));
    let stored = &store.records[0].content;
    assert!(stored.contains("[OCR Content]: Just setting up my MyAINote"));
    assert_eq!(*stored, format!("{}\n\n[OCR Content]: Just setting up my MyAINote\n", content));
    assert_eq!(store.records[0].vector, simple_embed(stored));
}

#[test]
fn remote_image_is_not_scanned() {
    let content = "see ![x](http://example.com/x.png)";
    assert_eq!(local_image_target(content), None);
    assert_eq!(target(content, first_image_target(content)).as_deref(), Some("http://example.com/x.png"));
    let indexer = Indexer::new("/notes".to_string(), "/home/u".to_string());
    let mut store = VectorStore::new();
    assert_eq!(indexer.index_text(&mut store, "r.md".to_string(), content.to_string(), ""), Ok(()));
    assert_eq!(store.records[0].content, content);
    assert!(!store.records[0].content.contains("[OCR Content]"));
}

#[test]
fn only_first_image_is_considered() {
    let content = "![a](http://remote/a.png) and ![b](local.png)";
    assert_eq!(local_image_target(content), None);
    let content2 = "![a](first.png) ![b](second.png)";
    assert_eq!(target(content2, local_image_target(content2)).as_deref(), Some("first.png"));
}

#[test]
fn incomplete_references_have_no_target() {
    assert_eq!(first_image_target("no image here"), None);
    assert_eq!(first_image_target("![alt without close"), None);
    assert_eq!(first_image_target("![alt] (x)"), None);
    assert_eq!(target("![](x)", first_image_target("![](x)")).as_deref(), Some("x"));
}

#[test]
fn annotate_skips_empty_text() {
    assert_eq!(annotate("body".to_string(), ""), "body");
    assert_eq!(annotate("body".to_string(), "seen"), "body\n\n[OCR Content]: seen\n");
}

#[test]
fn ocr_of_missing_or_plain_image() {
    let engine = OcrEngine::new();
    assert_eq!(engine.process_image("tweet.png", false), "");
    assert_eq!(engine.process_image("photo.png", true), "");
    assert_eq!(engine.process_image("my_tweet_2.jpg", true), "Just setting up my MyAINote");
    let content = "![p](photo.png)";
    let text = engine.process_image("photo.png", true);
    assert_eq!(annotate(content.to_string(), &text), content);
}

#[test]
fn any_url_scheme_is_remote() {
    assert_eq!(local_image_target("![a](ftp://h/x.png)"), None);
    assert_eq!(local_image_target("![a](data:image/png;base64,AAAA)"), None);
    assert_eq!(local_image_target("![a](https://h/x.png)"), None);
    assert_eq!(local_image_target("![a](svn+ssh://h/x.png)"), None);
    let c = "![a](httpd/x.png)";
    assert_eq!(target(c, local_image_target(c)).as_deref(), Some("httpd/x.png"));
    let d = "![a](img/1:2.png)";
    assert_eq!(target(d, local_image_target(d)).as_deref(), Some("img/1:2.png"));
    let e = "![a](:x.png)";
    assert_eq!(target(e, local_image_target(e)).as_deref(), Some(":x.png"));
    let f = "![a](9p:x.png)";
    assert_eq!(target(f, local_image_target(f)).as_deref(), Some("9p:x.png"));
}

#[test]
fn only_markdown_changes_are_indexed() {
    assert!(is_note_event(ChangeKind::Create, Some("md")));
    assert!(is_note_event(ChangeKind::Modify, Some("md")));
    assert!(!is_note_event(ChangeKind::Other, Some("md")));
    assert!(!is_note_event(ChangeKind::Create, Some("txt")));
    assert!(!is_note_event(ChangeKind::Modify, Some("mdx")));
    assert!(!is_note_event(ChangeKind::Create, None));
}

#[test]
fn indexer_store_path_under_home() {
    let i = Indexer::new("/h/MyAINote/notes".to_string(), "/h".to_string());
    assert_eq!(i.store_path, "/h/MyAINote/vectors.json");
    assert_eq!(i.notes_dir, "/h/MyAINote/notes");
}

#[test]
fn phases_advance_and_fail_to_idle() {
    let mut p = IndexPhase::Idle;
    let mut seen = Vec::new();
    for _ in 0..5 {
        p = next_phase(p, true);
        seen.push(p);
    }
    assert_eq!(
        seen,
        vec![IndexPhase::Extracting, IndexPhase::Embedding, IndexPhase::Upserting, IndexPhase::Persisted, IndexPhase::Idle]
    );
    assert_eq!(next_phase(IndexPhase::Embedding, false), IndexPhase::Idle);
    assert_eq!(next_phase(IndexPhase::Extracting, false), IndexPhase::Idle);
}

#[test]
fn make_record_embeds_content() {
    let r = make_record("m.md".to_string(), "body".to_string()).ok().unwrap();
    assert_eq!(r.filename, "m.md");
    assert_eq!(r.content, "body");
    assert_eq!(r.vector, simple_embed("body"));
    let big = "b".repeat(16 * 1024 * 1024 + 1);
    assert_eq!(make_record("b.md".to_string(), big).err(), Some(IndexError::Unsupported));
}
