use notes_index::calc::{calculate, CalcError};
use notes_index::clip::{note_document, note_file_name};
use notes_index::devices::{AudioRecorder, Transcriber};
use notes_index::monitor::{monitor_done, monitor_sample};

#[test]
fn calculate_operations() {
    assert_eq!(calculate(2, 3, "add"), Ok(5));
    assert_eq!(calculate(2, 3, "subtract"), Ok(-1));
    assert_eq!(calculate(4, 3, "multiply"), Ok(12));
    assert_eq!(calculate(7, 2, "divide"), Ok(3));
    assert_eq!(calculate(-7, 2, "divide"), Ok(-3));
    assert_eq!(calculate(7, -2, "divide"), Ok(-3));
    assert_eq!(calculate(1, 0, "divide"), Err(CalcError::DivideByZero));
    assert_eq!(calculate(1, 1, "power"), Err(CalcError::UnknownOperation));
    assert_eq!(calculate(i32::MAX, 1, "add"), Ok(i32::MIN));
    assert_eq!(calculate(i32::MIN, -1, "divide"), Ok(i32::MIN));
}

#[test]
fn clip_file_name_is_sanitized() {
    assert_eq!(note_file_name("Hello, World!"), "Hello_ World_.md");
    assert_eq!(note_file_name("  spaced out  "), "spaced out.md");
    assert_eq!(note_file_name("a/b-c"), "a_b-c.md");
    assert_eq!(note_file_name("Ünïcode 42"), "Ünïcode 42.md");
    assert_eq!(note_file_name(""), ".md");
}

#[test]
fn clip_document_has_front_matter() {
    let doc = note_document("T", "http://u", "2024-01-01 10:00:00", "# Hi\n\nthere");
    assert_eq!(doc, "---\ntitle: \"T\"\nurl: \"http://u\"\ndate: \"2024-01-01 10:00:00\"\n---\n\n# Hi\n\nthere");
    assert_eq!(note_document("", "", "", ""), "---\ntitle: \"\"\nurl: \"\"\ndate: \"\"\n---\n\n");
}

#[test]
fn recorder_and_transcriber() {
    let mut r = AudioRecorder::new();
    assert!(!r.is_recording());
    r.start_recording();
    assert!(r.is_recording());
    r.stop_recording();
    assert!(!r.is_recording());
    let t = Transcriber::new();
    assert_eq!(t.transcribe(false), "");
    assert!(t.transcribe(true).starts_with("This is a simulated transcription"));
}

#[test]
fn monitor_samples() {
    let s = monitor_sample(3);
    assert_eq!((s.id, s.memory_usage, s.cpu_tenths), (3, 130, 3));
    assert!(!monitor_done(9));
    assert!(monitor_done(10));
}
