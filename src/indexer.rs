use vstd::prelude::*;
use vstd::string::StringSliceAdditionalSpecFns;
use vstd::utf8::encode_utf8;
use crate::embedding::{MAX_TEXT_BYTES, simple_embed, embedding_of};
use crate::extract::{annotate, with_ocr};
use crate::ocr::OcrEngine;
use crate::search::lemma_query_vector_wf;
use crate::store::{NoteRecord, VectorStore, record_wf, upserted};

verus! {

/// Kind of a file-system change, as far as indexing cares.
#[derive(Clone, Copy, Debug, PartialEq, Eq)]
pub enum ChangeKind {
    Create,
    Modify,
    Other,
}

/// Why a note could not be indexed.
#[derive(Clone, Copy, Debug, PartialEq, Eq)]
pub enum IndexError {
    /// The note's text is longer than `MAX_TEXT_BYTES` bytes.
    Unsupported,
}

/// Where the handling of one change event stands.
#[derive(Clone, Copy, Debug, PartialEq, Eq)]
pub enum IndexPhase {
    Idle,
    Extracting,
    Embedding,
    Upserting,
    Persisted,
}

/// The phase after the current one: each step that succeeds moves the event
/// one phase on, a persisted event returns to `Idle`, and a failure at any
/// step drops the event and returns to `Idle`, ready for the next one.
pub open spec fn next_phase_of(p: IndexPhase, step_ok: bool) -> IndexPhase {
    if !step_ok {
        IndexPhase::Idle
    } else {
        match p {
            IndexPhase::Idle => IndexPhase::Extracting,
            IndexPhase::Extracting => IndexPhase::Embedding,
            IndexPhase::Embedding => IndexPhase::Upserting,
            IndexPhase::Upserting => IndexPhase::Persisted,
            IndexPhase::Persisted => IndexPhase::Idle,
        }
    }
}

/// Advances the handling of an event by one step.
pub fn next_phase(p: IndexPhase, step_ok: bool) -> (r: IndexPhase)
    ensures
        r == next_phase_of(p, step_ok),
{
    if !step_ok {
        IndexPhase::Idle
    } else {
        match p {
            IndexPhase::Idle => IndexPhase::Extracting,
            IndexPhase::Extracting => IndexPhase::Embedding,
            IndexPhase::Embedding => IndexPhase::Upserting,
            IndexPhase::Upserting => IndexPhase::Persisted,
            IndexPhase::Persisted => IndexPhase::Idle,
        }
    }
}

/// An extension that marks a Markdown note: exactly `md`.
pub open spec fn is_md(ext: Seq<u8>) -> bool {
    ext == seq![0x6du8, 0x64u8]
}

/// A change that must be indexed: a file created or modified whose extension is `md`.
pub fn is_note_event(kind: ChangeKind, extension: Option<&str>) -> (r: bool)
    ensures
        r == ((kind == ChangeKind::Create || kind == ChangeKind::Modify) && match extension {
            Some(e) => is_md(e.spec_bytes()),
            None => false,
        }),
{
    match kind {
        ChangeKind::Other => false,
        _ => match extension {
            Some(e) => {
                let b = e.as_bytes();
                let r = b.len() == 2 && b[0] == 0x6d && b[1] == 0x64;
                proof {
                    if r {
                        assert(b@ =~= seq![0x6du8, 0x64u8]);
                    }
                }
                r
            },
            None => false,
        },
    }
}

/// The record that indexing the text `content` under `filename` stores.
pub open spec fn indexed_record(r: NoteRecord, filename: Seq<char>, content: Seq<char>) -> bool {
    &&& r.filename@ == filename
    &&& r.content@ == content
    &&& r.vector@ == embedding_of(encode_utf8(content))
}

/// The record for the text `content` under `filename`, with its embedding.
/// A text longer than `MAX_TEXT_BYTES` bytes is refused.
pub fn make_record(filename: String, content: String) -> (r: Result<NoteRecord, IndexError>)
    ensures
        r is Err <==> encode_utf8(content@).len() > MAX_TEXT_BYTES,
        r matches Ok(rec) ==> indexed_record(rec, filename@, content@) && record_wf(rec),
{
    if content.as_str().as_bytes().len() > MAX_TEXT_BYTES {
        return Err(IndexError::Unsupported);
    }
    let vector = simple_embed(content.as_str());
    proof {
        lemma_query_vector_wf(vector@, encode_utf8(content@).len() as int);
    }
    Ok(NoteRecord { filename, content, vector })
}

/// Embeds `content` and upserts its record under `filename`. A text longer
/// than `MAX_TEXT_BYTES` bytes is refused and leaves the store as it was.
pub fn index_note(store: &mut VectorStore, filename: String, content: String) -> (r: Result<
    (),
    IndexError,
>)
    requires
        old(store).wf(),
    ensures
        final(store).wf(),
        r is Err <==> encode_utf8(content@).len() > MAX_TEXT_BYTES,
        r is Err ==> final(store).records@ == old(store).records@,
        r is Ok ==> exists|rec: NoteRecord|
            #[trigger] indexed_record(rec, filename@, content@) && final(store).records@
                == upserted(old(store).records@, rec),
{
    let rec = match make_record(filename, content) {
        Ok(rec) => rec,
        Err(e) => return Err(e),
    };
    let ghost g = rec;
    store.upsert(rec);
    proof {
        assert(indexed_record(g, g.filename@, g.content@));
    }
    Ok(())
}

/// Watches a notes directory and keeps the vector store up to date.
pub struct Indexer {
    pub notes_dir: String,
    pub store_path: String,
    pub ocr: OcrEngine,
}

/// Location of the store snapshot under a home directory.
pub open spec fn store_path_of(home: Seq<char>) -> Seq<char> {
    home + "/MyAINote/vectors.json"@
}

impl Indexer {
    /// An indexer of `notes_dir` whose snapshot lives under `home_dir`.
    pub fn new(notes_dir: String, home_dir: String) -> (r: Self)
        ensures
            r.notes_dir@ == notes_dir@,
            r.store_path@ == store_path_of(home_dir@),
    {
        let mut store_path = home_dir;
        store_path.append("/MyAINote/vectors.json");
        Indexer { notes_dir, store_path, ocr: OcrEngine::new() }
    }

    /// Indexes a note read from disk: appends the OCR block of `ocr_text`
    /// (the text recognised in its first local image, empty if none), then
    /// embeds and upserts it.
    pub fn index_text(
        &self,
        store: &mut VectorStore,
        filename: String,
        content: String,
        ocr_text: &str,
    ) -> (r: Result<(), IndexError>)
        requires
            old(store).wf(),
        ensures
            final(store).wf(),
            r is Err <==> encode_utf8(with_ocr(content@, ocr_text@)).len() > MAX_TEXT_BYTES,
            r is Err ==> final(store).records@ == old(store).records@,
            r is Ok ==> exists|rec: NoteRecord|
                #[trigger] indexed_record(rec, filename@, with_ocr(content@, ocr_text@))
                    && final(store).records@ == upserted(old(store).records@, rec),
    {
        let full = annotate(content, ocr_text);
        index_note(store, filename, full)
    }
}

} // verus!
