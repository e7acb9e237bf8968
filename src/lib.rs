//! Indexing and retrieval for a local note collection: a byte-accumulation
//! embedding, a store of note records keyed by file name, similarity ranking,
//! extraction of embedded image references, and extractive answers.

pub mod embedding;
pub mod store;
pub mod score;
pub mod rank;
pub mod search;
pub mod answer;
pub mod extract;
pub mod indexer;
pub mod ocr;
pub mod laws;
pub mod text;
pub mod clip;
pub mod devices;
pub mod calc;
pub mod monitor;
