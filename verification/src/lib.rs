//! An in-memory vector record store: embeddings keyed by string identifiers,
//! with insertion, lookup, deletion and exact brute-force similarity search.
//!
//! Embedding components and similarity scores are carried as IEEE-754
//! single-precision bit patterns (`u32`), so that the store's logic — batch
//! insertion, first-match lookup, swap-removal, ranking and truncation — is
//! fully verified. The floating-point kernel that turns a query vector and a
//! stored vector into a score is left to the caller, who hands the store one
//! score outcome per record; the store is verified for every possible outcome.

pub mod record;
pub mod error;
pub mod score;
pub mod store;
pub mod laws;

pub use record::Record;
pub use record::RecordData;
pub use error::VectorStoreError;
pub use score::Similarity;
pub use store::VectorStore;
