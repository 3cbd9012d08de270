//! Splitting a file's bytes into fixed-size chunks, and verifying that the
//! chunks, concatenated in order, reproduce the original byte for byte.
//!
//! Files are modelled as byte vectors. The surrounding program reads and
//! writes the actual files and hands their contents to this library; every
//! decision — boundary planning, chunk extraction, output naming, cleanup
//! on failure, digest comparison — is made here, under contract.

pub mod chunker;
pub mod cleanup;
pub mod digest;
pub mod error;
pub mod names;
pub mod plan;
pub mod threads;

pub use chunker::Chunker;
pub use error::ChunkError;
