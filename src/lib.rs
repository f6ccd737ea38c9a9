//! Extraction of one file's data from a multi-volume archive: bounded
//! sub-streams, chaining across volumes, the volume continuation protocol,
//! AES-256-CBC decryption, and a target that stops at the file's expected
//! size. `session` holds the decisions of a streaming extraction, chunk by
//! chunk, for a caller that holds the open volumes and the output; the
//! stream, writer and extractor modules give the same behaviour over bytes
//! held in memory.
pub mod error;
pub mod stream;
pub mod blocks;
pub mod crypto;
pub mod writer;
pub mod volume;
pub mod extractor;
pub mod pipeline;
pub mod session;
