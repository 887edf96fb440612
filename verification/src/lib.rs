//! Verified building blocks of a streaming engine.

pub mod array;
pub mod bytes;
pub mod chunk_laws;
pub mod concat;
pub mod concat_laws;
pub mod decimal;
pub mod error;
pub mod hash_key_laws;
pub mod hash_map;
pub mod sink;
pub mod sink_laws;
pub mod stream_chunk;
pub mod types;
pub mod value_laws;
