//! Hide, find and remove messages in the chunk stream of a PNG file.
//!
//! A PNG file is a fixed signature followed by typed, checksummed chunks.
//! This crate decodes and encodes single chunks, keeps the ordered chunk
//! sequence of one file, and proves that decoding and encoding are inverse
//! to each other.

pub mod checksum;
pub mod chunk;
pub mod chunk_type;
pub mod commands;
pub mod error;
pub mod png;
pub mod text;
