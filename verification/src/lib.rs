//! Verified readers and decoders for MSTS / Open Rails file formats.
//!
//! The crate works on raw bytes: SIMISA containers, UTF-16 wrappers, the
//! tokenized binary block layout of shapes and world tiles, tile file names
//! and a handful of text scanners used by the typed loaders.

pub mod ascii;
pub mod bytes;
pub mod cab_link;
pub mod encoding;
pub mod error;
pub mod lexer;
pub mod message;
pub mod float_text;
pub mod msts_file_text;
pub mod parser;
pub mod msts_simisa;
pub mod msts_tile_name;
pub mod shape_binary;
pub mod shape_binary_direct;
pub mod shape_binary_reader;
pub mod shape_tokens;
pub mod std_text;
pub mod text;
pub mod trim;
pub mod typed;
pub mod utf8_bounds;
pub mod vehicle_audit;
