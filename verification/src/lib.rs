//! Verified core of a bibliographic dump exporter.
//!
//! The library turns tab-separated dump rows holding JSON payloads into two
//! streams of newline-delimited JSON objects: book editions, with author
//! references resolved through an ordered author index built in a first pass,
//! and the authors themselves, emitted from the index in key order.

pub mod index;
pub mod laws;
pub mod payload;
pub mod pipeline;
pub mod render;
pub mod text;
