//! A read-only text span: a window into a shared, immutable UTF-8 buffer.
//!
//! Narrowing a span never copies; two spans are equal when the text they
//! show is equal, wherever that text is stored.

pub mod buffer;
pub mod charorder;
pub mod compare;
pub mod encoding;
pub mod laws;
pub mod order;
pub mod pattern;
pub mod text;
