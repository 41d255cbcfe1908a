//! Lexical front end for a small functional language.
//!
//! The tokenizer converts a UTF-8 source buffer into a sequence of byte-offset
//! spans, each classified by the category of its first scalar. Every byte of
//! the input lands in exactly one span: the spans are produced in order, are
//! pairwise adjacent, and cover the whole buffer.

pub mod classes;
pub mod laws;
pub mod model;
pub mod spanner;
