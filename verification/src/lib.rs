//! A backtracking combinator engine for lexing and parsing text.
//!
//! The engine is built from four pieces: byte-range spans that every
//! recognized token carries (`span`), a cheap-to-clone cursor over an
//! immutable source buffer (`source`), parsers with sequencing,
//! transformation, ordered alternation and repetition (`parser`), and the
//! lexical primitives built on top of them (`literal`). A hard failure is
//! reported through `error`.
//!
//! A parser here is first-class data: the combinators build a description,
//! and `parse` interprets it against a cursor, handing back one of three
//! outcomes -- success, soft failure ("this parser does not apply here",
//! nothing consumed, alternation may try the next branch), or hard failure
//! (an `Error` that propagates past every alternative). Transformations,
//! accumulators and continuations are drawn from small closed sets, so every
//! composition has an exact mathematical meaning: `parse_spec` defines it,
//! `parse` is proved to return exactly that, and the laws of the combinators
//! (left-biased alternation, short-circuiting sequencing, the identity
//! transformation, repetition from zero matches, the identifier text equal
//! to the buffer slice under its span) are proved once and for all.

pub mod error;
pub mod literal;
pub mod parser;
pub mod source;
pub mod span;
