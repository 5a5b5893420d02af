//! A parser-combinator engine over in-memory text.
//!
//! Grammars are built by composing small parsing units (literal match,
//! character class, repetition, choice, sequencing) into larger ones, all
//! sharing one calling convention: given a cursor, return success (a new
//! cursor and a value) or failure (an error). A shared diagnostic tracker,
//! threaded explicitly through every parse call, records the furthest-reaching
//! failure seen across all backtracked branches, so that one good error
//! message survives ordered-choice backtracking.

pub mod common;
pub mod context;
pub mod error;
pub mod parser;
pub mod parsers;
pub mod stream;

pub use common::{character, ident, string, ws, Escape, EscapeCode, Ident, QuotedChar, QuotedString, Ws};
pub use context::{Catcher, Context};
pub use error::{Error, ErrorMessage, Expected, PResult};
pub use parser::{Combine, Parser};
pub use parsers::{one_of, range, range_incl, Any, CharRange, CharRangeInclusive, OneOf, EOF};
pub use stream::Stream;
