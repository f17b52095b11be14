//! A compile-time text-template transcriber over a lexical token tree.
//!
//! String literals found anywhere in a token tree are scanned for an
//! interpolation mini-language (`$name`, `$&name`, `${expr}`, `$$`) and
//! rewritten into concatenation expressions built from literal text segments
//! interleaved with embedded token sequences. A caller may customize the
//! shape of the emitted expression with a template holding one recognized
//! placeholder.

pub mod assemble;
pub mod config;
pub mod host;
pub mod laws;
pub mod parse;
pub mod subst;
pub mod token;
pub mod walk;

