//! A verified parser and serializer for SLOP, a minimal line-oriented
//! key-value text format.
//!
//! A SLOP document is plain text in which each line is either a string
//! key-value pair (`key=value`) or the opening of a list key-value pair
//! (`key{`, followed by one item per line, closed by a `}` line).
//! Blank lines and lines starting with `#` are ignored.
//!
//! The crate offers an in-memory document type ([`Slop`]), a tagged value
//! type ([`SlopValue`]), parsing from text, and rendering back to text in a
//! compact and an indented ("pretty") style.

pub mod error;
pub mod kv;
pub mod laws;
pub mod parse;
pub mod slop;
pub mod text;
pub mod value;

pub use error::SlopError;
pub use slop::Slop;
pub use value::SlopValue;
