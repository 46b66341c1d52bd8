//! A reader for carton snapshots: the indentation-structured text in which
//! carton records the distributions it installed, each with its path and the
//! modules it provides and requires.
//!
//! [`parse`] turns the text of a snapshot into an index from distribution name
//! to [`Dist`]. Every string of the result is a slice of the input.

pub mod chars;
pub mod error;
pub mod lex;
pub mod index;
pub mod model;
pub mod grammar;
pub mod document;

pub use chars::CharClass;
pub use document::parse;
pub use error::{ErrorKind, ParseError};
pub use index::StrMap;
pub use model::{Dist, DistView, Dists, Properties, PropertyValue, ValueView};
