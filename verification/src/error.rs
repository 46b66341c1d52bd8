//! How a snapshot can fail to parse.

use vstd::prelude::*;
use vstd::utf8::encode_utf8;

verus! {

/// The ways in which a text can fail to be a snapshot.
#[derive(Clone, Copy, Debug, PartialEq, Eq, Structural)]
pub enum ErrorKind {
    /// One of the two header lines is missing or differs.
    HeaderMismatch,
    /// A distribution's name is not followed by a well-formed `pathname` line.
    MalformedDistribution,
    /// A line indented as a property is not a key, spaces, a value and a line ending.
    MalformedProperty,
    /// Text is left where a distribution should start or the text should end, and no
    /// distribution's name line is there.
    TrailingInput,
}

/// Why and where parsing stopped.
#[derive(Clone, Copy, Debug, PartialEq, Eq, Structural)]
pub struct ParseError {
    /// What is wrong.
    pub kind: ErrorKind,
    /// The number of bytes of the input before the line that is wrong.
    pub offset: usize,
}

/// The number of bytes that the text before `rest` takes in `input`, where `rest` is
/// the end of `input`.
pub open spec fn byte_offset(input: Seq<char>, rest: Seq<char>) -> nat {
    encode_utf8(input.take(input.len() - rest.len())).len()
}

} // verus!
