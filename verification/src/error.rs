//! The ways in which laying out a document can fail.

use vstd::prelude::*;

verus! {

/// Why a document could not be laid out.
#[derive(Clone, Copy, Debug, PartialEq, Eq, Structural)]
pub enum Error {
    /// The root of the style tree has `display: none`.
    RootDisplayNone,
    /// A property that must hold a length holds a colour, or a keyword other
    /// than `auto`.
    InvalidLength,
    /// A length is given in a unit other than pixels.
    InvalidUnit,
    /// A length or a coordinate lies outside `-MAX_LENGTH ..= MAX_LENGTH`.
    Overflow,
}

impl Error {
    /// A short description of the failure, for the caller to show.
    pub fn message(&self) -> (text: &'static str)
        ensures
            text@ == self.message_text(),
    {
        match self {
            Error::RootDisplayNone => "root node has display: none",
            Error::InvalidLength => "invalid length",
            Error::InvalidUnit => "invalid unit",
            Error::Overflow => "length out of range",
        }
    }

    /// The text that `message` returns.
    pub open spec fn message_text(self) -> Seq<char> {
        match self {
            Error::RootDisplayNone => "root node has display: none"@,
            Error::InvalidLength => "invalid length"@,
            Error::InvalidUnit => "invalid unit"@,
            Error::Overflow => "length out of range"@,
        }
    }
}

} // verus!
