//! The error type shared by every decoding step.

use vstd::prelude::*;

verus! {

/// How many more bytes a parser would have needed.
#[derive(Clone, Copy, Debug, PartialEq, Eq, Structural)]
pub enum Needed {
    /// More data was needed, but it is not known how much.
    Unknown,
    /// This many further bytes were needed.
    Size(usize),
}

/// How many bytes are missing, as far as a `usize` can say.
pub open spec fn needed_bytes(missing: int) -> Needed {
    if missing <= usize::MAX {
        Needed::Size(missing as usize)
    } else {
        Needed::Unknown
    }
}

impl Needed {
    /// Reports that `missing` further bytes were needed.
    pub fn bytes(missing: u128) -> (needed: Needed)
        ensures
            needed == needed_bytes(missing as int),
    {
        if missing <= usize::MAX as u128 {
            Needed::Size(missing as usize)
        } else {
            Needed::Unknown
        }
    }
}

/// Why a parser rejected its input.
#[derive(Clone, Copy, Debug, PartialEq, Eq, Structural)]
pub enum ErrorKind {
    /// The input ended before a fixed-size item was complete.
    Eof,
    /// A variable-length integer ran on for more bytes than its type allows.
    TooLarge,
    /// A section's length disagrees with the length it was declared to have.
    LengthValue,
    /// Any other reason reported by the parser library.
    Other,
}

/// Everything that can go wrong while decoding. Each error is fatal to the
/// section or column in which it occurs.
#[derive(Clone, Copy, Debug, PartialEq, Eq, Structural)]
pub enum TracklibError {
    /// The input is structurally malformed.
    ParseError { error_kind: ErrorKind },
    /// The input stops short. With `Needed::Unknown` it reports that a
    /// decoder was asked for more rows than its presence bits cover.
    ParseIncompleteError { needed: Needed },
    /// The checksum stored with a section (`expected`) differs from the one
    /// computed over its payload (`computed`).
    CRC32Error { expected: u32, computed: u32 },
    /// The bytes of a text value are not valid UTF-8.
    Utf8Error,
}

} // verus!
