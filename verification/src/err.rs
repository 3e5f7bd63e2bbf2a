//! The decode and verify failure kinds.
use vstd::prelude::*;

verus! {

/// Why a byte string is not a canonical encoding.
#[derive(Clone, Copy, Debug, PartialEq, Eq, Structural)]
pub enum Error {
    /// The buffer is shorter than a read requires, or a position does not
    /// fit 32 bits.
    ReadPastEnd,
    /// An offset slot does not hold exactly the distance to the present heap
    /// position, or holds a sentinel where none is allowed.
    BadOffset,
    /// A region length that must divide evenly does not, or bytes are left
    /// over after the last body.
    BadSize,
    /// A heap-side length of zero, which canonical form expresses with the
    /// empty sentinel in the fixed slot instead.
    BadEmptyEncoding,
    /// String bytes that are not valid UTF-8.
    BadUTF8,
    /// A tagged-variant index outside the declared range.
    BadEnumIndex,
}

impl Error {
    /// A short description of the failure.
    pub fn message(&self) -> &'static str {
        match self {
            Error::ReadPastEnd => "Read past end",
            Error::BadOffset => "Bad offset",
            Error::BadSize => "Bad size",
            Error::BadEmptyEncoding => "Bad empty encoding",
            Error::BadUTF8 => "Bad UTF-8 encoding",
            Error::BadEnumIndex => "Bad enum index",
        }
    }
}

} // verus!
