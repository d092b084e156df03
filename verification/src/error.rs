//! The error kinds shared by every component of the data-access layer.

use vstd::prelude::*;

verus! {

/// Why a read, a parse, or a lookup failed.
///
/// Archive and header parsing failures abort the whole operation; a
/// tabular cell failure is local to that cell; a producer failure is
/// recorded by the cache and surfaces through polling.
#[derive(Clone, Debug, PartialEq, Eq)]
pub enum DataError {
    /// An underlying read or seek reported a failure; carries its message.
    /// Only producers running outside this crate construct this variant.
    IoError(String),
    /// Bad magic bytes, a short read, or an otherwise malformed structure.
    FormatError,
    /// A requested name is absent from an archive index.
    NotFound,
    /// A computed byte, row, or column range exceeds the source bounds.
    OutOfBounds,
}

impl DataError {
    /// The message recorded by tree nodes that transition to a failed state.
    pub open spec fn spec_message(&self) -> Seq<char> {
        match self {
            DataError::IoError(m) => m@,
            DataError::FormatError => "malformed data"@,
            DataError::NotFound => "name not found in archive"@,
            DataError::OutOfBounds => "range exceeds source bounds"@,
        }
    }

    /// A human-readable description of the error.
    pub fn message(&self) -> (r: String)
        ensures
            r@ == self.spec_message(),
    {
        match self {
            DataError::IoError(m) => m.clone(),
            DataError::FormatError => "malformed data".to_owned(),
            DataError::NotFound => "name not found in archive".to_owned(),
            DataError::OutOfBounds => "range exceeds source bounds".to_owned(),
        }
    }
}

} // verus!
