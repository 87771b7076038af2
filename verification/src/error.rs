//! Failures reported by the store and by the tag parser.

use vstd::prelude::*;

verus! {

/// The broad class a failure belongs to.
#[derive(Debug, Clone, Copy, PartialEq, Eq, Structural)]
pub enum ErrorKind {
    /// The request itself is malformed or does not fit the stored data.
    InvalidParams,
    /// The stored data does not have the shape the request needs.
    InvalidData,
    /// The requested entry does not exist.
    NotFound,
}

/// Every way an operation of this crate can fail.
#[derive(Debug, Clone, Copy, PartialEq, Eq, Structural)]
pub enum Error {
    /// The tag text ends in `]` but has no `[` before it.
    InvalidArray,
    /// A bound between the brackets is not a decimal index.
    InvalidIndex,
    /// Both bounds are given and the lower one exceeds the upper one.
    InvalidSeqIndex,
    /// A ranged tag was used to delete.
    CanNotDeleteRange,
    /// A ranged read found a stored value that is not a sequence.
    TagIsNotASeq,
    /// No entry is stored under the tag's id.
    NoSuchTag,
    /// The value's length differs from the length of the range.
    InvalidValueSeqLen,
    /// The range needs a sequence and the value is none.
    ValueIsNotASeq,
    /// A ranged write found a stored value that is not a sequence.
    TagIsNotAnArray,
}

impl Error {
    /// The class of this failure.
    pub open spec fn spec_kind(self) -> ErrorKind {
        match self {
            Error::TagIsNotASeq => ErrorKind::InvalidData,
            Error::NoSuchTag => ErrorKind::NotFound,
            _ => ErrorKind::InvalidParams,
        }
    }

    /// The class of this failure.
    #[verifier::when_used_as_spec(spec_kind)]
    pub fn kind(self) -> (k: ErrorKind)
        ensures
            k == self.spec_kind(),
    {
        match self {
            Error::TagIsNotASeq => ErrorKind::InvalidData,
            Error::NoSuchTag => ErrorKind::NotFound,
            _ => ErrorKind::InvalidParams,
        }
    }

    /// A short description of this failure.
    pub open spec fn spec_message(self) -> Seq<char> {
        match self {
            Error::InvalidArray => "invalid array"@,
            Error::InvalidIndex => "invalid index"@,
            Error::InvalidSeqIndex => "invalid seq index"@,
            Error::CanNotDeleteRange => "can not delete range"@,
            Error::TagIsNotASeq => "tag is not a seq"@,
            Error::NoSuchTag => "no such tag"@,
            Error::InvalidValueSeqLen => "invalid value seq len"@,
            Error::ValueIsNotASeq => "value is not a seq"@,
            Error::TagIsNotAnArray => "tag is not an array"@,
        }
    }

    /// A short description of this failure.
    pub fn message(self) -> (m: &'static str)
        ensures
            m@ == self.spec_message(),
    {
        match self {
            Error::InvalidArray => "invalid array",
            Error::InvalidIndex => "invalid index",
            Error::InvalidSeqIndex => "invalid seq index",
            Error::CanNotDeleteRange => "can not delete range",
            Error::TagIsNotASeq => "tag is not a seq",
            Error::NoSuchTag => "no such tag",
            Error::InvalidValueSeqLen => "invalid value seq len",
            Error::ValueIsNotASeq => "value is not a seq",
            Error::TagIsNotAnArray => "tag is not an array",
        }
    }
}

} // verus!
