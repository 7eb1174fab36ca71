use vstd::prelude::*;

verus! {

/// Reasons for which a request is turned down without a change of state.
#[derive(Debug, Clone, Copy, PartialEq, Eq)]
pub enum BufferError {
    /// The request was for no items at all.
    ZeroLength,
    /// The byte size of the request does not fit in 32 bits.
    SizeOverflow,
    /// The identifier names no live allocation.
    UnknownIdentifier,
}

impl BufferError {
    /// The reason in words.
    pub fn message(&self) -> (text: &'static str)
        ensures
            text@ == match *self {
                BufferError::ZeroLength => "a slice of no items was asked for"@,
                BufferError::SizeOverflow => "the byte size of the slice does not fit in 32 bits"@,
                BufferError::UnknownIdentifier => "the identifier names no live allocation"@,
            },
    {
        match self {
            BufferError::ZeroLength => "a slice of no items was asked for",
            BufferError::SizeOverflow => "the byte size of the slice does not fit in 32 bits",
            BufferError::UnknownIdentifier => "the identifier names no live allocation",
        }
    }
}

} // verus!
