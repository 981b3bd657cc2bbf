use vstd::prelude::*;

verus! {

/// Errors of the wire codec.
#[derive(Clone, Copy, Debug, PartialEq, Eq, Structural)]
pub enum ProtoError {
    /// A read asked for more bytes than remain in the input.
    UnexpectedEof,
    /// A character-string longer than 255 bytes (its length in bytes).
    CharacterDataTooLong(usize),
    /// Character data that is not valid UTF-8.
    InvalidEncoding,
}

/// Result of a codec operation.
pub type ProtoResult<T> = Result<T, ProtoError>;

} // verus!
