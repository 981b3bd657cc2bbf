//! A bounds-checked reader over a borrowed byte buffer.

use vstd::prelude::*;
use vstd::slice::{slice_subrange, slice_to_vec};
use vstd::utf8::*;
use crate::error::{ProtoError, ProtoResult};
use crate::wire::{be_u16, be_u32, be_i32};

verus! {

/// Relies on `String::from_utf8`: it succeeds exactly on valid UTF-8 and then
/// holds the characters those bytes encode.
#[verifier::external_body]
fn string_from_utf8(bytes: Vec<u8>) -> (r: Option<String>)
    ensures
        r is Some <==> valid_utf8(bytes@),
        r is Some ==> r->Some_0@ == decode_utf8(bytes@),
{
    String::from_utf8(bytes).ok()
}

/// A read position over an immutable byte buffer. The buffer is never copied:
/// cursors made by `clone` share it, which lets a reader follow a name
/// compression pointer backwards without losing its own place.
pub struct BinDecoder<'a> {
    buffer: &'a [u8],
    index: usize,
}

impl<'a> BinDecoder<'a> {
    /// The whole underlying buffer.
    pub closed spec fn data(&self) -> Seq<u8> {
        self.buffer@
    }

    /// The absolute read position; it may lie past the end of the buffer.
    pub closed spec fn position(&self) -> nat {
        self.index as nat
    }

    /// The bytes that are still to be read.
    pub open spec fn remaining(&self) -> Seq<u8> {
        if self.position() < self.data().len() {
            self.data().subrange(self.position() as int, self.data().len() as int)
        } else {
            Seq::empty()
        }
    }

    /// `after` reads the same buffer as `self`, `n` bytes further on.
    pub open spec fn advanced(&self, after: &Self, n: int) -> bool {
        &&& after.data() == self.data()
        &&& after.position() == self.position() + n
    }

    /// Creates a cursor at the start of `buffer`.
    pub fn new(buffer: &'a [u8]) -> (r: Self)
        ensures
            r.data() == buffer@,
            r.position() == 0,
    {
        BinDecoder { buffer, index: 0 }
    }

    /// Pops one byte from the buffer.
    pub fn pop(&mut self) -> (r: ProtoResult<u8>)
        ensures
            old(self).remaining().len() == 0 ==> r == Err::<u8, ProtoError>(ProtoError::UnexpectedEof)
                && *final(self) == *old(self),
            old(self).remaining().len() > 0 ==> r == Ok::<u8, ProtoError>(old(self).remaining()[0])
                && old(self).advanced(final(self), 1),
    {
        self.read_u8()
    }

    /// Returns the number of bytes left to read.
    pub fn len(&self) -> (r: usize)
        ensures
            r == self.remaining().len(),
    {
        if self.index < self.buffer.len() {
            self.buffer.len() - self.index
        } else {
            0
        }
    }

    /// Returns `true` if no byte is left to read.
    pub fn is_empty(&self) -> (r: bool)
        ensures
            r == (self.remaining().len() == 0),
    {
        self.len() == 0
    }

    /// Returns the next byte without moving the read position.
    pub fn peek(&self) -> (r: Option<u8>)
        ensures
            self.remaining().len() == 0 ==> r is None,
            self.remaining().len() > 0 ==> r == Some(self.remaining()[0]),
    {
        if !self.is_empty() {
            Some(self.buffer[self.index])
        } else {
            None
        }
    }

    /// Returns the current position in the buffer.
    pub fn index(&self) -> (r: usize)
        ensures
            r == self.position(),
    {
        self.index
    }

    /// Returns a cursor over the same buffer at `index_at`; the buffer is not copied.
    pub fn clone(&self, index_at: u16) -> (r: BinDecoder<'a>)
        ensures
            r.data() == self.data(),
            r.position() == index_at,
    {
        BinDecoder { buffer: self.buffer, index: index_at as usize }
    }

    /// Reads a character-string: one length byte, then that many bytes of UTF-8 text.
    pub fn read_character_data(&mut self) -> (r: ProtoResult<String>)
        ensures
            ({
                let rem = old(self).remaining();
                if rem.len() == 0 {
                    r == Err::<String, ProtoError>(ProtoError::UnexpectedEof) && *final(self) == *old(self)
                } else if rem.len() < 1 + rem[0] {
                    r == Err::<String, ProtoError>(ProtoError::UnexpectedEof)
                        && old(self).advanced(final(self), 1)
                } else {
                    let text = rem.subrange(1, 1 + rem[0]);
                    &&& old(self).advanced(final(self), 1 + rem[0])
                    &&& valid_utf8(text) ==> r is Ok && r->Ok_0@ == decode_utf8(text)
                    &&& !valid_utf8(text) ==> r == Err::<String, ProtoError>(ProtoError::InvalidEncoding)
                }
            }),
    {
        let length = match self.read_u8() {
            Ok(b) => b,
            Err(e) => return Err(e),
        };
        assert(self.remaining() =~= old(self).remaining().drop_first());
        let bytes = match self.read_vec(length as usize) {
            Ok(v) => v,
            Err(e) => return Err(e),
        };
        assert(bytes@ =~= old(self).remaining().subrange(1, 1 + length as int));
        match string_from_utf8(bytes) {
            Some(s) => Ok(s),
            None => Err(ProtoError::InvalidEncoding),
        }
    }

    /// Reads `len` bytes into a new `Vec`.
    pub fn read_vec(&mut self, len: usize) -> (r: ProtoResult<Vec<u8>>)
        ensures
            len > old(self).remaining().len() ==> r == Err::<Vec<u8>, ProtoError>(ProtoError::UnexpectedEof)
                && *final(self) == *old(self),
            len <= old(self).remaining().len() ==> r is Ok
                && r->Ok_0@ == old(self).remaining().subrange(0, len as int)
                && old(self).advanced(final(self), len as int),
    {
        match self.read_slice(len) {
            Ok(s) => Ok(slice_to_vec(s)),
            Err(e) => Err(e),
        }
    }

    /// Reads `len` bytes as a slice of the underlying buffer, without copying.
    pub fn read_slice(&mut self, len: usize) -> (r: ProtoResult<&'a [u8]>)
        ensures
            len > old(self).remaining().len() ==> r == Err::<&'a [u8], ProtoError>(ProtoError::UnexpectedEof)
                && *final(self) == *old(self),
            len <= old(self).remaining().len() ==> r is Ok
                && r->Ok_0@ == old(self).remaining().subrange(0, len as int)
                && old(self).advanced(final(self), len as int),
    {
        if len > self.len() {
            Err(ProtoError::UnexpectedEof)
        } else {
            // past the end only an empty read gets here
            let start = if self.index < self.buffer.len() { self.index } else { self.buffer.len() };
            let s = slice_subrange(self.buffer, start, start + len);
            self.index = self.index + len;
            assert(s@ == old(self).remaining().subrange(0, len as int));
            Ok(s)
        }
    }

    /// Reads one byte; the same as `pop`.
    pub fn read_u8(&mut self) -> (r: ProtoResult<u8>)
        ensures
            old(self).remaining().len() == 0 ==> r == Err::<u8, ProtoError>(ProtoError::UnexpectedEof)
                && *final(self) == *old(self),
            old(self).remaining().len() > 0 ==> r == Ok::<u8, ProtoError>(old(self).remaining()[0])
                && old(self).advanced(final(self), 1),
    {
        if self.is_empty() {
            Err(ProtoError::UnexpectedEof)
        } else {
            let b = self.buffer[self.index];
            self.index = self.index + 1;
            Ok(b)
        }
    }

    /// Reads the next two bytes as a `u16` in network byte order.
    pub fn read_u16(&mut self) -> (r: ProtoResult<u16>)
        ensures
            old(self).remaining().len() <= 1 ==> r == Err::<u16, ProtoError>(ProtoError::UnexpectedEof)
                && *final(self) == *old(self),
            old(self).remaining().len() > 1 ==> r == Ok::<u16, ProtoError>(be_u16(old(self).remaining()))
                && old(self).advanced(final(self), 2),
    {
        if self.len() <= 1 {
            Err(ProtoError::UnexpectedEof)
        } else {
            let i = self.index;
            let v = (self.buffer[i] as u16) * 256 + (self.buffer[i + 1] as u16);
            self.index = i + 2;
            Ok(v)
        }
    }

    /// Reads the next four bytes as an `i32` in network byte order.
    pub fn read_i32(&mut self) -> (r: ProtoResult<i32>)
        ensures
            old(self).remaining().len() <= 3 ==> r == Err::<i32, ProtoError>(ProtoError::UnexpectedEof)
                && *final(self) == *old(self),
            old(self).remaining().len() > 3 ==> r == Ok::<i32, ProtoError>(be_i32(old(self).remaining()))
                && old(self).advanced(final(self), 4),
    {
        if self.len() <= 3 {
            Err(ProtoError::UnexpectedEof)
        } else {
            let v = self.take_u32();
            Ok(#[verifier::truncate] (v as i32))
        }
    }

    /// Reads the next four bytes as a `u32` in network byte order.
    pub fn read_u32(&mut self) -> (r: ProtoResult<u32>)
        ensures
            old(self).remaining().len() <= 3 ==> r == Err::<u32, ProtoError>(ProtoError::UnexpectedEof)
                && *final(self) == *old(self),
            old(self).remaining().len() > 3 ==> r == Ok::<u32, ProtoError>(be_u32(old(self).remaining()))
                && old(self).advanced(final(self), 4),
    {
        if self.len() <= 3 {
            Err(ProtoError::UnexpectedEof)
        } else {
            Ok(self.take_u32())
        }
    }

    /// Takes four bytes, known to be there, as a `u32` in network byte order.
    fn take_u32(&mut self) -> (r: u32)
        requires
            old(self).remaining().len() > 3,
        ensures
            r == be_u32(old(self).remaining()),
            old(self).advanced(final(self), 4),
    {
        let i = self.index;
        let v = (self.buffer[i] as u32) * 0x100_0000 + (self.buffer[i + 1] as u32) * 0x1_0000
            + (self.buffer[i + 2] as u32) * 256 + (self.buffer[i + 3] as u32);
        self.index = i + 4;
        v
    }
}

} // verus!
