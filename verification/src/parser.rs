//! A forward-only reader over a byte slice.
use vstd::prelude::*;

use crate::card32::{card32_at, read_u32_le};
use crate::error::ParseError;

verus! {

/// Represents an on-going parse over an Xcursor-formatted buffer.
///
/// This parser provides a zero-copy, forward-only reading over a byte slice. All reads advance
/// an internal cursor and return borrowed data tied to the original buffer's lifetime.
pub struct Parser<'a> {
    buffer: &'a [u8],
}

impl<'a> View for Parser<'a> {
    type V = Seq<u8>;

    /// The bytes that are still to be read.
    closed spec fn view(&self) -> Seq<u8> {
        self.buffer@
    }
}

impl<'a> Parser<'a> {
    /// Construct a new parser over the provided buffer.
    pub fn new(buffer: &'a [u8]) -> (p: Self)
        ensures
            p@ == buffer@,
    {
        Self { buffer }
    }

    /// Read `size` bytes from the buffer.
    ///
    /// # Errors
    ///
    /// This function returns an error if:
    ///
    /// - Fewer than `size` bytes remain in the buffer
    pub fn read_bytes(&mut self, size: usize) -> (r: Result<&'a [u8], ParseError>)
        ensures
            size <= old(self)@.len() ==> (r matches Ok(bytes) && bytes@ == old(self)@.take(
                size as int,
            ) && final(self)@ == old(self)@.skip(size as int) && bytes@ + final(self)@ == old(
                self,
            )@),
            size > old(self)@.len() ==> (r matches Err(ParseError::NotEnoughBytes { needed })
                && needed == size - old(self)@.len() && final(self)@ == old(self)@),
    {
        if size <= self.buffer.len() {
            let (bytes, remainder) = self.buffer.split_at(size);
            self.buffer = remainder;
            Ok(bytes)
        } else {
            Err(ParseError::NotEnoughBytes { needed: size - self.buffer.len() })
        }
    }

    /// Read one little-endian CARD32 from the buffer.
    ///
    /// # Errors
    ///
    /// This function returns an error if fewer than four bytes remain in the buffer.
    pub fn read_card32(&mut self) -> (r: Result<u32, ParseError>)
        ensures
            4 <= old(self)@.len() ==> r == Ok::<u32, ParseError>(card32_at(old(self)@, 0))
                && final(self)@ == old(self)@.skip(4),
            4 > old(self)@.len() ==> (r matches Err(ParseError::NotEnoughBytes { needed })
                && needed == 4 - old(self)@.len() && final(self)@ == old(self)@),
    {
        let bytes = self.read_bytes(4)?;
        Ok(read_u32_le(bytes, 0))
    }
}

} // verus!
