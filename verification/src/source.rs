//! A cursor over the bytes of a stream, from which numbers are read in
//! big-endian order.

use byte_order::{ByteOrder, NumberReader};
use vstd::prelude::*;
use vstd::slice::slice_subrange;

use crate::error::DecodeError;

verus! {

/// The error type of the readers in `std::io`. Nothing is known of a value
/// of it but that it is an error.
#[verifier::external_type_specification]
#[verifier::external_body]
pub struct ExIoError(std::io::Error);

/// The number that four bytes stand for in big-endian order: the first byte
/// is the most significant.
pub open spec fn be_u32(b0: u8, b1: u8, b2: u8, b3: u8) -> u32 {
    (b0 as int * 0x100_0000 + b1 as int * 0x1_0000 + b2 as int * 0x100 + b3 as int) as u32
}

/// Calls `byte_order::NumberReader::read_u8` on a reader that is made over
/// `bytes`.
///
/// Trusted: the call hands out the first byte of `bytes`, and fails exactly
/// when `bytes` is empty.
#[verifier::external_body]
fn number_reader_read_u8(bytes: &[u8]) -> (r: Result<u8, std::io::Error>)
    ensures
        bytes@.len() >= 1 ==> r is Ok && r->Ok_0 == bytes@[0],
        bytes@.len() < 1 ==> r is Err,
{
    NumberReader::with_order(ByteOrder::BE, bytes).read_u8()
}

/// Calls `byte_order::NumberReader::read_u32` on a big-endian reader that is
/// made over `bytes`.
///
/// Trusted: the call hands out the big-endian number that the first four
/// bytes of `bytes` stand for, and fails exactly when `bytes` holds fewer
/// than four.
#[verifier::external_body]
fn number_reader_read_u32(bytes: &[u8]) -> (r: Result<u32, std::io::Error>)
    ensures
        bytes@.len() >= 4 ==> r is Ok && r->Ok_0 == be_u32(
            bytes@[0],
            bytes@[1],
            bytes@[2],
            bytes@[3],
        ),
        bytes@.len() < 4 ==> r is Err,
{
    NumberReader::with_order(ByteOrder::BE, bytes).read_u32()
}

/// A byte stream with a read cursor. Reading advances the cursor; a read
/// that fails leaves it where it was.
#[derive(Clone, Copy)]
pub struct ByteSource<'a> {
    bytes: &'a [u8],
    pos: usize,
}

impl<'a> ByteSource<'a> {
    /// All the bytes of the stream, read or not.
    pub closed spec fn bytes(self) -> Seq<u8> {
        self.bytes@
    }

    /// How many bytes have been read.
    pub closed spec fn offset(self) -> nat {
        self.pos as nat
    }

    /// The bytes that have not been read yet.
    pub open spec fn remaining(self) -> Seq<u8> {
        self.bytes().skip(self.offset() as int)
    }

    /// The cursor stands within the stream, or at its end. This holds of
    /// every source that the program holds.
    #[verifier::type_invariant]
    pub open spec fn in_bounds(self) -> bool {
        self.offset() <= self.bytes().len()
    }

    /// A source over `bytes` with nothing read.
    pub fn new(bytes: &'a [u8]) -> (s: Self)
        ensures
            s.bytes() == bytes@,
            s.offset() == 0,
            s.in_bounds(),
    {
        ByteSource { bytes, pos: 0 }
    }

    /// How many bytes have been read.
    pub fn position(&self) -> (n: usize)
        ensures
            n == self.offset(),
            self.in_bounds(),
    {
        proof {
            use_type_invariant(self);
        }
        self.pos
    }

    /// Reads one byte. Fails with [`DecodeError::Truncation`] exactly when
    /// no byte is left.
    pub fn read_u8(&mut self) -> (r: Result<u8, DecodeError>)
        ensures
            final(self).bytes() == old(self).bytes(),
            old(self).in_bounds(),
            final(self).in_bounds(),
            match r {
                Ok(b) => old(self).remaining().len() >= 1 && b == old(self).remaining()[0]
                    && final(self).offset() == old(self).offset() + 1,
                Err(e) => old(self).remaining().len() == 0 && e == DecodeError::Truncation
                    && final(self).offset() == old(self).offset(),
            },
    {
        proof {
            use_type_invariant(&*self);
        }
        let rest = slice_subrange(self.bytes, self.pos, self.bytes.len());
        match number_reader_read_u8(rest) {
            Ok(b) => {
                self.pos = self.pos + 1;
                Ok(b)
            },
            Err(_) => Err(DecodeError::Truncation),
        }
    }

    /// Reads four bytes as a big-endian number. Fails with
    /// [`DecodeError::Truncation`] exactly when fewer than four bytes are
    /// left.
    pub fn read_u32(&mut self) -> (r: Result<u32, DecodeError>)
        ensures
            final(self).bytes() == old(self).bytes(),
            old(self).in_bounds(),
            final(self).in_bounds(),
            match r {
                Ok(n) => old(self).remaining().len() >= 4 && n == be_u32(
                    old(self).remaining()[0],
                    old(self).remaining()[1],
                    old(self).remaining()[2],
                    old(self).remaining()[3],
                ) && final(self).offset() == old(self).offset() + 4,
                Err(e) => old(self).remaining().len() < 4 && e == DecodeError::Truncation
                    && final(self).offset() == old(self).offset(),
            },
    {
        proof {
            use_type_invariant(&*self);
        }
        let rest = slice_subrange(self.bytes, self.pos, self.bytes.len());
        match number_reader_read_u32(rest) {
            Ok(n) => {
                self.pos = self.pos + 4;
                Ok(n)
            },
            Err(_) => Err(DecodeError::Truncation),
        }
    }
}

} // verus!
