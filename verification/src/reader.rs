//! The bit reader the decoder pulls its fields from.
//!
//! Reading is done by `bitstream_io::BitReader` over an in-memory cursor, in
//! big-endian bit order. Nothing in this module is proved: each function
//! makes one call into the reader and states what that call does, in terms
//! of the bytes the reader was opened on and the number of bits it has
//! consumed. The decoder is proved against these statements, and they are
//! what has to be held against the reader's source.

use crate::bits::{bit_at, bits_value};
use bitstream_io::{BigEndian, BitRead, BitReader};
use std::io::Cursor;
use vstd::prelude::*;

verus! {

/// `std::io::Error`, which the reader's calls fail with. Nothing is claimed
/// of it and nothing is read out of it.
#[verifier::external_type_specification]
#[verifier::external_body]
pub struct ExIoError(std::io::Error);

/// A big-endian `bitstream_io::BitReader` over a borrowed byte slice.
///
/// What is inside is hidden from the proofs. They know of a cursor what
/// [`cursor_data`] and [`cursor_position`] name, and of those what the
/// functions below state.
#[verifier::external_body]
pub struct BitCursor<'a> {
    reader: BitReader<Cursor<&'a [u8]>, BigEndian>,
}

/// The bytes a cursor was opened on. Reading never changes them.
pub uninterp spec fn cursor_data(c: BitCursor) -> Seq<u8>;

/// The number of bits a cursor has consumed since it was opened.
pub uninterp spec fn cursor_position(c: BitCursor) -> nat;

impl<'a> BitCursor<'a> {
    /// The bits that are left to read.
    pub open spec fn remaining(self) -> int {
        8 * cursor_data(self).len() - cursor_position(self)
    }

    /// `BitReader::endian` over `Cursor::new`: a reader opened on `slice`
    /// holds its bytes and has consumed nothing.
    #[verifier::external_body]
    pub(crate) fn open(slice: &'a [u8]) -> (c: BitCursor<'a>)
        ensures
            cursor_data(c) == slice@,
            cursor_position(c) == 0,
    {
        BitCursor { reader: BitReader::endian(Cursor::new(slice), BigEndian) }
    }

    /// `BitRead::read::<u16>`: succeeds exactly when at most 16 bits are asked
    /// for and that many are left. It then returns the number those bits
    /// write, first bit most significant, and has consumed them. Nothing is
    /// claimed of the reader after a failure.
    #[verifier::external_body]
    pub(crate) fn read(&mut self, bits: u32) -> (res: Result<u16, std::io::Error>)
        ensures
            res is Ok <==> bits <= 16 && bits <= old(self).remaining(),
            res is Ok ==> res->Ok_0 == bits_value(
                cursor_data(*old(self)),
                cursor_position(*old(self)) as int,
                bits as nat,
            ),
            res is Ok ==> cursor_data(*final(self)) == cursor_data(*old(self)),
            res is Ok ==> cursor_position(*final(self)) == cursor_position(*old(self)) + bits,
    {
        self.reader.read::<u16>(bits)
    }

    /// `BitRead::read_bit`: succeeds exactly when a bit is left. It then
    /// returns that bit and has consumed it.
    #[verifier::external_body]
    pub(crate) fn read_bit(&mut self) -> (res: Result<bool, std::io::Error>)
        ensures
            res is Ok <==> 1 <= old(self).remaining(),
            res is Ok ==> res->Ok_0 == bit_at(
                cursor_data(*old(self)),
                cursor_position(*old(self)) as int,
            ),
            res is Ok ==> cursor_data(*final(self)) == cursor_data(*old(self)),
            res is Ok ==> cursor_position(*final(self)) == cursor_position(*old(self)) + 1,
    {
        self.reader.read_bit()
    }

    /// `BitRead::skip`: succeeds exactly when `bits` bits are left, and has
    /// then consumed them.
    #[verifier::external_body]
    pub(crate) fn skip(&mut self, bits: u32) -> (res: Result<(), std::io::Error>)
        ensures
            res is Ok <==> bits <= old(self).remaining(),
            res is Ok ==> cursor_data(*final(self)) == cursor_data(*old(self)),
            res is Ok ==> cursor_position(*final(self)) == cursor_position(*old(self)) + bits,
    {
        self.reader.skip(bits)
    }

    /// `BitRead::byte_aligned`: whether the bits consumed so far make up
    /// whole bytes.
    #[verifier::external_body]
    pub(crate) fn byte_aligned(&self) -> (aligned: bool)
        ensures
            aligned == (cursor_position(*self) % 8 == 0),
    {
        self.reader.byte_aligned()
    }

    /// `BitReader::position_in_bits`: the number of bits consumed so far. On
    /// an in-memory cursor the query cannot fail, and it leaves the reader as
    /// it was. The reader multiplies the count of bytes it has touched by 8,
    /// which must fit in a `u64`.
    #[verifier::external_body]
    pub(crate) fn position_in_bits(&mut self) -> (res: Result<u64, std::io::Error>)
        requires
            cursor_position(*old(self)) + 7 <= u64::MAX,
        ensures
            res is Ok,
            res->Ok_0 == cursor_position(*old(self)),
            cursor_data(*final(self)) == cursor_data(*old(self)),
            cursor_position(*final(self)) == cursor_position(*old(self)),
    {
        self.reader.position_in_bits()
    }
}

} // verus!
