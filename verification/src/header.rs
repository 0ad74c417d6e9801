//! The ancillary data packet header and its decoder.
//!
//! A header is read from the first bit of a byte slice, most significant bit
//! first, with no padding between its fields:
//!
//! | field             | bits            |                                   |
//! |-------------------|-----------------|-----------------------------------|
//! | zero marker       | 6               | must be zero                      |
//! | C-not-Y flag      | 1               |                                   |
//! | line number       | 11              |                                   |
//! | horizontal offset | 12              |                                   |
//! | DID               | 10              | top two bits are parity, dropped  |
//! | SDID              | 10              | top two bits are parity, dropped  |
//! | data count        | 10              | top two bits are parity, dropped  |
//! | user data words   | 10 × data count | skipped                           |
//! | checksum          | 10              | kept, not verified                |
//! | alignment         | 0 to 7          | all ones, up to the next byte     |
//!
//! [`decode_header`] says what every byte sequence decodes to, and
//! [`AncDataHeader::from_slice`] computes exactly that.

use crate::bits::{bit_at, bits_value, lemma_bits_value_bound, lemma_bits_value_single};
use vstd::arithmetic::power2::lemma2_to64;
use crate::reader::{cursor_data, cursor_position, BitCursor};
use vstd::prelude::*;

verus! {

/// Width of the zero marker.
pub const ZERO_BITS: u32 = 6;

/// Width of the line number.
pub const LINE_NUMBER_BITS: u32 = 11;

/// Width of the horizontal offset.
pub const HORIZONTAL_OFFSET_BITS: u32 = 12;

/// Width of DID, SDID, data count, checksum and of each user data word.
pub const WORD_BITS: u32 = 10;

/// Position of the C-not-Y flag.
pub const FLAG_POS: u32 = 6;

/// Position of the first bit of the line number.
pub const LINE_NUMBER_POS: u32 = 7;

/// Position of the first bit of the horizontal offset.
pub const HORIZONTAL_OFFSET_POS: u32 = 18;

/// Position of the first bit of the DID word.
pub const DID_POS: u32 = 30;

/// Position of the first bit of the SDID word.
pub const SDID_POS: u32 = 40;

/// Position of the first bit of the data count word.
pub const DATA_COUNT_POS: u32 = 50;

/// Position of the first user data word, or of the checksum where there is
/// none.
pub const DATA_POS: u32 = 60;

/// The parts of a header, in the order in which they are read.
#[derive(Clone, Copy, Debug, PartialEq, Eq)]
pub enum HeaderField {
    ZeroBits,
    CNotYChannelFlag,
    LineNumber,
    HorizontalOffset,
    Did,
    Sdid,
    DataCount,
    Data,
    Checksum,
    Alignment,
}

/// The ways in which bits that are present can break the layout.
#[derive(Clone, Copy, Debug, PartialEq, Eq)]
pub enum Malformation {
    /// One of the six leading bits is set.
    ZeroBitsNotZero,
    /// One of the bits that pad the header to a whole byte is clear.
    AlignmentBitsNotOnes,
}

/// Why a slice does not hold a header.
#[derive(Clone, Copy, Debug, PartialEq, Eq)]
pub enum AncError {
    /// The slice ends before the last bit of the named field.
    Truncated(HeaderField),
    /// The bits are there but are not a header.
    MalformedHeader(Malformation),
}

impl HeaderField {
    /// The field's name, as text.
    pub open spec fn name_text(self) -> Seq<char> {
        match self {
            HeaderField::ZeroBits => "zero bits"@,
            HeaderField::CNotYChannelFlag => "c_not_y_channel_flag"@,
            HeaderField::LineNumber => "line number"@,
            HeaderField::HorizontalOffset => "horizontal offset"@,
            HeaderField::Did => "DID"@,
            HeaderField::Sdid => "SDID"@,
            HeaderField::DataCount => "data count"@,
            HeaderField::Data => "data"@,
            HeaderField::Checksum => "checksum"@,
            HeaderField::Alignment => "alignment"@,
        }
    }

    /// The field's name.
    pub fn name(&self) -> (text: &'static str)
        ensures
            text@ == self.name_text(),
    {
        match self {
            HeaderField::ZeroBits => "zero bits",
            HeaderField::CNotYChannelFlag => "c_not_y_channel_flag",
            HeaderField::LineNumber => "line number",
            HeaderField::HorizontalOffset => "horizontal offset",
            HeaderField::Did => "DID",
            HeaderField::Sdid => "SDID",
            HeaderField::DataCount => "data count",
            HeaderField::Data => "data",
            HeaderField::Checksum => "checksum",
            HeaderField::Alignment => "alignment",
        }
    }
}

impl Malformation {
    /// What is wrong, as text.
    pub open spec fn message_text(self) -> Seq<char> {
        match self {
            Malformation::ZeroBitsNotZero => "zero bits not zero"@,
            Malformation::AlignmentBitsNotOnes => "alignment bits are not ones"@,
        }
    }

    /// What is wrong.
    pub fn message(&self) -> (text: &'static str)
        ensures
            text@ == self.message_text(),
    {
        match self {
            Malformation::ZeroBitsNotZero => "zero bits not zero",
            Malformation::AlignmentBitsNotOnes => "alignment bits are not ones",
        }
    }
}

impl AncError {
    /// The cause of the failure, as text: the name of the field that the
    /// slice is too short for, or what is wrong with the bits.
    pub open spec fn cause_text(self) -> Seq<char> {
        match self {
            AncError::Truncated(field) => field.name_text(),
            AncError::MalformedHeader(what) => what.message_text(),
        }
    }

    /// The cause of the failure, for a person to read.
    pub fn cause(&self) -> (text: &'static str)
        ensures
            text@ == self.cause_text(),
    {
        match self {
            AncError::Truncated(field) => field.name(),
            AncError::MalformedHeader(what) => what.message(),
        }
    }
}

/// A decoded header.
#[derive(Clone, Copy, Debug, PartialEq, Eq)]
pub struct AncDataHeader {
    pub c_not_y_channel_flag: bool,
    /// Data identifier, without its parity bits.
    pub did: u8,
    /// Secondary data identifier, without its parity bits.
    pub sdid: u8,
    pub line_number: u16,
    pub horizontal_offset: u16,
    /// Number of user data words that follow the header, without its parity
    /// bits.
    pub data_count: u8,
    /// The checksum word as found; it is not verified.
    pub checksum: u16,
    /// Bytes taken up by the header, its user data words, the checksum and
    /// the alignment bits.
    pub len: usize,
}

/// A ten-bit word without its two parity bits.
pub open spec fn strip_parity(word: nat) -> nat {
    word % 256
}

/// The data count that `data` declares.
pub open spec fn declared_data_count(data: Seq<u8>) -> nat {
    strip_parity(bits_value(data, DATA_COUNT_POS as int, WORD_BITS as nat))
}

/// Position of the first bit of the checksum of a header with `data_count`
/// user data words.
pub open spec fn checksum_pos(data_count: nat) -> nat {
    DATA_POS as nat + WORD_BITS as nat * data_count
}

/// Position of the first bit after the checksum of a header with `data_count`
/// user data words: the number of bits the header needs before alignment.
pub open spec fn unpadded_bits(data_count: nat) -> nat {
    checksum_pos(data_count) + WORD_BITS as nat
}

/// The least whole number of bytes that holds `bits` bits.
pub open spec fn bytes_for(bits: nat) -> nat {
    (bits + 7) / 8
}

/// Bytes taken up by a header with `data_count` user data words, alignment
/// included.
pub open spec fn header_len(data_count: nat) -> nat {
    bytes_for(unpadded_bits(data_count))
}

/// Position of the first bit after `field` in a header with `data_count`
/// user data words.
pub open spec fn field_end(field: HeaderField, data_count: nat) -> nat {
    match field {
        HeaderField::ZeroBits => FLAG_POS as nat,
        HeaderField::CNotYChannelFlag => LINE_NUMBER_POS as nat,
        HeaderField::LineNumber => HORIZONTAL_OFFSET_POS as nat,
        HeaderField::HorizontalOffset => DID_POS as nat,
        HeaderField::Did => SDID_POS as nat,
        HeaderField::Sdid => DATA_COUNT_POS as nat,
        HeaderField::DataCount => DATA_POS as nat,
        HeaderField::Data => checksum_pos(data_count),
        HeaderField::Checksum => unpadded_bits(data_count),
        HeaderField::Alignment => 8 * header_len(data_count),
    }
}

/// The first field after the zero marker that `data` is too short to hold,
/// if there is one. The data count is looked at only where `data` holds it.
pub open spec fn first_missing_field(data: Seq<u8>) -> Option<HeaderField> {
    let have = 8 * data.len();
    let n = declared_data_count(data);
    if have < field_end(HeaderField::CNotYChannelFlag, n) {
        Some(HeaderField::CNotYChannelFlag)
    } else if have < field_end(HeaderField::LineNumber, n) {
        Some(HeaderField::LineNumber)
    } else if have < field_end(HeaderField::HorizontalOffset, n) {
        Some(HeaderField::HorizontalOffset)
    } else if have < field_end(HeaderField::Did, n) {
        Some(HeaderField::Did)
    } else if have < field_end(HeaderField::Sdid, n) {
        Some(HeaderField::Sdid)
    } else if have < field_end(HeaderField::DataCount, n) {
        Some(HeaderField::DataCount)
    } else if have < field_end(HeaderField::Data, n) {
        Some(HeaderField::Data)
    } else if have < field_end(HeaderField::Checksum, n) {
        Some(HeaderField::Checksum)
    } else {
        None
    }
}

/// Whether every bit of `data` between the end of the checksum and the next
/// byte boundary is set.
pub open spec fn alignment_is_ones(data: Seq<u8>) -> bool {
    let n = declared_data_count(data);
    forall|i: int| unpadded_bits(n) <= i < 8 * header_len(n) ==> #[trigger] bit_at(data, i)
}

/// The fields of the header that `data` starts with, where it holds all of
/// them.
pub open spec fn header_fields(data: Seq<u8>) -> AncDataHeader {
    let n = declared_data_count(data);
    AncDataHeader {
        c_not_y_channel_flag: bit_at(data, FLAG_POS as int),
        line_number: bits_value(data, LINE_NUMBER_POS as int, LINE_NUMBER_BITS as nat) as u16,
        horizontal_offset: bits_value(
            data,
            HORIZONTAL_OFFSET_POS as int,
            HORIZONTAL_OFFSET_BITS as nat,
        ) as u16,
        did: strip_parity(bits_value(data, DID_POS as int, WORD_BITS as nat)) as u8,
        sdid: strip_parity(bits_value(data, SDID_POS as int, WORD_BITS as nat)) as u8,
        data_count: n as u8,
        checksum: bits_value(data, checksum_pos(n) as int, WORD_BITS as nat) as u16,
        len: header_len(n) as usize,
    }
}

/// What `data` decodes to.
///
/// The fields are taken in order and the first fault found is the one
/// reported: a slice too short for the zero marker, a zero marker with a bit
/// set, a slice too short for one of the later fields, an alignment bit that
/// is clear. Bytes after the header are not looked at.
pub open spec fn decode_header(data: Seq<u8>) -> Result<AncDataHeader, AncError> {
    if 8 * data.len() < ZERO_BITS {
        Err(AncError::Truncated(HeaderField::ZeroBits))
    } else if bits_value(data, 0, ZERO_BITS as nat) != 0 {
        Err(AncError::MalformedHeader(Malformation::ZeroBitsNotZero))
    } else if let Some(field) = first_missing_field(data) {
        Err(AncError::Truncated(field))
    } else if !alignment_is_ones(data) {
        Err(AncError::MalformedHeader(Malformation::AlignmentBitsNotOnes))
    } else {
        Ok(header_fields(data))
    }
}

/// Every header that a byte sequence decodes to is well formed and lies
/// within the sequence.
pub proof fn lemma_decoded_is_well_formed(data: Seq<u8>)
    requires
        decode_header(data) is Ok,
    ensures
        decode_header(data)->Ok_0.well_formed(),
        decode_header(data)->Ok_0.len <= data.len(),
        decode_header(data)->Ok_0 == header_fields(data),
{
    lemma2_to64();
    lemma_bits_value_bound(data, LINE_NUMBER_POS as int, LINE_NUMBER_BITS as nat);
    lemma_bits_value_bound(data, HORIZONTAL_OFFSET_POS as int, HORIZONTAL_OFFSET_BITS as nat);
    lemma_bits_value_bound(
        data,
        checksum_pos(declared_data_count(data)) as int,
        WORD_BITS as nat,
    );
}

impl AncDataHeader {
    /// What holds of every decoded header: each field fits the width it was
    /// read with, and the length is the one that the data count gives.
    pub open spec fn well_formed(self) -> bool {
        &&& self.line_number < 0x800
        &&& self.horizontal_offset < 0x1000
        &&& self.checksum < 0x400
        &&& self.len == header_len(self.data_count as nat)
    }

    /// Decodes the header that `slice` starts with.
    ///
    /// The result is exactly what [`decode_header`] says of the bytes of
    /// `slice`: the header where they hold one, and else the first fault in
    /// reading order.
    pub fn from_slice(slice: &[u8]) -> (result: Result<AncDataHeader, AncError>)
        ensures
            result == decode_header(slice@),
            result matches Ok(header) ==> header.well_formed() && header.len <= slice@.len(),
    {
        let ghost data = slice@;
        let mut r = BitCursor::open(slice);

        let zeroes = match r.read(ZERO_BITS) {
            Ok(v) => v,
            Err(_) => {
                return Err(AncError::Truncated(HeaderField::ZeroBits));
            },
        };
        if zeroes != 0 {
            return Err(AncError::MalformedHeader(Malformation::ZeroBitsNotZero));
        }
        let c_not_y_channel_flag = match r.read_bit() {
            Ok(v) => v,
            // Not taken: the byte that holds the zero bits holds the flag.
            Err(_) => {
                return Err(AncError::Truncated(HeaderField::CNotYChannelFlag));
            },
        };
        let line_number = match r.read(LINE_NUMBER_BITS) {
            Ok(v) => v,
            Err(_) => {
                return Err(AncError::Truncated(HeaderField::LineNumber));
            },
        };
        let horizontal_offset = match r.read(HORIZONTAL_OFFSET_BITS) {
            Ok(v) => v,
            Err(_) => {
                return Err(AncError::Truncated(HeaderField::HorizontalOffset));
            },
        };
        // Top two bits are parity bits and can be stripped off
        let did = match r.read(WORD_BITS) {
            Ok(v) => low_byte(v),
            Err(_) => {
                return Err(AncError::Truncated(HeaderField::Did));
            },
        };
        let sdid = match r.read(WORD_BITS) {
            Ok(v) => low_byte(v),
            Err(_) => {
                return Err(AncError::Truncated(HeaderField::Sdid));
            },
        };
        let data_count = match r.read(WORD_BITS) {
            Ok(v) => low_byte(v),
            Err(_) => {
                return Err(AncError::Truncated(HeaderField::DataCount));
            },
        };
        let ghost n = data_count as nat;

        if r.skip(data_count as u32 * WORD_BITS).is_err() {
            return Err(AncError::Truncated(HeaderField::Data));
        }
        let checksum = match r.read(WORD_BITS) {
            Ok(v) => v,
            Err(_) => {
                return Err(AncError::Truncated(HeaderField::Checksum));
            },
        };

        while !r.byte_aligned()
            invariant
                data == slice@,
                cursor_data(r) == data,
                n == declared_data_count(data),
                8 * data.len() >= ZERO_BITS,
                bits_value(data, 0, ZERO_BITS as nat) == 0,
                first_missing_field(data) is None,
                unpadded_bits(n) <= cursor_position(r) <= 8 * header_len(n),
                cursor_position(r) <= 8 * data.len(),
                forall|i: int| unpadded_bits(n) <= i < cursor_position(r) ==> bit_at(data, i),
            decreases 8 * header_len(n) - cursor_position(r),
        {
            let ghost at = cursor_position(r) as int;
            proof {
                lemma_bits_value_single(data, at);
            }
            let one = match r.read(1) {
                Ok(v) => v,
                // Not taken: the byte that holds the end of the checksum
                // holds the bits that fill it.
                Err(_) => {
                    return Err(AncError::Truncated(HeaderField::Alignment));
                },
            };
            if one != 1 {
                assert(!bit_at(data, at));
                return Err(AncError::MalformedHeader(Malformation::AlignmentBitsNotOnes));
            }
        }

        let bits = match r.position_in_bits() {
            Ok(v) => v,
            // Not taken: the position of an in-memory reader is always known.
            Err(_) => {
                return Err(AncError::Truncated(HeaderField::Alignment));
            },
        };
        let len = (bits / 8) as usize;
        proof {
            lemma_decoded_is_well_formed(data);
        }

        Ok(
            AncDataHeader {
                c_not_y_channel_flag,
                line_number,
                horizontal_offset,
                did,
                sdid,
                data_count,
                checksum,
                len,
            },
        )
    }
}

/// The low eight bits of a word.
fn low_byte(word: u16) -> (byte: u8)
    ensures
        byte == strip_parity(word as nat),
{
    assert(word & 0xff == word % 256) by (bit_vector);
    (word & 0xff) as u8
}

} // verus!
