//! How a header is written, and the proof that decoding reads it back.
//!
//! The library does not write headers. The description here is the other
//! half of the format: the bits of a header as the fields laid end to end,
//! against which the decoder's reading by position is checked.

use crate::bits::{
    bit_at, bits_value, holds_bits, lemma_bits_value_of_number, lemma_bits_value_zero,
    lemma_holds_bits_joined, lemma_number_bits_len, lemma_pack_holds, number_bits, pack,
};
use crate::header::{
    alignment_is_ones, checksum_pos, declared_data_count, decode_header, first_missing_field,
    header_fields, header_len, strip_parity, unpadded_bits, AncDataHeader, AncError,
    DATA_COUNT_POS, DID_POS, FLAG_POS, HORIZONTAL_OFFSET_BITS, HORIZONTAL_OFFSET_POS,
    LINE_NUMBER_BITS, LINE_NUMBER_POS, SDID_POS, WORD_BITS, ZERO_BITS,
};
use vstd::arithmetic::power2::lemma2_to64;
use vstd::prelude::*;

verus! {

/// The values a header is written from. The DID, SDID and data count are
/// given as the ten-bit words that are written, parity bits included.
pub struct HeaderWords {
    pub c_not_y_channel_flag: bool,
    pub line_number: nat,
    pub horizontal_offset: nat,
    pub did_word: nat,
    pub sdid_word: nat,
    pub data_count_word: nat,
    pub user_data: Seq<nat>,
    pub checksum: nat,
}

/// `n` bits of one value.
pub open spec fn repeated(bit: bool, n: nat) -> Seq<bool> {
    Seq::new(n, |i: int| bit)
}

/// The bits of a run of ten-bit words.
pub open spec fn words_bits(words: Seq<nat>) -> Seq<bool>
    decreases words.len(),
{
    if words.len() == 0 {
        Seq::empty()
    } else {
        words_bits(words.drop_last()) + number_bits(words.last(), WORD_BITS as nat)
    }
}

impl HeaderWords {
    /// Each value fits the width of its field, and there are as many user
    /// data words as the data count, without its parity bits, says.
    pub open spec fn valid(self) -> bool {
        &&& self.line_number < 0x800
        &&& self.horizontal_offset < 0x1000
        &&& self.did_word < 0x400
        &&& self.sdid_word < 0x400
        &&& self.data_count_word < 0x400
        &&& self.checksum < 0x400
        &&& self.user_data.len() == strip_parity(self.data_count_word)
    }

    /// The fields laid end to end, up to the end of the checksum.
    pub open spec fn unpadded(self) -> Seq<bool> {
        repeated(false, ZERO_BITS as nat) + seq![self.c_not_y_channel_flag] + number_bits(
            self.line_number,
            LINE_NUMBER_BITS as nat,
        ) + number_bits(self.horizontal_offset, HORIZONTAL_OFFSET_BITS as nat) + number_bits(
            self.did_word,
            WORD_BITS as nat,
        ) + number_bits(self.sdid_word, WORD_BITS as nat) + number_bits(
            self.data_count_word,
            WORD_BITS as nat,
        ) + words_bits(self.user_data) + number_bits(self.checksum, WORD_BITS as nat)
    }

    /// The number of set bits that fill the last byte.
    pub open spec fn padding(self) -> nat {
        ((8 - self.unpadded().len() % 8) % 8) as nat
    }

    /// The written header: the fields, then set bits up to a whole byte.
    pub open spec fn bits(self) -> Seq<bool> {
        self.unpadded() + repeated(true, self.padding())
    }

    /// The header that the written bits decode to.
    pub open spec fn header(self) -> AncDataHeader {
        AncDataHeader {
            c_not_y_channel_flag: self.c_not_y_channel_flag,
            did: strip_parity(self.did_word) as u8,
            sdid: strip_parity(self.sdid_word) as u8,
            line_number: self.line_number as u16,
            horizontal_offset: self.horizontal_offset as u16,
            data_count: strip_parity(self.data_count_word) as u8,
            checksum: self.checksum as u16,
            len: (self.bits().len() / 8) as usize,
        }
    }
}

/// A run of ten-bit words takes ten bits for each.
pub proof fn lemma_words_bits_len(words: Seq<nat>)
    ensures
        words_bits(words).len() == 10 * words.len(),
    decreases words.len(),
{
    if words.len() > 0 {
        lemma_words_bits_len(words.drop_last());
        lemma_number_bits_len(words.last(), WORD_BITS as nat);
    }
}

/// A written header is a whole number of bytes: as many as its data count
/// asks for.
pub proof fn lemma_written_len(w: HeaderWords)
    ensures
        w.unpadded().len() == unpadded_bits(w.user_data.len()),
        w.bits().len() == 8 * header_len(w.user_data.len()),
{
    lemma_number_bits_len(w.line_number, LINE_NUMBER_BITS as nat);
    lemma_number_bits_len(w.horizontal_offset, HORIZONTAL_OFFSET_BITS as nat);
    lemma_number_bits_len(w.did_word, WORD_BITS as nat);
    lemma_number_bits_len(w.sdid_word, WORD_BITS as nat);
    lemma_number_bits_len(w.data_count_word, WORD_BITS as nat);
    lemma_number_bits_len(w.checksum, WORD_BITS as nat);
    lemma_words_bits_len(w.user_data);
}

impl HeaderWords {
    /// The written header as bytes.
    pub open spec fn bytes(self) -> Seq<u8> {
        pack(self.bits())
    }
}

/// Writing then decoding gives back what was written: the bytes of a written
/// header decode to the values it was written from, the DID, SDID and data
/// count without their parity bits, whatever those bits were, and to the
/// number of bytes written.
pub proof fn lemma_round_trip(w: HeaderWords)
    requires
        w.valid(),
    ensures
        decode_header(w.bytes()) == Ok::<AncDataHeader, AncError>(w.header()),
        w.header().len == w.bytes().len(),
{
    lemma_written_len(w);
    lemma_pack_holds(w.bits());
    lemma_decode_written(w, w.bytes());
}

/// The same of any slice that starts with the bits of a written header,
/// whatever follows them.
pub proof fn lemma_decode_written(w: HeaderWords, data: Seq<u8>)
    requires
        w.valid(),
        holds_bits(data, 0, w.bits()),
    ensures
        decode_header(data) == Ok::<AncDataHeader, AncError>(w.header()),
{
    let zero = repeated(false, ZERO_BITS as nat);
    let flag = seq![w.c_not_y_channel_flag];
    let line = number_bits(w.line_number, LINE_NUMBER_BITS as nat);
    let offset = number_bits(w.horizontal_offset, HORIZONTAL_OFFSET_BITS as nat);
    let did = number_bits(w.did_word, WORD_BITS as nat);
    let sdid = number_bits(w.sdid_word, WORD_BITS as nat);
    let count = number_bits(w.data_count_word, WORD_BITS as nat);
    let user = words_bits(w.user_data);
    let checksum = number_bits(w.checksum, WORD_BITS as nat);
    let fill = repeated(true, w.padding());
    let n = w.user_data.len();

    lemma2_to64();
    lemma_written_len(w);
    lemma_number_bits_len(w.line_number, LINE_NUMBER_BITS as nat);
    lemma_number_bits_len(w.horizontal_offset, HORIZONTAL_OFFSET_BITS as nat);
    lemma_number_bits_len(w.did_word, WORD_BITS as nat);
    lemma_number_bits_len(w.sdid_word, WORD_BITS as nat);
    lemma_number_bits_len(w.data_count_word, WORD_BITS as nat);
    lemma_number_bits_len(w.checksum, WORD_BITS as nat);
    lemma_words_bits_len(w.user_data);

    let s1 = zero + flag;
    let s2 = s1 + line;
    let s3 = s2 + offset;
    let s4 = s3 + did;
    let s5 = s4 + sdid;
    let s6 = s5 + count;
    let s7 = s6 + user;
    let s8 = s7 + checksum;
    assert(s8 == w.unpadded());
    lemma_holds_bits_joined(data, 0, s8, fill);
    lemma_holds_bits_joined(data, 0, s7, checksum);
    lemma_holds_bits_joined(data, 0, s6, user);
    lemma_holds_bits_joined(data, 0, s5, count);
    lemma_holds_bits_joined(data, 0, s4, sdid);
    lemma_holds_bits_joined(data, 0, s3, did);
    lemma_holds_bits_joined(data, 0, s2, offset);
    lemma_holds_bits_joined(data, 0, s1, line);
    lemma_holds_bits_joined(data, 0, zero, flag);

    assert(bits_value(data, 0, ZERO_BITS as nat) == 0) by {
        lemma_bits_value_zero(data, 0, ZERO_BITS as nat);
        assert forall|i: int| 0 <= i < ZERO_BITS implies !#[trigger] bit_at(data, i) by {
            assert(zero[i] == false);
        }
    }
    assert(bit_at(data, FLAG_POS as int) == w.c_not_y_channel_flag) by {
        assert(flag[0] == w.c_not_y_channel_flag);
    }
    lemma_bits_value_of_number(data, LINE_NUMBER_POS as int, w.line_number, LINE_NUMBER_BITS as nat);
    lemma_bits_value_of_number(
        data,
        HORIZONTAL_OFFSET_POS as int,
        w.horizontal_offset,
        HORIZONTAL_OFFSET_BITS as nat,
    );
    lemma_bits_value_of_number(data, DID_POS as int, w.did_word, WORD_BITS as nat);
    lemma_bits_value_of_number(data, SDID_POS as int, w.sdid_word, WORD_BITS as nat);
    lemma_bits_value_of_number(data, DATA_COUNT_POS as int, w.data_count_word, WORD_BITS as nat);
    assert(declared_data_count(data) == n);
    lemma_bits_value_of_number(data, checksum_pos(n) as int, w.checksum, WORD_BITS as nat);
    assert(first_missing_field(data) is None);
    assert(alignment_is_ones(data)) by {
        assert forall|i: int| unpadded_bits(n) <= i < 8 * header_len(n) implies #[trigger] bit_at(
            data,
            i,
        ) by {
            assert(fill[i - unpadded_bits(n)] == true);
        }
    }
    assert(header_fields(data) == w.header());
}

} // verus!
