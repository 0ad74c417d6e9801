//! Properties of the header format, proved from [`decode_header`].

use crate::bits::{
    bit_at, bits_value, lemma_bit_at_take, lemma_bits_value_agree, lemma_bits_value_take,
    lemma_bits_value_zero, lemma_low_byte_of_word,
};
use crate::header::{
    alignment_is_ones, bytes_for, checksum_pos, declared_data_count, decode_header,
    first_missing_field, header_fields, header_len, lemma_decoded_is_well_formed, unpadded_bits,
    AncDataHeader, AncError, HeaderField, Malformation, DATA_COUNT_POS, DATA_POS, DID_POS,
    HORIZONTAL_OFFSET_BITS, HORIZONTAL_OFFSET_POS, LINE_NUMBER_BITS, LINE_NUMBER_POS, SDID_POS,
    WORD_BITS, ZERO_BITS,
};
use vstd::prelude::*;

verus! {

/// Whether `i` is the position of one of the six parity bits: the first two
/// bits of the DID, SDID and data count words.
pub open spec fn is_parity_position(i: int) -> bool {
    ||| i == DID_POS || i == DID_POS + 1
    ||| i == SDID_POS || i == SDID_POS + 1
    ||| i == DATA_COUNT_POS || i == DATA_COUNT_POS + 1
}

/// The length of a header is the least number of bytes that hold the 70 bits
/// of its fixed fields and checksum and the ten bits of each of its user data
/// words.
pub proof fn lemma_len_of_decoded(data: Seq<u8>)
    requires
        decode_header(data) is Ok,
    ensures
        ({
            let h = decode_header(data)->Ok_0;
            &&& h.data_count == declared_data_count(data)
            &&& h.len == bytes_for(70 + 10 * h.data_count as nat)
            &&& 8 * h.len - 8 < 70 + 10 * h.data_count <= 8 * h.len
        }),
{
    lemma_decoded_is_well_formed(data);
}

/// Each user data word adds exactly ten bits, so the length never shrinks as
/// the data count grows, grows by one or two bytes with each word, and by
/// exactly five bytes with every four words.
pub proof fn lemma_len_is_linear(n: nat)
    ensures
        unpadded_bits(n) == 70 + 10 * n,
        unpadded_bits(n + 1) == unpadded_bits(n) + 10,
        header_len(n) + 1 <= header_len(n + 1) <= header_len(n) + 2,
        header_len(n + 4) == header_len(n) + 5,
{
}

/// Of two headers, the one with the larger data count is at least as long.
pub proof fn lemma_len_is_monotonic(a: Seq<u8>, b: Seq<u8>)
    requires
        decode_header(a) is Ok,
        decode_header(b) is Ok,
        decode_header(a)->Ok_0.data_count <= decode_header(b)->Ok_0.data_count,
    ensures
        decode_header(a)->Ok_0.len <= decode_header(b)->Ok_0.len,
{
    lemma_decoded_is_well_formed(a);
    lemma_decoded_is_well_formed(b);
}

/// A header without user data words is nine bytes long, and its DID, SDID and
/// data count are the numbers written by the last eight bits of their words,
/// whatever the two parity bits before them are.
pub proof fn lemma_header_without_data(data: Seq<u8>)
    requires
        decode_header(data) is Ok,
        decode_header(data)->Ok_0.data_count == 0,
    ensures
        ({
            let h = decode_header(data)->Ok_0;
            &&& h.len == 9
            &&& h.did == bits_value(data, DID_POS + 2, 8)
            &&& h.sdid == bits_value(data, SDID_POS + 2, 8)
            &&& bits_value(data, DATA_COUNT_POS + 2, 8) == 0
        }),
{
    lemma_decoded_is_well_formed(data);
    lemma_parity_is_stripped(data);
}

/// The DID, SDID and data count of any header are the numbers written by the
/// last eight bits of their words.
pub proof fn lemma_parity_is_stripped(data: Seq<u8>)
    ensures
        header_fields(data).did == bits_value(data, DID_POS + 2, 8),
        header_fields(data).sdid == bits_value(data, SDID_POS + 2, 8),
        header_fields(data).data_count == bits_value(data, DATA_COUNT_POS + 2, 8),
        declared_data_count(data) == bits_value(data, DATA_COUNT_POS + 2, 8),
{
    lemma_low_byte_of_word(data, DID_POS as int);
    lemma_low_byte_of_word(data, SDID_POS as int);
    lemma_low_byte_of_word(data, DATA_COUNT_POS as int);
}

/// Two byte sequences of one length that differ in parity bits only decode to
/// the same result.
pub proof fn lemma_parity_is_ignored(a: Seq<u8>, b: Seq<u8>)
    requires
        a.len() == b.len(),
        forall|i: int|
            #![trigger bit_at(a, i)]
            #![trigger bit_at(b, i)]
            0 <= i < 8 * a.len() && !is_parity_position(i) ==> bit_at(a, i) == bit_at(b, i),
    ensures
        decode_header(a) == decode_header(b),
{
    let have = 8 * a.len();
    if have >= ZERO_BITS {
        lemma_bits_value_agree(a, b, 0, ZERO_BITS as nat);
        if have < DATA_POS {
            assert(first_missing_field(a) == first_missing_field(b));
        } else {
            lemma_parity_is_stripped(a);
            lemma_parity_is_stripped(b);
            lemma_bits_value_agree(a, b, DATA_COUNT_POS + 2, 8);
            let n = declared_data_count(a);
            assert(n == declared_data_count(b));
            assert(first_missing_field(a) == first_missing_field(b));
            if have >= unpadded_bits(n) {
                lemma_bits_value_agree(a, b, LINE_NUMBER_POS as int, LINE_NUMBER_BITS as nat);
                lemma_bits_value_agree(
        a,
        b,
        HORIZONTAL_OFFSET_POS as int,
        HORIZONTAL_OFFSET_BITS as nat,
    );
                lemma_bits_value_agree(a, b, DID_POS + 2, 8);
                lemma_bits_value_agree(a, b, SDID_POS + 2, 8);
                lemma_bits_value_agree(a, b, checksum_pos(n) as int, WORD_BITS as nat);
                assert(header_fields(a) == header_fields(b));
                assert(alignment_is_ones(a) == alignment_is_ones(b));
            }
        }
    }
}

/// Cutting a slice that holds a header short of the header's length, by one
/// byte or by more, leaves a slice that is reported as truncated.
pub proof fn lemma_short_slice_is_truncated(data: Seq<u8>, m: int)
    requires
        decode_header(data) is Ok,
        0 <= m < decode_header(data)->Ok_0.len,
    ensures
        decode_header(data.take(m)) matches Err(AncError::Truncated(_)),
{
    lemma_decoded_is_well_formed(data);
    let short = data.take(m);
    let n = declared_data_count(data);
    if 8 * m >= ZERO_BITS {
        lemma_bits_value_take(data, m, 0, ZERO_BITS as nat);
        if 8 * m >= DATA_POS {
            lemma_bits_value_take(data, m, DATA_COUNT_POS as int, WORD_BITS as nat);
            assert(declared_data_count(short) == n);
            assert(8 * m < unpadded_bits(n));
        }
        assert(first_missing_field(short) is Some);
    }
}

/// A slice whose six leading bits are not all clear is reported as malformed,
/// whatever else it holds and however short it is.
pub proof fn lemma_marker_bit_set(data: Seq<u8>, i: int)
    requires
        data.len() >= 1,
        0 <= i < ZERO_BITS,
        bit_at(data, i),
    ensures
        decode_header(data) == Err::<AncDataHeader, AncError>(
            AncError::MalformedHeader(Malformation::ZeroBitsNotZero),
        ),
{
    lemma_bits_value_zero(data, 0, ZERO_BITS as nat);
}

/// A slice that holds every field up to the checksum, with a clear zero
/// marker, is reported as malformed where one of the bits between the
/// checksum and the next byte boundary is clear.
pub proof fn lemma_alignment_bit_clear(data: Seq<u8>, i: int)
    requires
        8 * data.len() >= unpadded_bits(declared_data_count(data)),
        bits_value(data, 0, ZERO_BITS as nat) == 0,
        unpadded_bits(declared_data_count(data)) <= i < 8 * header_len(
            declared_data_count(data),
        ),
        !bit_at(data, i),
    ensures
        decode_header(data) == Err::<AncDataHeader, AncError>(
            AncError::MalformedHeader(Malformation::AlignmentBitsNotOnes),
        ),
{
}

/// There are two, four, six or no alignment bits: the fields before the
/// checksum end on an even position, and every fourth data count on a byte
/// boundary.
pub proof fn lemma_alignment_width(n: nat)
    ensures
        8 * header_len(n) - unpadded_bits(n) == (if n % 4 == 0 {
            2int
        } else if n % 4 == 1 {
            0int
        } else if n % 4 == 2 {
            6int
        } else {
            4int
        }),
{
}

/// The result of decoding depends on the bytes of the header alone: a slice
/// that starts with the same bytes decodes to the same header.
pub proof fn lemma_trailing_bytes_are_ignored(a: Seq<u8>, b: Seq<u8>)
    requires
        decode_header(a) is Ok,
        decode_header(a)->Ok_0.len <= b.len(),
        b.take(decode_header(a)->Ok_0.len as int) == a.take(decode_header(a)->Ok_0.len as int),
    ensures
        decode_header(b) == decode_header(a),
{
    lemma_decoded_is_well_formed(a);
    let len = decode_header(a)->Ok_0.len as int;
    let n = declared_data_count(a);
    assert forall|i: int|
        #![trigger bit_at(a, i)]
        #![trigger bit_at(b, i)]
        0 <= i < 8 * len implies bit_at(a, i) == bit_at(b, i) by {
        lemma_bit_at_take(a, len, i);
        lemma_bit_at_take(b, len, i);
    }
    lemma_bits_value_agree(a, b, 0, ZERO_BITS as nat);
    lemma_bits_value_agree(a, b, DATA_COUNT_POS as int, WORD_BITS as nat);
    lemma_bits_value_agree(a, b, LINE_NUMBER_POS as int, LINE_NUMBER_BITS as nat);
    lemma_bits_value_agree(
        a,
        b,
        HORIZONTAL_OFFSET_POS as int,
        HORIZONTAL_OFFSET_BITS as nat,
    );
    lemma_bits_value_agree(a, b, DID_POS as int, WORD_BITS as nat);
    lemma_bits_value_agree(a, b, SDID_POS as int, WORD_BITS as nat);
    lemma_bits_value_agree(a, b, checksum_pos(n) as int, WORD_BITS as nat);
    assert(header_fields(a) == header_fields(b));
    assert(alignment_is_ones(b));
}

/// A slice is never reported as truncated at the flag or at the alignment
/// bits: a slice holds whole bytes, so one that holds the zero marker holds
/// the flag, and one that holds the checksum holds the bits that fill its
/// last byte.
pub proof fn lemma_truncation_is_at_a_word(data: Seq<u8>)
    ensures
        decode_header(data) != Err::<AncDataHeader, AncError>(
            AncError::Truncated(HeaderField::CNotYChannelFlag),
        ),
        decode_header(data) != Err::<AncDataHeader, AncError>(
            AncError::Truncated(HeaderField::Alignment),
        ),
{
}

} // verus!
