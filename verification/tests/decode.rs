use bitstream_io::{BigEndian, BitWrite, BitWriter};
use st2038anc::header::{
    AncDataHeader, AncError, HeaderField, Malformation, DATA_COUNT_POS, DATA_POS, DID_POS,
    FLAG_POS, HORIZONTAL_OFFSET_BITS, HORIZONTAL_OFFSET_POS, LINE_NUMBER_BITS, LINE_NUMBER_POS,
    SDID_POS, WORD_BITS, ZERO_BITS,
};

/// What a fixture is written from. `did`, `sdid` and `data_count` are the
/// ten-bit words, parity bits included.
#[derive(Clone, Debug)]
struct Fixture {
    zero: u8,
    flag: bool,
    line_number: u16,
    horizontal_offset: u16,
    did: u16,
    sdid: u16,
    data_count: u16,
    user_data: Vec<u16>,
    checksum: u16,
    /// Given bits to fill the last byte with, most significant first; all
    /// ones where `None`.
    fill: Option<Vec<bool>>,
}

fn plain(words: usize) -> Fixture {
    Fixture {
        zero: 0,
        flag: false,
        line_number: 9,
        horizontal_offset: 0,
        did: 0x161,
        sdid: 0x101,
        data_count: words as u16,
        user_data: (0..words).map(|i| (i as u16 * 37) & 0x3ff).collect(),
        checksum: 0x2ab,
        fill: None,
    }
}

fn write(f: &Fixture) -> Vec<u8> {
    let mut w = BitWriter::endian(Vec::new(), BigEndian);
    w.write(6, f.zero).unwrap();
    w.write_bit(f.flag).unwrap();
    w.write(11, f.line_number).unwrap();
    w.write(12, f.horizontal_offset).unwrap();
    w.write(10, f.did).unwrap();
    w.write(10, f.sdid).unwrap();
    w.write(10, f.data_count).unwrap();
    for word in &f.user_data {
        w.write(10, *word).unwrap();
    }
    w.write(10, f.checksum).unwrap();
    let mut at = 0;
    while !w.byte_aligned() {
        let bit = match &f.fill {
            Some(bits) => bits[at],
            None => true,
        };
        w.write_bit(bit).unwrap();
        at += 1;
    }
    w.into_writer()
}

fn expected_len(words: usize) -> usize {
    (70 + 10 * words + 7) / 8
}

fn fill_width(words: usize) -> usize {
    8 * expected_len(words) - (70 + 10 * words)
}

#[test]
fn decodes_the_worked_example() {
    let f = Fixture {
        zero: 0,
        flag: false,
        line_number: 5,
        horizontal_offset: 3,
        did: 0x103,
        sdid: 0x185,
        data_count: 0,
        user_data: vec![],
        checksum: 1,
        fill: None,
    };
    let bytes = write(&f);
    assert_eq!(bytes, vec![0x00, 0x01, 0x40, 0x0d, 0x03, 0x61, 0x40, 0x00, 0x07]);
    let h = AncDataHeader::from_slice(&bytes).unwrap();
    assert_eq!(
        h,
        AncDataHeader {
            c_not_y_channel_flag: false,
            did: 3,
            sdid: 0x85,
            line_number: 5,
            horizontal_offset: 3,
            data_count: 0,
            checksum: 1,
            len: 9,
        }
    );
    assert_eq!(h.len * 8, 72);
}

#[test]
fn worked_example_with_one_fill_bit_only_is_malformed() {
    // 70 bits of fields need two set bits to reach a byte boundary.
    let mut f = plain(0);
    f.fill = Some(vec![true, false]);
    assert_eq!(
        AncDataHeader::from_slice(&write(&f)),
        Err(AncError::MalformedHeader(Malformation::AlignmentBitsNotOnes))
    );
}

#[test]
fn decodes_from_hand_written_bytes() {
    // 000000 1 11111111111 111111111111 1111111111 1111111111 1100000001
    // 1010101010 1010010101: 80 bits, so no fill.
    let bytes = [0x03, 0xff, 0xff, 0xff, 0xff, 0xff, 0xf0, 0x1a, 0xaa, 0x95];
    let h = AncDataHeader::from_slice(&bytes).unwrap();
    assert_eq!(
        h,
        AncDataHeader {
            c_not_y_channel_flag: true,
            did: 0xff,
            sdid: 0xff,
            line_number: 0x7ff,
            horizontal_offset: 0xfff,
            data_count: 1,
            checksum: 0x295,
            len: 10,
        }
    );
}

#[test]
fn header_without_data_is_nine_bytes_for_every_parity() {
    for parity in 0..64u16 {
        let mut f = plain(0);
        f.did = ((parity & 3) << 8) | 0x61;
        f.sdid = (((parity >> 2) & 3) << 8) | 0x02;
        f.data_count = ((parity >> 4) & 3) << 8;
        let h = AncDataHeader::from_slice(&write(&f)).unwrap();
        assert_eq!(h.len, 9);
        assert_eq!(h.did, 0x61);
        assert_eq!(h.sdid, 0x02);
        assert_eq!(h.data_count, 0);
        assert_eq!(h.checksum, 0x2ab);
        assert_eq!(h.line_number, 9);
    }
}

#[test]
fn parity_bits_do_not_change_the_result() {
    let mut f = plain(3);
    let base = AncDataHeader::from_slice(&write(&f)).unwrap();
    for parity in 0..64u16 {
        f.did = ((parity & 3) << 8) | (f.did & 0xff);
        f.sdid = (((parity >> 2) & 3) << 8) | (f.sdid & 0xff);
        f.data_count = (((parity >> 4) & 3) << 8) | 3;
        assert_eq!(AncDataHeader::from_slice(&write(&f)), Ok(base));
    }
}

#[test]
fn len_grows_by_ten_bits_a_word() {
    let mut last = 0;
    for words in 0..=255usize {
        let bytes = write(&plain(words));
        let h = AncDataHeader::from_slice(&bytes).unwrap();
        assert_eq!(h.data_count as usize, words);
        assert_eq!(h.len, expected_len(words));
        assert_eq!(h.len, bytes.len());
        assert!(h.len >= last);
        assert!(h.len * 8 >= 70 + 10 * words);
        assert!(h.len * 8 < 70 + 10 * words + 8);
        last = h.len;
    }
    assert_eq!(expected_len(0), 9);
    assert_eq!(expected_len(1), 10);
    assert_eq!(expected_len(2), 12);
    assert_eq!(expected_len(3), 13);
    assert_eq!(expected_len(4), 14);
    assert_eq!(expected_len(255), 328);
}

#[test]
fn four_more_words_are_five_more_bytes() {
    for words in 0..=251usize {
        let a = AncDataHeader::from_slice(&write(&plain(words))).unwrap();
        let b = AncDataHeader::from_slice(&write(&plain(words + 4))).unwrap();
        assert_eq!(b.len, a.len + 5);
    }
}

#[test]
fn data_count_is_the_low_byte_of_its_word() {
    // A word of 0x100 declares no user data words: its set bit is parity.
    let mut f = plain(0);
    f.data_count = 0x100;
    let h = AncDataHeader::from_slice(&write(&f)).unwrap();
    assert_eq!(h.data_count, 0);
    assert_eq!(h.len, 9);

    let mut f = plain(5);
    f.data_count = 0x305;
    let h = AncDataHeader::from_slice(&write(&f)).unwrap();
    assert_eq!(h.data_count, 5);
    assert_eq!(h.len, expected_len(5));
    assert_eq!(h.checksum, 0x2ab);
}

#[test]
fn reads_back_what_was_written() {
    let lines = [0u16, 1, 5, 0x3ff, 0x400, 0x7ff];
    let offsets = [0u16, 3, 0x800, 0xfff];
    let words = [0x000u16, 0x0ff, 0x100, 0x1a5, 0x200, 0x2ff, 0x35a, 0x3ff];
    let mut cases = 0;
    for (i, line) in lines.iter().enumerate() {
        for (j, offset) in offsets.iter().enumerate() {
            for (k, did) in words.iter().enumerate() {
                let sdid = words[(k + i + 3) % words.len()];
                let count = (i * 4 + j + k * 31) % 256;
                let f = Fixture {
                    zero: 0,
                    flag: (i + j + k) % 2 == 1,
                    line_number: *line,
                    horizontal_offset: *offset,
                    did: *did,
                    sdid,
                    data_count: (((k as u16) & 3) << 8) | count as u16,
                    user_data: (0..count).map(|n| ((n * 7 + k) as u16) & 0x3ff).collect(),
                    checksum: words[(k + j) % words.len()],
                    fill: None,
                };
                let bytes = write(&f);
                let h = AncDataHeader::from_slice(&bytes).unwrap();
                assert_eq!(h.c_not_y_channel_flag, f.flag);
                assert_eq!(h.line_number, f.line_number);
                assert_eq!(h.horizontal_offset, f.horizontal_offset);
                assert_eq!(h.did, (f.did & 0xff) as u8);
                assert_eq!(h.sdid, (f.sdid & 0xff) as u8);
                assert_eq!(h.data_count as usize, count);
                assert_eq!(h.checksum, f.checksum);
                assert_eq!(h.len, bytes.len());
                cases += 1;
            }
        }
    }
    assert_eq!(cases, 6 * 4 * 8);
}

#[test]
fn user_data_is_skipped_whatever_it_holds() {
    let mut f = plain(6);
    let base = AncDataHeader::from_slice(&write(&f)).unwrap();
    f.user_data = vec![0x3ff; 6];
    assert_eq!(AncDataHeader::from_slice(&write(&f)), Ok(base));
    f.user_data = vec![0; 6];
    assert_eq!(AncDataHeader::from_slice(&write(&f)), Ok(base));
}

#[test]
fn one_byte_short_is_truncated() {
    for words in 0..=255usize {
        let bytes = write(&plain(words));
        let short = &bytes[..bytes.len() - 1];
        match AncDataHeader::from_slice(short) {
            Err(AncError::Truncated(field)) => {
                // The last byte always holds bits of the checksum.
                assert_eq!(field, HeaderField::Checksum);
            }
            other => panic!("{:?}", other),
        }
    }
}

#[test]
fn every_shorter_slice_is_truncated_at_the_first_field_it_cuts() {
    let bytes = write(&plain(2));
    assert_eq!(bytes.len(), 12);
    let expected = [
        HeaderField::ZeroBits,
        HeaderField::LineNumber,
        HeaderField::LineNumber,
        HeaderField::HorizontalOffset,
        HeaderField::Did,
        HeaderField::Sdid,
        HeaderField::Sdid,
        HeaderField::DataCount,
        HeaderField::Data,
        HeaderField::Data,
        HeaderField::Checksum,
        HeaderField::Checksum,
    ];
    for cut in 0..bytes.len() {
        assert_eq!(
            AncDataHeader::from_slice(&bytes[..cut]),
            Err(AncError::Truncated(expected[cut])),
            "cut at {}",
            cut
        );
    }
    assert!(AncDataHeader::from_slice(&bytes).is_ok());
}

#[test]
fn empty_slice_is_truncated_at_the_zero_bits() {
    assert_eq!(
        AncDataHeader::from_slice(&[]),
        Err(AncError::Truncated(HeaderField::ZeroBits))
    );
}

#[test]
fn large_data_count_on_a_short_slice_is_truncated() {
    let mut f = plain(0);
    f.data_count = 0xff;
    assert_eq!(
        AncDataHeader::from_slice(&write(&f)),
        Err(AncError::Truncated(HeaderField::Data))
    );
}

#[test]
fn any_set_zero_bit_is_malformed() {
    for bit in 0..6 {
        for words in [0usize, 1, 7] {
            let mut f = plain(words);
            f.zero = 1 << bit;
            f.flag = words == 1;
            let bytes = write(&f);
            assert_eq!(
                AncDataHeader::from_slice(&bytes),
                Err(AncError::MalformedHeader(Malformation::ZeroBitsNotZero))
            );
            // Also where nothing but the first byte is there.
            assert_eq!(
                AncDataHeader::from_slice(&bytes[..1]),
                Err(AncError::MalformedHeader(Malformation::ZeroBitsNotZero))
            );
        }
    }
    assert_eq!(
        AncDataHeader::from_slice(&[0xff; 16]),
        Err(AncError::MalformedHeader(Malformation::ZeroBitsNotZero))
    );
}

#[test]
fn flag_and_line_number_bits_of_the_first_byte_are_no_zero_bits() {
    let mut f = plain(0);
    f.flag = true;
    f.line_number = 0x400;
    let bytes = write(&f);
    assert_eq!(bytes[0], 0x03);
    let h = AncDataHeader::from_slice(&bytes).unwrap();
    assert!(h.c_not_y_channel_flag);
    assert_eq!(h.line_number, 0x400);
}

#[test]
fn any_clear_alignment_bit_is_malformed() {
    for words in 0..16usize {
        let width = fill_width(words);
        assert_eq!(width, [2, 0, 6, 4][words % 4]);
        for clear in 0..width {
            let mut f = plain(words);
            f.fill = Some((0..width).map(|i| i != clear).collect());
            assert_eq!(
                AncDataHeader::from_slice(&write(&f)),
                Err(AncError::MalformedHeader(Malformation::AlignmentBitsNotOnes)),
                "{} words, bit {}",
                words,
                clear
            );
        }
        let mut f = plain(words);
        f.fill = Some(vec![false; width]);
        assert_eq!(AncDataHeader::from_slice(&write(&f)).is_ok(), width == 0);
    }
}

#[test]
fn header_that_ends_on_a_byte_boundary_has_no_alignment_bits() {
    let mut bytes = write(&plain(1));
    assert_eq!(bytes.len(), 10);
    // The byte after the header is not alignment: it may hold anything.
    bytes.push(0x00);
    let h = AncDataHeader::from_slice(&bytes).unwrap();
    assert_eq!(h.len, 10);
}

#[test]
fn bytes_after_the_header_are_not_looked_at() {
    for words in [0usize, 1, 2, 3, 200] {
        let bytes = write(&plain(words));
        let base = AncDataHeader::from_slice(&bytes).unwrap();
        for tail in [vec![0x00], vec![0xff; 3], vec![0x12, 0x34, 0x56, 0x78]] {
            let mut longer = bytes.clone();
            longer.extend_from_slice(&tail);
            assert_eq!(AncDataHeader::from_slice(&longer), Ok(base));
        }
    }
}

#[test]
fn len_leads_to_the_next_header() {
    let first = plain(3);
    let mut second = plain(1);
    second.line_number = 21;
    second.did = 0x260;
    let mut bytes = write(&first);
    bytes.extend_from_slice(&write(&second));
    let a = AncDataHeader::from_slice(&bytes).unwrap();
    assert_eq!(a.len, 13);
    let b = AncDataHeader::from_slice(&bytes[a.len..]).unwrap();
    assert_eq!(b.line_number, 21);
    assert_eq!(b.did, 0x60);
    assert_eq!(a.len + b.len, bytes.len());
}

#[test]
fn zero_bits_are_checked_before_the_rest_is_read() {
    // One byte: too short for a line number, but the zero bits come first.
    assert_eq!(
        AncDataHeader::from_slice(&[0x04]),
        Err(AncError::MalformedHeader(Malformation::ZeroBitsNotZero))
    );
    assert_eq!(
        AncDataHeader::from_slice(&[0x03]),
        Err(AncError::Truncated(HeaderField::LineNumber))
    );
}

#[test]
fn truncation_is_found_before_alignment_is_checked() {
    let mut f = plain(2);
    f.fill = Some(vec![false; 6]);
    let bytes = write(&f);
    assert_eq!(
        AncDataHeader::from_slice(&bytes[..bytes.len() - 1]),
        Err(AncError::Truncated(HeaderField::Checksum))
    );
}

#[test]
fn causes_read_as_text() {
    assert_eq!(
        AncError::MalformedHeader(Malformation::ZeroBitsNotZero).cause(),
        "zero bits not zero"
    );
    assert_eq!(
        AncError::MalformedHeader(Malformation::AlignmentBitsNotOnes).cause(),
        "alignment bits are not ones"
    );
    assert_eq!(Malformation::ZeroBitsNotZero.message(), "zero bits not zero");
    assert_eq!(Malformation::AlignmentBitsNotOnes.message(), "alignment bits are not ones");
    let names = [
        (HeaderField::ZeroBits, "zero bits"),
        (HeaderField::CNotYChannelFlag, "c_not_y_channel_flag"),
        (HeaderField::LineNumber, "line number"),
        (HeaderField::HorizontalOffset, "horizontal offset"),
        (HeaderField::Did, "DID"),
        (HeaderField::Sdid, "SDID"),
        (HeaderField::DataCount, "data count"),
        (HeaderField::Data, "data"),
        (HeaderField::Checksum, "checksum"),
        (HeaderField::Alignment, "alignment"),
    ];
    for (field, name) in names {
        assert_eq!(field.name(), name);
        assert_eq!(AncError::Truncated(field).cause(), name);
    }
}

#[test]
fn layout_constants_add_up() {
    assert_eq!(FLAG_POS, ZERO_BITS);
    assert_eq!(LINE_NUMBER_POS, FLAG_POS + 1);
    assert_eq!(HORIZONTAL_OFFSET_POS, LINE_NUMBER_POS + LINE_NUMBER_BITS);
    assert_eq!(DID_POS, HORIZONTAL_OFFSET_POS + HORIZONTAL_OFFSET_BITS);
    assert_eq!(SDID_POS, DID_POS + WORD_BITS);
    assert_eq!(DATA_COUNT_POS, SDID_POS + WORD_BITS);
    assert_eq!(DATA_POS, DATA_COUNT_POS + WORD_BITS);
    assert_eq!(DATA_POS + WORD_BITS, 70);
}
