use allox::fit::parse_hdr;
use allox::fit::FitHeader;
use allox::fit::HeaderError;
use allox::fit::MsgType;
use allox::fit::RecordHdr;
use allox::fit::RecordHdrType;

const HDR14: [u8; 14] = [14, 0x20, 0x54, 0x08, 0x78, 0x56, 0x34, 0x12, b'.', b'F', b'I', b'T', 0xcd, 0xab];

#[test]
fn header_of_fourteen_bytes() {
    assert_eq!(
        parse_hdr(&HDR14),
        Ok(FitHeader { ver: 0x20, profile_ver: 0x0854, data_size: 0x1234_5678, crc: 0xabcd })
    );
}

#[test]
fn header_of_twelve_bytes_has_no_checksum() {
    assert_eq!(
        parse_hdr(&HDR14[..12]),
        Ok(FitHeader { ver: 0x20, profile_ver: 0x0854, data_size: 0x1234_5678, crc: 0 })
    );
}

#[test]
fn header_with_the_largest_numbers() {
    let b = [12, 0xff, 0xff, 0xff, 0xff, 0xff, 0xff, 0xff, b'.', b'F', b'I', b'T'];
    assert_eq!(
        parse_hdr(&b),
        Ok(FitHeader { ver: 0xff, profile_ver: u16::MAX, data_size: u32::MAX, crc: 0 })
    );
}

#[test]
fn header_of_another_length_is_cut_short() {
    assert_eq!(parse_hdr(&[]), Err(HeaderError::UnexpectedEof));
    assert_eq!(parse_hdr(&HDR14[..11]), Err(HeaderError::UnexpectedEof));
    assert_eq!(parse_hdr(&HDR14[..13]), Err(HeaderError::UnexpectedEof));
    let mut long = HDR14.to_vec();
    long.push(0);
    assert_eq!(parse_hdr(&long), Err(HeaderError::UnexpectedEof));
}

#[test]
fn header_without_the_mark_is_invalid() {
    for at in 8..12 {
        let mut b = HDR14;
        b[at] ^= 0x20;
        assert_eq!(parse_hdr(&b), Err(HeaderError::InvalidData));
        assert_eq!(parse_hdr(&b[..12]), Err(HeaderError::InvalidData));
    }
}

#[test]
fn normal_record_header() {
    let data = RecordHdr(0x0b);
    assert_eq!(data.hdr_type(), RecordHdrType::Normal);
    assert_eq!(data.msg_type(), MsgType::Data);
    assert_eq!(data.local_msg_type(), 11);
    assert_eq!(data.time_offset(), 0);
    let def = RecordHdr(0x4f);
    assert_eq!(def.hdr_type(), RecordHdrType::Normal);
    assert_eq!(def.msg_type(), MsgType::Definition);
    assert_eq!(def.local_msg_type(), 15);
    assert_eq!(def.time_offset(), 0);
    // Bits 4 and 5 belong to neither number of a normal header.
    assert_eq!(RecordHdr(0x37).local_msg_type(), 7);
    assert_eq!(RecordHdr(0x37).msg_type(), MsgType::Data);
}

#[test]
fn compressed_timestamp_record_header() {
    let h = RecordHdr(0b1101_0110);
    assert_eq!(h.hdr_type(), RecordHdrType::Cts);
    assert_eq!(h.msg_type(), MsgType::Data);
    assert_eq!(h.local_msg_type(), 2);
    assert_eq!(h.time_offset(), 22);
    let top = RecordHdr(0xff);
    assert_eq!(top.local_msg_type(), 3);
    assert_eq!(top.time_offset(), 31);
    assert_eq!(top.msg_type(), MsgType::Data);
    let low = RecordHdr(0x80);
    assert_eq!(low.hdr_type(), RecordHdrType::Cts);
    assert_eq!(low.local_msg_type(), 0);
    assert_eq!(low.time_offset(), 0);
}

#[test]
fn every_record_header_stays_in_range() {
    for b in 0..=255u8 {
        let h = RecordHdr(b);
        match h.hdr_type() {
            RecordHdrType::Normal => {
                assert!(b < 0x80);
                assert!(h.local_msg_type() <= 15);
                assert_eq!(h.time_offset(), 0);
                assert_eq!(h.msg_type() == MsgType::Definition, b & 0x40 != 0);
            }
            RecordHdrType::Cts => {
                assert!(b >= 0x80);
                assert!(h.local_msg_type() <= 3);
                assert!(h.time_offset() <= 31);
                assert_eq!(h.msg_type(), MsgType::Data);
            }
        }
    }
}
