use allox::fanotify::event::decode_event;
use allox::fanotify::event::next_info;
use allox::fanotify::event::read_file_handle;
use allox::fanotify::event::read_info_header;
use allox::fanotify::event::read_metadata;
use allox::fanotify::event::to_signed;
use allox::fanotify::event::Decoded;
use allox::fanotify::event::InfoType;
use allox::fanotify::flags::EventFlags;
use allox::fanotify::sys;

fn metadata(event_len: u32, mask: u64, fd: i32, pid: u32) -> Vec<u8> {
    let mut b = Vec::new();
    b.extend_from_slice(&event_len.to_le_bytes());
    b.push(3);
    b.push(0);
    b.extend_from_slice(&24u16.to_le_bytes());
    b.extend_from_slice(&mask.to_le_bytes());
    b.extend_from_slice(&fd.to_le_bytes());
    b.extend_from_slice(&pid.to_le_bytes());
    b
}

fn fid_record(info_type: u8, handle: &[u8]) -> Vec<u8> {
    let mut b = vec![info_type, 0];
    b.extend_from_slice(&((20 + handle.len()) as u16).to_le_bytes());
    b.extend_from_slice(&[1, 0, 0, 0, 2, 0, 0, 0]);
    b.extend_from_slice(&(handle.len() as u32).to_le_bytes());
    b.extend_from_slice(&(-5i32).to_le_bytes());
    b.extend_from_slice(handle);
    b
}

#[test]
fn metadata_is_read_field_by_field() {
    let b = metadata(24, 0x1_0000_0020, 7, 4321);
    let m = read_metadata(&b, 0);
    assert_eq!(
        m,
        sys::event_metadata { event_len: 24, vers: 3, _reserved: 0, _metadata_len: 24, mask: 0x1_0000_0020, fd: 7, pid: 4321 }
    );
    let mut shifted = vec![0xaa; 5];
    shifted.extend_from_slice(&metadata(24, u64::MAX, -1, u32::MAX));
    let m = read_metadata(&shifted, 5);
    assert_eq!((m.mask, m.fd, m.pid), (u64::MAX, -1, u32::MAX));
}

#[test]
fn numbers_of_32_bits_in_twos_complement() {
    assert_eq!(to_signed(0), 0);
    assert_eq!(to_signed(0x7fff_ffff), i32::MAX);
    assert_eq!(to_signed(0x8000_0000), i32::MIN);
    assert_eq!(to_signed(0xffff_ffff), -1);
    assert_eq!(to_signed(0xffff_fffe), sys::FAN_EPIDFD);
}

#[test]
fn event_with_a_descriptor() {
    let mut b = metadata(24, 0x4000_0028, 9, 77);
    b.extend_from_slice(&metadata(24, 0x2, 10, 78));
    let want = EventFlags { open: true, close_write: true, close: true, ondir: true, ..EventFlags::default() };
    assert_eq!(decode_event(&b, 0, 48), Decoded::Event { next: 24, mask: want, fd: 9, pid: 77 });
    let second = EventFlags { modify: true, ..EventFlags::default() };
    assert_eq!(decode_event(&b, 24, 48), Decoded::Event { next: 48, mask: second, fd: 10, pid: 78 });
    assert_eq!(decode_event(&b, 48, 48), Decoded::NeedMore);
}

#[test]
fn only_the_low_half_of_the_mask_counts() {
    let b = metadata(24, 0xffff_ffff_0000_0001, 3, 1);
    let want = EventFlags { access: true, ..EventFlags::default() };
    assert_eq!(decode_event(&b, 0, 24), Decoded::Event { next: 24, mask: want, fd: 3, pid: 1 });
}

#[test]
fn event_without_a_descriptor_is_passed_over() {
    let mut b = metadata(24 + 28, 0x100, sys::FAN_NOFD, 5);
    b.extend_from_slice(&fid_record(2, b"handle!\0"));
    assert_eq!(decode_event(&b, 0, b.len()), Decoded::NoFile { next: 52 });
    let e = metadata(24, 0x100, sys::FAN_EPIDFD, 5);
    assert_eq!(decode_event(&e, 0, 24), Decoded::NoFile { next: 24 });
}

#[test]
fn event_with_an_unsound_length_is_dropped() {
    let long = metadata(25, 1, 3, 1);
    assert_eq!(decode_event(&long, 0, 24), Decoded::Dropped);
    let short = metadata(23, 1, 3, 1);
    assert_eq!(decode_event(&short, 0, 24), Decoded::Dropped);
    let zero = metadata(0, 1, 3, 1);
    assert_eq!(decode_event(&zero, 0, 24), Decoded::Dropped);
    assert_eq!(decode_event(&long, 0, 23), Decoded::NeedMore);
    assert_eq!(decode_event(&long, 10, 10), Decoded::NeedMore);
}

#[test]
fn info_records_are_walked_by_their_lengths() {
    let mut b = fid_record(1, &[1, 2, 3, 4]);
    b.extend_from_slice(&fid_record(3, &[]));
    b.extend_from_slice(&[4, 0, 8, 0, 0xff, 0xff, 0xff, 0xff]);
    let end = b.len();
    let (h, next) = next_info(&b, 0, end).unwrap();
    assert_eq!((h.info_type, h.len, next), (1, 24, 24));
    assert_eq!(InfoType::try_from(h.info_type as i32), Ok(InfoType::Fid));
    let (h, next) = next_info(&b, next, end).unwrap();
    assert_eq!((h.info_type, h.len, next), (3, 20, 44));
    let (h, next) = next_info(&b, next, end).unwrap();
    assert_eq!((h, next), (sys::event_info_header { info_type: 4, _pad: 0, len: 8 }, 52));
    assert_eq!(next_info(&b, next, end), None);
    assert_eq!(read_info_header(&b, 24).info_type, 3);
}

#[test]
fn info_record_with_an_unsound_length_ends_the_walk() {
    assert_eq!(next_info(&[1, 0, 0, 0], 0, 4), None);
    assert_eq!(next_info(&[1, 0, 3, 0], 0, 4), None);
    assert_eq!(next_info(&[1, 0, 5, 0], 0, 4), None);
    assert_eq!(next_info(&[1, 0, 4], 0, 3), None);
    assert!(next_info(&[1, 0, 4, 0], 0, 4).is_some());
}

#[test]
fn file_handle_of_a_record() {
    let b = fid_record(2, &[9, 8, 7]);
    let f = read_file_handle(&b, 0, b.len()).unwrap();
    assert_eq!(f.fh, sys::file_handle { handle_bytes: 3, _handle_type: -5 });
    assert_eq!(f.handle, vec![9, 8, 7]);
    assert_eq!(read_file_handle(&b, 0, b.len() - 1), None);
    assert_eq!(read_file_handle(&b, 0, 19), None);
    let empty = fid_record(1, &[]);
    assert_eq!(read_file_handle(&empty, 0, 20).unwrap().handle, Vec::<u8>::new());
}

#[test]
fn kinds_of_info_record() {
    assert_eq!(InfoType::try_from(1), Ok(InfoType::Fid));
    assert_eq!(InfoType::try_from(2), Ok(InfoType::DfidName));
    assert_eq!(InfoType::try_from(3), Ok(InfoType::Dfid));
    assert_eq!(InfoType::try_from(4), Ok(InfoType::PidFd));
    assert_eq!(InfoType::try_from(5), Ok(InfoType::Error));
    for n in [0, 6, 10, 12, -1, i32::MAX] {
        assert_eq!(InfoType::try_from(n), Err(()));
    }
}
