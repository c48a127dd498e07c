//! Reading events out of the bytes that a fanotify descriptor hands over.
//!
//! The kernel writes its structures in the byte order of the machine; here
//! numbers stand lowest byte first. An event is its metadata of 24 bytes and,
//! after that, any number of info records, each with a head of four bytes
//! that holds the length of the record.

use vstd::prelude::*;
use crate::fanotify::flags::EventFlags;
use crate::fanotify::sys;

verus! {

/// Bytes of the metadata of an event.
pub const EVT_META_SIZE: usize = 24;

/// Bytes of the head of an info record.
pub const INFO_HDR_SIZE: usize = 4;

/// Bytes of an info record that names a file, before the bytes of the handle.
pub const INFO_FID_SIZE: usize = 20;

/// The number that the `n` bytes of `b` from `at` on spell, lowest byte
/// first.
pub open spec fn le_at(b: Seq<u8>, at: int, n: nat) -> nat
    decreases n,
{
    if n == 0 {
        0
    } else {
        b[at] as nat + 256 * le_at(b, at + 1, (n - 1) as nat)
    }
}

/// The number that the 32 bits of `v` spell in two's complement.
pub open spec fn signed(v: u32) -> int {
    if v >= 0x8000_0000 {
        v - 0x1_0000_0000
    } else {
        v as int
    }
}

/// The metadata that stands at `at` in `b`.
pub open spec fn metadata_at(b: Seq<u8>, at: int) -> sys::event_metadata {
    sys::event_metadata {
        event_len: le_at(b, at, 4) as u32,
        vers: b[at + 4],
        _reserved: b[at + 5],
        _metadata_len: le_at(b, at + 6, 2) as u16,
        mask: le_at(b, at + 8, 8) as u64,
        fd: signed(le_at(b, at + 16, 4) as u32) as i32,
        pid: le_at(b, at + 20, 4) as u32,
    }
}

/// The head of an info record that stands at `at` in `b`.
pub open spec fn info_header_at(b: Seq<u8>, at: int) -> sys::event_info_header {
    sys::event_info_header { info_type: b[at], _pad: b[at + 1], len: le_at(b, at + 2, 2) as u16 }
}

/// The events that the low 32 bits of `mask` spell.
pub open spec fn flags_of(mask: u64) -> EventFlags {
    EventFlags::of_bits(signed((mask % 0x1_0000_0000) as u32) as i32)
}

fn read_u16(buf: &[u8], at: usize) -> (x: u16)
    requires
        at + 2 <= buf.len(),
    ensures
        x == le_at(buf@, at as int, 2),
{
    proof {
        reveal_with_fuel(le_at, 3);
    }
    buf[at] as u16 + buf[at + 1] as u16 * 256
}

fn read_u32(buf: &[u8], at: usize) -> (x: u32)
    requires
        at + 4 <= buf.len(),
    ensures
        x == le_at(buf@, at as int, 4),
{
    proof {
        reveal_with_fuel(le_at, 5);
    }
    buf[at] as u32 + buf[at + 1] as u32 * 256 + buf[at + 2] as u32 * 65536 + buf[at + 3] as u32
        * 16777216
}

fn read_u64(buf: &[u8], at: usize) -> (x: u64)
    requires
        at + 8 <= buf.len(),
    ensures
        x == le_at(buf@, at as int, 8),
{
    let lo = read_u32(buf, at);
    let hi = read_u32(buf, at + 4);
    proof {
        reveal_with_fuel(le_at, 9);
    }
    lo as u64 + hi as u64 * 0x1_0000_0000
}

/// The number that the 32 bits of `v` spell in two's complement.
pub fn to_signed(v: u32) -> (x: i32)
    ensures
        x == signed(v),
{
    if v >= 0x8000_0000 {
        ((v - 0x8000_0000) as i32) + i32::MIN
    } else {
        v as i32
    }
}

/// The kinds of info record.
#[derive(Clone, Copy, Debug, PartialEq, Eq, Structural)]
pub enum InfoType {
    Fid,
    Dfid,
    DfidName,
    PidFd,
    Error,
}

impl InfoType {
    /// The kind that the number `n` stands for, if it stands for one.
    pub open spec fn of_number(n: i32) -> Option<InfoType> {
        if n == sys::FAN_EVENT_INFO_TYPE_FID {
            Some(InfoType::Fid)
        } else if n == sys::FAN_EVENT_INFO_TYPE_DFID_NAME {
            Some(InfoType::DfidName)
        } else if n == sys::FAN_EVENT_INFO_TYPE_DFID {
            Some(InfoType::Dfid)
        } else if n == sys::FAN_EVENT_INFO_TYPE_PIDFD {
            Some(InfoType::PidFd)
        } else if n == sys::FAN_EVENT_INFO_TYPE_ERROR {
            Some(InfoType::Error)
        } else {
            None
        }
    }

    /// The kind that the number `n` stands for.
    pub fn try_from(n: i32) -> (r: Result<InfoType, ()>)
        ensures
            match r {
                Ok(t) => InfoType::of_number(n) == Some(t),
                Err(_) => InfoType::of_number(n) is None,
            },
    {
        if n == sys::FAN_EVENT_INFO_TYPE_FID {
            Ok(InfoType::Fid)
        } else if n == sys::FAN_EVENT_INFO_TYPE_DFID_NAME {
            Ok(InfoType::DfidName)
        } else if n == sys::FAN_EVENT_INFO_TYPE_DFID {
            Ok(InfoType::Dfid)
        } else if n == sys::FAN_EVENT_INFO_TYPE_PIDFD {
            Ok(InfoType::PidFd)
        } else if n == sys::FAN_EVENT_INFO_TYPE_ERROR {
            Ok(InfoType::Error)
        } else {
            Err(())
        }
    }
}

/// A file handle as an event reports it: its head and its bytes.
#[derive(Clone, Debug, PartialEq, Eq)]
pub struct FileHandle {
    /// The head of the handle.
    pub fh: sys::file_handle,
    /// The bytes of the handle.
    pub handle: Vec<u8>,
}

/// What the bytes at the start of the valid part of a buffer hold.
#[derive(Clone, Copy, Debug, PartialEq, Eq, Structural)]
pub enum Decoded {
    /// Less than the metadata of one event: the caller reads again.
    NeedMore,
    /// An event that claims to be shorter than its metadata or longer than
    /// what is there. The rest of the buffer is given up.
    Dropped,
    /// An event without a file descriptor. The next event starts at `next`.
    NoFile { next: usize },
    /// An event. The next event starts at `next`.
    Event { next: usize, mask: EventFlags, fd: i32, pid: u32 },
}

/// What `decode_event` answers for the bytes of `b` from `start` up to `end`.
pub open spec fn decoded(b: Seq<u8>, start: int, end: int) -> Decoded {
    let m = metadata_at(b, start);
    if end - start < EVT_META_SIZE {
        Decoded::NeedMore
    } else if m.event_len < EVT_META_SIZE || m.event_len > end - start {
        Decoded::Dropped
    } else if m.fd == sys::FAN_NOFD || m.fd == sys::FAN_EPIDFD {
        Decoded::NoFile { next: (start + m.event_len) as usize }
    } else {
        Decoded::Event {
            next: (start + m.event_len) as usize,
            mask: flags_of(m.mask),
            fd: m.fd,
            pid: m.pid,
        }
    }
}

/// Reads the metadata of an event that stands at `at` in `buf`.
pub fn read_metadata(buf: &[u8], at: usize) -> (m: sys::event_metadata)
    requires
        at + EVT_META_SIZE <= buf.len(),
    ensures
        m == metadata_at(buf@, at as int),
{
    sys::event_metadata {
        event_len: read_u32(buf, at),
        vers: buf[at + 4],
        _reserved: buf[at + 5],
        _metadata_len: read_u16(buf, at + 6),
        mask: read_u64(buf, at + 8),
        fd: to_signed(read_u32(buf, at + 16)),
        pid: read_u32(buf, at + 20),
    }
}

/// Reads the head of an info record that stands at `at` in `buf`.
pub fn read_info_header(buf: &[u8], at: usize) -> (h: sys::event_info_header)
    requires
        at + INFO_HDR_SIZE <= buf.len(),
    ensures
        h == info_header_at(buf@, at as int),
{
    sys::event_info_header { info_type: buf[at], _pad: buf[at + 1], len: read_u16(buf, at + 2) }
}

/// Reads the event at the start of the valid part of a buffer, which runs
/// from `start` up to `end`.
pub fn decode_event(buf: &[u8], start: usize, end: usize) -> (d: Decoded)
    requires
        start <= end <= buf.len(),
    ensures
        d == decoded(buf@, start as int, end as int),
{
    if end - start < EVT_META_SIZE {
        return Decoded::NeedMore;
    }
    let m = read_metadata(buf, start);
    if m.event_len < 24 || m.event_len as usize > end - start {
        return Decoded::Dropped;
    }
    let next = start + m.event_len as usize;
    if m.fd == sys::FAN_NOFD || m.fd == sys::FAN_EPIDFD {
        return Decoded::NoFile { next };
    }
    let low: u32 = (m.mask % 0x1_0000_0000) as u32;
    Decoded::Event { next, mask: EventFlags::from_bits(to_signed(low)), fd: m.fd, pid: m.pid }
}

/// The place after the info record at `at`, if a whole record with a sound
/// length stands between `at` and `end`.
pub open spec fn info_end(b: Seq<u8>, at: int, end: int) -> Option<int> {
    let len = info_header_at(b, at).len;
    if end - at >= INFO_HDR_SIZE && INFO_HDR_SIZE <= len <= end - at {
        Some(at + len)
    } else {
        None
    }
}

/// Reads the head of the info record at `at` of an event that ends at `end`,
/// and finds where the next record starts. `None` says that no whole record
/// stands there: the walk over the records ends.
pub fn next_info(buf: &[u8], at: usize, end: usize) -> (r: Option<(sys::event_info_header, usize)>)
    requires
        at <= end <= buf.len(),
    ensures
        match r {
            Some((h, next)) => {
                &&& info_end(buf@, at as int, end as int) == Some(next as int)
                &&& h == info_header_at(buf@, at as int)
                &&& at < next <= end
            },
            None => info_end(buf@, at as int, end as int) is None,
        },
{
    if end - at < INFO_HDR_SIZE {
        return None;
    }
    let h = read_info_header(buf, at);
    if (h.len as usize) < INFO_HDR_SIZE || h.len as usize > end - at {
        return None;
    }
    Some((h, at + h.len as usize))
}

/// The file handle of the info record at `at`, if the record with the bytes
/// of its handle stands before `end`.
pub open spec fn handle_at(b: Seq<u8>, at: int, end: int) -> Option<(sys::file_handle, Seq<u8>)> {
    let bytes = le_at(b, at + 12, 4) as u32;
    if end - at >= INFO_FID_SIZE && bytes <= end - at - INFO_FID_SIZE {
        Some(
            (
                sys::file_handle {
                    handle_bytes: bytes,
                    _handle_type: signed(le_at(b, at + 16, 4) as u32) as i32,
                },
                b.subrange(at + INFO_FID_SIZE, at + INFO_FID_SIZE + bytes),
            ),
        )
    } else {
        None
    }
}

/// Reads the file handle of an info record that names a file. The record
/// stands at `at`: its head of four bytes, the id of the filesystem in eight,
/// the head of the handle in eight more, and then the bytes of the handle.
pub fn read_file_handle(buf: &[u8], at: usize, end: usize) -> (r: Option<FileHandle>)
    requires
        at <= end <= buf.len(),
    ensures
        match r {
            Some(f) => handle_at(buf@, at as int, end as int) == Some((f.fh, f.handle@)),
            None => handle_at(buf@, at as int, end as int) is None,
        },
{
    if end - at < INFO_FID_SIZE {
        return None;
    }
    let bytes = read_u32(buf, at + 12);
    if bytes as usize > end - at - INFO_FID_SIZE {
        return None;
    }
    let fh = sys::file_handle { handle_bytes: bytes, _handle_type: to_signed(read_u32(buf, at + 16)) };
    let first = at + INFO_FID_SIZE;
    let mut handle: Vec<u8> = Vec::new();
    let mut k: usize = 0;
    while k < bytes as usize
        invariant
            k <= bytes,
            first == at + INFO_FID_SIZE,
            first + bytes <= buf.len(),
            handle@ == buf@.subrange(first as int, first + k),
        decreases bytes - k,
    {
        handle.push(buf[first + k]);
        k = k + 1;
        assert(handle@ =~= buf@.subrange(first as int, first + k));
    }
    Some(FileHandle { fh, handle })
}

} // verus!
