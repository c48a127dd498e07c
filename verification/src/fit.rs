//! The headers of the FIT file format: the file header and the one-byte header
//! that starts each record.

use vstd::prelude::*;

verus! {

/// The header of a FIT file.
#[derive(Clone, Copy, Debug, PartialEq, Eq, Structural)]
pub struct FitHeader {
    /// The protocol version.
    pub ver: u8,
    /// The profile version.
    pub profile_ver: u16,
    /// The number of bytes of records that follow the header.
    pub data_size: u32,
    /// The checksum of the header, or 0 where the header has none.
    pub crc: u16,
}

/// The two forms of a record header.
#[derive(Clone, Copy, Debug, PartialEq, Eq, Structural)]
pub enum RecordHdrType {
    Normal,
    /// Compressed timestamp.
    Cts,
}

/// What a record holds.
#[derive(Clone, Copy, Debug, PartialEq, Eq, Structural)]
pub enum MsgType {
    Data,
    Definition,
}

/// Why bytes are not a file header.
#[derive(Clone, Copy, Debug, PartialEq, Eq, Structural)]
pub enum HeaderError {
    /// A header has 12 or 14 bytes.
    UnexpectedEof,
    /// Bytes 8 to 11 are not `.FIT`.
    InvalidData,
}

/// The one-byte header of a record.
#[derive(Clone, Copy, Debug, PartialEq, Eq, Structural)]
pub struct RecordHdr(pub u8);

/// The number that the bytes `b[at]`, `b[at + 1]`, ... `b[at + n - 1]` spell,
/// lowest byte first.
pub open spec fn le_value(b: Seq<u8>, at: int, n: nat) -> nat
    decreases n,
{
    if n == 0 {
        0
    } else {
        b[at] as nat + 256 * le_value(b, at + 1, (n - 1) as nat)
    }
}

/// The four bytes that mark a FIT file: `.FIT`.
pub open spec fn magic() -> Seq<u8> {
    seq![0x2eu8, 0x46u8, 0x49u8, 0x54u8]
}

/// What the bytes of a file header say, or why they are none.
pub open spec fn header_of(b: Seq<u8>) -> Result<FitHeader, HeaderError> {
    if b.len() != 12 && b.len() != 14 {
        Err(HeaderError::UnexpectedEof)
    } else if b.subrange(8, 12) != magic() {
        Err(HeaderError::InvalidData)
    } else {
        Ok(
            FitHeader {
                ver: b[1],
                profile_ver: le_value(b, 2, 2) as u16,
                data_size: le_value(b, 4, 4) as u32,
                crc: if b.len() == 14 {
                    le_value(b, 12, 2) as u16
                } else {
                    0
                },
            },
        )
    }
}

impl RecordHdr {
    /// The form of the header: bit 7 tells a compressed timestamp.
    pub open spec fn spec_hdr_type(self) -> RecordHdrType {
        if self.0 < 128 {
            RecordHdrType::Normal
        } else {
            RecordHdrType::Cts
        }
    }

    /// What the record holds: a definition if the header is normal and has
    /// bit 6, else data.
    pub open spec fn spec_msg_type(self) -> MsgType {
        if 64 <= self.0 < 128 {
            MsgType::Definition
        } else {
            MsgType::Data
        }
    }

    /// The local message type: the low four bits of a normal header, bits 5
    /// and 6 of a compressed timestamp.
    pub open spec fn spec_local_msg_type(self) -> u8 {
        if self.0 < 128 {
            self.0 % 16
        } else {
            (self.0 / 32) % 4
        }
    }

    /// The time offset in seconds: the low five bits of a compressed
    /// timestamp, 0 for a normal header.
    pub open spec fn spec_time_offset(self) -> u8 {
        if self.0 < 128 {
            0
        } else {
            self.0 % 32
        }
    }

    /// The form of the header.
    pub fn hdr_type(&self) -> (t: RecordHdrType)
        ensures
            t == self.spec_hdr_type(),
    {
        let b = self.0;
        assert((b & 0x80 == 0) <==> b < 128) by (bit_vector);
        if (b & 0x80) == 0 {
            RecordHdrType::Normal
        } else {
            RecordHdrType::Cts
        }
    }

    /// What the record holds.
    pub fn msg_type(&self) -> (t: MsgType)
        ensures
            t == self.spec_msg_type(),
    {
        let b = self.0;
        assert(((b & 0x80) != 0 || (b & 0x40) == 0) <==> !(64 <= b && b < 128)) by (bit_vector);
        if (b & 0x80) != 0 || (b & 0x40) == 0 {
            MsgType::Data
        } else {
            MsgType::Definition
        }
    }

    /// The local message type of the record: 0 to 15 for a normal header, 0
    /// to 3 for a compressed timestamp.
    pub fn local_msg_type(&self) -> (t: u8)
        ensures
            t == self.spec_local_msg_type(),
            self.spec_hdr_type() == RecordHdrType::Normal ==> t <= 15,
            self.spec_hdr_type() == RecordHdrType::Cts ==> t <= 3,
    {
        let b = self.0;
        assert(b & 0xF == b % 16) by (bit_vector);
        assert((b & 0x60) >> 5 == (b / 32) % 4) by (bit_vector);
        match self.hdr_type() {
            RecordHdrType::Normal => b & 0xF,
            RecordHdrType::Cts => (b & 0x60) >> 5,
        }
    }

    /// The time offset of a compressed timestamp in seconds, 0 to 31; 0 for a
    /// normal header.
    pub fn time_offset(&self) -> (t: u8)
        ensures
            t == self.spec_time_offset(),
            t <= 31,
    {
        let b = self.0;
        assert(b & 0x1F == b % 32) by (bit_vector);
        match self.hdr_type() {
            RecordHdrType::Normal => 0,
            RecordHdrType::Cts => b & 0x1F,
        }
    }
}

/// Reads a file header from its 12 or 14 bytes.
///
/// Byte 1 is the protocol version, bytes 2 and 3 the profile version, bytes 4
/// to 7 the size of the data, bytes 8 to 11 the mark `.FIT`, and bytes 12 and
/// 13, where there are 14, the checksum. Numbers stand lowest byte first.
pub fn parse_hdr(bytes: &[u8]) -> (r: Result<FitHeader, HeaderError>)
    ensures
        r == header_of(bytes@),
{
    if bytes.len() != 12 && bytes.len() != 14 {
        return Err(HeaderError::UnexpectedEof);
    }
    let ver = bytes[1];
    let profile_ver: u16 = bytes[2] as u16 + bytes[3] as u16 * 256;
    let data_size: u32 = bytes[4] as u32 + bytes[5] as u32 * 256 + bytes[6] as u32 * 65536
        + bytes[7] as u32 * 16777216;
    proof {
        reveal_with_fuel(le_value, 5);
        assert(bytes@.subrange(8, 12) == magic() <==> (bytes[8] == 0x2e && bytes[9] == 0x46
            && bytes[10] == 0x49 && bytes[11] == 0x54)) by {
            let s = bytes@.subrange(8, 12);
            assert(s.len() == 4);
            assert(s[0] == bytes[8] && s[1] == bytes[9] && s[2] == bytes[10] && s[3] == bytes[11]);
            assert(magic().len() == 4);
            if bytes[8] == 0x2e && bytes[9] == 0x46 && bytes[10] == 0x49 && bytes[11] == 0x54 {
                assert(s =~= magic());
            }
        }
    }
    if !(bytes[8] == 0x2e && bytes[9] == 0x46 && bytes[10] == 0x49 && bytes[11] == 0x54) {
        return Err(HeaderError::InvalidData);
    }
    let crc: u16 = if bytes.len() == 14 {
        bytes[12] as u16 + bytes[13] as u16 * 256
    } else {
        0
    };
    Ok(FitHeader { ver, profile_ver, data_size, crc })
}

/// The definition of one field of a message.
#[derive(Clone, Copy, Debug, PartialEq, Eq, Structural)]
pub struct FieldDef {
    /// The number of the field in the profile.
    pub field_num: u8,
    /// The size of the field in bytes.
    pub size: u8,
    /// The base type of the field.
    pub base: u8,
}

/// The definition of a message: what the data records of its local message
/// type hold.
#[derive(Clone, Debug, PartialEq, Eq)]
pub struct MsgDef {
    /// The byte order of the data: 0 for lowest byte first.
    pub arch: u8,
    /// The number of the message in the profile.
    pub glob_num: u16,
    /// The number of fields.
    pub num_fields: u8,
    /// The fields, in the order of the record.
    pub fields: Vec<FieldDef>,
}

/// Bytes of a definition before its fields.
pub const DEFINITION_FIXED: usize = 5;

/// Bytes of one field of a definition.
pub const FIELD_SIZE: usize = 3;

/// Field `k` of the definition that `b` holds.
pub open spec fn field_of(b: Seq<u8>, k: int) -> FieldDef {
    FieldDef {
        field_num: b[DEFINITION_FIXED + FIELD_SIZE * k],
        size: b[DEFINITION_FIXED + FIELD_SIZE * k + 1],
        base: b[DEFINITION_FIXED + FIELD_SIZE * k + 2],
    }
}

/// Whether `b` holds a whole definition: the five fixed bytes, and three
/// bytes for each of the fields that byte 4 counts.
pub open spec fn holds_definition(b: Seq<u8>) -> bool {
    b.len() >= DEFINITION_FIXED && b.len() >= DEFINITION_FIXED + FIELD_SIZE * b[4]
}

/// Reads the definition of a message from the bytes that follow the header
/// of its record.
///
/// Byte 0 is reserved, byte 1 the byte order, bytes 2 and 3 the number of the
/// message, lowest byte first, and byte 4 the number of fields, each of
/// which takes three bytes. Bytes after the last field are left alone.
pub fn parse_definition(bytes: &[u8]) -> (r: Result<MsgDef, HeaderError>)
    ensures
        match r {
            Ok(d) => {
                &&& holds_definition(bytes@)
                &&& d.arch == bytes[1]
                &&& d.glob_num == le_value(bytes@, 2, 2)
                &&& d.num_fields == bytes[4]
                &&& d.fields@ == Seq::new(bytes[4] as nat, |k: int| field_of(bytes@, k))
            },
            Err(e) => e == HeaderError::UnexpectedEof && !holds_definition(bytes@),
        },
{
    if bytes.len() < DEFINITION_FIXED {
        return Err(HeaderError::UnexpectedEof);
    }
    let arch = bytes[1];
    let glob_num: u16 = bytes[2] as u16 + bytes[3] as u16 * 256;
    let num_fields = bytes[4];
    if bytes.len() - DEFINITION_FIXED < FIELD_SIZE * (num_fields as usize) {
        return Err(HeaderError::UnexpectedEof);
    }
    proof {
        reveal_with_fuel(le_value, 3);
    }
    let mut fields: Vec<FieldDef> = Vec::new();
    let mut k: usize = 0;
    while k < num_fields as usize
        invariant
            k <= num_fields,
            num_fields == bytes[4],
            bytes.len() >= DEFINITION_FIXED + FIELD_SIZE * num_fields,
            fields@ == Seq::new(k as nat, |j: int| field_of(bytes@, j)),
        decreases num_fields - k,
    {
        let at = DEFINITION_FIXED + FIELD_SIZE * k;
        fields.push(FieldDef { field_num: bytes[at], size: bytes[at + 1], base: bytes[at + 2] });
        k = k + 1;
        assert(fields@ =~= Seq::new(k as nat, |j: int| field_of(bytes@, j)));
    }
    Ok(MsgDef { arch, glob_num, num_fields, fields })
}

/// Reads what follows the header `hdr` of a record as far as this module
/// knows it: the definition, where the record is one. A data record gives
/// `None`.
pub fn parse_record(hdr: RecordHdr, rest: &[u8]) -> (r: Result<Option<MsgDef>, HeaderError>)
    ensures
        match r {
            Ok(None) => hdr.spec_msg_type() == MsgType::Data,
            Ok(Some(d)) => {
                &&& hdr.spec_msg_type() == MsgType::Definition
                &&& holds_definition(rest@)
                &&& d.arch == rest[1]
                &&& d.glob_num == le_value(rest@, 2, 2)
                &&& d.num_fields == rest[4]
                &&& d.fields@ == Seq::new(rest[4] as nat, |k: int| field_of(rest@, k))
            },
            Err(e) => {
                &&& hdr.spec_msg_type() == MsgType::Definition
                &&& e == HeaderError::UnexpectedEof
                &&& !holds_definition(rest@)
            },
        },
{
    match hdr.msg_type() {
        MsgType::Data => Ok(None),
        MsgType::Definition => match parse_definition(rest) {
            Ok(d) => Ok(Some(d)),
            Err(e) => Err(e),
        },
    }
}

} // verus!
