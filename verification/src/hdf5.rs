//! The superblock of an HDF5 file, as far as versions 0 and 1 go.

use vstd::prelude::*;

verus! {

/// The eight bytes that open an HDF5 file, as one number, lowest byte first.
pub const H5MAGIC: u64 = 0x0A1A0A0D_46444889;

/// Why bytes are not the start of an HDF5 file.
#[derive(Clone, Copy, Debug, PartialEq, Eq, Structural)]
pub enum H5Error {
    /// The bytes are too few, or say what no superblock says.
    InvalidData,
}

/// The superblock of version 0 or 1.
#[derive(Clone, Copy, Debug, PartialEq, Eq, Structural)]
pub struct H5Super0 {
    /// The version of the superblock: 0 or 1.
    pub version: u8,
    /// The version of the free-space storage.
    pub freespace_version: u8,
    /// The version of the root group's symbol table entry.
    pub sym_version: u8,
    /// The version of the shared header message format.
    pub shm_version: u8,
    /// The size of offsets in bytes.
    pub offset_size: u8,
    /// The size of lengths in bytes.
    pub length_size: u8,
    /// The group leaf node K.
    pub leaf_k: u16,
    /// The group internal node K.
    pub internal_k: u16,
    /// The file consistency flags.
    pub flags: u32,
    /// The indexed storage internal node K; 0 in version 0, which has none.
    pub indexed_internal_k: u16,
    /// The base address.
    pub base_address: u64,
    /// The address of the free-space information.
    pub freespace_address: u64,
    /// The end-of-file address.
    pub eof_address: u64,
    /// The address of the driver information block.
    pub dib_address: u64,
}

/// What the start of a file says of the file.
#[derive(Clone, Copy, Debug, PartialEq, Eq, Structural)]
pub enum H5Super {
    /// A superblock of version 0 or 1.
    Old(H5Super0),
    /// A superblock of version 2 or 3, of which nothing is read.
    New(u8),
}

/// An HDF5 file whose superblock was read.
#[derive(Clone, Copy, Debug, PartialEq, Eq, Structural)]
pub struct H5File {
    /// The superblock.
    pub superblock: H5Super,
}

/// The number that the `n` bytes of `b` from `at` on spell, lowest byte
/// first.
pub open spec fn le_number(b: Seq<u8>, at: int, n: nat) -> nat
    decreases n,
{
    if n == 0 {
        0
    } else {
        b[at] as nat + 256 * le_number(b, at + 1, (n - 1) as nat)
    }
}

/// A number of `n` bytes is below 256 to the power of `n`.
pub proof fn lemma_le_number_bound(b: Seq<u8>, at: int, n: nat)
    requires
        n <= 8,
    ensures
        n == 0 ==> le_number(b, at, n) == 0,
        n == 1 ==> le_number(b, at, n) < 0x100,
        n == 2 ==> le_number(b, at, n) < 0x1_0000,
        n == 3 ==> le_number(b, at, n) < 0x100_0000,
        n == 4 ==> le_number(b, at, n) < 0x1_0000_0000,
        n == 5 ==> le_number(b, at, n) < 0x100_0000_0000,
        n == 6 ==> le_number(b, at, n) < 0x1_0000_0000_0000,
        n == 7 ==> le_number(b, at, n) < 0x100_0000_0000_0000,
        n == 8 ==> le_number(b, at, n) < 0x1_0000_0000_0000_0000,
    decreases n,
{
    if n > 0 {
        lemma_le_number_bound(b, at + 1, (n - 1) as nat);
    }
}

/// The place of the first address of a superblock of version `v`.
pub open spec fn addresses_at(v: u8) -> int {
    24 + 4 * v
}

/// Whether `b` starts with a superblock of version 0 or 1 that this module
/// reads: the fixed part, four addresses and the root entry are all there,
/// and offsets take at most eight bytes.
pub open spec fn holds_old_superblock(b: Seq<u8>) -> bool {
    &&& b.len() >= 9
    &&& le_number(b, 0, 8) == H5MAGIC
    &&& b[8] <= 1
    &&& b.len() >= addresses_at(b[8])
    &&& b[13] <= 8
    &&& b.len() >= addresses_at(b[8]) + 6 * b[13] + 24
}

/// Whether `b` starts with a superblock of version 2 or 3.
pub open spec fn holds_new_superblock(b: Seq<u8>) -> bool {
    &&& b.len() >= 9
    &&& le_number(b, 0, 8) == H5MAGIC
    &&& 2 <= b[8] <= 3
}

/// The superblock of version 0 or 1 that `b` starts with.
pub open spec fn old_superblock(b: Seq<u8>) -> H5Super0 {
    let v = b[8];
    let size = b[13] as nat;
    let at = addresses_at(v);
    H5Super0 {
        version: v,
        freespace_version: b[9],
        sym_version: b[10],
        shm_version: b[12],
        offset_size: b[13],
        length_size: b[14],
        leaf_k: le_number(b, 16, 2) as u16,
        internal_k: le_number(b, 18, 2) as u16,
        flags: le_number(b, 20, 4) as u32,
        indexed_internal_k: if v == 1 {
            le_number(b, 24, 2) as u16
        } else {
            0
        },
        base_address: le_number(b, at, size) as u64,
        freespace_address: le_number(b, at + size, size) as u64,
        eof_address: le_number(b, at + 2 * size, size) as u64,
        dib_address: le_number(b, at + 3 * size, size) as u64,
    }
}

/// Reads the number that the `n` bytes of `bytes` from `at` on spell, lowest
/// byte first.
pub fn read_le(bytes: &[u8], at: usize, n: usize) -> (x: u64)
    requires
        n <= 8,
        at + n <= bytes.len(),
    ensures
        x == le_number(bytes@, at as int, n as nat),
{
    let mut x: u64 = 0;
    let mut k: usize = n;
    while k > 0
        invariant
            k <= n <= 8,
            at + n <= bytes.len(),
            x == le_number(bytes@, at + k, (n - k) as nat),
        decreases k,
    {
        k = k - 1;
        proof {
            lemma_le_number_bound(bytes@, at + k + 1, (n - k - 1) as nat);
        }
        x = bytes[at + k] as u64 + 256 * x;
    }
    x
}

impl H5File {
    /// Reads the superblock from the first bytes of a file.
    ///
    /// The file opens with the eight bytes of the mark and the version of the
    /// superblock. Of versions 2 and 3 no more is looked at. Of versions 0
    /// and 1 the fixed part, the four addresses and the root entry must all
    /// be there.
    pub fn open(contents: &[u8]) -> (r: Result<H5File, H5Error>)
        ensures
            match r {
                Ok(f) => match f.superblock {
                    H5Super::Old(s) => holds_old_superblock(contents@) && s == old_superblock(
                        contents@,
                    ),
                    H5Super::New(v) => holds_new_superblock(contents@) && v == contents[8],
                },
                Err(e) => !holds_old_superblock(contents@) && !holds_new_superblock(contents@),
            },
    {
        if contents.len() < 9 {
            return Err(H5Error::InvalidData);
        }
        let magic = read_le(contents, 0, 8);
        if magic != H5MAGIC {
            return Err(H5Error::InvalidData);
        }
        let version = contents[8];
        if version == 2 || version == 3 {
            return Ok(H5File { superblock: H5Super::New(version) });
        }
        if version > 1 {
            return Err(H5Error::InvalidData);
        }
        let at: usize = 24 + 4 * (version as usize);
        if contents.len() < at {
            return Err(H5Error::InvalidData);
        }
        let size = contents[13] as usize;
        if size > 8 || contents.len() - at < 6 * size + 24 {
            return Err(H5Error::InvalidData);
        }
        proof {
            lemma_le_number_bound(contents@, 16, 2);
            lemma_le_number_bound(contents@, 18, 2);
            lemma_le_number_bound(contents@, 20, 4);
            lemma_le_number_bound(contents@, 24, 2);
        }
        let leaf_k = read_le(contents, 16, 2) as u16;
        let internal_k = read_le(contents, 18, 2) as u16;
        let flags = read_le(contents, 20, 4) as u32;
        let indexed_internal_k = if version == 1 {
            read_le(contents, 24, 2) as u16
        } else {
            0
        };
        let s = H5Super0 {
            version,
            freespace_version: contents[9],
            sym_version: contents[10],
            shm_version: contents[12],
            offset_size: contents[13],
            length_size: contents[14],
            leaf_k,
            internal_k,
            flags,
            indexed_internal_k,
            base_address: read_le(contents, at, size),
            freespace_address: read_le(contents, at + size, size),
            eof_address: read_le(contents, at + 2 * size, size),
            dib_address: read_le(contents, at + 3 * size, size),
        };
        Ok(H5File { superblock: H5Super::Old(s) })
    }
}

} // verus!
