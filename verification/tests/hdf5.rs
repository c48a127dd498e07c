use allox::hdf5::read_le;
use allox::hdf5::H5Error;
use allox::hdf5::H5File;
use allox::hdf5::H5Super;
use allox::hdf5::H5Super0;

const MARK: [u8; 8] = [0x89, b'H', b'D', b'F', b'\r', b'\n', 0x1a, b'\n'];

fn old_block(version: u8, offset_size: u8) -> Vec<u8> {
    let mut b = MARK.to_vec();
    b.push(version);
    b.extend_from_slice(&[0, 0, 0, 0, offset_size, 8, 0]);
    b.extend_from_slice(&[4, 0, 16, 0]);
    b.extend_from_slice(&[0x78, 0x56, 0x34, 0x12]);
    if version == 1 {
        b.extend_from_slice(&[32, 0, 0, 0]);
    }
    for addr in [0u64, u64::MAX, 0x0807_0605_0403_0201, u64::MAX, 0x60, 0x1000] {
        b.extend_from_slice(&addr.to_le_bytes()[..offset_size as usize]);
    }
    b.extend_from_slice(&[0u8; 24]);
    b
}

#[test]
fn superblock_of_version_0() {
    let b = old_block(0, 8);
    assert_eq!(b.len(), 24 + 48 + 24);
    assert_eq!(
        H5File::open(&b),
        Ok(H5File {
            superblock: H5Super::Old(H5Super0 {
                version: 0,
                freespace_version: 0,
                sym_version: 0,
                shm_version: 0,
                offset_size: 8,
                length_size: 8,
                leaf_k: 4,
                internal_k: 16,
                flags: 0x1234_5678,
                indexed_internal_k: 0,
                base_address: 0,
                freespace_address: u64::MAX,
                eof_address: 0x0807_0605_0403_0201,
                dib_address: u64::MAX,
            })
        })
    );
}

#[test]
fn superblock_of_version_1_with_short_offsets() {
    let b = old_block(1, 4);
    match H5File::open(&b) {
        Ok(H5File { superblock: H5Super::Old(s) }) => {
            assert_eq!(s.version, 1);
            assert_eq!(s.indexed_internal_k, 32);
            assert_eq!(s.offset_size, 4);
            assert_eq!(s.base_address, 0);
            assert_eq!(s.freespace_address, 0xffff_ffff);
            assert_eq!(s.eof_address, 0x0403_0201);
            assert_eq!(s.dib_address, 0xffff_ffff);
        }
        other => panic!("not a superblock of version 1: {other:?}"),
    }
}

#[test]
fn superblock_of_version_2_or_3() {
    for v in [2u8, 3] {
        let mut b = MARK.to_vec();
        b.push(v);
        assert_eq!(H5File::open(&b), Ok(H5File { superblock: H5Super::New(v) }));
    }
}

#[test]
fn bytes_that_are_no_superblock() {
    assert_eq!(H5File::open(&[]), Err(H5Error::InvalidData));
    assert_eq!(H5File::open(&MARK), Err(H5Error::InvalidData));
    let mut wrong = old_block(0, 8);
    wrong[3] = b'G';
    assert_eq!(H5File::open(&wrong), Err(H5Error::InvalidData));
    let mut version = MARK.to_vec();
    version.push(4);
    assert_eq!(H5File::open(&version), Err(H5Error::InvalidData));
    let whole = old_block(0, 8);
    assert_eq!(H5File::open(&whole[..whole.len() - 1]), Err(H5Error::InvalidData));
    assert_eq!(H5File::open(&whole[..20]), Err(H5Error::InvalidData));
    let mut wide = old_block(0, 8);
    wide[13] = 9;
    wide.extend_from_slice(&[0u8; 64]);
    assert_eq!(H5File::open(&wide), Err(H5Error::InvalidData));
}

#[test]
fn numbers_stand_lowest_byte_first() {
    let b = [1u8, 2, 3, 4, 5, 6, 7, 8, 9];
    assert_eq!(read_le(&b, 0, 0), 0);
    assert_eq!(read_le(&b, 8, 1), 9);
    assert_eq!(read_le(&b, 1, 2), 0x0302);
    assert_eq!(read_le(&b, 0, 8), 0x0807_0605_0403_0201);
    assert_eq!(read_le(&[0xff; 8], 0, 8), u64::MAX);
}
