use allox::uf2::create_uf2;

fn sample() -> [u8; 256] {
    let mut data = [0u8; 256];
    data[0] = 0xFE;
    data[1] = 0xE7;
    data[252] = 0x2A;
    data[253] = 0x25;
    data[254] = 0x7E;
    data[255] = 0xF4;
    data
}

#[test]
fn one_block_image() {
    let data = sample();
    let out = create_uf2(0x1000_0000, &data);
    assert_eq!(out.len(), 512);
    assert_eq!(&out[0..4], &[0x55, 0x46, 0x32, 0x0A]);
    assert_eq!(&out[4..8], &[0x57, 0x51, 0x5D, 0x9E]);
    assert_eq!(&out[8..12], &[0x00, 0x20, 0x00, 0x00]);
    assert_eq!(&out[12..16], &[0x00, 0x00, 0x00, 0x10]);
    assert_eq!(&out[16..20], &[0x00, 0x01, 0x00, 0x00]);
    assert_eq!(&out[20..24], &[0, 0, 0, 0]);
    assert_eq!(&out[24..28], &[1, 0, 0, 0]);
    assert_eq!(&out[28..32], &[0x56, 0xFF, 0x8B, 0xE4]);
    assert_eq!(&out[32..288], &data[..]);
    assert!(out[288..508].iter().all(|&b| b == 0));
    assert_eq!(&out[508..512], &[0x30, 0x6F, 0xB1, 0x0A]);
}

#[test]
fn blocks_count_up_and_addresses_follow() {
    let data: Vec<u8> = (0..1024u32).map(|i| (i % 251) as u8).collect();
    let out = create_uf2(0x0123_4500, &data);
    assert_eq!(out.len(), 4 * 512);
    for i in 0..4usize {
        let b = &out[512 * i..512 * (i + 1)];
        let addr = 0x0123_4500u32 + 256 * i as u32;
        assert_eq!(&b[12..16], &addr.to_le_bytes());
        assert_eq!(&b[16..20], &256u32.to_le_bytes());
        assert_eq!(&b[20..24], &(i as u32).to_le_bytes());
        assert_eq!(&b[24..28], &4u32.to_le_bytes());
        assert_eq!(&b[32..288], &data[256 * i..256 * (i + 1)]);
        assert_eq!(&b[508..512], &[0x30, 0x6F, 0xB1, 0x0A]);
    }
}

#[test]
fn bytes_after_the_last_full_block_are_left_out() {
    assert_eq!(create_uf2(0, &[]).len(), 0);
    assert_eq!(create_uf2(0, &[1u8; 255]).len(), 0);
    let mut data = vec![7u8; 300];
    data[299] = 9;
    let out = create_uf2(0xffff_ff00, &data);
    assert_eq!(out.len(), 512);
    assert_eq!(&out[12..16], &[0x00, 0xff, 0xff, 0xff]);
    assert_eq!(&out[24..28], &[1, 0, 0, 0]);
    assert!(out[32..288].iter().all(|&b| b == 7));
}
