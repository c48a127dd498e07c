//! Images in the UF2 format, for flashing bytes to a microcontroller.
//!
//! An image is a row of blocks of 512 bytes. A block carries 256 bytes of
//! payload between a header of 32 bytes and a closing mark, with zeros in
//! between. Numbers stand lowest byte first.

use vstd::prelude::*;
use vstd::slice::slice_subrange;

verus! {

/// Bytes of payload in a block.
pub const PAYLOAD_SIZE: usize = 256;

/// Bytes in a block.
pub const BLOCK_SIZE: usize = 512;

/// The four bytes of `x`, lowest first.
pub open spec fn le_bytes(x: u32) -> Seq<u8> {
    seq![
        (x % 256) as u8,
        ((x / 256) % 256) as u8,
        ((x / 65536) % 256) as u8,
        (x / 16777216) as u8,
    ]
}

/// The two marks that open a block, and the flags, which say that a family
/// is named.
pub open spec fn block_start() -> Seq<u8> {
    seq![0x55u8, 0x46, 0x32, 0x0A, 0x57, 0x51, 0x5D, 0x9E, 0x00, 0x20, 0x00, 0x00]
}

/// The family of the target: the RP2040.
pub open spec fn family() -> Seq<u8> {
    seq![0x56u8, 0xFF, 0x8B, 0xE4]
}

/// The mark that closes a block.
pub open spec fn block_end() -> Seq<u8> {
    seq![0x30u8, 0x6F, 0xB1, 0x0A]
}

/// Block `i` of the `n` blocks of an image of `data` that is to be flashed
/// from address `offset` on.
pub open spec fn block(offset: u32, data: Seq<u8>, i: int, n: int) -> Seq<u8> {
    block_start() + le_bytes((offset + PAYLOAD_SIZE * i) as u32) + le_bytes(PAYLOAD_SIZE as u32)
        + le_bytes(i as u32) + le_bytes(n as u32) + family() + data.subrange(
        PAYLOAD_SIZE * i,
        PAYLOAD_SIZE * (i + 1),
    ) + Seq::new(220, |j: int| 0u8) + block_end()
}

/// The first `upto` of the `n` blocks of an image.
pub open spec fn blocks(offset: u32, data: Seq<u8>, upto: int, n: int) -> Seq<u8>
    decreases upto,
{
    if upto <= 0 {
        Seq::empty()
    } else {
        blocks(offset, data, upto - 1, n) + block(offset, data, upto - 1, n)
    }
}

/// The image of `data`: one block for every 256 bytes. Bytes after the last
/// full 256 are left out.
pub open spec fn image(offset: u32, data: Seq<u8>) -> Seq<u8> {
    blocks(offset, data, data.len() as int / 256, data.len() as int / 256)
}

/// The first `upto` blocks are `upto` times 512 bytes.
pub proof fn lemma_blocks_len(offset: u32, data: Seq<u8>, upto: int, n: int)
    requires
        0 <= upto,
        PAYLOAD_SIZE * upto <= data.len(),
    ensures
        blocks(offset, data, upto, n).len() == BLOCK_SIZE * upto,
    decreases upto,
{
    if upto > 0 {
        lemma_blocks_len(offset, data, upto - 1, n);
    }
}

fn push_le(out: &mut Vec<u8>, x: u32)
    ensures
        final(out)@ == old(out)@ + le_bytes(x),
{
    out.push((x % 256) as u8);
    out.push(((x / 256) % 256) as u8);
    out.push(((x / 65536) % 256) as u8);
    out.push((x / 16777216) as u8);
    assert(out@ =~= old(out)@ + le_bytes(x));
}

fn push_start(out: &mut Vec<u8>)
    ensures
        final(out)@ == old(out)@ + block_start(),
{
    out.push(0x55);
    out.push(0x46);
    out.push(0x32);
    out.push(0x0A);
    out.push(0x57);
    out.push(0x51);
    out.push(0x5D);
    out.push(0x9E);
    out.push(0x00);
    out.push(0x20);
    out.push(0x00);
    out.push(0x00);
    assert(out@ =~= old(out)@ + block_start());
}

fn push_family(out: &mut Vec<u8>)
    ensures
        final(out)@ == old(out)@ + family(),
{
    out.push(0x56);
    out.push(0xFF);
    out.push(0x8B);
    out.push(0xE4);
    assert(out@ =~= old(out)@ + family());
}

fn push_end(out: &mut Vec<u8>)
    ensures
        final(out)@ == old(out)@ + block_end(),
{
    out.push(0x30);
    out.push(0x6F);
    out.push(0xB1);
    out.push(0x0A);
    assert(out@ =~= old(out)@ + block_end());
}

fn push_zeros(out: &mut Vec<u8>)
    ensures
        final(out)@ == old(out)@ + Seq::new(220, |j: int| 0u8),
{
    let mut j: usize = 0;
    while j < 220
        invariant
            j <= 220,
            out@ == old(out)@ + Seq::new(j as nat, |k: int| 0u8),
        decreases 220 - j,
    {
        out.push(0);
        j = j + 1;
        assert(out@ =~= old(out)@ + Seq::new(j as nat, |k: int| 0u8));
    }
}

fn push_payload(out: &mut Vec<u8>, data: &[u8], i: u32)
    requires
        PAYLOAD_SIZE * (i + 1) <= data.len(),
    ensures
        final(out)@ == old(out)@ + data@.subrange(PAYLOAD_SIZE * i, PAYLOAD_SIZE * (i + 1)),
{
    let start: usize = PAYLOAD_SIZE * (i as usize);
    let payload = slice_subrange(data, start, start + PAYLOAD_SIZE);
    out.extend_from_slice(payload);
    assert(out@ =~= old(out)@ + data@.subrange(PAYLOAD_SIZE * i, PAYLOAD_SIZE * (i + 1)));
}

/// Adds block `i` of the `n` blocks of an image to `out`.
fn push_block(out: &mut Vec<u8>, offset: u32, data: &[u8], i: u32, n: u32)
    requires
        PAYLOAD_SIZE * (i + 1) <= data.len(),
        offset + PAYLOAD_SIZE * i <= u32::MAX,
    ensures
        final(out)@ == old(out)@ + block(offset, data@, i as int, n as int),
{
    let ghost before = out@;
    let block_offset: u32 = offset + i * 256;
    push_start(out);
    let ghost p1 = block_start();
    assert(out@ =~= before + p1);
    push_le(out, block_offset);
    let ghost p2 = p1 + le_bytes(block_offset);
    assert(out@ =~= before + p2);
    push_le(out, 256);
    let ghost p3 = p2 + le_bytes(256);
    assert(out@ =~= before + p3);
    push_le(out, i);
    let ghost p4 = p3 + le_bytes(i);
    assert(out@ =~= before + p4);
    push_le(out, n);
    let ghost p5 = p4 + le_bytes(n);
    assert(out@ =~= before + p5);
    push_family(out);
    let ghost p6 = p5 + family();
    assert(out@ =~= before + p6);
    push_payload(out, data, i);
    let ghost p7 = p6 + data@.subrange(PAYLOAD_SIZE * i, PAYLOAD_SIZE * (i + 1));
    assert(out@ =~= before + p7);
    push_zeros(out);
    let ghost p8 = p7 + Seq::new(220, |j: int| 0u8);
    assert(out@ =~= before + p8);
    push_end(out);
    let ghost p9 = p8 + block_end();
    assert(out@ =~= before + p9);
    assert(p9 == block(offset, data@, i as int, n as int));
}

/// Makes the image of `data` for flashing from address `offset` on.
///
/// The number of blocks, the size of the image and the address of every
/// block are numbers of 32 bits.
pub fn create_uf2(offset: u32, data: &[u8]) -> (out: Vec<u8>)
    requires
        data.len() <= u32::MAX,
        (data.len() / 256) * 512 <= u32::MAX,
        data.len() >= 256 ==> offset + (data.len() / 256 - 1) * 256 <= u32::MAX,
    ensures
        out@ == image(offset, data@),
        out.len() == 512 * (data.len() / 256),
{
    let num_blocks: u32 = (data.len() / PAYLOAD_SIZE) as u32;
    let mut out: Vec<u8> = Vec::new();
    let mut i: u32 = 0;
    while i < num_blocks
        invariant
            i <= num_blocks,
            num_blocks == data.len() / 256,
            num_blocks >= 1 ==> offset + (num_blocks - 1) * 256 <= u32::MAX,
            out@ == blocks(offset, data@, i as int, num_blocks as int),
        decreases num_blocks - i,
    {
        push_block(&mut out, offset, data, i, num_blocks);
        i = i + 1;
    }
    proof {
        lemma_blocks_len(offset, data@, num_blocks as int, num_blocks as int);
    }
    out
}

} // verus!
