//! Arithmetic on the chunk bitmap of one sector.
//!
//! A sector is `SECTOR_SIZE` bytes of backing memory cut into `WIDTH` chunks of
//! `CHUNK_SIZE` bytes. One `u64` records which chunks are taken: bit `i` is set
//! while chunk `i` is occupied. Everything here is a function of plain values,
//! so that the code which holds the bitmap in an atomic word can hand over what
//! it observed and get a decision back.

use vstd::prelude::*;
use vstd::std_specs::bits::u64_trailing_zeros;
use vstd::std_specs::bits::axiom_u64_trailing_zeros;

verus! {

/// Bytes of backing memory behind one sector.
pub const SECTOR_SIZE: usize = 4096;

/// Chunks per sector, which is also the number of bits in a sector's bitmap.
pub const WIDTH: usize = 64;

/// Bytes per chunk: `SECTOR_SIZE / WIDTH`.
pub const CHUNK_SIZE: usize = 64;

/// Number of chunks that `size` bytes occupy: `size / CHUNK_SIZE`, rounded up.
pub open spec fn chunks_needed(size: usize) -> nat {
    ((size + CHUNK_SIZE - 1) / (CHUNK_SIZE as int)) as nat
}

/// Whether chunk `i` is marked occupied in `map`.
pub open spec fn bit_at(map: u64, i: int) -> bool {
    0 <= i < WIDTH && (map >> (i as u64)) & 1 == 1
}

/// The chunks that `map` marks occupied.
pub open spec fn occupied(map: u64) -> Set<int> {
    Set::new(|i: int| bit_at(map, i))
}

/// The chunks of a sector that lie in the run of `n` chunks starting at `off`.
pub open spec fn chunk_run(off: int, n: int) -> Set<int> {
    Set::new(|i: int| 0 <= i < WIDTH && off <= i < off + n)
}

/// Whether the run of `n` chunks at `off` lies inside a sector and none of its
/// chunks is occupied in `map`.
pub open spec fn run_free(map: u64, n: int, off: int) -> bool {
    0 <= off && 0 <= n && off + n <= WIDTH && occupied(map).disjoint(chunk_run(off, n))
}

/// The lowest offset at or after `start` where `n` chunks are free in `map`,
/// if there is one: `start` itself if the run is free there, else the first
/// fit from the next offset on.
pub open spec fn first_fit(map: u64, n: int, start: int) -> Option<int>
    decreases WIDTH - start,
{
    if start < 0 || n < 0 || start + n > WIDTH {
        None
    } else if run_free(map, n, start) {
        Some(start)
    } else {
        first_fit(map, n, start + 1)
    }
}

/// The bitmap in which exactly the chunks of the run of `n` chunks at `off`
/// are set, cut off at the last chunk.
pub open spec fn mask_of(n: usize, off: usize) -> u64 {
    (if n == 0 {
        0u64
    } else {
        u64::MAX >> ((64 - n) as u64)
    }) << (off as u64)
}

/// `map` with the run of `n` chunks at `off` marked occupied.
pub open spec fn claimed_word(map: u64, n: usize, off: usize) -> u64 {
    map | mask_of(n, off)
}

/// `map` with the run of `n` chunks at `off` marked free.
pub open spec fn released_word(map: u64, n: usize, off: usize) -> u64 {
    map & !mask_of(n, off)
}

/// An address that can serve as the base of a sector: not null, aligned to the
/// chunk size, and with the whole sector below the top of the address space.
pub open spec fn usable_base(base: usize) -> bool {
    base != 0 && base % CHUNK_SIZE == 0 && base + SECTOR_SIZE <= usize::MAX
}

/// The chunk of the sector at `base` that holds the byte at `addr`, if the
/// byte lies in that sector.
pub open spec fn owning_chunk(base: usize, addr: usize) -> Option<int> {
    if base <= addr < base + SECTOR_SIZE {
        Some((addr - base) / (CHUNK_SIZE as int))
    } else {
        None
    }
}

spec fn low_mask(n: u64) -> u64 {
    if n == 0 {
        0
    } else {
        u64::MAX >> ((64 - n) as u64)
    }
}

proof fn lemma_mask_bit(n: u64, off: u64, i: u64)
    by (bit_vector)
    requires
        n <= 64,
        off < 64,
        i < 64,
    ensures
        ((low_mask(n) << off) >> i) & 1 == 1 <==> (off <= i && i < off + n),
{
}

proof fn lemma_and_bit(a: u64, b: u64, i: u64)
    by (bit_vector)
    requires
        i < 64,
    ensures
        ((a & b) >> i) & 1 == 1 <==> ((a >> i) & 1 == 1 && (b >> i) & 1 == 1),
{
}

proof fn lemma_or_bit(a: u64, b: u64, i: u64)
    by (bit_vector)
    requires
        i < 64,
    ensures
        ((a | b) >> i) & 1 == 1 <==> ((a >> i) & 1 == 1 || (b >> i) & 1 == 1),
{
}

proof fn lemma_and_not_bit(a: u64, b: u64, i: u64)
    by (bit_vector)
    requires
        i < 64,
    ensures
        ((a & !b) >> i) & 1 == 1 <==> ((a >> i) & 1 == 1 && (b >> i) & 1 != 1),
{
}

proof fn lemma_zero_bit(i: u64)
    by (bit_vector)
    requires
        i < 64,
    ensures
        (0u64 >> i) & 1 != 1,
{
}

proof fn lemma_full_bit(i: u64)
    by (bit_vector)
    requires
        i < 64,
    ensures
        (0xffff_ffff_ffff_ffffu64 >> i) & 1 == 1,
{
}

/// Two bitmaps with the same occupied chunks are the same word.
pub proof fn lemma_occupied_injective(a: u64, b: u64)
    requires
        occupied(a) == occupied(b),
    ensures
        a == b,
{
    if a != b {
        let x = a ^ b;
        assert(x != 0) by (bit_vector)
            requires
                x == a ^ b,
                a != b,
        ;
        axiom_u64_trailing_zeros(x);
        let t = u64_trailing_zeros(x) as u64;
        assert(((a >> t) & 1 == 1) != ((b >> t) & 1 == 1)) by (bit_vector)
            requires
                x == a ^ b,
                t < 64,
                (x >> t) & 1 == 1,
        ;
        assert(bit_at(a, t as int) != bit_at(b, t as int));
        assert(occupied(a).contains(t as int) == bit_at(a, t as int));
        assert(occupied(b).contains(t as int) == bit_at(b, t as int));
        assert(false);
    }
}

/// No chunk is occupied in the empty bitmap, and every chunk in the full one.
pub proof fn lemma_occupied_bounds()
    ensures
        occupied(0) == Set::<int>::empty(),
        occupied(u64::MAX) == chunk_run(0, WIDTH as int),
{
    assert forall|i: int| !bit_at(0, i) by {
        if 0 <= i < 64 {
            lemma_zero_bit(i as u64);
        }
    }
    assert(occupied(0) =~= Set::<int>::empty());
    assert forall|i: int| bit_at(u64::MAX, i) <==> (0 <= i < 64) by {
        if 0 <= i < 64 {
            lemma_full_bit(i as u64);
        }
    }
    assert(occupied(u64::MAX) =~= chunk_run(0, WIDTH as int));
}

/// Computes the number of chunks that `size` bytes occupy.
pub fn chunks_for(size: usize) -> (n: usize)
    ensures
        n == chunks_needed(size),
        n <= WIDTH <==> size <= SECTOR_SIZE,
        n >= 1 <==> size >= 1,
{
    if size % CHUNK_SIZE == 0 {
        size / CHUNK_SIZE
    } else {
        size / CHUNK_SIZE + 1
    }
}

/// Builds the bitmap in which exactly the chunks of the run of `n` chunks at
/// `off` are set. A run that reaches past the last chunk is cut off there.
pub fn run_mask(n: usize, off: usize) -> (mask: u64)
    requires
        n <= WIDTH,
        off < WIDTH,
    ensures
        mask == mask_of(n, off),
        occupied(mask) == chunk_run(off as int, n as int),
{
    let low: u64 = if n == 0 {
        0
    } else {
        u64::MAX >> ((64 - n) as u64)
    };
    let mask: u64 = low << (off as u64);
    proof {
        assert(low == low_mask(n as u64));
        assert forall|i: int| bit_at(mask, i) <==> (0 <= i < WIDTH && off <= i < off + n) by {
            if 0 <= i < 64 {
                lemma_mask_bit(n as u64, off as u64, i as u64);
            }
        }
        assert(occupied(mask) =~= chunk_run(off as int, n as int));
    }
    mask
}

/// Tests whether the run of `n` chunks at `off` is free in `map`.
pub fn run_is_free(map: u64, n: usize, off: usize) -> (free: bool)
    ensures
        free == run_free(map, n as int, off as int),
{
    if n > WIDTH || off > WIDTH - n {
        return false;
    }
    if off == WIDTH {
        proof {
            assert(chunk_run(off as int, n as int) =~= Set::<int>::empty());
        }
        return true;
    }
    let mask = run_mask(n, off);
    let common = map & mask;
    proof {
        if common == 0 {
            assert forall|i: int| !(bit_at(map, i) && bit_at(mask, i)) by {
                if 0 <= i < 64 {
                    lemma_and_bit(map, mask, i as u64);
                    lemma_zero_bit(i as u64);
                }
            }
            assert forall|i: int|
                !(occupied(map).contains(i) && chunk_run(off as int, n as int).contains(i)) by {
                assert(occupied(mask).contains(i) == bit_at(mask, i));
            }
        } else {
            axiom_u64_trailing_zeros(common);
            let t = u64_trailing_zeros(common) as u64;
            lemma_and_bit(map, mask, t);
            assert(bit_at(map, t as int) && bit_at(mask, t as int));
            assert(occupied(map).contains(t as int));
            assert(occupied(mask).contains(t as int));
        }
    }
    common == 0
}

/// Marks the run of `n` chunks at `off` occupied in `map`.
pub fn claim_run(map: u64, n: usize, off: usize) -> (claimed: u64)
    requires
        n <= WIDTH,
        off < WIDTH,
    ensures
        claimed == claimed_word(map, n, off),
        occupied(claimed) == occupied(map).union(chunk_run(off as int, n as int)),
{
    let mask = run_mask(n, off);
    let claimed = map | mask;
    proof {
        assert forall|i: int| bit_at(claimed, i) <==> (bit_at(map, i) || bit_at(mask, i)) by {
            if 0 <= i < 64 {
                lemma_or_bit(map, mask, i as u64);
            }
        }
        assert forall|i: int|
            occupied(claimed).contains(i) <==> (occupied(map).contains(i) || chunk_run(
                off as int,
                n as int,
            ).contains(i)) by {
            assert(occupied(mask).contains(i) == bit_at(mask, i));
        }
        assert(occupied(claimed) =~= occupied(map).union(chunk_run(off as int, n as int)));
    }
    claimed
}

/// Marks the run of `n` chunks at `off` free in `map`.
pub fn release_run(map: u64, n: usize, off: usize) -> (released: u64)
    requires
        n <= WIDTH,
        off < WIDTH,
    ensures
        released == released_word(map, n, off),
        occupied(released) == occupied(map).difference(chunk_run(off as int, n as int)),
{
    let mask = run_mask(n, off);
    let released = map & !mask;
    proof {
        assert forall|i: int| bit_at(released, i) <==> (bit_at(map, i) && !bit_at(mask, i)) by {
            if 0 <= i < 64 {
                lemma_and_not_bit(map, mask, i as u64);
            }
        }
        assert forall|i: int|
            occupied(released).contains(i) <==> (occupied(map).contains(i) && !chunk_run(
                off as int,
                n as int,
            ).contains(i)) by {
            assert(occupied(mask).contains(i) == bit_at(mask, i));
        }
        assert(occupied(released) =~= occupied(map).difference(
            chunk_run(off as int, n as int),
        ));
    }
    released
}

/// Searches `map` from offset `start` upwards for the first place where `n`
/// chunks are free.
pub fn first_fit_from(map: u64, n: usize, start: usize) -> (found: Option<usize>)
    ensures
        match found {
            Some(off) => first_fit(map, n as int, start as int) == Some(off as int),
            None => first_fit(map, n as int, start as int) is None,
        },
        found matches Some(off) ==> start <= off && off + n <= WIDTH && run_free(
            map,
            n as int,
            off as int,
        ),
{
    if n > WIDTH || start > WIDTH - n {
        return None;
    }
    let last = WIDTH - n;
    let mut off = start;
    while off <= last
        invariant
            n <= WIDTH,
            last == WIDTH - n,
            start <= off <= last + 1,
            first_fit(map, n as int, start as int) == first_fit(map, n as int, off as int),
        decreases last + 1 - off,
    {
        if run_is_free(map, n, off) {
            return Some(off);
        }
        off = off + 1;
    }
    None
}

/// What `first_fit` gives is free, lies at or after `start`, and has no free
/// offset between `start` and itself; where it gives nothing, no offset from
/// `start` on is free.
pub proof fn lemma_first_fit(map: u64, n: int, start: int)
    requires
        0 <= start,
        0 <= n,
    ensures
        match first_fit(map, n, start) {
            Some(off) => {
                &&& start <= off
                &&& run_free(map, n, off)
                &&& forall|j: int| start <= j < off ==> !run_free(map, n, j)
            },
            None => forall|j: int| start <= j ==> !run_free(map, n, j),
        },
    decreases WIDTH - start,
{
    if start + n <= WIDTH && !run_free(map, n, start) {
        lemma_first_fit(map, n, start + 1);
    }
}

/// `first_fit` is the offset that is free and has no free offset between
/// `start` and itself.
pub proof fn lemma_first_fit_is(map: u64, n: int, start: int, off: int)
    requires
        0 <= start <= off,
        run_free(map, n, off),
        forall|j: int| start <= j < off ==> !run_free(map, n, j),
    ensures
        first_fit(map, n, start) == Some(off),
    decreases off - start,
{
    if start < off {
        assert(!run_free(map, n, start));
        lemma_first_fit_is(map, n, start + 1, off);
    }
}

/// The word that `claimed_word` gives marks the chunks of `map` and those of
/// the run; the word that `released_word` gives marks the chunks of `map`
/// outside the run.
pub proof fn lemma_words(map: u64, n: usize, off: usize)
    requires
        n <= WIDTH,
        off < WIDTH,
    ensures
        occupied(mask_of(n, off)) == chunk_run(off as int, n as int),
        occupied(claimed_word(map, n, off)) == occupied(map).union(chunk_run(off as int, n as int)),
        occupied(released_word(map, n, off)) == occupied(map).difference(
            chunk_run(off as int, n as int),
        ),
{
    let mask = mask_of(n, off);
    assert(mask == low_mask(n as u64) << (off as u64));
    assert forall|i: int| bit_at(mask, i) <==> (0 <= i < WIDTH && off <= i < off + n) by {
        if 0 <= i < 64 {
            lemma_mask_bit(n as u64, off as u64, i as u64);
        }
    }
    assert(occupied(mask) =~= chunk_run(off as int, n as int));
    let c = claimed_word(map, n, off);
    let r = released_word(map, n, off);
    assert forall|i: int| bit_at(c, i) <==> (bit_at(map, i) || bit_at(mask, i)) by {
        if 0 <= i < 64 {
            lemma_or_bit(map, mask, i as u64);
        }
    }
    assert forall|i: int| bit_at(r, i) <==> (bit_at(map, i) && !bit_at(mask, i)) by {
        if 0 <= i < 64 {
            lemma_and_not_bit(map, mask, i as u64);
        }
    }
    assert forall|i: int|
        occupied(c).contains(i) <==> (occupied(map).contains(i) || chunk_run(
            off as int,
            n as int,
        ).contains(i)) by {
        assert(occupied(mask).contains(i) == bit_at(mask, i));
    }
    assert forall|i: int|
        occupied(r).contains(i) <==> (occupied(map).contains(i) && !chunk_run(
            off as int,
            n as int,
        ).contains(i)) by {
        assert(occupied(mask).contains(i) == bit_at(mask, i));
    }
    assert(occupied(c) =~= occupied(map).union(chunk_run(off as int, n as int)));
    assert(occupied(r) =~= occupied(map).difference(chunk_run(off as int, n as int)));
}

/// An address on a chunk boundary is aligned to every divisor of the chunk
/// size.
pub proof fn lemma_chunk_aligned(addr: usize, align: usize)
    requires
        addr % CHUNK_SIZE == 0,
    ensures
        align > 0 && CHUNK_SIZE % align == 0 ==> addr % align == 0,
{
    if align > 0 && CHUNK_SIZE % align == 0 {
        let a = addr as int;
        let d = align as int;
        assert(a % d == 0) by (nonlinear_arith)
            requires
                a % 64 == 0,
                d > 0,
                64int % d == 0,
        {
            let k = a / 64;
            let m = 64int / d;
            assert(a == 64 * k);
            assert(64 == d * m);
            assert(a == d * (m * k));
        }
    }
}

/// Tests whether `addr` can serve as the base of a sector.
pub fn is_usable_base(addr: usize) -> (ok: bool)
    ensures
        ok == usable_base(addr),
{
    addr != 0 && addr % CHUNK_SIZE == 0 && addr <= usize::MAX - SECTOR_SIZE
}

/// Finds the chunk of the sector at `base` that holds the byte at `addr`.
pub fn chunk_index(base: usize, addr: usize) -> (idx: Option<usize>)
    ensures
        match idx {
            Some(i) => owning_chunk(base, addr) == Some(i as int) && i < WIDTH,
            None => owning_chunk(base, addr) is None,
        },
{
    if addr < base {
        return None;
    }
    let delta = addr - base;
    if delta >= SECTOR_SIZE {
        return None;
    }
    Some(delta / CHUNK_SIZE)
}

/// The address of chunk `off` in the sector at `base`.
pub fn chunk_address(base: usize, off: usize) -> (addr: usize)
    requires
        usable_base(base),
        off < WIDTH,
    ensures
        addr == base + off * CHUNK_SIZE,
        addr != 0,
        addr % CHUNK_SIZE == 0,
        owning_chunk(base, addr) == Some(off as int),
{
    base + off * CHUNK_SIZE
}

} // verus!
