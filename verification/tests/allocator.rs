use allox::allocator::AddSectorError;
use allox::allocator::AllocStep;
use allox::allocator::Allox;
use allox::allocator::Sector;
use allox::allocator::SimpleAlloc;
use allox::allocator::ALLOX_POOL_SIZE;
use allox::bitmap::CHUNK_SIZE;
use allox::bitmap::SECTOR_SIZE;
use allox::bitmap::WIDTH;
use allox::solo::SoloPool;
use allox::words::Words;

const BASE: usize = 0x10_0000;

/// Serves one request the way a caller with an operating system would, with
/// `next` standing for the address that the next mapping would get.
fn serve(a: &Allox, size: usize, next: &mut usize) -> Option<usize> {
    match Allox::allocate(&mut a.share(), size, 1) {
        AllocStep::Ready(addr) => Some(addr),
        AllocStep::Failed => None,
        AllocStep::NeedsSector => {
            let mapped = *next;
            match Allox::add_sector_for(&mut a.share(), mapped, size) {
                Ok(addr) => {
                    *next += SECTOR_SIZE;
                    Some(addr)
                }
                Err(_) => None,
            }
        }
    }
}

#[test]
fn single_sector_holds_exactly_its_width() {
    let pool = Allox::new();
    let mut s = pool.share();
    assert_eq!(Sector::activate(&mut s, 0, BASE), Ok(()));
    let mut got = Vec::new();
    for i in 0..WIDTH {
        let addr = Sector::request_mem(&mut s, 0, 1).expect("a free chunk is left");
        assert_eq!(addr, BASE + i * CHUNK_SIZE);
        got.push(addr);
    }
    assert_eq!(Sector::request_mem(&mut s, 0, 1), Err(()));
    assert_eq!(Sector::release_mem(&mut s, 0, got[17], 1), Ok(()));
    assert_eq!(Sector::request_mem(&mut s, 0, 1), Ok(got[17]));
    assert_eq!(Sector::request_mem(&mut s, 0, 1), Err(()));
}

#[test]
fn sector_without_memory_serves_nothing() {
    let pool = Allox::new();
    let mut s = pool.share();
    assert_eq!(Sector::request_mem(&mut s, 0, 64), Err(()));
    assert_eq!(Sector::release_mem(&mut s, 0, BASE, 64), Err(()));
    assert_eq!(s.base(0), 0);
    assert_eq!(Sector::null().dealloc(), 0);
}

#[test]
fn sector_takes_one_mapping_only() {
    let pool = Allox::new();
    let mut s = pool.share();
    assert_eq!(Sector::activate(&mut s, 0, 0), Err(()));
    assert_eq!(Sector::activate(&mut s, 0, BASE + 1), Err(()));
    assert_eq!(Sector::activate(&mut s, 0, usize::MAX - 63), Err(()));
    assert_eq!(Sector::activate(&mut s, 0, BASE), Ok(()));
    assert_eq!(Sector::activate(&mut s, 0, BASE + SECTOR_SIZE), Err(()));
    assert_eq!(s.base(0), BASE);
}

#[test]
fn request_rounds_up_to_whole_chunks() {
    let pool = Allox::new();
    let mut s = pool.share();
    assert_eq!(Sector::activate(&mut s, 0, BASE), Ok(()));
    assert_eq!(Sector::request_mem(&mut s, 0, 65), Ok(BASE));
    assert_eq!(Sector::request_mem(&mut s, 0, 64), Ok(BASE + 2 * CHUNK_SIZE));
    assert_eq!(Sector::request_mem(&mut s, 0, 1), Ok(BASE + 3 * CHUNK_SIZE));
    assert_eq!(Sector::request_mem(&mut s, 0, SECTOR_SIZE), Err(()));
    assert_eq!(Sector::request_mem(&mut s, 0, SECTOR_SIZE - 4 * CHUNK_SIZE), Ok(BASE + 4 * CHUNK_SIZE));
}

#[test]
fn first_fit_reuses_the_lowest_gap() {
    let pool = Allox::new();
    let mut s = pool.share();
    assert_eq!(Sector::activate(&mut s, 0, BASE), Ok(()));
    let a = Sector::request_mem(&mut s, 0, 128).unwrap();
    let b = Sector::request_mem(&mut s, 0, 64).unwrap();
    let c = Sector::request_mem(&mut s, 0, 64).unwrap();
    assert_eq!((a, b, c), (BASE, BASE + 128, BASE + 192));
    assert_eq!(Sector::release_mem(&mut s, 0, b, 64), Ok(()));
    // Two chunks do not fit into the gap of one.
    assert_eq!(Sector::request_mem(&mut s, 0, 128), Ok(BASE + 256));
    assert_eq!(Sector::request_mem(&mut s, 0, 64), Ok(b));
    assert_eq!(Sector::release_mem(&mut s, 0, a, 128), Ok(()));
    assert_eq!(Sector::request_mem(&mut s, 0, 128), Ok(a));
}

#[test]
fn release_of_a_foreign_address_is_refused() {
    let pool = Allox::new();
    let mut s = pool.share();
    assert_eq!(Sector::activate(&mut s, 0, BASE), Ok(()));
    assert_eq!(Sector::request_mem(&mut s, 0, 64), Ok(BASE));
    assert_eq!(Sector::release_mem(&mut s, 0, BASE - 1, 64), Err(()));
    assert_eq!(Sector::release_mem(&mut s, 0, BASE + SECTOR_SIZE, 64), Err(()));
    assert_eq!(Sector::release_mem(&mut s, 0, BASE, SECTOR_SIZE + 1), Err(()));
    // The chunk is still taken.
    assert_eq!(Sector::request_mem(&mut s, 0, 64), Ok(BASE + CHUNK_SIZE));
    // An address inside a chunk releases that chunk.
    assert_eq!(Sector::release_mem(&mut s, 0, BASE + 5, 64), Ok(()));
    assert_eq!(Sector::request_mem(&mut s, 0, 64), Ok(BASE));
}

#[test]
fn oversized_request_fails_in_every_state() {
    let a = Allox::new();
    assert_eq!(Allox::allocate(&mut a.share(), SECTOR_SIZE + 1, 1), AllocStep::Failed);
    assert_eq!(Allox::add_sector_for(&mut a.share(), BASE, SECTOR_SIZE + 1), Err(AddSectorError::NotAdopted));
    assert_eq!(a.num_sectors(), 0);
    let mut next = BASE;
    assert_eq!(serve(&a, 64, &mut next), Some(BASE));
    assert_eq!(Allox::allocate(&mut a.share(), SECTOR_SIZE + 1, 1), AllocStep::Failed);
    assert_eq!(Allox::allocate(&mut a.share(), usize::MAX, 1), AllocStep::Failed);
    assert_eq!(a.total_allocs(), 1);
}

#[test]
fn first_allocation_activates_a_sector() {
    let a = Allox::new();
    assert_eq!(Allox::allocate(&mut a.share(), 128, 1), AllocStep::NeedsSector);
    assert_eq!(Allox::add_sector_for(&mut a.share(), 0, 128), Err(AddSectorError::NotAdopted));
    assert_eq!(a.num_sectors(), 0);
    assert_eq!(Allox::add_sector_for(&mut a.share(), BASE, 128), Ok(BASE));
    assert_eq!(a.num_sectors(), 1);
    assert_eq!(a.total_allocs(), 1);
    assert_eq!(Allox::allocate(&mut a.share(), 128, 1), AllocStep::Ready(BASE + 128));
    assert_eq!(a.total_allocs(), 2);
}

#[test]
fn round_trip_reuses_the_address() {
    let a = Allox::new();
    let mut next = BASE;
    let first = serve(&a, 100, &mut next).unwrap();
    let other = serve(&a, 100, &mut next).unwrap();
    assert_ne!(first, other);
    Allox::dealloc(&mut a.share(), first, 100, 1);
    assert_eq!(a.total_allocs(), 1);
    assert_eq!(serve(&a, 100, &mut next), Some(first));
}

#[test]
fn full_pool_fails_until_a_release() {
    let a = Allox::new();
    let mut next = BASE;
    let mut got = Vec::new();
    for _ in 0..ALLOX_POOL_SIZE * WIDTH {
        got.push(serve(&a, CHUNK_SIZE, &mut next).expect("the pool has room"));
    }
    assert_eq!(a.num_sectors(), ALLOX_POOL_SIZE);
    assert_eq!(a.total_allocs(), ALLOX_POOL_SIZE * WIDTH);
    for _ in 0..3 {
        assert_eq!(Allox::allocate(&mut a.share(), 1, 1), AllocStep::Failed);
        assert_eq!(Allox::allocate(&mut a.share(), SECTOR_SIZE, 1), AllocStep::Failed);
    }
    // No two live allocations share a chunk.
    let mut sorted = got.clone();
    sorted.sort();
    sorted.dedup();
    assert_eq!(sorted.len(), got.len());
    for w in sorted.windows(2) {
        assert!(w[0] + CHUNK_SIZE <= w[1]);
    }
    let back = got[100];
    Allox::dealloc(&mut a.share(), back, CHUNK_SIZE, 1);
    assert_eq!(Allox::allocate(&mut a.share(), 1, 1), AllocStep::Ready(back));
    assert_eq!(Allox::allocate(&mut a.share(), 1, 1), AllocStep::Failed);
}

#[test]
fn active_sectors_are_distinct() {
    let a = Allox::new();
    let mut next = BASE;
    let mut bases = Vec::new();
    for _ in 0..ALLOX_POOL_SIZE {
        bases.push(serve(&a, SECTOR_SIZE, &mut next).unwrap());
    }
    assert_eq!(bases, vec![BASE, BASE + SECTOR_SIZE, BASE + 2 * SECTOR_SIZE, BASE + 3 * SECTOR_SIZE]);
    assert_eq!(Allox::allocate(&mut a.share(), SECTOR_SIZE, 1), AllocStep::Failed);
    assert_eq!(Allox::add_sector_for(&mut a.share(), next, 64), Err(AddSectorError::NotAdopted));
}

#[test]
fn release_of_an_unknown_address_is_silent() {
    let a = Allox::new();
    let mut next = BASE;
    let p = serve(&a, 64, &mut next).unwrap();
    Allox::dealloc(&mut a.share(), p + SECTOR_SIZE, 64, 1);
    assert_eq!(a.total_allocs(), 0);
    assert_eq!(Allox::allocate(&mut a.share(), 64, 1), AllocStep::Ready(p + CHUNK_SIZE));
}

#[test]
fn addresses_are_chunk_aligned() {
    let a = Allox::new();
    let mut next = BASE;
    for size in [1usize, 63, 64, 65, 200, 4096, 7] {
        if let Some(p) = serve(&a, size, &mut next) {
            assert_eq!(p % CHUNK_SIZE, 0);
            assert_ne!(p, 0);
        }
    }
}

#[test]
fn alternating_cycles_leave_the_counter_where_it_was() {
    let a = Allox::new();
    let mut next = BASE;
    let keep = serve(&a, 64, &mut next).unwrap();
    let start = a.total_allocs();
    for _ in 0..10_000 {
        let p = serve(&a, 64, &mut next).unwrap();
        assert_ne!(p, keep);
        Allox::dealloc(&mut a.share(), p, 64, 1);
    }
    assert_eq!(a.total_allocs(), start);
}

#[test]
fn simple_alloc_counts_successful_mappings() {
    let s = SimpleAlloc::new();
    assert_eq!(s.allocated(0), 0);
    assert_eq!(s.count(), 0);
    assert_eq!(s.allocated(BASE), BASE);
    assert_eq!(s.count(), 1);
}

#[test]
fn every_sector_of_the_pool_has_its_own_words() {
    let pool = Allox::new();
    let mut w = pool.share();
    assert_eq!(Sector::activate(&mut w, 3, BASE), Ok(()));
    assert_eq!(Sector::request_mem(&mut w, 3, 200), Ok(BASE));
    assert_eq!(w.slots(3), 0b1111);
    assert_eq!(Sector::request_mem(&mut w, 2, 200), Err(()));
    assert_eq!(w.slots(2), 0);
    assert_eq!(w.base(2), 0);
    assert_eq!(Sector::release_mem(&mut w, 3, BASE + 2 * CHUNK_SIZE, 64), Ok(()));
    assert_eq!(w.slots(3), 0b1011);
    assert_eq!(w.viewers(3), 0);
}

#[test]
fn shared_and_plain_words_answer_each_access_alike() {
    let pool = Allox::new();
    let mut a = pool.share();
    let mut p = SoloPool::new();
    assert_eq!(a.swap_base(1, 0, BASE), p.swap_base(1, 0, BASE));
    assert_eq!(a.swap_base(1, 0, BASE + 64), p.swap_base(1, 0, BASE + 64));
    assert_eq!((a.base(1), p.base(1)), (BASE, BASE));
    assert_eq!(a.swap_slots(1, 0, 7), p.swap_slots(1, 0, 7));
    assert_eq!(a.swap_slots(1, 0, 9), p.swap_slots(1, 0, 9));
    a.set_slots(4, 5);
    p.set_slots(4, 5);
    assert_eq!((a.slots(1), a.slots(4)), (p.slots(1), p.slots(4)));
    assert_eq!((a.slots(1), a.slots(4)), (7, 5));
    assert_eq!(a.swap_viewers(0, 0, 2), p.swap_viewers(0, 0, 2));
    assert_eq!(a.swap_viewers(0, 0, 3), p.swap_viewers(0, 0, 3));
    a.drop_viewer(0);
    p.drop_viewer(0);
    assert_eq!((a.viewers(0), p.viewers(0)), (1, 1));
    a.set_viewers(0, usize::MAX);
    p.set_viewers(0, usize::MAX);
    assert_eq!((a.viewers(0), p.viewers(0)), (usize::MAX, usize::MAX));
    assert_eq!(a.swap_count(0, 3), p.swap_count(0, 3));
    assert_eq!(a.swap_count(0, 1), p.swap_count(0, 1));
    assert_eq!((a.count(), p.count()), (3, 3));
    a.set_entry(2, 5);
    p.set_entry(2, 5);
    assert_eq!((a.entry(2), p.entry(2), a.entry(0), p.entry(0)), (5, 5, 0, 0));
    a.sub_alloc();
    p.sub_alloc();
    assert_eq!((a.allocs(), p.allocs()), (usize::MAX, usize::MAX));
    a.add_alloc();
    p.add_alloc();
    a.add_alloc();
    p.add_alloc();
    assert_eq!((a.allocs(), p.allocs()), (1, 1));
    assert_eq!(pool.total_allocs(), 1);
    assert_eq!(pool.num_sectors(), 3);
}

#[test]
fn a_sector_under_initialisation_is_passed_over() {
    let a = Allox::new();
    let mut next = BASE;
    assert_eq!(serve(&a, 64, &mut next), Some(BASE));
    let mut w = a.share();
    // Another thread holds the sector for itself: the walk passes it over.
    w.set_viewers(0, usize::MAX);
    assert_eq!(Allox::allocate(&mut w, 64, 1), AllocStep::NeedsSector);
    assert_eq!(w.viewers(0), usize::MAX);
    w.set_viewers(0, 0);
    assert_eq!(Allox::allocate(&mut w, 64, 1), AllocStep::Ready(BASE + CHUNK_SIZE));
    assert_eq!(w.viewers(0), 0);
}
