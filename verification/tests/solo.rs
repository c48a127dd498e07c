use allox::allocator::AddSectorError;
use allox::allocator::AllocStep;
use allox::allocator::Allox;
use allox::allocator::ALLOX_POOL_SIZE;
use allox::bitmap::CHUNK_SIZE;
use allox::bitmap::SECTOR_SIZE;
use allox::bitmap::WIDTH;
use allox::solo::SoloPool;
use allox::words::Words;
use rand::Rng;

const BASE: usize = 0x80_0000;

#[test]
fn solo_pool_serves_first_fit_in_the_first_sector() {
    let mut p = SoloPool::new();
    assert_eq!(Allox::allocate(&mut p, 100, 1), AllocStep::NeedsSector);
    assert_eq!(Allox::add_sector_for(&mut p, BASE, 100), Ok(BASE));
    assert_eq!(Allox::allocate(&mut p, 64, 1), AllocStep::Ready(BASE + 2 * CHUNK_SIZE));
    assert_eq!(Allox::allocate(&mut p, SECTOR_SIZE, 1), AllocStep::NeedsSector);
    assert_eq!(Allox::add_sector_for(&mut p, BASE + SECTOR_SIZE, SECTOR_SIZE), Ok(BASE + SECTOR_SIZE));
    assert_eq!(Allox::allocate(&mut p, 1, 1), AllocStep::Ready(BASE + 3 * CHUNK_SIZE));
    Allox::dealloc(&mut p, BASE, 100, 1);
    assert_eq!(Allox::allocate(&mut p, 65, 1), AllocStep::Ready(BASE));
    assert_eq!(p.total_allocs(), 4);
    assert_eq!(p.num_sectors(), 2);
}

#[test]
fn solo_pool_refuses_what_the_allocator_refuses() {
    let mut p = SoloPool::new();
    assert_eq!(Allox::allocate(&mut p, SECTOR_SIZE + 1, 1), AllocStep::Failed);
    assert_eq!(Allox::add_sector_for(&mut p, BASE, SECTOR_SIZE + 1), Err(AddSectorError::NotAdopted));
    assert_eq!(Allox::add_sector_for(&mut p, 0, 1), Err(AddSectorError::NotAdopted));
    assert_eq!(Allox::add_sector_for(&mut p, BASE + 8, 1), Err(AddSectorError::NotAdopted));
    for k in 0..ALLOX_POOL_SIZE {
        assert_eq!(Allox::add_sector_for(&mut p, BASE + k * SECTOR_SIZE, SECTOR_SIZE), Ok(BASE + k * SECTOR_SIZE));
    }
    assert_eq!(Allox::add_sector_for(&mut p, BASE + 4 * SECTOR_SIZE, 1), Err(AddSectorError::NotAdopted));
    assert_eq!(Allox::allocate(&mut p, 1, 1), AllocStep::Failed);
    assert_eq!(p.total_allocs(), ALLOX_POOL_SIZE);
    Allox::dealloc(&mut p, BASE + 2 * SECTOR_SIZE + 7 * CHUNK_SIZE, 1, 1);
    assert_eq!(Allox::allocate(&mut p, 1, 1), AllocStep::Ready(BASE + 2 * SECTOR_SIZE + 7 * CHUNK_SIZE));
    assert_eq!(Allox::allocate(&mut p, 1, 1), AllocStep::Failed);
}

#[test]
fn solo_pool_counts_every_release() {
    let mut p = SoloPool::new();
    Allox::dealloc(&mut p, BASE, 64, 1);
    assert_eq!(p.total_allocs(), usize::MAX);
    assert_eq!(Allox::add_sector_for(&mut p, BASE, 64), Ok(BASE));
    assert_eq!(p.total_allocs(), 0);
}

/// The allocator and the pool of one thread, given the same requests in the
/// same order, answer alike at every step.
#[test]
fn allocator_alone_answers_as_the_solo_pool() {
    let mut rng = rand::rng();
    for _ in 0..20 {
        let a = Allox::new();
        let mut p = SoloPool::new();
        let mut next = BASE;
        let mut live: Vec<(usize, usize)> = Vec::new();
        for _ in 0..3000 {
            let roll = rng.random_range(0..100);
            if roll < 50 {
                let size: usize = match rng.random_range(0..10) {
                    0 => SECTOR_SIZE + rng.random_range(1..100usize),
                    1 => SECTOR_SIZE,
                    2 => rng.random_range(1..=SECTOR_SIZE),
                    _ => rng.random_range(1..=6 * CHUNK_SIZE),
                };
                let align = 1usize << rng.random_range(0..7);
                let step = Allox::allocate(&mut a.share(), size, align);
                assert_eq!(step, Allox::allocate(&mut p, size, align));
                match step {
                    AllocStep::Ready(addr) => {
                        assert_eq!(addr % align, 0);
                        live.push((addr, size));
                    }
                    AllocStep::Failed => {}
                    AllocStep::NeedsSector => {
                        // Now and then the mapping fails or comes out crooked.
                        let mapped = match rng.random_range(0..8) {
                            0 => 0,
                            1 => next + 1,
                            _ => next,
                        };
                        let r = Allox::add_sector_for(&mut a.share(), mapped, size);
                        assert_eq!(r, Allox::add_sector_for(&mut p, mapped, size));
                        if let Ok(addr) = r {
                            assert_eq!(addr, next);
                            next += SECTOR_SIZE;
                            live.push((addr, size));
                        }
                    }
                }
            } else if roll < 90 && !live.is_empty() {
                let (addr, size) = live.swap_remove(rng.random_range(0..live.len()));
                Allox::dealloc(&mut a.share(), addr, size, 1);
                Allox::dealloc(&mut p, addr, size, 1);
            } else {
                // A release that matches no allocation: a foreign address, or
                // a size that no sector holds.
                let addr = BASE + rng.random_range(0..6 * SECTOR_SIZE);
                let size = if roll % 2 == 0 { SECTOR_SIZE + 1 } else { 0 };
                Allox::dealloc(&mut a.share(), addr, size, 1);
                Allox::dealloc(&mut p, addr, size, 1);
            }
            assert_eq!(a.total_allocs(), p.total_allocs());
            assert_eq!(a.num_sectors(), p.num_sectors());
        }
        // The bitmaps agree as well: both serve the same addresses until
        // both are full.
        loop {
            let step = Allox::allocate(&mut a.share(), 1, 1);
            assert_eq!(step, Allox::allocate(&mut p, 1, 1));
            match step {
                AllocStep::Ready(_) => {}
                AllocStep::NeedsSector => {
                    let r = Allox::add_sector_for(&mut a.share(), next, 1);
                    assert_eq!(r, Allox::add_sector_for(&mut p, next, 1));
                    assert_eq!(r, Ok(next));
                    next += SECTOR_SIZE;
                }
                AllocStep::Failed => break,
            }
        }
        assert_eq!(a.num_sectors(), ALLOX_POOL_SIZE);
        assert!(next <= BASE + ALLOX_POOL_SIZE * SECTOR_SIZE);
        let _ = WIDTH;
    }
}

#[test]
fn solo_walk_leaves_the_viewer_counts_as_they_were() {
    let mut p = SoloPool::new();
    assert_eq!(Allox::add_sector_for(&mut p, BASE, 64), Ok(BASE));
    assert_eq!(Allox::add_sector_for(&mut p, BASE + SECTOR_SIZE, 64), Ok(BASE + SECTOR_SIZE));
    p.set_viewers(0, 7);
    assert_eq!(Allox::allocate(&mut p, 64, 1), AllocStep::Ready(BASE + CHUNK_SIZE));
    Allox::dealloc(&mut p, BASE + SECTOR_SIZE, 64, 1);
    assert_eq!(Allox::allocate(&mut p, SECTOR_SIZE, 1), AllocStep::Ready(BASE + SECTOR_SIZE));
    assert_eq!((p.viewers(0), p.viewers(1)), (7, 0));
    assert_eq!(p.bitmap(0), 0b11);
    assert_eq!(p.bitmap(1), u64::MAX);
}

#[test]
fn solo_round_trip_restores_every_word() {
    let mut p = SoloPool::new();
    assert_eq!(Allox::add_sector_for(&mut p, BASE, 3 * CHUNK_SIZE), Ok(BASE));
    assert_eq!(Allox::add_sector_for(&mut p, BASE + SECTOR_SIZE, SECTOR_SIZE), Ok(BASE + SECTOR_SIZE));
    let before = (p.bitmap(0), p.bitmap(1), p.total_allocs(), p.num_sectors());
    assert_eq!(before, (0b111, u64::MAX, 2, 2));
    let step = Allox::allocate(&mut p, 130, 1);
    assert_eq!(step, AllocStep::Ready(BASE + 3 * CHUNK_SIZE));
    assert_eq!(p.bitmap(0), 0b111111);
    Allox::dealloc(&mut p, BASE + 3 * CHUNK_SIZE, 130, 1);
    assert_eq!((p.bitmap(0), p.bitmap(1), p.total_allocs(), p.num_sectors()), before);
    assert_eq!(Allox::allocate(&mut p, 130, 1), step);
}

#[test]
fn solo_active_array_names_each_sector_once() {
    let mut p = SoloPool::new();
    for k in 0..ALLOX_POOL_SIZE {
        assert_eq!(p.entry(k), 0);
    }
    for k in 0..ALLOX_POOL_SIZE {
        assert_eq!(Allox::add_sector_for(&mut p, BASE + k * SECTOR_SIZE, 1), Ok(BASE + k * SECTOR_SIZE));
        assert_eq!(p.count(), k + 1);
    }
    for k in 0..ALLOX_POOL_SIZE {
        assert_eq!(p.entry(k), k + 1);
        assert_eq!(p.base(k), BASE + k * SECTOR_SIZE);
        assert_eq!(p.viewers(k), 0);
        assert_eq!(p.bitmap(k), 1);
    }
    // The fifth sector of the pool never comes into use.
    assert_eq!(p.base(4), 0);
    assert_eq!(Allox::add_sector_for(&mut p, BASE + 4 * SECTOR_SIZE, 1), Err(AddSectorError::NotAdopted));
    assert_eq!(p.base(4), 0);
    assert_eq!(p.viewers(4), 0);
}

#[test]
fn solo_sector_holds_exactly_its_width() {
    let mut p = SoloPool::new();
    assert_eq!(Allox::add_sector_for(&mut p, BASE, 1), Ok(BASE));
    for i in 1..WIDTH {
        assert_eq!(Allox::allocate(&mut p, 1, 1), AllocStep::Ready(BASE + i * CHUNK_SIZE));
    }
    assert_eq!(p.bitmap(0), u64::MAX);
    assert_eq!(Allox::allocate(&mut p, 1, 1), AllocStep::NeedsSector);
    Allox::dealloc(&mut p, BASE + 41 * CHUNK_SIZE, 1, 1);
    assert_eq!(p.bitmap(0), !(1u64 << 41));
    assert_eq!(Allox::allocate(&mut p, 1, 1), AllocStep::Ready(BASE + 41 * CHUNK_SIZE));
    assert_eq!(Allox::allocate(&mut p, 1, 1), AllocStep::NeedsSector);
}
