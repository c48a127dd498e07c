use allox::allocator::AddSectorError;
use allox::allocator::AllocStep;
use allox::allocator::Allox;
use allox::bitmap::CHUNK_SIZE;
use allox::bitmap::SECTOR_SIZE;
use rand::Rng;

const BASE: usize = 0x40_0000;
const SECTORS: usize = 5;
const CHUNKS: usize = SECTORS * SECTOR_SIZE / CHUNK_SIZE;

/// Stands for the operating system: hands out the addresses of fresh sectors
/// and takes back those that no sector adopted.
struct Mapper {
    next: usize,
}

impl Mapper {
    fn serve(&mut self, a: &Allox, size: usize) -> Option<usize> {
        match Allox::allocate(&mut a.share(), size, 1) {
            AllocStep::Ready(addr) => Some(addr),
            AllocStep::Failed => None,
            AllocStep::NeedsSector => {
                let mapped = if self.next < SECTORS { BASE + self.next * SECTOR_SIZE } else { 0 };
                match Allox::add_sector_for(&mut a.share(), mapped, size) {
                    Ok(addr) => {
                        self.next += 1;
                        Some(addr)
                    }
                    Err(AddSectorError::NotAdopted) => None,
                    Err(AddSectorError::NotPublished) => {
                        self.next += 1;
                        None
                    }
                }
            }
        }
    }
}

fn chunk_of(addr: usize) -> usize {
    assert!(addr >= BASE && addr < BASE + SECTORS * SECTOR_SIZE);
    assert_eq!(addr % CHUNK_SIZE, 0);
    (addr - BASE) / CHUNK_SIZE
}

/// Sixteen workers take turns, each with one allocation of 64 bytes at a time:
/// a worker's release and its next request are separated by the steps of all
/// the others.
#[test]
fn stress_workers_never_share_a_chunk() {
    const T: usize = 16;
    const K: usize = 10_000;
    const S: usize = 64;
    let a = Allox::new();
    let mut os = Mapper { next: 0 };
    let mut owner = vec![0usize; CHUNKS];
    let mut held: Vec<Option<usize>> = vec![None; T];
    let start = a.total_allocs();
    let mut served = 0usize;
    for _ in 0..K {
        for t in 0..T {
            let addr = os.serve(&a, S).expect("sixteen live chunks fit into one sector");
            let c = chunk_of(addr);
            assert_eq!(owner[c], 0, "chunk handed out twice");
            owner[c] = t + 1;
            served += 1;
            // Each worker gives back what it got a round ago.
            if let Some(old) = held[t].replace(addr) {
                assert_eq!(owner[chunk_of(old)], t + 1);
                owner[chunk_of(old)] = 0;
                Allox::dealloc(&mut a.share(), old, S, 1);
            }
        }
    }
    for t in 0..T {
        let old = held[t].take().unwrap();
        owner[chunk_of(old)] = 0;
        Allox::dealloc(&mut a.share(), old, S, 1);
    }
    assert_eq!(served, T * K);
    assert_eq!(a.total_allocs(), start);
    assert_eq!(a.num_sectors(), 1);
    assert!(owner.iter().all(|&o| o == 0));
}

/// Requests and releases of mixed sizes in random order, against a pool that
/// is too small for all of them.
#[test]
fn random_traffic_never_shares_a_chunk() {
    let a = Allox::new();
    let mut os = Mapper { next: 0 };
    let mut rng = rand::rng();
    let mut owner = vec![false; CHUNKS];
    let mut live: Vec<(usize, usize)> = Vec::new();
    let mut failures = 0usize;
    for _ in 0..20_000 {
        if live.is_empty() || rng.random_range(0..100) < 55 {
            let size: usize = rng.random_range(1..=8 * CHUNK_SIZE);
            match os.serve(&a, size) {
                Some(addr) => {
                    let first = chunk_of(addr);
                    for c in first..first + size.div_ceil(CHUNK_SIZE) {
                        assert!(!owner[c], "chunk handed out twice");
                        owner[c] = true;
                    }
                    assert_eq!(first / 64, (first + size.div_ceil(CHUNK_SIZE) - 1) / 64, "one sector");
                    live.push((addr, size));
                }
                None => failures += 1,
            }
        } else {
            let (addr, size) = live.swap_remove(rng.random_range(0..live.len()));
            let first = chunk_of(addr);
            for c in first..first + size.div_ceil(CHUNK_SIZE) {
                owner[c] = false;
            }
            Allox::dealloc(&mut a.share(), addr, size, 1);
        }
        assert_eq!(a.total_allocs(), live.len());
    }
    assert!(a.num_sectors() <= 4);
    assert!(failures > 0, "the pool is smaller than the traffic");
    for (addr, size) in live.drain(..) {
        Allox::dealloc(&mut a.share(), addr, size, 1);
    }
    assert_eq!(a.total_allocs(), 0);
    // Everything was given back: each active sector serves a whole sector again.
    for _ in 0..a.num_sectors() {
        assert!(matches!(Allox::allocate(&mut a.share(), SECTOR_SIZE, 1), AllocStep::Ready(_)));
    }
}

/// Every request needs a sector of its own: each sector of the pool is
/// activated once at most, and no sector is entered twice.
#[test]
fn activation_publishes_each_sector_once() {
    let a = Allox::new();
    let mut os = Mapper { next: 0 };
    let mut bases = Vec::new();
    for _ in 0..8 {
        if let Some(addr) = os.serve(&a, SECTOR_SIZE) {
            bases.push(addr);
        }
    }
    assert_eq!(bases, vec![BASE, BASE + SECTOR_SIZE, BASE + 2 * SECTOR_SIZE, BASE + 3 * SECTOR_SIZE]);
    assert_eq!(a.num_sectors(), 4);
    assert_eq!(a.total_allocs(), 4);
    assert_eq!(os.next, 4);
}
