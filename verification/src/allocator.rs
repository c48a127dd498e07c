//! A lock-free allocator over a fixed pool of lazily mapped sectors.
//!
//! The words that the threads share sit in atomics, in [`Allox`]. A thread
//! works on them through a handle, [`Shared`], which is one kind of
//! [`Words`]; the other kind, [`crate::solo::SoloPool`], holds the same words
//! as plain values for one thread. The algorithms are functions of [`Sector`]
//! and [`Allox`] that take any words. Of words that other threads may change
//! their contracts state what holds of the result whatever was read. Of words
//! that are alone they state what is returned and what every word holds
//! afterwards. What a history of successful atomic steps of many threads
//! keeps true is modelled and proved in [`crate::protocol`], for the bitmap
//! of a sector, and in [`crate::activation`], for the pool.
//!
//! A compare-and-swap that loses against another thread is tried again, at
//! most `CAS_ATTEMPTS` times in one call, so that every call ends.
//!
//! This module maps no memory. Where a sector needs backing memory, the caller
//! gets told so, asks the operating system, and hands the address in.

use core::sync::atomic::AtomicU64;
use core::sync::atomic::AtomicUsize;
use core::sync::atomic::Ordering;
use vstd::prelude::*;
use crate::bitmap::chunk_address;
use crate::bitmap::chunk_index;
use crate::bitmap::chunks_for;
use crate::bitmap::chunks_needed;
use crate::bitmap::claim_run;
use crate::bitmap::first_fit_from;
use crate::bitmap::is_usable_base;
use crate::bitmap::lemma_chunk_aligned;
use crate::bitmap::release_run;
use crate::bitmap::run_mask;
use crate::bitmap::usable_base;
use crate::bitmap::CHUNK_SIZE;
use crate::bitmap::SECTOR_SIZE;
use crate::bitmap::WIDTH;
use crate::words::addable;
use crate::words::after_adding;
use crate::words::after_claim;
use crate::words::after_release;
use crate::words::after_walk;
use crate::words::claim_address;
use crate::words::claim_hit;
use crate::words::down;
use crate::words::first_spare;
use crate::words::release_hit;
use crate::words::set_sector;
use crate::words::up;
use crate::words::visit_hit;
use crate::words::visit_state;
use crate::words::visit_value;
use crate::words::visitable;
use crate::words::walk_from;
use crate::words::shaped;
use crate::words::SectorWords;
use crate::words::Visit;
use crate::words::Words;
use crate::words::WordsView;

verus! {

/// How many sectors can be active at once.
pub const ALLOX_POOL_SIZE: usize = 4;

/// How many sectors the pool holds: one more than can be active.
pub const SECTOR_POOL_SIZE: usize = 5;

/// The value of a sector's viewer count while one thread initialises it.
pub const EXCLUSIVE: usize = usize::MAX;

/// How often one call tries again after losing a compare-and-swap.
pub const CAS_ATTEMPTS: usize = 1048576;

/// Whether `size` bytes at `addr` are whole chunks' worth of room inside the
/// sector at `base`: the address is a chunk boundary of that sector and the
/// bytes end before the sector does.
pub open spec fn placed(base: usize, addr: usize, size: usize) -> bool {
    &&& usable_base(base)
    &&& base <= addr
    &&& addr + size <= base + SECTOR_SIZE
    &&& addr % CHUNK_SIZE == 0
}

/// Whether `size` bytes at `addr` are room inside some sector.
pub open spec fn placed_in_a_sector(addr: usize, size: usize) -> bool {
    exists|base: usize| placed(base, addr, size)
}

/// What [`Allox::allocate`] answers in the words `v` to a request for `size`
/// bytes: an oversized request fails, else the first active sector with room,
/// in rising order of the places, serves it at its first fit, else a new
/// sector is asked for if a place of the active array and a sector of the
/// pool are left.
pub open spec fn undisturbed_answer(v: WordsView, size: usize) -> AllocStep {
    if chunks_needed(size) > WIDTH {
        AllocStep::Failed
    } else {
        match walk_from(v, Visit::Claim { size }, 0) {
            Some(k) => AllocStep::Ready(visit_value(v, k, Visit::Claim { size })),
            None => if v.count < ALLOX_POOL_SIZE && first_spare(v, 0) is Some {
                AllocStep::NeedsSector
            } else {
                AllocStep::Failed
            },
        }
    }
}

/// The words after [`Allox::allocate`] has answered in the words `v`: where
/// it has served the request, the chunks are claimed and the count of
/// allocations is one higher, and else nothing has changed.
pub open spec fn after_allocate(v: WordsView, size: usize) -> WordsView {
    if undisturbed_answer(v, size) is Ready {
        WordsView { allocs: up(v.allocs), ..after_walk(v, Visit::Claim { size }) }
    } else {
        v
    }
}

/// The words after [`Allox::dealloc`]: the first active sector that owns the
/// address has the chunks cleared, and the count of allocations is one lower.
pub open spec fn after_dealloc(v: WordsView, addr: usize, size: usize) -> WordsView {
    WordsView { allocs: down(v.allocs), ..after_walk(v, Visit::Release { addr, size }) }
}

/// One unit of backing memory with the bitmap of its chunks, in atomic words.
#[derive(Debug)]
pub struct Sector {
    /// How many threads are working on this sector, or `EXCLUSIVE`.
    viewers: AtomicUsize,
    /// Bitmap of the chunks: a set bit is a chunk in use.
    slots: AtomicU64,
    /// First address of the backing memory, or 0 while there is none.
    base: AtomicUsize,
}

/// What [`Allox::allocate`] came to.
#[derive(Clone, Copy, Debug, PartialEq, Eq, Structural)]
pub enum AllocStep {
    /// Room was claimed in an active sector; this is its address.
    Ready(usize),
    /// No active sector has room and the pool has a sector to spare: the
    /// caller maps `SECTOR_SIZE` bytes and calls [`Allox::add_sector_for`].
    NeedsSector,
    /// The request cannot be served.
    Failed,
}

/// Why [`Allox::add_sector_for`] served nothing.
#[derive(Clone, Copy, Debug, PartialEq, Eq, Structural)]
pub enum AddSectorError {
    /// No sector took the mapping: the caller still owns it.
    NotAdopted,
    /// A sector took the mapping and keeps it, but the active array had no
    /// place left for the sector.
    NotPublished,
}

/// The words of the allocator in atomics: a pool of sectors and the array of
/// those in use.
#[derive(Debug)]
pub struct Allox {
    /// The active sectors in the order in which they were added. An entry is
    /// 0 while it is empty, else one more than the sector's place in the pool.
    sectors: [AtomicUsize; ALLOX_POOL_SIZE],
    /// How many entries of `sectors` have been handed out.
    num_sectors: AtomicUsize,
    /// Allocations made and not yet released, for diagnosis.
    total_allocs: AtomicUsize,
    /// The sectors themselves. A sector's place here never changes.
    sector_pool: [Sector; SECTOR_POOL_SIZE],
}

/// One thread's hold on the words of an [`Allox`].
#[derive(Clone, Copy, Debug)]
pub struct Shared<'a> {
    pool: &'a Allox,
}

impl Sector {
    /// A sector without backing memory.
    pub fn null() -> Self {
        Sector { viewers: AtomicUsize::new(0), slots: AtomicU64::new(0), base: AtomicUsize::new(0) }
    }

    /// The address of this sector's backing memory, which is 0 while it has
    /// none.
    pub fn dealloc(&self) -> usize {
        self.base.load(Ordering::Relaxed)
    }

    /// Gives sector `s` the backing memory at `mapped`, which the caller has
    /// just obtained, unless the sector has some already.
    ///
    /// `Ok` means that the sector now owns the mapping. `Err` means that it
    /// does not, and the caller gives the mapping back. An address that cannot
    /// be a sector's base, such as the 0 of a failed mapping, is never taken.
    /// Alone, the sector takes a usable address exactly if its base is null.
    pub fn activate<W: Words>(w: &mut W, s: usize, mapped: usize) -> (r: Result<(), ()>)
        requires
            old(w).wf(),
            s < SECTOR_POOL_SIZE,
        ensures
            final(w).wf(),
            final(w).alone() == old(w).alone(),
            !usable_base(mapped) ==> r is Err,
            old(w).alone() ==> {
                let sec = old(w)@.sectors[s as int];
                &&& r is Ok <==> (usable_base(mapped) && sec.base == 0)
                &&& final(w)@ == if r is Ok {
                    set_sector(old(w)@, s as int, SectorWords { base: mapped, ..sec })
                } else {
                    old(w)@
                }
            },
    {
        if !is_usable_base(mapped) {
            return Err(());
        }
        if w.base(s) != 0 {
            return Err(());
        }
        if w.swap_base(s, 0, mapped) {
            Ok(())
        } else {
            Err(())
        }
    }

    /// Claims room for `size` bytes in sector `s` and returns its address.
    ///
    /// The bitmap is searched from chunk 0 upwards. Where the run is free in
    /// the value just read, a compare-and-swap tries to set its bits; when that
    /// loses against another thread, the bitmap is read again and the same
    /// offset is tried again before the search moves on. Alone, the room is at
    /// the first fit, and there is none only if the sector has no usable
    /// memory or no fit.
    pub fn request_mem<W: Words>(w: &mut W, s: usize, size: usize) -> (r: Result<usize, ()>)
        requires
            old(w).wf(),
            s < SECTOR_POOL_SIZE,
            size > 0,
        ensures
            final(w).wf(),
            final(w).alone() == old(w).alone(),
            size > SECTOR_SIZE ==> r is Err,
            r matches Ok(addr) ==> placed_in_a_sector(addr, size),
            old(w).alone() ==> {
                let sec = old(w)@.sectors[s as int];
                match claim_hit(sec, size) {
                    Some(off) => {
                        &&& r matches Ok(addr)
                        &&& addr == claim_address(sec, off)
                        &&& final(w)@ == set_sector(old(w)@, s as int, after_claim(sec, size, off))
                    },
                    None => r is Err && final(w)@ == old(w)@,
                }
            },
    {
        let n = chunks_for(size);
        if n > WIDTH {
            return Err(());
        }
        let base = w.base(s);
        if !is_usable_base(base) {
            return Err(());
        }
        let mut off: usize = 0;
        let mut attempts: usize = CAS_ATTEMPTS;
        while attempts > 0
            invariant
                w.wf(),
                s < SECTOR_POOL_SIZE,
                w.alone() == old(w).alone(),
                1 <= n <= WIDTH,
                n == chunks_needed(size),
                size <= SECTOR_SIZE,
                usable_base(base),
                w.alone() ==> {
                    &&& w@ == old(w)@
                    &&& base == old(w)@.sectors[s as int].base
                    &&& off == 0
                    &&& attempts == CAS_ATTEMPTS
                },
            decreases attempts,
        {
            let map = w.slots(s);
            match first_fit_from(map, n, off) {
                None => {
                    return Err(());
                },
                Some(at) => {
                    off = at;
                    let claimed = claim_run(map, n, at);
                    if w.swap_slots(s, map, claimed) {
                        let addr = chunk_address(base, at);
                        assert(placed(base, addr, size));
                        return Ok(addr);
                    }
                },
            }
            attempts = attempts - 1;
        }
        Err(())
    }

    /// Releases the room for `size` bytes at `addr`, if `addr` lies in sector
    /// `s`.
    ///
    /// `Err` says that the address is not this sector's, or that the bits could
    /// not be cleared; the caller goes on to the next sector. Alone, the
    /// chunks are cleared exactly if the sector owns the address and the
    /// bytes fit into a sector.
    pub fn release_mem<W: Words>(w: &mut W, s: usize, addr: usize, size: usize) -> (r: Result<
        (),
        (),
    >)
        requires
            old(w).wf(),
            s < SECTOR_POOL_SIZE,
        ensures
            final(w).wf(),
            final(w).alone() == old(w).alone(),
            size > SECTOR_SIZE ==> r is Err,
            old(w).alone() ==> {
                let sec = old(w)@.sectors[s as int];
                match release_hit(sec, addr, size) {
                    Some(idx) => {
                        &&& r is Ok
                        &&& final(w)@ == set_sector(
                            old(w)@,
                            s as int,
                            after_release(sec, size, idx),
                        )
                    },
                    None => r is Err && final(w)@ == old(w)@,
                }
            },
    {
        let base = w.base(s);
        let idx = match chunk_index(base, addr) {
            Some(i) => i,
            None => {
                return Err(());
            },
        };
        let n = chunks_for(size);
        if n > WIDTH {
            return Err(());
        }
        let mut attempts: usize = CAS_ATTEMPTS;
        while attempts > 0
            invariant
                w.wf(),
                s < SECTOR_POOL_SIZE,
                w.alone() == old(w).alone(),
                n <= WIDTH,
                n == chunks_needed(size),
                idx < WIDTH,
                size <= SECTOR_SIZE,
                w.alone() ==> {
                    &&& w@ == old(w)@
                    &&& release_hit(old(w)@.sectors[s as int], addr, size) == Some(idx as int)
                    &&& attempts == CAS_ATTEMPTS
                },
            decreases attempts,
        {
            let map = w.slots(s);
            let released = release_run(map, n, idx);
            if w.swap_slots(s, map, released) {
                return Ok(());
            }
            attempts = attempts - 1;
        }
        Err(())
    }
}

impl Allox {
    /// An allocator with no active sector and no backing memory.
    pub fn new() -> Self {
        Allox {
            sectors: [
                AtomicUsize::new(0),
                AtomicUsize::new(0),
                AtomicUsize::new(0),
                AtomicUsize::new(0),
            ],
            num_sectors: AtomicUsize::new(0),
            total_allocs: AtomicUsize::new(0),
            sector_pool: [
                Sector::null(),
                Sector::null(),
                Sector::null(),
                Sector::null(),
                Sector::null(),
            ],
        }
    }

    /// A hold on these words for one thread.
    pub fn share(&self) -> (w: Shared<'_>)
        ensures
            w.wf(),
            !w.alone(),
    {
        Shared { pool: self }
    }

    /// The number of allocations made and not yet released.
    pub fn total_allocs(&self) -> usize {
        self.total_allocs.load(Ordering::Relaxed)
    }

    /// The number of places of the active array that have been handed out.
    pub fn num_sectors(&self) -> usize {
        self.num_sectors.load(Ordering::Relaxed)
    }

    /// Visits the active sectors in the rising order of their places, and
    /// returns what the first visit that finds something gives: the address
    /// of a claim, or the place of a release.
    ///
    /// A sector is visited only while this thread is counted among its
    /// viewers: the count is raised by a compare-and-swap from the value just
    /// read, which must be below `EXCLUSIVE`, and lowered again when the
    /// visit is over, whatever it found. A sector whose count cannot be
    /// raised is passed over. Alone, every viewer count ends as it began.
    fn iter_sectors<W: Words>(w: &mut W, visit: Visit) -> (r: Option<usize>)
        requires
            old(w).wf(),
            visit matches Visit::Claim { size } ==> size > 0,
        ensures
            final(w).wf(),
            final(w).alone() == old(w).alone(),
            visit matches Visit::Claim { size } ==> (size > SECTOR_SIZE ==> r is None),
            visit matches Visit::Claim { size } ==> (r matches Some(addr) ==> placed_in_a_sector(
                addr,
                size,
            )),
            old(w).alone() ==> {
                &&& final(w)@ == after_walk(old(w)@, visit)
                &&& match walk_from(old(w)@, visit, 0) {
                    Some(k) => r == Some(visit_value(old(w)@, k, visit)),
                    None => r is None,
                }
            },
    {
        proof {
            w.lemma_shaped();
        }
        let count = w.count();
        let mut i: usize = 0;
        while i < count && i < ALLOX_POOL_SIZE
            invariant
                w.wf(),
                w.alone() == old(w).alone(),
                visit matches Visit::Claim { size } ==> size > 0,
                w.alone() ==> {
                    &&& shaped(w@)
                    &&& w@ == old(w)@
                    &&& count == w@.count
                    &&& walk_from(w@, visit, 0) == walk_from(w@, visit, i as int)
                },
            decreases ALLOX_POOL_SIZE - i,
        {
            let ghost v = w@;
            let entry = w.entry(i);
            if 0 < entry && entry <= SECTOR_POOL_SIZE {
                let s = entry - 1;
                let seen = w.viewers(s);
                if seen < EXCLUSIVE {
                    if w.swap_viewers(s, seen, seen + 1) {
                        let ghost sec = v.sectors[s as int];
                        let found = match visit {
                            Visit::Claim { size } => match Sector::request_mem(w, s, size) {
                                Ok(addr) => Some(addr),
                                Err(_) => None,
                            },
                            Visit::Release { addr, size } => match Sector::release_mem(
                                w,
                                s,
                                addr,
                                size,
                            ) {
                                Ok(_) => Some(i),
                                Err(_) => None,
                            },
                        };
                        w.drop_viewer(s);
                        proof {
                            if w.alone() {
                                assert(visitable(v, i as int));
                                match visit_hit(v, i as int, visit) {
                                    Some(hit) => {
                                        assert(w@.sectors =~= visit_state(
                                            v,
                                            i as int,
                                            visit,
                                        ).sectors);
                                        assert(w@ == visit_state(v, i as int, visit));
                                    },
                                    None => {
                                        assert(w@.sectors =~= v.sectors);
                                        assert(w@ == v);
                                    },
                                }
                            }
                        }
                        if found.is_some() {
                            return found;
                        }
                    }
                }
            }
            i = i + 1;
        }
        None
    }

    /// Whether some sector of the pool is neither mapped nor being
    /// initialised, as far as one look at each can tell.
    fn has_spare_sector<W: Words>(w: &mut W) -> (r: bool)
        requires
            old(w).wf(),
        ensures
            final(w).wf(),
            final(w).alone() == old(w).alone(),
            old(w).alone() ==> final(w)@ == old(w)@ && r == (first_spare(old(w)@, 0) is Some),
    {
        let mut i: usize = 0;
        while i < SECTOR_POOL_SIZE
            invariant
                i <= SECTOR_POOL_SIZE,
                w.wf(),
                w.alone() == old(w).alone(),
                w.alone() ==> w@ == old(w)@ && first_spare(w@, 0) == first_spare(w@, i as int),
            decreases SECTOR_POOL_SIZE - i,
        {
            if w.base(i) == 0 && w.viewers(i) == 0 {
                return true;
            }
            i = i + 1;
        }
        false
    }

    /// Serves a request for `size` bytes from the active sectors: the first
    /// sector with room wins.
    ///
    /// A request for more than one sector holds fails whatever the state of the
    /// pool. Where no active sector has room, the answer is `NeedsSector` if the
    /// active array and the pool both have a place left, else `Failed`. An
    /// address that is handed out is a chunk boundary, so it is aligned to
    /// every `align` that divides the chunk size; a stronger `align` is not
    /// honoured. Alone, the answer is `undisturbed_answer`.
    pub fn allocate<W: Words>(w: &mut W, size: usize, align: usize) -> (step: AllocStep)
        requires
            old(w).wf(),
            size > 0,
        ensures
            final(w).wf(),
            final(w).alone() == old(w).alone(),
            size > SECTOR_SIZE ==> step == AllocStep::Failed,
            step matches AllocStep::Ready(addr) ==> {
                &&& addr != 0
                &&& placed_in_a_sector(addr, size)
                &&& (align > 0 && CHUNK_SIZE % align == 0 ==> addr % align == 0)
            },
            old(w).alone() ==> {
                &&& step == undisturbed_answer(old(w)@, size)
                &&& final(w)@ == after_allocate(old(w)@, size)
            },
    {
        if chunks_for(size) > WIDTH {
            return AllocStep::Failed;
        }
        match Self::iter_sectors(w, Visit::Claim { size }) {
            Some(addr) => {
                w.add_alloc();
                proof {
                    lemma_chunk_aligned(addr, align);
                }
                AllocStep::Ready(addr)
            },
            None => {
                if w.count() < ALLOX_POOL_SIZE && Self::has_spare_sector(w) {
                    AllocStep::NeedsSector
                } else {
                    AllocStep::Failed
                }
            },
        }
    }

    /// Activates a sector of the pool on the mapping at `mapped`, claims room
    /// for `size` bytes in it and adds it to the active sectors.
    ///
    /// The sector is the first one whose base is null and whose viewer count
    /// this thread could swap from 0 to `EXCLUSIVE`, which keeps every other
    /// thread from initialising that sector. It takes the mapping, the request
    /// gets its first chunks, the viewer count goes back to 0, and a
    /// compare-and-swap on the number of active sectors reserves the place
    /// where the sector is then entered. No second sector is tried where any
    /// of this fails.
    ///
    /// The room, when there is any, starts at `mapped`. On `NotAdopted` the
    /// caller gives the mapping back to the operating system; on
    /// `NotPublished` the sector keeps it. Alone, the sector is added exactly
    /// if the words are `addable`, and else nothing changes.
    pub fn add_sector_for<W: Words>(w: &mut W, mapped: usize, size: usize) -> (r: Result<
        usize,
        AddSectorError,
    >)
        requires
            old(w).wf(),
            size > 0,
        ensures
            final(w).wf(),
            final(w).alone() == old(w).alone(),
            r matches Ok(addr) ==> addr == mapped && placed(mapped, addr, size),
            size > SECTOR_SIZE || !usable_base(mapped) ==> r == Err::<usize, AddSectorError>(
                AddSectorError::NotAdopted,
            ),
            old(w).alone() ==> {
                if addable(old(w)@, mapped, size) {
                    r == Ok::<usize, AddSectorError>(mapped) && final(w)@ == after_adding(
                        old(w)@,
                        mapped,
                        size,
                    )
                } else {
                    r == Err::<usize, AddSectorError>(AddSectorError::NotAdopted) && final(w)@
                        == old(w)@
                }
            },
    {
        proof {
            w.lemma_shaped();
        }
        let n = chunks_for(size);
        if n > WIDTH || !is_usable_base(mapped) {
            return Err(AddSectorError::NotAdopted);
        }
        if w.count() >= ALLOX_POOL_SIZE {
            return Err(AddSectorError::NotAdopted);
        }
        let mut found: Option<usize> = None;
        let mut i: usize = 0;
        while i < SECTOR_POOL_SIZE && found.is_none()
            invariant
                i <= SECTOR_POOL_SIZE,
                w.wf(),
                w.alone() == old(w).alone(),
                found matches Some(at) ==> at < SECTOR_POOL_SIZE,
                w.alone() ==> match found {
                    Some(at) => {
                        &&& first_spare(old(w)@, 0) == Some(at as int)
                        &&& old(w)@.sectors[at as int].base == 0
                        &&& w@ == set_sector(
                            old(w)@,
                            at as int,
                            SectorWords { viewers: EXCLUSIVE, ..old(w)@.sectors[at as int] },
                        )
                    },
                    None => w@ == old(w)@ && first_spare(w@, 0) == first_spare(w@, i as int),
                },
            decreases SECTOR_POOL_SIZE - i,
        {
            if w.base(i) == 0 {
                if w.swap_viewers(i, 0, EXCLUSIVE) {
                    found = Some(i);
                }
            }
            i = i + 1;
        }
        let at = match found {
            Some(at) => at,
            None => {
                return Err(AddSectorError::NotAdopted);
            },
        };
        if Sector::activate(w, at, mapped).is_err() {
            w.set_viewers(at, 0);
            return Err(AddSectorError::NotAdopted);
        }
        w.set_slots(at, run_mask(n, 0));
        w.set_viewers(at, 0);
        let count = w.count();
        if count < ALLOX_POOL_SIZE {
            if w.swap_count(count, count + 1) {
                w.set_entry(count, at + 1);
                w.add_alloc();
                proof {
                    if w.alone() {
                        assert(w@.sectors =~= after_adding(old(w)@, mapped, size).sectors);
                        assert(w@ == after_adding(old(w)@, mapped, size));
                    }
                }
                return Ok(mapped);
            }
        }
        Err(AddSectorError::NotPublished)
    }

    /// Releases the room for `size` bytes at `addr`: the active sectors are
    /// asked in order until one owns the address and has cleared its chunks.
    /// An address that no sector owns is passed over in silence, and the
    /// count of allocations goes down in every case.
    pub fn dealloc<W: Words>(w: &mut W, addr: usize, size: usize, align: usize)
        requires
            old(w).wf(),
        ensures
            final(w).wf(),
            final(w).alone() == old(w).alone(),
            old(w).alone() ==> final(w)@ == after_dealloc(old(w)@, addr, size),
    {
        let _ = Self::iter_sectors(w, Visit::Release { addr, size });
        w.sub_alloc();
    }
}

impl<'a> Words for Shared<'a> {
    open spec fn alone(&self) -> bool {
        false
    }

    open spec fn view(&self) -> WordsView {
        WordsView { sectors: Seq::empty(), entries: Seq::empty(), count: 0, allocs: 0 }
    }

    open spec fn wf(&self) -> bool {
        true
    }

    proof fn lemma_shaped(&self) {
    }

    fn base(&mut self, s: usize) -> (r: usize) {
        self.pool.sector_pool[s].base.load(Ordering::Acquire)
    }

    fn swap_base(&mut self, s: usize, current: usize, new: usize) -> (won: bool) {
        self.pool.sector_pool[s].base.compare_exchange(
            current,
            new,
            Ordering::AcqRel,
            Ordering::Relaxed,
        ).is_ok()
    }

    fn slots(&mut self, s: usize) -> (r: u64) {
        self.pool.sector_pool[s].slots.load(Ordering::Acquire)
    }

    fn swap_slots(&mut self, s: usize, current: u64, new: u64) -> (won: bool) {
        self.pool.sector_pool[s].slots.compare_exchange(
            current,
            new,
            Ordering::AcqRel,
            Ordering::Relaxed,
        ).is_ok()
    }

    fn set_slots(&mut self, s: usize, new: u64) {
        self.pool.sector_pool[s].slots.store(new, Ordering::Release);
    }

    fn viewers(&mut self, s: usize) -> (r: usize) {
        self.pool.sector_pool[s].viewers.load(Ordering::Acquire)
    }

    fn swap_viewers(&mut self, s: usize, current: usize, new: usize) -> (won: bool) {
        self.pool.sector_pool[s].viewers.compare_exchange(
            current,
            new,
            Ordering::AcqRel,
            Ordering::Relaxed,
        ).is_ok()
    }

    fn set_viewers(&mut self, s: usize, new: usize) {
        self.pool.sector_pool[s].viewers.store(new, Ordering::Release);
    }

    fn drop_viewer(&mut self, s: usize) {
        self.pool.sector_pool[s].viewers.fetch_sub(1, Ordering::Release);
    }

    fn count(&mut self) -> (r: usize) {
        self.pool.num_sectors.load(Ordering::Acquire)
    }

    fn swap_count(&mut self, current: usize, new: usize) -> (won: bool) {
        self.pool.num_sectors.compare_exchange(
            current,
            new,
            Ordering::AcqRel,
            Ordering::Relaxed,
        ).is_ok()
    }

    fn entry(&mut self, k: usize) -> (r: usize) {
        self.pool.sectors[k].load(Ordering::Acquire)
    }

    fn set_entry(&mut self, k: usize, new: usize) {
        self.pool.sectors[k].store(new, Ordering::Release);
    }

    fn allocs(&mut self) -> (r: usize) {
        self.pool.total_allocs.load(Ordering::Relaxed)
    }

    fn add_alloc(&mut self) {
        self.pool.total_allocs.fetch_add(1, Ordering::Relaxed);
    }

    fn sub_alloc(&mut self) {
        self.pool.total_allocs.fetch_sub(1, Ordering::Relaxed);
    }
}

/// The counter of an allocator that maps every allocation by itself.
#[derive(Debug)]
pub struct SimpleAlloc(AtomicUsize);

impl SimpleAlloc {
    /// A counter at 0.
    pub fn new() -> Self {
        SimpleAlloc(AtomicUsize::new(0))
    }

    /// Counts the allocation at `addr`, unless `addr` is the 0 of a mapping
    /// that failed, and hands `addr` back.
    pub fn allocated(&self, addr: usize) -> (r: usize)
        ensures
            r == addr,
    {
        if addr != 0 {
            self.0.fetch_add(1, Ordering::Relaxed);
        }
        addr
    }

    /// The number of allocations counted so far.
    pub fn count(&self) -> usize {
        self.0.load(Ordering::Relaxed)
    }
}

} // verus!
