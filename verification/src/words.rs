//! The words that the threads of an allocator share, and what the steps of
//! the allocator do to them.
//!
//! The allocator reads and writes its words through the trait [`Words`], one
//! method for each atomic access. The trait has two kinds of words. Words that
//! are `alone` belong to one thread: every access finds what the last one
//! left, and the contracts say what is read and what is written. Words that
//! are not are open to other threads between any two accesses, and the
//! contracts promise nothing of them. The algorithms are written once over the
//! trait, so what is proved of them for words that are alone is proved of the
//! code that runs on the shared ones.

use vstd::prelude::*;
use crate::allocator::ALLOX_POOL_SIZE;
use crate::allocator::EXCLUSIVE;
use crate::allocator::SECTOR_POOL_SIZE;
use crate::bitmap::chunks_needed;
use crate::bitmap::claimed_word;
use crate::bitmap::first_fit;
use crate::bitmap::mask_of;
use crate::bitmap::owning_chunk;
use crate::bitmap::released_word;
use crate::bitmap::usable_base;
use crate::bitmap::CHUNK_SIZE;
use crate::bitmap::WIDTH;

verus! {

/// The three words of one sector.
#[derive(Clone, Copy, Debug, PartialEq, Eq, Structural)]
pub struct SectorWords {
    /// How many threads are working on the sector, or `EXCLUSIVE`.
    pub viewers: usize,
    /// Bitmap of the chunks: a set bit is a chunk in use.
    pub slots: u64,
    /// First address of the backing memory, or 0 while there is none.
    pub base: usize,
}

/// All words of an allocator at one instant.
pub struct WordsView {
    /// The words of each sector of the pool.
    pub sectors: Seq<SectorWords>,
    /// The active array: 0, or one more than a sector's place in the pool.
    pub entries: Seq<usize>,
    /// The number of places of the active array that are handed out.
    pub count: usize,
    /// Allocations made and not yet released, in a word that wraps.
    pub allocs: usize,
}

/// What [`Allox::iter_sectors`](crate::allocator::Allox) does at each sector.
#[derive(Clone, Copy, Debug, PartialEq, Eq, Structural)]
pub enum Visit {
    /// Claim room for `size` bytes.
    Claim { size: usize },
    /// Release the room for `size` bytes at `addr`.
    Release { addr: usize, size: usize },
}

/// The pool has `SECTOR_POOL_SIZE` sectors and the active array
/// `ALLOX_POOL_SIZE` places.
pub open spec fn shaped(v: WordsView) -> bool {
    v.sectors.len() == SECTOR_POOL_SIZE && v.entries.len() == ALLOX_POOL_SIZE
}

/// `v` with the words `sec` for sector `s`.
pub open spec fn set_sector(v: WordsView, s: int, sec: SectorWords) -> WordsView {
    WordsView { sectors: v.sectors.update(s, sec), ..v }
}

/// One more than `n`, in a word that wraps.
pub open spec fn up(n: usize) -> usize {
    if n == usize::MAX {
        0
    } else {
        (n + 1) as usize
    }
}

/// One less than `n`, in a word that wraps.
pub open spec fn down(n: usize) -> usize {
    if n == 0 {
        usize::MAX
    } else {
        (n - 1) as usize
    }
}

/// The offset at which a sector with the words `sec` serves `size` bytes: the
/// first fit of the chunks that the bytes need, if the sector has usable
/// memory and the bytes fit into a sector at all.
pub open spec fn claim_hit(sec: SectorWords, size: usize) -> Option<int> {
    if chunks_needed(size) > WIDTH || !usable_base(sec.base) {
        None
    } else {
        first_fit(sec.slots, chunks_needed(size) as int, 0)
    }
}

/// The address of chunk `off` of the sector with the words `sec`.
pub open spec fn claim_address(sec: SectorWords, off: int) -> usize {
    (sec.base + off * CHUNK_SIZE) as usize
}

/// The words of a sector after the chunks for `size` bytes are claimed at
/// `off`.
pub open spec fn after_claim(sec: SectorWords, size: usize, off: int) -> SectorWords {
    SectorWords { slots: claimed_word(sec.slots, chunks_needed(size) as usize, off as usize), ..sec }
}

/// The chunk at which a sector with the words `sec` releases `size` bytes at
/// `addr`: the chunk that holds the address, if the sector owns it and the
/// bytes fit into a sector at all.
pub open spec fn release_hit(sec: SectorWords, addr: usize, size: usize) -> Option<int> {
    if chunks_needed(size) > WIDTH {
        None
    } else {
        owning_chunk(sec.base, addr)
    }
}

/// The words of a sector after the chunks for `size` bytes are released from
/// chunk `idx` on.
pub open spec fn after_release(sec: SectorWords, size: usize, idx: int) -> SectorWords {
    SectorWords { slots: released_word(sec.slots, chunks_needed(size) as usize, idx as usize), ..sec }
}

/// Whether place `k` of the active array is handed out and holds a sector
/// that admits a viewer.
pub open spec fn visitable(v: WordsView, k: int) -> bool {
    &&& 0 <= k < v.count
    &&& k < ALLOX_POOL_SIZE
    &&& 0 < v.entries[k] <= SECTOR_POOL_SIZE
    &&& v.sectors[v.entries[k] - 1].viewers < EXCLUSIVE
}

/// What the visit finds in the sector at place `k`: the offset of a claim or
/// the chunk of a release.
pub open spec fn visit_hit(v: WordsView, k: int, visit: Visit) -> Option<int> {
    let sec = v.sectors[v.entries[k] - 1];
    match visit {
        Visit::Claim { size } => claim_hit(sec, size),
        Visit::Release { addr, size } => release_hit(sec, addr, size),
    }
}

/// The first place from `k` on, in rising order, whose sector admits a
/// viewer and gives the visit something.
pub open spec fn walk_from(v: WordsView, visit: Visit, k: int) -> Option<int>
    decreases ALLOX_POOL_SIZE - k,
{
    if k < 0 || k >= ALLOX_POOL_SIZE || k >= v.count {
        None
    } else if visitable(v, k) && visit_hit(v, k, visit) is Some {
        Some(k)
    } else {
        walk_from(v, visit, k + 1)
    }
}

/// What the walk returns when the visit finds something at place `k`: the
/// address of a claim, the place of a release.
pub open spec fn visit_value(v: WordsView, k: int, visit: Visit) -> usize {
    let sec = v.sectors[v.entries[k] - 1];
    match visit {
        Visit::Claim { size } => claim_address(sec, visit_hit(v, k, visit).unwrap()),
        Visit::Release { addr, size } => k as usize,
    }
}

/// The words after the visit has found something at place `k`: the bitmap of
/// that sector has the chunks set or cleared, and nothing else has changed.
pub open spec fn visit_state(v: WordsView, k: int, visit: Visit) -> WordsView {
    let s = v.entries[k] - 1;
    let sec = v.sectors[s];
    let hit = visit_hit(v, k, visit).unwrap();
    match visit {
        Visit::Claim { size } => set_sector(v, s, after_claim(sec, size, hit)),
        Visit::Release { addr, size } => set_sector(v, s, after_release(sec, size, hit)),
    }
}

/// The words after a walk: those after the visit at the first place that
/// gives something, or the same words if no place does.
pub open spec fn after_walk(v: WordsView, visit: Visit) -> WordsView {
    match walk_from(v, visit, 0) {
        Some(k) => visit_state(v, k, visit),
        None => v,
    }
}

/// The first sector of the pool from `s` on that has no memory and no viewer.
pub open spec fn first_spare(v: WordsView, s: int) -> Option<int>
    decreases SECTOR_POOL_SIZE - s,
{
    if s < 0 || s >= SECTOR_POOL_SIZE {
        None
    } else if v.sectors[s].base == 0 && v.sectors[s].viewers == 0 {
        Some(s)
    } else {
        first_spare(v, s + 1)
    }
}

/// The words after a sector is added on the mapping at `mapped` with room for
/// `size` bytes claimed: the first spare sector has the mapping and the first
/// chunks set, it stands at the next place of the active array, and the
/// counts are one higher.
pub open spec fn after_adding(v: WordsView, mapped: usize, size: usize) -> WordsView {
    let at = first_spare(v, 0).unwrap();
    WordsView {
        sectors: v.sectors.update(
            at,
            SectorWords { viewers: 0, slots: mask_of(chunks_needed(size) as usize, 0), base: mapped },
        ),
        entries: v.entries.update(v.count as int, (at + 1) as usize),
        count: (v.count + 1) as usize,
        allocs: up(v.allocs),
    }
}

/// Whether a sector can be added on the mapping at `mapped` for `size` bytes:
/// the bytes fit into a sector, the address can be a base, a place of the
/// active array is left, and a sector of the pool is spare.
pub open spec fn addable(v: WordsView, mapped: usize, size: usize) -> bool {
    &&& chunks_needed(size) <= WIDTH
    &&& usable_base(mapped)
    &&& v.count < ALLOX_POOL_SIZE
    &&& first_spare(v, 0) is Some
}

/// Whether the walk finds something at place `k`.
pub open spec fn found_at(v: WordsView, visit: Visit, k: int) -> bool {
    visitable(v, k) && visit_hit(v, k, visit) is Some
}

/// What a walk finds: the place that it returns is the first from `k` on that
/// gives the visit something, and where it returns none, no place from `k` on
/// gives anything.
pub proof fn lemma_walk(v: WordsView, visit: Visit, k: int)
    requires
        0 <= k,
    ensures
        match walk_from(v, visit, k) {
            Some(p) => {
                &&& k <= p < ALLOX_POOL_SIZE
                &&& found_at(v, visit, p)
                &&& forall|j: int| k <= j < p ==> !found_at(v, visit, j)
            },
            None => forall|j: int| k <= j ==> !found_at(v, visit, j),
        },
    decreases ALLOX_POOL_SIZE - k,
{
    if k < ALLOX_POOL_SIZE && k < v.count && !found_at(v, visit, k) {
        lemma_walk(v, visit, k + 1);
    }
}

/// The first place from `k` on that gives the visit something is what the
/// walk from `k` returns.
pub proof fn lemma_walk_is(v: WordsView, visit: Visit, k: int, p: int)
    requires
        0 <= k <= p,
        found_at(v, visit, p),
        forall|j: int| k <= j < p ==> !found_at(v, visit, j),
    ensures
        walk_from(v, visit, k) == Some(p),
    decreases p - k,
{
    if k < p {
        assert(!found_at(v, visit, k));
        lemma_walk_is(v, visit, k + 1, p);
    }
}

/// What the search for a spare sector finds: the sector that it returns is
/// the first from `s` on without memory and without a viewer, and where it
/// returns none, no sector from `s` on is spare.
pub proof fn lemma_first_spare(v: WordsView, s: int)
    requires
        0 <= s,
    ensures
        match first_spare(v, s) {
            Some(at) => {
                &&& s <= at < SECTOR_POOL_SIZE
                &&& v.sectors[at].base == 0 && v.sectors[at].viewers == 0
                &&& forall|j: int|
                    s <= j < at ==> !(v.sectors[j].base == 0 && v.sectors[j].viewers == 0)
            },
            None => forall|j: int|
                s <= j < SECTOR_POOL_SIZE ==> !(v.sectors[j].base == 0 && v.sectors[j].viewers
                    == 0),
        },
    decreases SECTOR_POOL_SIZE - s,
{
    if s < SECTOR_POOL_SIZE && !(v.sectors[s].base == 0 && v.sectors[s].viewers == 0) {
        lemma_first_spare(v, s + 1);
    }
}

/// The words of an allocator, read and written one atomic access at a time.
pub trait Words {
    /// Whether no other thread reads or writes these words.
    spec fn alone(&self) -> bool;

    /// What the words hold. It means something only while the words are
    /// alone.
    spec fn view(&self) -> WordsView;

    /// What the type asks of its values.
    spec fn wf(&self) -> bool;

    /// Words that are alone have the shape of a pool.
    proof fn lemma_shaped(&self)
        requires
            self.wf(),
        ensures
            self.alone() ==> shaped(self@),
    ;

    /// Reads the base of sector `s`.
    fn base(&mut self, s: usize) -> (r: usize)
        requires
            old(self).wf(),
            s < SECTOR_POOL_SIZE,
        ensures
            final(self).wf(),
            final(self).alone() == old(self).alone(),
            old(self).alone() ==> final(self)@ == old(self)@ && r == old(self)@.sectors[s as int].base,
    ;

    /// Writes `new` as the base of sector `s` if the base is `current`, and
    /// says whether it did.
    fn swap_base(&mut self, s: usize, current: usize, new: usize) -> (won: bool)
        requires
            old(self).wf(),
            s < SECTOR_POOL_SIZE,
        ensures
            final(self).wf(),
            final(self).alone() == old(self).alone(),
            old(self).alone() ==> {
                let sec = old(self)@.sectors[s as int];
                &&& won == (sec.base == current)
                &&& final(self)@ == if won {
                    set_sector(old(self)@, s as int, SectorWords { base: new, ..sec })
                } else {
                    old(self)@
                }
            },
    ;

    /// Reads the bitmap of sector `s`.
    fn slots(&mut self, s: usize) -> (r: u64)
        requires
            old(self).wf(),
            s < SECTOR_POOL_SIZE,
        ensures
            final(self).wf(),
            final(self).alone() == old(self).alone(),
            old(self).alone() ==> final(self)@ == old(self)@ && r == old(self)@.sectors[s as int].slots,
    ;

    /// Writes `new` as the bitmap of sector `s` if the bitmap is `current`,
    /// and says whether it did.
    fn swap_slots(&mut self, s: usize, current: u64, new: u64) -> (won: bool)
        requires
            old(self).wf(),
            s < SECTOR_POOL_SIZE,
        ensures
            final(self).wf(),
            final(self).alone() == old(self).alone(),
            old(self).alone() ==> {
                let sec = old(self)@.sectors[s as int];
                &&& won == (sec.slots == current)
                &&& final(self)@ == if won {
                    set_sector(old(self)@, s as int, SectorWords { slots: new, ..sec })
                } else {
                    old(self)@
                }
            },
    ;

    /// Writes `new` as the bitmap of sector `s`.
    fn set_slots(&mut self, s: usize, new: u64)
        requires
            old(self).wf(),
            s < SECTOR_POOL_SIZE,
        ensures
            final(self).wf(),
            final(self).alone() == old(self).alone(),
            old(self).alone() ==> final(self)@ == set_sector(
                old(self)@,
                s as int,
                SectorWords { slots: new, ..old(self)@.sectors[s as int] },
            ),
    ;

    /// Reads the viewer count of sector `s`.
    fn viewers(&mut self, s: usize) -> (r: usize)
        requires
            old(self).wf(),
            s < SECTOR_POOL_SIZE,
        ensures
            final(self).wf(),
            final(self).alone() == old(self).alone(),
            old(self).alone() ==> final(self)@ == old(self)@ && r == old(self)@.sectors[s as int].viewers,
    ;

    /// Writes `new` as the viewer count of sector `s` if the count is
    /// `current`, and says whether it did.
    fn swap_viewers(&mut self, s: usize, current: usize, new: usize) -> (won: bool)
        requires
            old(self).wf(),
            s < SECTOR_POOL_SIZE,
        ensures
            final(self).wf(),
            final(self).alone() == old(self).alone(),
            old(self).alone() ==> {
                let sec = old(self)@.sectors[s as int];
                &&& won == (sec.viewers == current)
                &&& final(self)@ == if won {
                    set_sector(old(self)@, s as int, SectorWords { viewers: new, ..sec })
                } else {
                    old(self)@
                }
            },
    ;

    /// Writes `new` as the viewer count of sector `s`.
    fn set_viewers(&mut self, s: usize, new: usize)
        requires
            old(self).wf(),
            s < SECTOR_POOL_SIZE,
        ensures
            final(self).wf(),
            final(self).alone() == old(self).alone(),
            old(self).alone() ==> final(self)@ == set_sector(
                old(self)@,
                s as int,
                SectorWords { viewers: new, ..old(self)@.sectors[s as int] },
            ),
    ;

    /// Lowers the viewer count of sector `s` by one.
    fn drop_viewer(&mut self, s: usize)
        requires
            old(self).wf(),
            s < SECTOR_POOL_SIZE,
        ensures
            final(self).wf(),
            final(self).alone() == old(self).alone(),
            old(self).alone() ==> final(self)@ == set_sector(
                old(self)@,
                s as int,
                SectorWords {
                    viewers: down(old(self)@.sectors[s as int].viewers),
                    ..old(self)@.sectors[s as int]
                },
            ),
    ;

    /// Reads the number of places of the active array that are handed out.
    fn count(&mut self) -> (r: usize)
        requires
            old(self).wf(),
        ensures
            final(self).wf(),
            final(self).alone() == old(self).alone(),
            old(self).alone() ==> final(self)@ == old(self)@ && r == old(self)@.count,
    ;

    /// Writes `new` as that number if the number is `current`, and says
    /// whether it did.
    fn swap_count(&mut self, current: usize, new: usize) -> (won: bool)
        requires
            old(self).wf(),
        ensures
            final(self).wf(),
            final(self).alone() == old(self).alone(),
            old(self).alone() ==> {
                &&& won == (old(self)@.count == current)
                &&& final(self)@ == if won {
                    WordsView { count: new, ..old(self)@ }
                } else {
                    old(self)@
                }
            },
    ;

    /// Reads place `k` of the active array.
    fn entry(&mut self, k: usize) -> (r: usize)
        requires
            old(self).wf(),
            k < ALLOX_POOL_SIZE,
        ensures
            final(self).wf(),
            final(self).alone() == old(self).alone(),
            old(self).alone() ==> final(self)@ == old(self)@ && r == old(self)@.entries[k as int],
    ;

    /// Writes `new` at place `k` of the active array.
    fn set_entry(&mut self, k: usize, new: usize)
        requires
            old(self).wf(),
            k < ALLOX_POOL_SIZE,
        ensures
            final(self).wf(),
            final(self).alone() == old(self).alone(),
            old(self).alone() ==> final(self)@ == (WordsView {
                entries: old(self)@.entries.update(k as int, new),
                ..old(self)@
            }),
    ;

    /// Reads the count of allocations.
    fn allocs(&mut self) -> (r: usize)
        requires
            old(self).wf(),
        ensures
            final(self).wf(),
            final(self).alone() == old(self).alone(),
            old(self).alone() ==> final(self)@ == old(self)@ && r == old(self)@.allocs,
    ;

    /// Raises the count of allocations by one.
    fn add_alloc(&mut self)
        requires
            old(self).wf(),
        ensures
            final(self).wf(),
            final(self).alone() == old(self).alone(),
            old(self).alone() ==> final(self)@ == (WordsView {
                allocs: up(old(self)@.allocs),
                ..old(self)@
            }),
    ;

    /// Lowers the count of allocations by one.
    fn sub_alloc(&mut self)
        requires
            old(self).wf(),
        ensures
            final(self).wf(),
            final(self).alone() == old(self).alone(),
            old(self).alone() ==> final(self)@ == (WordsView {
                allocs: down(old(self)@.allocs),
                ..old(self)@
            }),
    ;
}

} // verus!
