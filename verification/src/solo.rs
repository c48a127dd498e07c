//! The words of an allocator as plain values, for one thread, and what
//! follows for an allocator whose words are alone.
//!
//! [`SoloPool`] is the kind of [`Words`] that is alone: every access finds
//! what the last one left. The functions of [`crate::allocator`] run on it as
//! they run on the shared words, and their contracts then say what each call
//! returns and what it leaves behind. The laws of this module are stated over
//! those contracts' own spec functions.

use vstd::prelude::*;
use crate::allocator::after_allocate;
use crate::allocator::after_dealloc;
use crate::allocator::undisturbed_answer;
use crate::allocator::AllocStep;
use crate::allocator::ALLOX_POOL_SIZE;
use crate::allocator::SECTOR_POOL_SIZE;
use crate::bitmap::chunk_run;
use crate::bitmap::chunks_needed;
use crate::bitmap::first_fit;
use crate::bitmap::lemma_first_fit;
use crate::bitmap::lemma_occupied_injective;
use crate::bitmap::lemma_words;
use crate::bitmap::occupied;
use crate::bitmap::owning_chunk;
use crate::bitmap::usable_base;
use crate::bitmap::CHUNK_SIZE;
use crate::bitmap::SECTOR_SIZE;
use crate::bitmap::WIDTH;
use crate::protocol::allowed;
use crate::protocol::apply;
use crate::protocol::law_fresh_sector_fills_in_order;
use crate::protocol::law_full_sector_serves_nothing;
use crate::protocol::law_one_free_chunk_is_found;
use crate::protocol::Event;
use crate::protocol::Ledger;
use crate::protocol::Span;
use crate::words::addable;
use crate::words::after_adding;
use crate::words::claim_hit;
use crate::words::first_spare;
use crate::words::found_at;
use crate::words::lemma_first_spare;
use crate::words::lemma_walk;
use crate::words::lemma_walk_is;
use crate::words::shaped;
use crate::words::release_hit;
use crate::words::visit_value;
use crate::words::visitable;
use crate::words::walk_from;
use crate::words::SectorWords;
use crate::words::Visit;
use crate::words::Words;
use crate::words::WordsView;

verus! {

/// The words of an allocator without an active sector or backing memory.
pub open spec fn fresh() -> WordsView {
    WordsView {
        sectors: Seq::new(
            SECTOR_POOL_SIZE as nat,
            |s: int| SectorWords { viewers: 0, slots: 0, base: 0 },
        ),
        entries: Seq::new(ALLOX_POOL_SIZE as nat, |k: int| 0usize),
        count: 0,
        allocs: 0,
    }
}

/// The words of an allocator that one thread has to itself.
#[derive(Debug)]
pub struct SoloPool {
    sectors: Vec<SectorWords>,
    entries: Vec<usize>,
    count: usize,
    allocs: usize,
}

impl SoloPool {
    /// Words without an active sector or backing memory.
    pub fn new() -> (p: Self)
        ensures
            p.wf(),
            p@ == fresh(),
    {
        let none = SectorWords { viewers: 0, slots: 0, base: 0 };
        let mut sectors: Vec<SectorWords> = Vec::new();
        sectors.push(none);
        sectors.push(none);
        sectors.push(none);
        sectors.push(none);
        sectors.push(none);
        let mut entries: Vec<usize> = Vec::new();
        entries.push(0);
        entries.push(0);
        entries.push(0);
        entries.push(0);
        let p = SoloPool { sectors, entries, count: 0, allocs: 0 };
        proof {
            assert(p@.sectors =~= fresh().sectors);
            assert(p@.entries =~= fresh().entries);
        }
        p
    }

    /// The number of allocations made and not yet released.
    pub fn total_allocs(&self) -> (n: usize)
        ensures
            n == self@.allocs,
    {
        self.allocs
    }

    /// The number of places of the active array that have been handed out.
    pub fn num_sectors(&self) -> (n: usize)
        ensures
            n == self@.count,
    {
        self.count
    }

    /// The bitmap of sector `s` of the pool.
    pub fn bitmap(&self, s: usize) -> (map: u64)
        requires
            self.wf(),
            s < SECTOR_POOL_SIZE,
        ensures
            map == self@.sectors[s as int].slots,
    {
        self.sectors[s].slots
    }
}

impl Words for SoloPool {
    open spec fn alone(&self) -> bool {
        true
    }

    closed spec fn view(&self) -> WordsView {
        WordsView {
            sectors: self.sectors@,
            entries: self.entries@,
            count: self.count,
            allocs: self.allocs,
        }
    }

    closed spec fn wf(&self) -> bool {
        self.sectors.len() == SECTOR_POOL_SIZE && self.entries.len() == ALLOX_POOL_SIZE
    }

    proof fn lemma_shaped(&self) {
    }

    fn base(&mut self, s: usize) -> (r: usize) {
        self.sectors[s].base
    }

    fn swap_base(&mut self, s: usize, current: usize, new: usize) -> (won: bool) {
        let sec = self.sectors[s];
        if sec.base == current {
            self.sectors.set(s, SectorWords { base: new, ..sec });
            true
        } else {
            false
        }
    }

    fn slots(&mut self, s: usize) -> (r: u64) {
        self.sectors[s].slots
    }

    fn swap_slots(&mut self, s: usize, current: u64, new: u64) -> (won: bool) {
        let sec = self.sectors[s];
        if sec.slots == current {
            self.sectors.set(s, SectorWords { slots: new, ..sec });
            true
        } else {
            false
        }
    }

    fn set_slots(&mut self, s: usize, new: u64) {
        let sec = self.sectors[s];
        self.sectors.set(s, SectorWords { slots: new, ..sec });
    }

    fn viewers(&mut self, s: usize) -> (r: usize) {
        self.sectors[s].viewers
    }

    fn swap_viewers(&mut self, s: usize, current: usize, new: usize) -> (won: bool) {
        let sec = self.sectors[s];
        if sec.viewers == current {
            self.sectors.set(s, SectorWords { viewers: new, ..sec });
            true
        } else {
            false
        }
    }

    fn set_viewers(&mut self, s: usize, new: usize) {
        let sec = self.sectors[s];
        self.sectors.set(s, SectorWords { viewers: new, ..sec });
    }

    fn drop_viewer(&mut self, s: usize) {
        let sec = self.sectors[s];
        let lower: usize = if sec.viewers == 0 {
            usize::MAX
        } else {
            sec.viewers - 1
        };
        self.sectors.set(s, SectorWords { viewers: lower, ..sec });
    }

    fn count(&mut self) -> (r: usize) {
        self.count
    }

    fn swap_count(&mut self, current: usize, new: usize) -> (won: bool) {
        if self.count == current {
            self.count = new;
            true
        } else {
            false
        }
    }

    fn entry(&mut self, k: usize) -> (r: usize) {
        self.entries[k]
    }

    fn set_entry(&mut self, k: usize, new: usize) {
        self.entries.set(k, new);
    }

    fn allocs(&mut self) -> (r: usize) {
        self.allocs
    }

    fn add_alloc(&mut self) {
        self.allocs = if self.allocs == usize::MAX {
            0
        } else {
            self.allocs + 1
        };
    }

    fn sub_alloc(&mut self) {
        self.allocs = if self.allocs == 0 {
            usize::MAX
        } else {
            self.allocs - 1
        };
    }
}

/// Every place of the active array is handed out, and every chunk of every
/// sector that stands in it is taken.
pub open spec fn exhausted(v: WordsView) -> bool {
    &&& shaped(v)
    &&& v.count >= ALLOX_POOL_SIZE
    &&& forall|k: int|
        0 <= k < ALLOX_POOL_SIZE && 0 < #[trigger] v.entries[k] <= SECTOR_POOL_SIZE ==> occupied(
            v.sectors[v.entries[k] - 1].slots,
        ) == chunk_run(0, WIDTH as int)
}

/// Exhaustion: once all chunks of all sectors that can be active are taken,
/// every request fails and leaves the words as they are, so the next request
/// meets the same words and fails as well, until a release has cleared a
/// chunk.
pub proof fn law_exhausted_pool_fails(v: WordsView, size: usize)
    requires
        exhausted(v),
        size > 0,
    ensures
        undisturbed_answer(v, size) == AllocStep::Failed,
        after_allocate(v, size) == v,
{
    let n = chunks_needed(size) as int;
    let visit = Visit::Claim { size };
    if n <= WIDTH {
        assert forall|k: int| 0 <= k implies !found_at(v, visit, k) by {
            if visitable(v, k) {
                law_full_sector_serves_nothing(v.sectors[v.entries[k] - 1].slots, n, 0);
            }
        }
        lemma_walk(v, visit, 0);
    }
}

/// Oversized requests fail whatever the words hold, and change nothing.
pub proof fn law_oversized_fails(v: WordsView, size: usize)
    requires
        size > SECTOR_SIZE,
    ensures
        undisturbed_answer(v, size) == AllocStep::Failed,
        after_allocate(v, size) == v,
{
}

/// No address lies in two sectors of the pool that have memory.
pub open spec fn apart(v: WordsView) -> bool {
    forall|s: int, t: int|
        0 <= s < SECTOR_POOL_SIZE && 0 <= t < SECTOR_POOL_SIZE && s != t && (
        #[trigger] v.sectors[s]).base != 0 && (#[trigger] v.sectors[t]).base != 0
            ==> v.sectors[s].base + SECTOR_SIZE <= v.sectors[t].base || v.sectors[t].base
            + SECTOR_SIZE <= v.sectors[s].base
}

/// The places of the active array that are handed out hold sectors of the
/// pool that have memory, and no sector stands at two of them.
pub open spec fn in_order(v: WordsView) -> bool {
    &&& shaped(v)
    &&& v.count <= ALLOX_POOL_SIZE
    &&& forall|k: int|
        0 <= k < v.count ==> 0 < #[trigger] v.entries[k] <= SECTOR_POOL_SIZE && usable_base(
            v.sectors[v.entries[k] - 1].base,
        )
    &&& forall|j: int, k: int|
        0 <= j < k < v.count ==> #[trigger] v.entries[j] != #[trigger] v.entries[k]
}

/// The bases of `after` are those of `before` wherever `before` has one: a
/// sector that has memory keeps it.
pub open spec fn bases_kept(before: WordsView, after: WordsView) -> bool {
    forall|s: int|
        0 <= s < SECTOR_POOL_SIZE && (#[trigger] before.sectors[s]).base != 0
            ==> after.sectors[s].base == before.sectors[s].base
}

/// The words of a new allocator are in order.
pub proof fn law_fresh_is_in_order()
    ensures
        in_order(fresh()),
        apart(fresh()),
{
}

/// Adding a sector keeps the active array in order: the sector that takes
/// the mapping had none, it stands at no other place, and every sector that
/// had memory keeps it. Where the new mapping lies apart from the sectors
/// that have memory, the sectors lie apart afterwards.
pub proof fn law_adding_keeps_order(v: WordsView, mapped: usize, size: usize)
    requires
        in_order(v),
        addable(v, mapped, size),
    ensures
        in_order(after_adding(v, mapped, size)),
        bases_kept(v, after_adding(v, mapped, size)),
        v.sectors[first_spare(v, 0).unwrap()].base == 0,
        after_adding(v, mapped, size).sectors[first_spare(v, 0).unwrap()].viewers == 0,
        apart(v) && (forall|s: int|
            0 <= s < SECTOR_POOL_SIZE && (#[trigger] v.sectors[s]).base != 0 ==> v.sectors[s].base
                + SECTOR_SIZE <= mapped || mapped + SECTOR_SIZE <= v.sectors[s].base) ==> apart(
            after_adding(v, mapped, size),
        ),
{
    lemma_first_spare(v, 0);
    let at = first_spare(v, 0).unwrap();
    let after = after_adding(v, mapped, size);
    assert forall|k: int| 0 <= k < after.count implies 0 < #[trigger] after.entries[k]
        <= SECTOR_POOL_SIZE && usable_base(after.sectors[after.entries[k] - 1].base) by {
        if k < v.count {
            assert(0 < v.entries[k] <= SECTOR_POOL_SIZE);
        }
    }
    assert forall|j: int, k: int| 0 <= j < k < after.count implies #[trigger] after.entries[j]
        != #[trigger] after.entries[k] by {
        assert(0 < v.entries[j] <= SECTOR_POOL_SIZE);
        if k < v.count {
            assert(v.entries[j] != v.entries[k]);
        }
    }
}

/// Serving a request changes the bitmap of one sector and the count of
/// allocations, and nothing that the order of the active array rests on.
pub proof fn law_allocate_keeps_order(v: WordsView, size: usize)
    requires
        in_order(v),
    ensures
        in_order(after_allocate(v, size)),
        bases_kept(v, after_allocate(v, size)),
        apart(v) ==> apart(after_allocate(v, size)),
        after_allocate(v, size).entries == v.entries,
        after_allocate(v, size).count == v.count,
{
    lemma_walk(v, Visit::Claim { size }, 0);
    let after = after_allocate(v, size);
    assert forall|k: int| 0 <= k < v.count implies 0 < #[trigger] after.entries[k]
        <= SECTOR_POOL_SIZE && usable_base(after.sectors[after.entries[k] - 1].base) by {
        assert(0 < v.entries[k] <= SECTOR_POOL_SIZE);
    }
}

/// A release changes the bitmap of one sector and the count of allocations,
/// and nothing that the order of the active array rests on.
pub proof fn law_dealloc_keeps_order(v: WordsView, addr: usize, size: usize)
    requires
        in_order(v),
    ensures
        in_order(after_dealloc(v, addr, size)),
        bases_kept(v, after_dealloc(v, addr, size)),
        apart(v) ==> apart(after_dealloc(v, addr, size)),
        after_dealloc(v, addr, size).entries == v.entries,
        after_dealloc(v, addr, size).count == v.count,
{
    lemma_walk(v, Visit::Release { addr, size }, 0);
    let after = after_dealloc(v, addr, size);
    assert forall|k: int| 0 <= k < v.count implies 0 < #[trigger] after.entries[k]
        <= SECTOR_POOL_SIZE && usable_base(after.sectors[after.entries[k] - 1].base) by {
        assert(0 < v.entries[k] <= SECTOR_POOL_SIZE);
    }
}

/// Round trip: when the room that a request was served with is released
/// again with nothing in between, the words are those from before the
/// request, so the same request is served at the same address again.
pub proof fn law_release_then_allocate_reuses(v: WordsView, size: usize)
    requires
        in_order(v),
        apart(v),
        size > 0,
        undisturbed_answer(v, size) is Ready,
    ensures
        ({
            let addr = undisturbed_answer(v, size)->Ready_0;
            let back = after_dealloc(after_allocate(v, size), addr, size);
            back == v && undisturbed_answer(back, size) == AllocStep::Ready(addr)
        }),
{
    let claim = Visit::Claim { size };
    let n = chunks_needed(size);
    lemma_walk(v, claim, 0);
    let k = walk_from(v, claim, 0).unwrap();
    assert(0 < v.entries[k] <= SECTOR_POOL_SIZE);
    let s = v.entries[k] - 1;
    let sec = v.sectors[s];
    let off = claim_hit(sec, size).unwrap();
    lemma_first_fit(sec.slots, n as int, 0);
    let addr = visit_value(v, k, claim);
    assert(addr == sec.base + off * 64);
    assert(owning_chunk(sec.base, addr) == Some(off)) by {
        assert((off * 64) / 64 == off);
    }
    let mid = after_allocate(v, size);
    let release = Visit::Release { addr, size };
    assert(mid.sectors[s].base == sec.base);
    assert(found_at(mid, release, k));
    assert forall|j: int| 0 <= j < k implies !found_at(mid, release, j) by {
        if found_at(mid, release, j) {
            assert(0 < v.entries[j] <= SECTOR_POOL_SIZE);
            assert(v.entries[j] != v.entries[k]);
            let t = v.entries[j] - 1;
            assert(v.sectors[t].base != 0 && v.sectors[s].base != 0);
            assert(mid.sectors[t] == v.sectors[t]);
        }
    }
    lemma_walk_is(mid, release, 0, k);
    lemma_words(sec.slots, n as usize, off as usize);
    let claimed = mid.sectors[s].slots;
    lemma_words(claimed, n as usize, off as usize);
    let back = after_dealloc(mid, addr, size);
    assert(occupied(back.sectors[s].slots) =~= occupied(sec.slots));
    lemma_occupied_injective(back.sectors[s].slots, sec.slots);
    assert(back.sectors =~= v.sectors);
}

/// The sector of the pool that serves a request for `size` bytes, where one
/// does.
pub open spec fn serving_sector(v: WordsView, size: usize) -> int {
    v.entries[walk_from(v, Visit::Claim { size }, 0).unwrap()] - 1
}

/// The chunks that a request for `size` bytes gets in the sector that serves
/// it.
pub open spec fn served_span(v: WordsView, size: usize) -> Span {
    Span {
        off: claim_hit(v.sectors[serving_sector(v, size)], size).unwrap(),
        n: chunks_needed(size) as int,
    }
}

/// An allocation that is served is one claim in the ledger of the sector
/// that serves it: the ledger allows the claim, the bitmap afterwards marks
/// what the ledger then holds, and no other sector changes.
pub proof fn law_allocate_is_a_claim(v: WordsView, size: usize, l: Ledger)
    requires
        shaped(v),
        size > 0,
        undisturbed_answer(v, size) is Ready,
        l.taken == occupied(v.sectors[serving_sector(v, size)].slots),
    ensures
        0 <= serving_sector(v, size) < SECTOR_POOL_SIZE,
        allowed(l, Event::Claim(served_span(v, size))),
        apply(l, Event::Claim(served_span(v, size))).taken == occupied(
            after_allocate(v, size).sectors[serving_sector(v, size)].slots,
        ),
        forall|t: int|
            0 <= t < SECTOR_POOL_SIZE && t != serving_sector(v, size) ==> (
            #[trigger] after_allocate(v, size).sectors[t]) == v.sectors[t],
{
    let claim = Visit::Claim { size };
    lemma_walk(v, claim, 0);
    let s = serving_sector(v, size);
    let sec = v.sectors[s];
    let span = served_span(v, size);
    lemma_first_fit(sec.slots, span.n, 0);
    lemma_words(sec.slots, span.n as usize, span.off as usize);
}

/// The sector of the pool that releases the room at `addr`, where one does.
pub open spec fn releasing_sector(v: WordsView, addr: usize, size: usize) -> int {
    v.entries[walk_from(v, Visit::Release { addr, size }, 0).unwrap()] - 1
}

/// The chunks that a release of `size` bytes at `addr` clears in the sector
/// that owns the address.
pub open spec fn released_span(v: WordsView, addr: usize, size: usize) -> Span {
    Span {
        off: release_hit(v.sectors[releasing_sector(v, addr, size)], addr, size).unwrap(),
        n: chunks_needed(size) as int,
    }
}

/// A release that a sector takes is one release in the ledger of that
/// sector: the bitmap afterwards marks what the ledger then holds, and no
/// other sector changes. Where no sector takes it, no bitmap changes.
pub proof fn law_dealloc_is_a_release(v: WordsView, addr: usize, size: usize, l: Ledger)
    requires
        shaped(v),
        walk_from(v, Visit::Release { addr, size }, 0) is Some ==> l.taken == occupied(
            v.sectors[releasing_sector(v, addr, size)].slots,
        ),
    ensures
        walk_from(v, Visit::Release { addr, size }, 0) is Some ==> {
            &&& 0 <= releasing_sector(v, addr, size) < SECTOR_POOL_SIZE
            &&& apply(l, Event::Release(released_span(v, addr, size))).taken == occupied(
                after_dealloc(v, addr, size).sectors[releasing_sector(v, addr, size)].slots,
            )
            &&& forall|t: int|
                0 <= t < SECTOR_POOL_SIZE && t != releasing_sector(v, addr, size) ==> (
                #[trigger] after_dealloc(v, addr, size).sectors[t]) == v.sectors[t]
        },
        walk_from(v, Visit::Release { addr, size }, 0) is None ==> after_dealloc(
            v,
            addr,
            size,
        ).sectors == v.sectors,
{
    let release = Visit::Release { addr, size };
    lemma_walk(v, release, 0);
    if walk_from(v, release, 0) is Some {
        let s = releasing_sector(v, addr, size);
        let span = released_span(v, addr, size);
        lemma_words(v.sectors[s].slots, span.n as usize, span.off as usize);
    }
}

/// Whether every sector that admits a viewer at a place before `k` is full.
pub open spec fn full_before(v: WordsView, k: int) -> bool {
    forall|j: int|
        0 <= j < k && #[trigger] visitable(v, j) ==> occupied(v.sectors[v.entries[j] - 1].slots)
            == chunk_run(0, WIDTH as int)
}

/// Where the sectors before place `k` are full and chunk `c` is the first
/// free chunk of the sector at place `k`, a request for one chunk gets chunk
/// `c` of that sector, and just that chunk is taken afterwards.
pub proof fn law_pool_serves_the_first_free_chunk(v: WordsView, size: usize, k: int, c: int)
    requires
        shaped(v),
        0 < size <= CHUNK_SIZE,
        visitable(v, k),
        full_before(v, k),
        usable_base(v.sectors[v.entries[k] - 1].base),
        first_fit(v.sectors[v.entries[k] - 1].slots, 1, 0) == Some(c),
    ensures
        undisturbed_answer(v, size) == AllocStep::Ready(
            (v.sectors[v.entries[k] - 1].base + c * CHUNK_SIZE) as usize,
        ),
        occupied(after_allocate(v, size).sectors[v.entries[k] - 1].slots) == occupied(
            v.sectors[v.entries[k] - 1].slots,
        ).insert(c),
{
    let claim = Visit::Claim { size };
    let s = v.entries[k] - 1;
    let sec = v.sectors[s];
    assert(chunks_needed(size) == 1);
    assert forall|j: int| 0 <= j < k implies !found_at(v, claim, j) by {
        if visitable(v, j) {
            law_full_sector_serves_nothing(v.sectors[v.entries[j] - 1].slots, 1, 0);
        }
    }
    lemma_walk_is(v, claim, 0, k);
    lemma_first_fit(sec.slots, 1, 0);
    lemma_words(sec.slots, 1, c as usize);
    assert(chunk_run(c, 1) =~= Set::<int>::empty().insert(c));
    assert(occupied(after_allocate(v, size).sectors[s].slots) =~= occupied(sec.slots).insert(c));
}

/// One sector holds exactly its width: while the sectors before it are full
/// and its first `i` chunks are taken, with `i` below the width, a request
/// for one chunk gets chunk `i`, and the first `i + 1` chunks are taken
/// afterwards.
pub proof fn law_sector_of_the_pool_fills_in_order(v: WordsView, size: usize, k: int, i: int)
    requires
        shaped(v),
        0 < size <= CHUNK_SIZE,
        visitable(v, k),
        full_before(v, k),
        usable_base(v.sectors[v.entries[k] - 1].base),
        0 <= i < WIDTH,
        occupied(v.sectors[v.entries[k] - 1].slots) == chunk_run(0, i),
    ensures
        undisturbed_answer(v, size) == AllocStep::Ready(
            (v.sectors[v.entries[k] - 1].base + i * CHUNK_SIZE) as usize,
        ),
        occupied(after_allocate(v, size).sectors[v.entries[k] - 1].slots) == chunk_run(0, i + 1),
{
    law_fresh_sector_fills_in_order(v.sectors[v.entries[k] - 1].slots, i);
    law_pool_serves_the_first_free_chunk(v, size, k, i);
    assert(chunk_run(0, i).insert(i) =~= chunk_run(0, i + 1));
}

/// Where all chunks are taken but chunk `c` of the sector at place `k`, which
/// a release has cleared, exactly one more request for one chunk is served,
/// with chunk `c`: afterwards that sector is full again.
pub proof fn law_one_release_allows_one_request(v: WordsView, size: usize, k: int, c: int)
    requires
        shaped(v),
        0 < size <= CHUNK_SIZE,
        visitable(v, k),
        full_before(v, k),
        usable_base(v.sectors[v.entries[k] - 1].base),
        0 <= c < WIDTH,
        occupied(v.sectors[v.entries[k] - 1].slots) == chunk_run(0, WIDTH as int).remove(c),
    ensures
        undisturbed_answer(v, size) == AllocStep::Ready(
            (v.sectors[v.entries[k] - 1].base + c * CHUNK_SIZE) as usize,
        ),
        occupied(after_allocate(v, size).sectors[v.entries[k] - 1].slots) == chunk_run(
            0,
            WIDTH as int,
        ),
{
    law_one_free_chunk_is_found(v.sectors[v.entries[k] - 1].slots, c);
    law_pool_serves_the_first_free_chunk(v, size, k, c);
    assert(chunk_run(0, WIDTH as int).remove(c).insert(c) =~= chunk_run(0, WIDTH as int));
}

} // verus!
