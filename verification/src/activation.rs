//! How the sectors of a pool come into use, whatever the threads do at once.
//!
//! A thread that wants a new sector claims one for itself by a
//! compare-and-swap of the sector's viewer count from 0 to `EXCLUSIVE`. While
//! it holds the sector, it makes the sector take a mapping, by a
//! compare-and-swap on the base that succeeds only while the base is null,
//! sets up the bitmap, and puts the viewer count back to 0. The thread whose
//! sector took a mapping, and no other, goes on to publish that sector: a
//! compare-and-swap on the number of active sectors reserves a place of the
//! active array for it, and a store enters the sector there. A thread that
//! finds no place gives up, and the sector stays mapped and unpublished.
//! Threads that serve requests count themselves among the viewers of a
//! published sector while they work on its bitmap. These nine steps are all
//! that ever change the viewer counts, the bases and the active array, so
//! every history of a pool is a sequence of them.
//!
//! Three pieces of bookkeeping that no word holds say where the threads are:
//! which sectors have taken a mapping from the thread that still holds them,
//! which sectors wait for their thread to publish them, and which places are
//! reserved and not yet written. A fourth says whether the bitmap of a sector
//! has been set up.
//!
//! The model takes it that fewer than `EXCLUSIVE - 1` threads view one sector
//! at once, so that counting viewers never reaches `EXCLUSIVE`.

use vstd::prelude::*;
use crate::allocator::ALLOX_POOL_SIZE;
use crate::allocator::EXCLUSIVE;
use crate::allocator::SECTOR_POOL_SIZE;
use crate::bitmap::usable_base;
use crate::words::addable;
use crate::words::after_adding;
use crate::words::first_spare;
use crate::words::lemma_first_spare;
use crate::words::shaped;
use crate::words::WordsView;

verus! {

/// The shared words of a pool that activation changes, with the bookkeeping.
pub struct PoolModel {
    /// The viewer count of each sector of the pool.
    pub viewers: Seq<usize>,
    /// The base of each sector of the pool; 0 while it has no mapping.
    pub bases: Seq<usize>,
    /// Whether the bitmap of each sector has been set up.
    pub filled: Seq<bool>,
    /// The number of places of the active array that are handed out.
    pub count: int,
    /// The active array: 0, or one more than a sector's place in the pool.
    pub entries: Seq<usize>,
    /// How often each sector has taken a mapping.
    pub mapped_times: Seq<nat>,
    /// The sectors that have taken a mapping from the thread that holds them
    /// still.
    pub adopting: Set<int>,
    /// The sectors that have taken a mapping, are let go, and are not yet
    /// published or given up.
    pub fresh: Set<int>,
    /// The places that are reserved and not yet written, each with the sector
    /// that it is reserved for.
    pub pending: Map<int, int>,
}

/// An atomic step on the words of a pool.
pub enum PoolStep {
    /// A thread claims sector `sector` for itself.
    Reserve { sector: int },
    /// The thread that holds sector `sector` makes it take the mapping at
    /// `base`.
    Adopt { sector: int, base: usize },
    /// The thread that made sector `sector` take its mapping sets up the
    /// bitmap.
    Fill { sector: int },
    /// The thread that holds sector `sector` lets it go.
    Unlock { sector: int },
    /// The thread that let go of fresh sector `sector` reserves the next
    /// place.
    Grow { sector: int },
    /// The thread that let go of fresh sector `sector` finds no place and
    /// gives up.
    Forgo { sector: int },
    /// The thread that reserved place `place` writes its sector there.
    Enter { place: int },
    /// A thread counts itself among the viewers of published sector
    /// `sector`.
    View { sector: int },
    /// A viewer of sector `sector` leaves.
    Leave { sector: int },
}

/// The pool before anything has happened.
pub open spec fn initial() -> PoolModel {
    PoolModel {
        viewers: Seq::new(SECTOR_POOL_SIZE as nat, |i: int| 0usize),
        bases: Seq::new(SECTOR_POOL_SIZE as nat, |i: int| 0usize),
        filled: Seq::new(SECTOR_POOL_SIZE as nat, |i: int| false),
        count: 0,
        entries: Seq::new(ALLOX_POOL_SIZE as nat, |k: int| 0usize),
        mapped_times: Seq::new(SECTOR_POOL_SIZE as nat, |i: int| 0nat),
        adopting: Set::empty(),
        fresh: Set::empty(),
        pending: Map::empty(),
    }
}

/// Whether place `place` of the active array holds sector `sector`.
pub open spec fn entered(m: PoolModel, place: int, sector: int) -> bool {
    0 <= place < m.entries.len() && m.entries[place] == sector + 1
}

/// Whether sector `sector` stands in the active array.
pub open spec fn published(m: PoolModel, sector: int) -> bool {
    exists|place: int| entered(m, place, sector)
}

/// Whether `step` can happen in state `m`.
pub open spec fn enabled(m: PoolModel, step: PoolStep) -> bool {
    match step {
        PoolStep::Reserve { sector } => 0 <= sector < SECTOR_POOL_SIZE && m.viewers[sector] == 0,
        PoolStep::Adopt { sector, base } => {
            &&& 0 <= sector < SECTOR_POOL_SIZE
            &&& m.viewers[sector] == EXCLUSIVE
            &&& m.bases[sector] == 0
            &&& usable_base(base)
        },
        PoolStep::Fill { sector } => m.adopting.contains(sector),
        PoolStep::Unlock { sector } => {
            &&& 0 <= sector < SECTOR_POOL_SIZE
            &&& m.viewers[sector] == EXCLUSIVE
            &&& (m.adopting.contains(sector) ==> m.filled[sector])
        },
        PoolStep::Grow { sector } => m.fresh.contains(sector) && m.count < ALLOX_POOL_SIZE,
        PoolStep::Forgo { sector } => m.fresh.contains(sector),
        PoolStep::Enter { place } => m.pending.dom().contains(place),
        PoolStep::View { sector } => {
            &&& 0 <= sector < SECTOR_POOL_SIZE
            &&& published(m, sector)
            &&& m.viewers[sector] + 1 < EXCLUSIVE
        },
        PoolStep::Leave { sector } => {
            &&& 0 <= sector < SECTOR_POOL_SIZE
            &&& 0 < m.viewers[sector] < EXCLUSIVE
        },
    }
}

/// The state after `step` has happened in state `m`.
pub open spec fn next(m: PoolModel, step: PoolStep) -> PoolModel {
    match step {
        PoolStep::Reserve { sector } => PoolModel {
            viewers: m.viewers.update(sector, EXCLUSIVE),
            ..m
        },
        PoolStep::Adopt { sector, base } => PoolModel {
            bases: m.bases.update(sector, base),
            mapped_times: m.mapped_times.update(sector, m.mapped_times[sector] + 1),
            adopting: m.adopting.insert(sector),
            ..m
        },
        PoolStep::Fill { sector } => PoolModel { filled: m.filled.update(sector, true), ..m },
        PoolStep::Unlock { sector } => PoolModel {
            viewers: m.viewers.update(sector, 0),
            adopting: m.adopting.remove(sector),
            fresh: if m.adopting.contains(sector) {
                m.fresh.insert(sector)
            } else {
                m.fresh
            },
            ..m
        },
        PoolStep::Grow { sector } => PoolModel {
            count: m.count + 1,
            fresh: m.fresh.remove(sector),
            pending: m.pending.insert(m.count, sector),
            ..m
        },
        PoolStep::Forgo { sector } => PoolModel { fresh: m.fresh.remove(sector), ..m },
        PoolStep::Enter { place } => PoolModel {
            entries: m.entries.update(place, (m.pending[place] + 1) as usize),
            pending: m.pending.remove(place),
            ..m
        },
        PoolStep::View { sector } => PoolModel {
            viewers: m.viewers.update(sector, (m.viewers[sector] + 1) as usize),
            ..m
        },
        PoolStep::Leave { sector } => PoolModel {
            viewers: m.viewers.update(sector, (m.viewers[sector] - 1) as usize),
            ..m
        },
    }
}

/// The state after `steps` have happened in the initial state.
pub open spec fn run(steps: Seq<PoolStep>) -> PoolModel
    decreases steps.len(),
{
    if steps.len() == 0 {
        initial()
    } else {
        next(run(steps.drop_last()), steps.last())
    }
}

/// Whether each of `steps` was enabled when it happened.
pub open spec fn feasible(steps: Seq<PoolStep>) -> bool
    decreases steps.len(),
{
    steps.len() == 0 || (feasible(steps.drop_last()) && enabled(
        run(steps.drop_last()),
        steps.last(),
    ))
}

/// Every sector has taken at most one mapping, and has one exactly if its
/// base is not null.
pub open spec fn mapped_once(m: PoolModel) -> bool {
    forall|i: int|
        0 <= i < SECTOR_POOL_SIZE ==> #[trigger] m.mapped_times[i] == (if m.bases[i] != 0 {
            1nat
        } else {
            0nat
        })
}

/// No sector stands at two places of the active array.
pub open spec fn entries_distinct(m: PoolModel) -> bool {
    forall|j: int, k: int|
        0 <= j < m.entries.len() && 0 <= k < m.entries.len() && j != k && m.entries[j] != 0
            ==> m.entries[j] != m.entries[k]
}

/// A sector that has a mapping and is not held by one thread alone has its
/// bitmap set up, and a sector with viewers is such a sector.
pub open spec fn ready_when_open(m: PoolModel) -> bool {
    forall|i: int|
        0 <= i < SECTOR_POOL_SIZE ==> {
            &&& (#[trigger] m.bases[i] != 0 && m.viewers[i] != EXCLUSIVE ==> m.filled[i])
            &&& (0 < m.viewers[i] < EXCLUSIVE ==> m.bases[i] != 0)
        }
}

/// A sector that a thread holds for itself, with the mapping that it took
/// from that thread.
pub open spec fn held(m: PoolModel, i: int) -> bool {
    &&& 0 <= i < SECTOR_POOL_SIZE
    &&& m.bases[i] != 0
    &&& m.viewers[i] == EXCLUSIVE
    &&& !m.fresh.contains(i)
}

/// A sector that has its mapping and its bitmap and is let go.
pub open spec fn settled(m: PoolModel, i: int) -> bool {
    &&& 0 <= i < SECTOR_POOL_SIZE
    &&& m.bases[i] != 0
    &&& m.filled[i]
    &&& !m.adopting.contains(i)
}

/// What holds of every state that a pool can reach.
pub open spec fn orderly(m: PoolModel) -> bool {
    &&& m.viewers.len() == SECTOR_POOL_SIZE
    &&& m.bases.len() == SECTOR_POOL_SIZE
    &&& m.filled.len() == SECTOR_POOL_SIZE
    &&& m.mapped_times.len() == SECTOR_POOL_SIZE
    &&& m.entries.len() == ALLOX_POOL_SIZE
    &&& 0 <= m.count <= ALLOX_POOL_SIZE
    &&& mapped_once(m)
    &&& forall|i: int|
        0 <= i < SECTOR_POOL_SIZE && #[trigger] m.bases[i] != 0 ==> m.filled[i]
            || m.adopting.contains(i)
    &&& forall|i: int|
        0 <= i < SECTOR_POOL_SIZE && 0 < #[trigger] m.viewers[i] < EXCLUSIVE ==> m.bases[i] != 0
    &&& forall|i: int| #[trigger] m.adopting.contains(i) ==> held(m, i)
    &&& forall|i: int| #[trigger] m.fresh.contains(i) ==> settled(m, i)
    &&& forall|k: int| #[trigger]
        m.pending.dom().contains(k) ==> {
            &&& 0 <= k < m.count
            &&& m.entries[k] == 0
            &&& settled(m, m.pending[k])
            &&& !m.fresh.contains(m.pending[k])
        }
    &&& forall|j: int, k: int|
        m.pending.dom().contains(j) && m.pending.dom().contains(k) && j != k ==> m.pending[j]
            != m.pending[k]
    &&& forall|k: int|
        0 <= k < ALLOX_POOL_SIZE && #[trigger] m.entries[k] != 0 ==> {
            &&& k < m.count
            &&& settled(m, m.entries[k] - 1)
            &&& !m.fresh.contains(m.entries[k] - 1)
        }
    &&& forall|j: int, k: int|
        0 <= k < ALLOX_POOL_SIZE && m.pending.dom().contains(j) ==> #[trigger] m.entries[k]
            != #[trigger] m.pending[j] + 1
    &&& entries_distinct(m)
}

/// What the threads hold carries over from `m` to `after`, where every
/// sector that was settled stays so, a sector that is held stays held, and a
/// sector comes to be held or fresh only in the way of a step.
proof fn lemma_holders_carry_over(m: PoolModel, after: PoolModel)
    requires
        orderly(m),
        forall|i: int| #[trigger] settled(m, i) ==> settled(after, i),
        forall|i: int| #[trigger]
            after.fresh.contains(i) ==> m.fresh.contains(i) || (m.adopting.contains(i)
                && settled(after, i)),
        forall|i: int| #[trigger]
            after.adopting.contains(i) ==> held(after, i) || (m.adopting.contains(i) && (held(
                m,
                i,
            ) ==> held(after, i))),
    ensures
        forall|i: int| #[trigger] after.adopting.contains(i) ==> held(after, i),
        forall|i: int| #[trigger] after.fresh.contains(i) ==> settled(after, i),
{
    assert forall|i: int| #[trigger] after.adopting.contains(i) implies held(after, i) by {
        if m.adopting.contains(i) {
            assert(held(m, i));
        }
    }
    assert forall|i: int| #[trigger] after.fresh.contains(i) implies settled(after, i) by {
        if m.fresh.contains(i) {
            assert(settled(m, i));
        }
    }
}

/// What stands in the active array and what waits for a place carries over
/// from `m` to `after`, where the array, its count and the reserved places
/// are the same and every sector that was settled stays so.
proof fn lemma_places_carry_over(m: PoolModel, after: PoolModel)
    requires
        orderly(m),
        after.count == m.count,
        after.entries == m.entries,
        after.pending == m.pending,
        forall|i: int| #[trigger] settled(m, i) ==> settled(after, i),
        forall|i: int| #[trigger]
            after.fresh.contains(i) ==> m.fresh.contains(i) || (m.adopting.contains(i)
                && settled(after, i)),
    ensures
        forall|k: int| #[trigger]
            after.pending.dom().contains(k) ==> {
                &&& 0 <= k < after.count
                &&& after.entries[k] == 0
                &&& settled(after, after.pending[k])
                &&& !after.fresh.contains(after.pending[k])
            },
        forall|k: int|
            0 <= k < ALLOX_POOL_SIZE && #[trigger] after.entries[k] != 0 ==> {
                &&& k < after.count
                &&& settled(after, after.entries[k] - 1)
                &&& !after.fresh.contains(after.entries[k] - 1)
            },
{
    assert forall|k: int| #[trigger] after.pending.dom().contains(k) implies {
        &&& 0 <= k < after.count
        &&& after.entries[k] == 0
        &&& settled(after, after.pending[k])
        &&& !after.fresh.contains(after.pending[k])
    } by {
        assert(settled(m, m.pending[k]));
    }
    assert forall|k: int| 0 <= k < ALLOX_POOL_SIZE && #[trigger] after.entries[k] != 0 implies {
        &&& k < after.count
        &&& settled(after, after.entries[k] - 1)
        &&& !after.fresh.contains(after.entries[k] - 1)
    } by {
        assert(settled(m, m.entries[k] - 1));
    }
}

/// One enabled step keeps a pool orderly.
pub proof fn lemma_step_keeps_pool_orderly(m: PoolModel, step: PoolStep)
    requires
        orderly(m),
        enabled(m, step),
    ensures
        orderly(next(m, step)),
{
    let after = next(m, step);
    match step {
        PoolStep::Reserve { sector } => {
            lemma_holders_carry_over(m, after);
            lemma_places_carry_over(m, after);
        },
        PoolStep::Adopt { sector, base } => {
            assert forall|i: int| 0 <= i < SECTOR_POOL_SIZE implies #[trigger] after.mapped_times[i]
                == (if after.bases[i] != 0 {
                1nat
            } else {
                0nat
            }) by {
                assert(m.mapped_times[i] == (if m.bases[i] != 0 {
                    1nat
                } else {
                    0nat
                }));
            }
            if m.fresh.contains(sector) {
                assert(settled(m, sector));
            }
            lemma_holders_carry_over(m, after);
            lemma_places_carry_over(m, after);
        },
        PoolStep::Fill { sector } => {
            assert(held(m, sector));
            lemma_holders_carry_over(m, after);
            lemma_places_carry_over(m, after);
        },
        PoolStep::Unlock { sector } => {
            if m.adopting.contains(sector) {
                assert(held(m, sector));
            }
            lemma_holders_carry_over(m, after);
            lemma_places_carry_over(m, after);
        },
        PoolStep::Grow { sector } => {
            assert(settled(m, sector));
            lemma_holders_carry_over(m, after);
            assert forall|k: int| #[trigger] after.pending.dom().contains(k) implies {
                &&& 0 <= k < after.count
                &&& after.entries[k] == 0
                &&& settled(after, after.pending[k])
                &&& !after.fresh.contains(after.pending[k])
            } by {
                if k == m.count {
                    if m.entries[k] != 0 {
                        assert(k < m.count);
                    }
                } else {
                    assert(m.pending.dom().contains(k));
                    assert(settled(m, m.pending[k]));
                }
            }
            assert forall|j: int, k: int|
                after.pending.dom().contains(j) && after.pending.dom().contains(k) && j
                    != k implies after.pending[j] != after.pending[k] by {
                if j != m.count {
                    assert(m.pending.dom().contains(j));
                }
                if k != m.count {
                    assert(m.pending.dom().contains(k));
                }
            }
            assert forall|k: int|
                0 <= k < ALLOX_POOL_SIZE && #[trigger] after.entries[k] != 0 implies {
                &&& k < after.count
                &&& settled(after, after.entries[k] - 1)
                &&& !after.fresh.contains(after.entries[k] - 1)
            } by {
                assert(settled(m, m.entries[k] - 1));
            }
            assert forall|j: int, k: int|
                0 <= k < ALLOX_POOL_SIZE && after.pending.dom().contains(
                    j,
                ) implies #[trigger] after.entries[k] != #[trigger] after.pending[j] + 1 by {
                if j == m.count {
                    if m.entries[k] != 0 {
                        assert(!m.fresh.contains(m.entries[k] - 1));
                    }
                } else {
                    assert(m.pending.dom().contains(j));
                }
            }
        },
        PoolStep::Forgo { sector } => {
            lemma_holders_carry_over(m, after);
            lemma_places_carry_over(m, after);
        },
        PoolStep::Enter { place } => {
            let s = m.pending[place];
            assert(m.pending.dom().contains(place));
            assert(settled(m, s));
            assert(after.entries[place] == s + 1);
            lemma_holders_carry_over(m, after);
            assert forall|k: int| #[trigger] after.pending.dom().contains(k) implies {
                &&& 0 <= k < after.count
                &&& after.entries[k] == 0
                &&& settled(after, after.pending[k])
                &&& !after.fresh.contains(after.pending[k])
            } by {
                assert(m.pending.dom().contains(k));
                assert(settled(m, m.pending[k]));
            }
            assert forall|k: int|
                0 <= k < ALLOX_POOL_SIZE && #[trigger] after.entries[k] != 0 implies {
                &&& k < after.count
                &&& settled(after, after.entries[k] - 1)
                &&& !after.fresh.contains(after.entries[k] - 1)
            } by {
                if k != place {
                    assert(m.entries[k] != 0);
                    assert(settled(m, m.entries[k] - 1));
                }
            }
            assert forall|j: int, k: int|
                0 <= k < ALLOX_POOL_SIZE && after.pending.dom().contains(
                    j,
                ) implies #[trigger] after.entries[k] != #[trigger] after.pending[j] + 1 by {
                assert(m.pending.dom().contains(j));
                if k == place {
                    assert(m.pending[j] != m.pending[place]);
                } else {
                    assert(m.entries[k] != m.pending[j] + 1);
                }
            }
            assert forall|j: int, k: int|
                0 <= j < after.entries.len() && 0 <= k < after.entries.len() && j != k
                    && after.entries[j] != 0 implies after.entries[j] != after.entries[k] by {
                if j == place {
                    assert(m.entries[k] != m.pending[place] + 1);
                } else if k == place {
                    assert(m.entries[j] != m.pending[place] + 1);
                }
            }
        },
        PoolStep::View { sector } => {
            let place = choose|place: int| entered(m, place, sector);
            assert(m.entries[place] != 0);
            assert(settled(m, m.entries[place] - 1));
            lemma_holders_carry_over(m, after);
            lemma_places_carry_over(m, after);
        },
        PoolStep::Leave { sector } => {
            lemma_holders_carry_over(m, after);
            lemma_places_carry_over(m, after);
        },
    }
}

/// Activation safety: in every state that a pool can reach, whatever the
/// interleaving of the threads' steps, each sector of the pool has been
/// mapped at most once, no sector stands at two places of the active array,
/// and a sector that has a mapping and is open to viewers has its bitmap set
/// up.
pub proof fn law_activation_is_safe(steps: Seq<PoolStep>)
    requires
        feasible(steps),
    ensures
        orderly(run(steps)),
        mapped_once(run(steps)),
        entries_distinct(run(steps)),
        ready_when_open(run(steps)),
        forall|i: int| 0 <= i < SECTOR_POOL_SIZE ==> run(steps).mapped_times[i] <= 1,
        forall|j: int, k: int, s: int|
            entered(run(steps), j, s) && entered(run(steps), k, s) && 0 <= s ==> j == k,
    decreases steps.len(),
{
    if steps.len() > 0 {
        law_activation_is_safe(steps.drop_last());
        lemma_step_keeps_pool_orderly(run(steps.drop_last()), steps.last());
    }
    let m = run(steps);
    assert forall|i: int| 0 <= i < SECTOR_POOL_SIZE implies m.mapped_times[i] <= 1 by {
        assert(m.mapped_times[i] == (if m.bases[i] != 0 {
            1nat
        } else {
            0nat
        }));
    }
    assert forall|i: int| 0 <= i < SECTOR_POOL_SIZE implies {
        &&& (#[trigger] m.bases[i] != 0 && m.viewers[i] != EXCLUSIVE ==> m.filled[i])
        &&& (0 < m.viewers[i] < EXCLUSIVE ==> m.bases[i] != 0)
    } by {
        if m.adopting.contains(i) {
            assert(held(m, i));
        }
    }
}

/// A sector takes a mapping only while one thread holds it, and only while
/// it has none.
pub proof fn law_adoption_needs_the_claim(m: PoolModel, sector: int, base: usize)
    requires
        orderly(m),
        enabled(m, PoolStep::Adopt { sector, base }),
    ensures
        m.viewers[sector] == EXCLUSIVE,
        m.bases[sector] == 0,
        m.mapped_times[sector] == 0,
        !published(m, sector),
{
    assert(m.mapped_times[sector] == (if m.bases[sector] != 0 {
        1nat
    } else {
        0nat
    }));
    if published(m, sector) {
        let place = choose|place: int| entered(m, place, sector);
        assert(m.entries[place] != 0);
        assert(settled(m, m.entries[place] - 1));
    }
}

/// Whether the model `m` holds the viewer counts, the bases, the active array
/// and its count that the words `v` hold.
pub open spec fn shows(m: PoolModel, v: WordsView) -> bool {
    &&& shaped(v)
    &&& m.viewers.len() == SECTOR_POOL_SIZE
    &&& m.bases.len() == SECTOR_POOL_SIZE
    &&& forall|i: int|
        0 <= i < SECTOR_POOL_SIZE ==> m.viewers[i] == (#[trigger] v.sectors[i]).viewers
            && m.bases[i] == v.sectors[i].base
    &&& m.count == v.count
    &&& m.entries == v.entries
}

/// The steps by which one thread adds sector `at` on the mapping at `mapped`
/// and enters it at place `place`, in their order.
pub open spec fn adding_steps(at: int, mapped: usize, place: int) -> Seq<PoolStep> {
    seq![
        PoolStep::Reserve { sector: at },
        PoolStep::Adopt { sector: at, base: mapped },
        PoolStep::Fill { sector: at },
        PoolStep::Unlock { sector: at },
        PoolStep::Grow { sector: at },
        PoolStep::Enter { place },
    ]
}

/// The state after the first `n` of `steps` have happened in state `m`.
pub open spec fn follow(m: PoolModel, steps: Seq<PoolStep>, n: int) -> PoolModel
    decreases n,
{
    if n <= 0 {
        m
    } else {
        next(follow(m, steps, n - 1), steps[n - 1])
    }
}

/// Whether each of the first `n` of `steps` is enabled when it happens from
/// state `m` on.
pub open spec fn passable(m: PoolModel, steps: Seq<PoolStep>, n: int) -> bool
    decreases n,
{
    n <= 0 || (passable(m, steps, n - 1) && enabled(follow(m, steps, n - 1), steps[n - 1]))
}

/// Enabled steps keep a pool orderly, however many there are.
pub proof fn lemma_steps_keep_pool_orderly(m: PoolModel, steps: Seq<PoolStep>, n: int)
    requires
        orderly(m),
        passable(m, steps, n),
    ensures
        orderly(follow(m, steps, n)),
    decreases n,
{
    if n > 0 {
        lemma_steps_keep_pool_orderly(m, steps, n - 1);
        lemma_step_keeps_pool_orderly(follow(m, steps, n - 1), steps[n - 1]);
    }
}

/// Adding a sector while the words are alone is six steps of the model, each
/// enabled when it happens: the thread reserves the first spare sector, makes
/// it take the mapping, sets up the bitmap, lets the sector go, reserves the
/// next place and enters the sector there. So what holds of every history of
/// a pool holds after the call.
pub proof fn law_adding_takes_six_steps(m: PoolModel, v: WordsView, mapped: usize, size: usize)
    requires
        orderly(m),
        shows(m, v),
        addable(v, mapped, size),
    ensures
        ({
            let steps = adding_steps(first_spare(v, 0).unwrap(), mapped, v.count as int);
            &&& passable(m, steps, 6)
            &&& shows(follow(m, steps, 6), after_adding(v, mapped, size))
            &&& orderly(follow(m, steps, 6))
        }),
{
    lemma_first_spare(v, 0);
    let at = first_spare(v, 0).unwrap();
    let steps = adding_steps(at, mapped, v.count as int);
    let after = after_adding(v, mapped, size);
    reveal_with_fuel(follow, 7);
    reveal_with_fuel(passable, 7);
    let m1 = follow(m, steps, 1);
    let m2 = follow(m, steps, 2);
    let m3 = follow(m, steps, 3);
    let m4 = follow(m, steps, 4);
    let m5 = follow(m, steps, 5);
    let m6 = follow(m, steps, 6);
    assert(m1 == next(m, steps[0]));
    assert(m2 == next(m1, steps[1]));
    assert(m3 == next(m2, steps[2]));
    assert(m4 == next(m3, steps[3]));
    assert(m5 == next(m4, steps[4]));
    assert(m6 == next(m5, steps[5]));
    assert(v.sectors[at].viewers == 0 && v.sectors[at].base == 0);
    assert(enabled(m, steps[0]));
    assert(enabled(m1, steps[1]));
    assert(enabled(m2, steps[2]));
    assert(enabled(m3, steps[3]));
    assert(enabled(m4, steps[4]));
    assert(enabled(m5, steps[5]));
    lemma_steps_keep_pool_orderly(m, steps, 6);
    assert(m6.entries =~= after.entries);
    assert forall|i: int| 0 <= i < SECTOR_POOL_SIZE implies m6.viewers[i] == (
    #[trigger] after.sectors[i]).viewers && m6.bases[i] == after.sectors[i].base by {
        assert(m.viewers[i] == v.sectors[i].viewers && m.bases[i] == v.sectors[i].base);
    }
}

} // verus!
