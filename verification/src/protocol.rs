//! What sequences of successful atomic steps do to one sector's bitmap.
//!
//! Threads change a bitmap only by a compare-and-swap that succeeds, and the
//! successful swaps on one word happen in one order. Each of them replaces the
//! value that its thread had read and tested by the value that the thread had
//! computed from it, with the functions of [`crate::bitmap`]. So a history of
//! a sector is a sequence of events, each admitted by the state that the
//! events before it have produced, however the threads were interleaved.
//!
//! The state is kept as the set of chunks that the bitmap marks, which is what
//! the contracts of [`crate::bitmap`] speak of, beside the set of allocations
//! that are handed out and not yet given back.

use vstd::prelude::*;
use crate::bitmap::chunk_run;
use crate::bitmap::first_fit;
use crate::bitmap::lemma_first_fit;
use crate::bitmap::lemma_first_fit_is;
use crate::bitmap::lemma_occupied_bounds;
use crate::bitmap::lemma_occupied_injective;
use crate::bitmap::occupied;
use crate::bitmap::run_free;
use crate::bitmap::WIDTH;

verus! {

/// A run of chunks that one allocation occupies: `n` chunks from chunk `off`.
pub struct Span {
    pub off: int,
    pub n: int,
}

/// A successful atomic step on a sector's bitmap.
pub enum Event {
    /// The run was free in the bitmap and has been set.
    Claim(Span),
    /// The run belonged to a live allocation and has been cleared.
    Release(Span),
}

/// The state of one sector: the chunks that its bitmap marks, and the
/// allocations that are live.
pub struct Ledger {
    pub taken: Set<int>,
    pub live: Set<Span>,
}

/// The chunks of a span.
pub open spec fn span_chunks(s: Span) -> Set<int> {
    chunk_run(s.off, s.n)
}

/// A span of at least one chunk that lies inside a sector.
pub open spec fn span_fits(s: Span) -> bool {
    0 <= s.off && 1 <= s.n && s.off + s.n <= WIDTH
}

/// Whether `e` can happen in state `l`. A claim sets a run that fits and is
/// free, which is what the claiming thread tested on the value that its swap
/// replaced. A release gives back an allocation that is live, which is what
/// callers owe.
pub open spec fn allowed(l: Ledger, e: Event) -> bool {
    match e {
        Event::Claim(s) => span_fits(s) && l.taken.disjoint(span_chunks(s)),
        Event::Release(s) => l.live.contains(s),
    }
}

/// The state after `e` has happened in state `l`.
pub open spec fn apply(l: Ledger, e: Event) -> Ledger {
    match e {
        Event::Claim(s) => Ledger { taken: l.taken.union(span_chunks(s)), live: l.live.insert(s) },
        Event::Release(s) => Ledger {
            taken: l.taken.difference(span_chunks(s)),
            live: l.live.remove(s),
        },
    }
}

/// The state of a fresh sector after `events`.
pub open spec fn replay(events: Seq<Event>) -> Ledger
    decreases events.len(),
{
    if events.len() == 0 {
        Ledger { taken: Set::empty(), live: Set::empty() }
    } else {
        apply(replay(events.drop_last()), events.last())
    }
}

/// Whether each of `events` was allowed when it happened.
pub open spec fn admissible(events: Seq<Event>) -> bool
    decreases events.len(),
{
    events.len() == 0 || (admissible(events.drop_last()) && allowed(
        replay(events.drop_last()),
        events.last(),
    ))
}

/// No two live allocations share a chunk.
pub open spec fn apart(live: Set<Span>) -> bool {
    forall|s: Span, t: Span|
        live.contains(s) && live.contains(t) && s != t ==> #[trigger] span_chunks(s).disjoint(
            #[trigger] span_chunks(t),
        )
}

/// The marked chunks are exactly the chunks of the live allocations, each of
/// which fits.
pub open spec fn accounted(l: Ledger) -> bool {
    &&& forall|s: Span| l.live.contains(s) ==> span_fits(s)
    &&& forall|s: Span, i: int|
        l.live.contains(s) && #[trigger] span_chunks(s).contains(i) ==> l.taken.contains(i)
    &&& forall|i: int|
        l.taken.contains(i) ==> exists|s: Span|
            l.live.contains(s) && #[trigger] span_chunks(s).contains(i)
}

/// One allowed step keeps the live allocations apart and accounted for.
pub proof fn lemma_step_keeps_order(l: Ledger, e: Event)
    requires
        apart(l.live),
        accounted(l),
        allowed(l, e),
    ensures
        apart(apply(l, e).live),
        accounted(apply(l, e)),
{
    let after = apply(l, e);
    match e {
        Event::Claim(s) => {
            assert forall|a: Span, b: Span|
                after.live.contains(a) && after.live.contains(b) && a != b implies span_chunks(
                a,
            ).disjoint(span_chunks(b)) by {
                if a == s {
                    assert forall|i: int|
                        !(span_chunks(a).contains(i) && span_chunks(b).contains(i)) by {
                        if span_chunks(b).contains(i) {
                            assert(l.taken.contains(i));
                        }
                    }
                } else if b == s {
                    assert forall|i: int|
                        !(span_chunks(a).contains(i) && span_chunks(b).contains(i)) by {
                        if span_chunks(a).contains(i) {
                            assert(l.taken.contains(i));
                        }
                    }
                }
            }
            assert forall|i: int| after.taken.contains(i) implies exists|t: Span|
                after.live.contains(t) && #[trigger] span_chunks(t).contains(i) by {
                if l.taken.contains(i) {
                    let t = choose|t: Span| l.live.contains(t) && span_chunks(t).contains(i);
                    assert(after.live.contains(t) && span_chunks(t).contains(i));
                } else {
                    assert(after.live.contains(s) && span_chunks(s).contains(i));
                }
            }
        },
        Event::Release(s) => {
            assert forall|t: Span, i: int|
                after.live.contains(t) && #[trigger] span_chunks(t).contains(
                    i,
                ) implies after.taken.contains(i) by {
                assert(span_chunks(t).disjoint(span_chunks(s)));
            }
            assert forall|i: int| after.taken.contains(i) implies exists|t: Span|
                after.live.contains(t) && #[trigger] span_chunks(t).contains(i) by {
                let t = choose|t: Span| l.live.contains(t) && span_chunks(t).contains(i);
                assert(t != s);
                assert(after.live.contains(t) && span_chunks(t).contains(i));
            }
        },
    }
}

/// The events before any point of an admissible history are admissible.
pub proof fn lemma_prefix_admissible(events: Seq<Event>, k: int)
    requires
        admissible(events),
        0 <= k <= events.len(),
    ensures
        admissible(events.take(k)),
    decreases events.len(),
{
    if k == events.len() {
        assert(events.take(k) =~= events);
    } else {
        lemma_prefix_admissible(events.drop_last(), k);
        assert(events.drop_last().take(k) =~= events.take(k));
    }
}

/// No overlapping chunks: at every point of every admissible history of a
/// sector, no two live allocations share a chunk, and the bitmap marks exactly
/// the chunks of the live allocations.
pub proof fn law_no_overlapping_chunks(events: Seq<Event>, k: int)
    requires
        admissible(events),
        0 <= k <= events.len(),
    ensures
        apart(replay(events.take(k)).live),
        accounted(replay(events.take(k))),
    decreases k,
{
    lemma_prefix_admissible(events, k);
    let upto = events.take(k);
    if k > 0 {
        law_no_overlapping_chunks(events, k - 1);
        assert(upto.drop_last() =~= events.take(k - 1));
        lemma_step_keeps_order(replay(upto.drop_last()), upto.last());
    }
}

/// A claim that the bitmap functions admit is a claim that the ledger allows,
/// and the bitmap that the swap stores marks the chunks that the ledger then
/// holds.
pub proof fn law_claim_is_a_ledger_step(l: Ledger, map: u64, claimed: u64, s: Span)
    requires
        l.taken == occupied(map),
        1 <= s.n,
        run_free(map, s.n, s.off),
        occupied(claimed) == occupied(map).union(chunk_run(s.off, s.n)),
    ensures
        allowed(l, Event::Claim(s)),
        apply(l, Event::Claim(s)).taken == occupied(claimed),
{
}

/// The bitmap that a release stores marks the chunks that the ledger holds
/// after the release.
pub proof fn law_release_is_a_ledger_step(l: Ledger, map: u64, released: u64, s: Span)
    requires
        l.taken == occupied(map),
        occupied(released) == occupied(map).difference(chunk_run(s.off, s.n)),
    ensures
        apply(l, Event::Release(s)).taken == occupied(released),
{
}

/// Round trip: when a claim of `n` chunks is released again with nothing in
/// between, the bitmap is the one from before the claim, and the next claim
/// of `n` chunks gets the same chunks.
pub proof fn law_release_then_claim_reuses(map: u64, claimed: u64, released: u64, n: int, off: int)
    requires
        1 <= n,
        first_fit(map, n, 0) == Some(off),
        occupied(claimed) == occupied(map).union(chunk_run(off, n)),
        occupied(released) == occupied(claimed).difference(chunk_run(off, n)),
    ensures
        released == map,
        first_fit(released, n, 0) == Some(off),
        run_free(released, n, off),
{
    lemma_first_fit(map, n, 0);
    assert(occupied(released) =~= occupied(map));
    lemma_occupied_injective(released, map);
}

/// The bitmap of a sector that was just mapped is the ledger of the empty
/// history: nothing is taken.
pub proof fn law_fresh_sector_is_the_empty_ledger()
    ensures
        replay(Seq::empty()).taken == occupied(0),
{
    lemma_occupied_bounds();
}

/// A sector whose chunks are all taken serves no request, from whatever
/// offset the search starts.
pub proof fn law_full_sector_serves_nothing(map: u64, n: int, start: int)
    requires
        occupied(map) == chunk_run(0, WIDTH as int),
        1 <= n,
        0 <= start,
    ensures
        first_fit(map, n, start) is None,
{
    if first_fit(map, n, start) is Some {
        let off = first_fit(map, n, start).unwrap();
        lemma_first_fit(map, n, start);
        assert(occupied(map).contains(off));
        assert(chunk_run(off, n).contains(off));
    }
}

/// A fresh sector serves `WIDTH` requests of one chunk each, one after the
/// other, at chunks 0, 1, 2 and so on.
pub proof fn law_fresh_sector_fills_in_order(map: u64, k: int)
    requires
        0 <= k < WIDTH,
        occupied(map) == chunk_run(0, k),
    ensures
        first_fit(map, 1, 0) == Some(k),
{
    assert(run_free(map, 1, k));
    assert forall|j: int| 0 <= j < k implies !run_free(map, 1, j) by {
        assert(occupied(map).contains(j));
        assert(chunk_run(j, 1).contains(j));
    }
    lemma_first_fit_is(map, 1, 0, k);
}

/// A sector whose chunks are all taken but chunk `c` serves a request for
/// one chunk with chunk `c`.
pub proof fn law_one_free_chunk_is_found(map: u64, c: int)
    requires
        0 <= c < WIDTH,
        occupied(map) == chunk_run(0, WIDTH as int).remove(c),
    ensures
        first_fit(map, 1, 0) == Some(c),
{
    assert(run_free(map, 1, c));
    assert forall|j: int| 0 <= j < c implies !run_free(map, 1, j) by {
        assert(occupied(map).contains(j));
        assert(chunk_run(j, 1).contains(j));
    }
    lemma_first_fit_is(map, 1, 0, c);
}

} // verus!
