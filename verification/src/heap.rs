//! A bounded binary max-heap of `usize` in a vector.

use vstd::multiset::Multiset;
use vstd::prelude::*;
use vstd::seq_lib::to_multiset_update;

verus! {

/// The place of the parent of place `i`, for `i` of at least 1.
pub open spec fn parent(i: int) -> int {
    (i - 1) / 2
}

/// Every item but the first is no larger than its parent.
pub open spec fn heap_ordered(s: Seq<usize>) -> bool {
    forall|i: int| 1 <= i < s.len() ==> s[parent(i)] >= #[trigger] s[i]
}

/// Every item but the first and the one at `hole` is no larger than its
/// parent, and the children of `hole` are no larger than its parent.
spec fn ordered_but_above(s: Seq<usize>, hole: int) -> bool {
    &&& forall|i: int| 1 <= i < s.len() && i != hole ==> s[parent(i)] >= #[trigger] s[i]
    &&& forall|i: int|
        1 <= i < s.len() && parent(i) == hole && hole >= 1 ==> s[parent(hole)] >= #[trigger] s[i]
}

/// Every item whose parent is not at `hole` is no larger than its parent, and
/// the children of `hole` are no larger than its parent.
spec fn ordered_but_below(s: Seq<usize>, hole: int) -> bool {
    &&& forall|i: int| 1 <= i < s.len() && parent(i) != hole ==> s[parent(i)] >= #[trigger] s[i]
    &&& forall|i: int|
        1 <= i < s.len() && parent(i) == hole && hole >= 1 ==> s[parent(hole)] >= #[trigger] s[i]
}

/// `top` is in `m` and nothing in `m` is larger.
pub open spec fn is_max_of(top: usize, m: Multiset<usize>) -> bool {
    m.count(top) > 0 && forall|x: usize| m.count(x) > 0 ==> x <= top
}

/// In a heap-ordered sequence the first item is the largest.
pub proof fn lemma_root_is_largest(s: Seq<usize>, i: int)
    requires
        heap_ordered(s),
        0 <= i < s.len(),
    ensures
        s[0] >= s[i],
    decreases i,
{
    if i > 0 {
        lemma_root_is_largest(s, parent(i));
    }
}

/// In a heap-ordered sequence that is not empty the first item is the maximum
/// of the items.
pub proof fn lemma_root_is_max(s: Seq<usize>)
    requires
        heap_ordered(s),
        s.len() > 0,
    ensures
        is_max_of(s[0], s.to_multiset()),
{
    s.to_multiset_ensures();
    assert(s.contains(s[0]));
    assert forall|x: usize| s.to_multiset().count(x) > 0 implies x <= s[0] by {
        assert(s.contains(x));
        let i = choose|i: int| 0 <= i < s.len() && s[i] == x;
        lemma_root_is_largest(s, i);
    }
}

proof fn lemma_swap_keeps_items(s: Seq<usize>, i: int, j: int)
    requires
        0 <= i < s.len(),
        0 <= j < s.len(),
    ensures
        s.update(i, s[j]).update(j, s[i]).to_multiset() == s.to_multiset(),
{
    let t = s.update(i, s[j]);
    to_multiset_update(s, i, s[j]);
    to_multiset_update(t, j, s[i]);
    s.to_multiset_ensures();
    assert(s.contains(s[i]));
    assert(s.contains(s[j]));
    assert(t.update(j, s[i]).to_multiset() =~= s.to_multiset());
}

/// A max-heap that holds at most as many items as it was made for.
pub struct MaxHeap {
    data: Vec<usize>,
    limit: usize,
}

impl MaxHeap {
    /// The items in the order in which the heap stores them.
    pub closed spec fn items(&self) -> Seq<usize> {
        self.data@
    }

    /// The number of items that the heap was made for.
    pub closed spec fn limit(&self) -> nat {
        self.limit as nat
    }

    /// The items as a bag.
    pub open spec fn view(&self) -> Multiset<usize> {
        self.items().to_multiset()
    }

    /// The stored order is heap order and the limit is kept.
    pub open spec fn wf(&self) -> bool {
        heap_ordered(self.items()) && self.items().len() <= self.limit()
    }

    /// An empty heap for at most `n` items.
    pub fn new(n: usize) -> (h: Self)
        ensures
            h.wf(),
            h.items() == Seq::<usize>::empty(),
            h.limit() == n,
    {
        MaxHeap { data: Vec::with_capacity(n), limit: n }
    }

    fn swap(&mut self, i: usize, j: usize)
        requires
            i < old(self).data.len(),
            j < old(self).data.len(),
        ensures
            final(self).data@ == old(self).data@.update(i as int, old(self).data@[j as int]).update(
                j as int,
                old(self).data@[i as int],
            ),
            final(self).data@.to_multiset() == old(self).data@.to_multiset(),
            final(self).limit == old(self).limit,
    {
        let a = self.data[i];
        let b = self.data[j];
        self.data.set(i, b);
        self.data.set(j, a);
        proof {
            lemma_swap_keeps_items(old(self).data@, i as int, j as int);
        }
    }

    /// Adds `dat`, unless the heap is full.
    ///
    /// The item is appended and then swapped with its parent for as long as
    /// it is larger than the parent.
    pub fn push(&mut self, dat: usize) -> (r: Result<(), &'static str>)
        requires
            old(self).wf(),
        ensures
            final(self).wf(),
            final(self).limit() == old(self).limit(),
            old(self).items().len() == old(self).limit() ==> {
                &&& r matches Err(e)
                &&& e@ == "Heap is full."@
                &&& final(self).items() == old(self).items()
            },
            old(self).items().len() < old(self).limit() ==> {
                &&& r is Ok
                &&& final(self)@ == old(self)@.insert(dat)
            },
    {
        if self.data.len() == self.limit {
            return Err("Heap is full.");
        }
        self.data.push(dat);
        proof {
            old(self).data@.to_multiset_ensures();
        }
        let mut idx: usize = self.data.len() - 1;
        while idx > 0
            invariant_except_break
                ordered_but_above(self.data@, idx as int),
            invariant
                idx < self.data.len(),
                self.data.len() == old(self).data.len() + 1,
                self.limit == old(self).limit,
                self.data@.to_multiset() == old(self).data@.to_multiset().insert(dat),
            ensures
                heap_ordered(self.data@),
            decreases idx,
        {
            let parent_idx: usize = (idx + 1) / 2 - 1;
            assert(parent_idx == parent(idx as int));
            if self.data[parent_idx] < self.data[idx] {
                let ghost before = self.data@;
                self.swap(parent_idx, idx);
                proof {
                    let after = self.data@;
                    let p = parent_idx as int;
                    assert forall|i: int| 1 <= i < after.len() && i != p implies after[parent(i)]
                        >= #[trigger] after[i] by {
                        if i == idx {
                            assert(after[p] >= after[idx as int]);
                        } else if parent(i) == idx {
                            assert(before[p] >= before[i]);
                        } else if parent(i) == p {
                            assert(before[p] >= before[i]);
                        } else {
                            assert(before[parent(i)] >= before[i]);
                        }
                    }
                    assert forall|i: int|
                        1 <= i < after.len() && parent(i) == p && p >= 1 implies after[parent(p)]
                        >= #[trigger] after[i] by {
                        assert(before[parent(p)] >= before[p]);
                        if i != idx {
                            assert(before[p] >= before[i]);
                        }
                    }
                }
            } else {
                break ;
            }
            idx = parent_idx;
        }
        Ok(())
    }

    /// Takes the largest item out, unless the heap is empty.
    ///
    /// The last item takes the place of the first and is then swapped with
    /// its larger child for as long as it is smaller than that child.
    pub fn pop(&mut self) -> (r: Result<usize, &'static str>)
        requires
            old(self).wf(),
        ensures
            final(self).wf(),
            final(self).limit() == old(self).limit(),
            old(self).items().len() == 0 ==> {
                &&& r matches Err(e)
                &&& e@ == "Heap is empty."@
                &&& final(self).items() == old(self).items()
            },
            old(self).items().len() > 0 ==> {
                &&& r matches Ok(top)
                &&& is_max_of(top, old(self)@)
                &&& final(self)@ == old(self)@.remove(top)
            },
    {
        if self.data.len() == 0 {
            return Err("Heap is empty.");
        }
        let item = self.data.swap_remove(0);
        proof {
            let s = old(self).data@;
            lemma_root_is_max(s);
            to_multiset_update(s, 0, s.last());
            let u = s.update(0, s.last());
            u.to_multiset_ensures();
            s.to_multiset_ensures();
            assert(u.drop_last() =~= u.remove(u.len() - 1));
            assert(s.contains(s.last()));
            assert(self.data@.to_multiset() =~= s.to_multiset().remove(item));
            assert forall|i: int| 1 <= i < self.data@.len() && parent(i) != 0 implies self.data@[parent(
                i,
            )] >= #[trigger] self.data@[i] by {
                assert(s[parent(i)] >= s[i]);
            }
        }
        let mut idx: usize = 0;
        while idx < self.data.len() / 2
            invariant_except_break
                ordered_but_below(self.data@, idx as int),
            invariant
                self.data.len() == old(self).data.len() - 1,
                self.limit == old(self).limit,
                self.data@.to_multiset() == old(self).data@.to_multiset().remove(item),
            ensures
                heap_ordered(self.data@),
            decreases self.data.len() - idx,
        {
            let l_child: usize = 2 * idx + 1;
            let r_child: usize = l_child + 1;
            let child: usize = if r_child >= self.data.len() {
                l_child
            } else if self.data[l_child] < self.data[r_child] {
                r_child
            } else {
                l_child
            };
            assert(parent(child as int) == idx);
            if self.data[idx] < self.data[child] {
                let ghost before = self.data@;
                self.swap(idx, child);
                proof {
                    let after = self.data@;
                    let c = child as int;
                    assert forall|i: int|
                        1 <= i < after.len() && parent(i) != c implies after[parent(i)]
                        >= #[trigger] after[i] by {
                        if i == c {
                            assert(after[idx as int] >= after[c]);
                        } else if parent(i) == idx {
                            assert(i == l_child || i == r_child);
                        } else if i == idx {
                            assert(before[parent(idx as int)] >= before[c]);
                        } else {
                            assert(before[parent(i)] >= before[i]);
                        }
                    }
                    assert forall|i: int|
                        1 <= i < after.len() && parent(i) == c && c >= 1 implies after[parent(c)]
                        >= #[trigger] after[i] by {
                        assert(before[c] >= before[i]);
                    }
                }
            } else {
                proof {
                    let s = self.data@;
                    assert forall|i: int| 1 <= i < s.len() implies s[parent(i)] >= #[trigger] s[i] by {
                        if parent(i) == idx {
                            assert(i == l_child || i == r_child);
                        }
                    }
                }
                break ;
            }
            idx = child;
        }
        Ok(item)
    }

    /// The largest item, if there is any.
    pub fn top(&self) -> (r: Option<&usize>)
        requires
            self.wf(),
        ensures
            match r {
                Some(t) => is_max_of(*t, self@),
                None => self.items().len() == 0,
            },
    {
        if self.data.len() == 0 {
            None
        } else {
            proof {
                lemma_root_is_max(self.data@);
            }
            Some(&self.data[0])
        }
    }

    /// Takes all items out.
    pub fn clear(&mut self)
        ensures
            final(self).wf(),
            final(self).items() == Seq::<usize>::empty(),
            final(self).limit() == old(self).limit(),
    {
        self.data.clear();
    }

    /// The items in the order in which the heap stores them.
    pub fn dump(&self) -> (r: &[usize])
        ensures
            r@ == self.items(),
    {
        self.data.as_slice()
    }
}

} // verus!
