//! Chains of the Collatz map: halve an even number, triple an odd one and add
//! one, until 1 is reached.
//!
//! Nobody knows whether every chain reaches 1, and the numbers of a chain can
//! grow past any machine integer. So the walks here take a limit on their
//! steps and give up where a number would not fit.

use vstd::prelude::*;

verus! {

/// The number after `j` in its chain.
pub open spec fn step(j: nat) -> nat {
    if j % 2 == 0 {
        j / 2
    } else {
        3 * j + 1
    }
}

/// The number that stands `k` steps after `j` in its chain.
pub open spec fn after(j: nat, k: nat) -> nat
    decreases k,
{
    if k == 0 {
        j
    } else {
        after(step(j), (k - 1) as nat)
    }
}

/// Whether the chain of `j` reaches 1 after `k` steps and not before.
pub open spec fn chain_is(j: nat, k: nat) -> bool {
    after(j, k) == 1 && forall|i: nat| i < k ==> after(j, i) != 1
}

/// Whether the chain of `j` first falls below `j` after `k` steps.
pub open spec fn drop_is(j: nat, k: nat) -> bool {
    after(j, k) < j && forall|i: nat| i < k ==> after(j, i) >= j
}

/// Whether the first `k` steps of the chain of `j` stay within 64 bits.
pub open spec fn fits(j: nat, k: nat) -> bool {
    forall|i: nat| i <= k ==> after(j, i) <= u64::MAX
}

/// Whether the chain of `j` does not fall below `j` within `limit` steps on
/// numbers of 64 bits.
pub open spec fn stuck(j: nat, limit: nat) -> bool {
    forall|d: nat| d <= limit ==> !(drop_is(j, d) && fits(j, d))
}

/// Whether the chain of `j` reaches 1 after more steps than 64 bits count.
pub open spec fn too_long(j: nat) -> bool {
    exists|k: nat| chain_is(j, k) && k > u64::MAX
}

/// Whether the length of the chain of `j` cannot be had by a walk of at most
/// `limit` steps on numbers of 64 bits and a count of 64 bits.
pub open spec fn out_of_reach(j: nat, limit: nat) -> bool {
    stuck(j, limit) || too_long(j)
}

/// Steps add up: `b` steps after `a` steps are `a + b` steps.
pub proof fn lemma_after_add(j: nat, a: nat, b: nat)
    ensures
        after(after(j, a), b) == after(j, a + b),
    decreases a,
{
    if a > 0 {
        lemma_after_add(step(j), (a - 1) as nat, b);
    }
}

/// One more step at the end of `k` steps.
pub proof fn lemma_after_last(j: nat, k: nat)
    ensures
        after(j, k + 1) == step(after(j, k)),
{
    lemma_after_add(j, k, 1);
    assert(after(after(j, k), 1) == step(after(j, k))) by {
        reveal_with_fuel(after, 2);
    }
}

/// A chain reaches 1 for the first time at one place only.
pub proof fn lemma_chain_unique(j: nat, a: nat, b: nat)
    requires
        chain_is(j, a),
        chain_is(j, b),
    ensures
        a == b,
{
}

/// A chain that has dropped to a smaller number goes on as the chain of that
/// number: where `j` first falls below itself after `d` steps, on a number
/// whose chain has `k` steps, the chain of `j` has `d + k` steps.
pub proof fn lemma_chain_after_drop(j: nat, d: nat, k: nat)
    requires
        j >= 2,
        drop_is(j, d),
        chain_is(after(j, d), k),
    ensures
        chain_is(j, d + k),
{
    lemma_after_add(j, d, k);
    assert forall|i: nat| i < d + k implies after(j, i) != 1 by {
        if i < d {
            assert(after(j, i) >= j);
        } else {
            lemma_after_add(j, d, (i - d) as nat);
            assert(after(after(j, d), (i - d) as nat) != 1);
        }
    }
}

/// The number of steps after which the chain of `start` reaches 1.
///
/// `None` says that the chain does not get there within `limit` steps on
/// numbers of 64 bits.
pub fn chain_length(start: u64, limit: u64) -> (r: Option<u64>)
    ensures
        match r {
            Some(k) => k <= limit && chain_is(start as nat, k as nat) && fits(
                start as nat,
                k as nat,
            ),
            None => forall|k: nat|
                k <= limit ==> !(chain_is(start as nat, k) && fits(start as nat, k)),
        },
{
    let mut j: u64 = start;
    let mut count: u64 = 0;
    while j != 1
        invariant
            count <= limit,
            j == after(start as nat, count as nat),
            forall|i: nat| i < count ==> after(start as nat, i) != 1,
            forall|i: nat| i <= count ==> after(start as nat, i) <= u64::MAX,
        decreases limit - count,
    {
        if count == limit {
            proof {
                assert forall|k: nat| k <= limit implies !(chain_is(start as nat, k) && fits(
                    start as nat,
                    k,
                )) by {
                    if chain_is(start as nat, k) {
                        if k < count {
                            assert(after(start as nat, k) != 1);
                        }
                    }
                }
            }
            return None;
        }
        proof {
            lemma_after_last(start as nat, count as nat);
        }
        if j % 2 == 0 {
            j = j / 2;
        } else if j > (u64::MAX - 1) / 3 {
            proof {
                let over = (count + 1) as nat;
                assert(after(start as nat, over) > u64::MAX);
                assert forall|k: nat| k <= limit implies !(chain_is(start as nat, k) && fits(
                    start as nat,
                    k,
                )) by {
                    if chain_is(start as nat, k) && fits(start as nat, k) {
                        if k <= count {
                            if k < count {
                                assert(after(start as nat, k) != 1);
                            }
                        } else {
                            assert(over <= k);
                            assert(after(start as nat, over) <= u64::MAX);
                        }
                    }
                }
            }
            return None;
        } else {
            j = 3 * j + 1;
        }
        count = count + 1;
    }
    Some(count)
}

/// The longest chain among the chains of 1 up to `n`: its number of steps, and
/// the lowest number that it starts from.
///
/// The chain of each number is walked only until it falls below the number,
/// from where its length is known already. `None` says that some walk did not
/// fall within `limit` steps on numbers of 64 bits, or that some chain has
/// more steps than 64 bits count.
pub fn longest_chain(n: usize, limit: u64) -> (r: Option<(u64, usize)>)
    requires
        1 <= n < usize::MAX,
    ensures
        match r {
            Some((max, at)) => {
                &&& 1 <= at <= n
                &&& chain_is(at as nat, max as nat)
                &&& forall|i: nat, k: nat| 1 <= i <= n && chain_is(i, k) ==> k <= max
                &&& forall|i: nat| 1 <= i < at ==> !chain_is(i, max as nat)
            },
            None => exists|i: nat| 2 <= i <= n && out_of_reach(i, limit as nat),
        },
{
    let mut prev: Vec<u64> = Vec::new();
    prev.push(0);
    let mut max: u64 = 0;
    let mut max_i: usize = 1;
    proof {
        assert(chain_is(1, 0));
    }
    let mut i: usize = 2;
    while i <= n
        invariant
            2 <= i <= n + 1,
            n < usize::MAX,
            prev.len() == i - 1,
            forall|m: int| 1 <= m < i ==> chain_is(m as nat, #[trigger] prev@[m - 1] as nat),
            forall|m: int| 1 <= m < i ==> #[trigger] prev@[m - 1] <= max,
            1 <= max_i < i,
            prev@[max_i - 1] == max,
            forall|m: int| 1 <= m < max_i ==> #[trigger] prev@[m - 1] < max,
        decreases n + 1 - i,
    {
        let mut j: u64 = i as u64;
        let mut count: u64 = 0;
        while j >= i as u64
            invariant
                count <= limit,
                2 <= i <= n,
                j == after(i as nat, count as nat),
                forall|s: nat| s < count ==> after(i as nat, s) >= i,
                forall|s: nat| s <= count ==> after(i as nat, s) <= u64::MAX,
            decreases limit - count,
        {
            if count == limit {
                proof {
                    assert forall|d: nat| d <= limit implies !(drop_is(i as nat, d) && fits(
                        i as nat,
                        d,
                    )) by {
                        if drop_is(i as nat, d) {
                            if d < count {
                                assert(after(i as nat, d) >= i);
                            }
                        }
                    }
                    assert(out_of_reach(i as nat, limit as nat));
                }
                return None;
            }
            proof {
                lemma_after_last(i as nat, count as nat);
            }
            if j % 2 == 0 {
                j = j / 2;
            } else if j > (u64::MAX - 1) / 3 {
                proof {
                    let over = (count + 1) as nat;
                    assert(after(i as nat, over) > u64::MAX);
                    assert forall|d: nat| d <= limit implies !(drop_is(i as nat, d) && fits(
                        i as nat,
                        d,
                    )) by {
                        if drop_is(i as nat, d) && fits(i as nat, d) {
                            if d <= count {
                                if d < count {
                                    assert(after(i as nat, d) >= i);
                                }
                            } else {
                                assert(after(i as nat, over) <= u64::MAX);
                            }
                        }
                    }
                    assert(out_of_reach(i as nat, limit as nat));
                }
                return None;
            } else {
                j = 3 * j + 1;
            }
            count = count + 1;
        }
        proof {
            assert(j >= 1) by {
                if j == 0 {
                    if count > 0 {
                        lemma_after_last(i as nat, (count - 1) as nat);
                        assert(after(i as nat, (count - 1) as nat) >= i);
                    }
                }
            }
            assert(drop_is(i as nat, count as nat));
            lemma_chain_after_drop(i as nat, count as nat, prev@[j - 1] as nat);
        }
        let rest = prev[j as usize - 1];
        let total = match count.checked_add(rest) {
            Some(t) => t,
            None => {
                proof {
                    assert(chain_is(i as nat, (count + rest) as nat));
                    assert(too_long(i as nat));
                    assert(out_of_reach(i as nat, limit as nat));
                }
                return None;
            },
        };
        prev.push(total);
        if total > max {
            max = total;
            max_i = i;
        }
        i = i + 1;
    }
    proof {
        assert forall|m: nat, k: nat| 1 <= m <= n && chain_is(m, k) implies k <= max by {
            lemma_chain_unique(m, k, prev@[m - 1] as nat);
        }
        assert forall|m: nat| 1 <= m < max_i implies !chain_is(m, max as nat) by {
            if chain_is(m, max as nat) {
                lemma_chain_unique(m, max as nat, prev@[m - 1] as nat);
            }
        }
    }
    Some((max, max_i))
}

} // verus!
