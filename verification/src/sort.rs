//! Stable sorting by an integer key.
use vstd::prelude::*;

verus! {

/// How many elements at the front of `order` have a key up to `key`.
pub open spec fn rank(order: Seq<usize>, keys: Seq<u64>, key: u64) -> int
    decreases order.len(),
{
    if order.len() == 0 || keys[order[0] as int] > key {
        0
    } else {
        1 + rank(order.drop_first(), keys, key)
    }
}

/// The places of the first `n` keys, in ascending order of the keys; equal keys
/// keep their order.
pub open spec fn stable_order(keys: Seq<u64>, n: int) -> Seq<usize>
    decreases n,
{
    if n <= 0 {
        seq![]
    } else {
        let before = stable_order(keys, n - 1);
        before.insert(rank(before, keys, keys[n - 1]), (n - 1) as usize)
    }
}

/// Whether the keys ascend along `order`, and equal keys keep their order.
pub open spec fn ascending(order: Seq<usize>, keys: Seq<u64>) -> bool {
    forall|i: int, j: int|
        0 <= i < j < order.len() ==> precedes(keys, #[trigger] order[i], #[trigger] order[j])
}

/// Whether place `a` comes before place `b`.
pub open spec fn precedes(keys: Seq<u64>, a: usize, b: usize) -> bool {
    keys[a as int] < keys[b as int] || (keys[a as int] == keys[b as int] && a < b)
}

/// Whether `order` holds each of the first `n` places once.
pub open spec fn is_permutation(order: Seq<usize>, n: int) -> bool {
    &&& order.len() == n
    &&& order.no_duplicates()
    &&& forall|k: usize| #[trigger] order.contains(k) <==> k < n
}

proof fn rank_bounds(order: Seq<usize>, keys: Seq<u64>, key: u64)
    requires
        ascending(order, keys),
    ensures
        0 <= rank(order, keys, key) <= order.len(),
        forall|i: int| 0 <= i < rank(order, keys, key) ==> keys[#[trigger] order[i] as int] <= key,
        forall|i: int|
            rank(order, keys, key) <= i < order.len() ==> keys[#[trigger] order[i] as int] > key,
    decreases order.len(),
{
    if order.len() > 0 && keys[order[0] as int] <= key {
        let rest = order.drop_first();
        assert forall|i: int, j: int| 0 <= i < j < rest.len() implies precedes(
            keys,
            #[trigger] rest[i],
            #[trigger] rest[j],
        ) by {
            assert(rest[i] == order[i + 1]);
            assert(rest[j] == order[j + 1]);
        }
        rank_bounds(rest, keys, key);
        let r = rank(order, keys, key);
        assert forall|i: int| 0 <= i < r implies keys[#[trigger] order[i] as int] <= key by {
            if i > 0 {
                assert(rest[i - 1] == order[i]);
            }
        }
        assert forall|i: int| r <= i < order.len() implies keys[#[trigger] order[i] as int]
            > key by {
            assert(rest[i - 1] == order[i]);
        }
    } else if order.len() > 0 {
        assert forall|i: int| 0 <= i < order.len() implies keys[#[trigger] order[i] as int]
            > key by {
            if i > 0 {
                assert(precedes(keys, order[0], order[i]));
            }
        }
    }
}

proof fn rank_is(order: Seq<usize>, keys: Seq<u64>, key: u64, r: int)
    requires
        ascending(order, keys),
        0 <= r <= order.len(),
        forall|i: int| 0 <= i < r ==> keys[#[trigger] order[i] as int] <= key,
        forall|i: int| r <= i < order.len() ==> keys[#[trigger] order[i] as int] > key,
    ensures
        rank(order, keys, key) == r,
{
    rank_bounds(order, keys, key);
    let k = rank(order, keys, key);
    if k < r {
        assert(keys[order[k] as int] <= key);
    }
    if r < k {
        assert(keys[order[r] as int] > key);
    }
}

/// The stable order is a rearrangement in which the keys ascend and equal keys
/// keep their order.
pub proof fn stable_order_is_sorted(keys: Seq<u64>, n: int)
    requires
        0 <= n <= keys.len(),
        n <= usize::MAX,
    ensures
        ascending(stable_order(keys, n), keys),
        is_permutation(stable_order(keys, n), n),
    decreases n,
{
    if n > 0 {
        stable_order_is_sorted(keys, n - 1);
        let before = stable_order(keys, n - 1);
        let key = keys[n - 1];
        rank_bounds(before, keys, key);
        let r = rank(before, keys, key);
        let after = stable_order(keys, n);
        let new = (n - 1) as usize;
        assert(after == before.insert(r, new));
        assert forall|i: int, j: int| 0 <= i < j < after.len() implies precedes(
            keys,
            #[trigger] after[i],
            #[trigger] after[j],
        ) by {
            let a = if i < r {
                i
            } else {
                i - 1
            };
            let b = if j < r {
                j
            } else {
                j - 1
            };
            if i == r {
                assert(after[j] == before[j - 1]);
                assert(before.contains(before[j - 1]));
            } else if j == r {
                assert(after[i] == before[i]);
                assert(before.contains(before[i]));
                assert(before[i] < new);
            } else {
                assert(after[i] == before[a]);
                assert(after[j] == before[b]);
                assert(precedes(keys, before[a], before[b]));
            }
        }
        assert forall|k: usize| #[trigger] after.contains(k) <==> k < n by {
            if k < n - 1 {
                assert(before.contains(k));
                let i = before.index_of(k);
                assert(after[if i < r {
                    i
                } else {
                    i + 1
                }] == k);
            } else if k == n - 1 {
                assert(after[r] == k);
            }
            if after.contains(k) {
                let i = after.index_of(k);
                if i != r {
                    assert(before.contains(after[i])) by {
                        assert(before[if i < r {
                            i
                        } else {
                            i - 1
                        }] == after[i]);
                    }
                }
            }
        }
        assert(after.no_duplicates()) by {
            assert forall|i: int, j: int|
                0 <= i < after.len() && 0 <= j < after.len() && i != j implies after[i]
                != after[j] by {
                if i < j {
                    assert(precedes(keys, after[i], after[j]));
                } else {
                    assert(precedes(keys, after[j], after[i]));
                }
            }
        }
    }
}

/// Keys that ascend already stay where they are.
pub(crate) proof fn sorted_stays(keys: Seq<u64>, n: int)
    requires
        0 <= n <= keys.len(),
        n <= usize::MAX,
        forall|i: int, j: int| 0 <= i < j < keys.len() ==> keys[i] <= keys[j],
    ensures
        stable_order(keys, n).len() == n,
        forall|i: int| 0 <= i < n ==> #[trigger] stable_order(keys, n)[i] == i,
    decreases n,
{
    if n > 0 {
        sorted_stays(keys, n - 1);
        stable_order_is_sorted(keys, n - 1);
        let before = stable_order(keys, n - 1);
        assert forall|i: int| 0 <= i < n - 1 implies keys[#[trigger] before[i] as int]
            <= keys[n - 1] by {
            assert(keys[i] <= keys[n - 1]);
        }
        rank_is(before, keys, keys[n - 1], n - 1);
    }
}

/// Sorts the places of `keys` by their keys, stably.
pub fn sort_places(keys: &Vec<u64>) -> (r: Vec<usize>)
    ensures
        r@ == stable_order(keys@, keys@.len() as int),
        ascending(r@, keys@),
        is_permutation(r@, keys@.len() as int),
{
    let mut out: Vec<usize> = Vec::new();
    let mut n: usize = 0;
    while n < keys.len()
        invariant
            n <= keys@.len(),
            out@ == stable_order(keys@, n as int),
        decreases keys@.len() - n,
    {
        proof {
            stable_order_is_sorted(keys@, n as int);
        }
        let key: u64 = keys[n];
        let mut low: usize = 0;
        let mut high: usize = out.len();
        while low < high
            invariant
                low <= high <= out@.len(),
                n < keys@.len(),
                out@ == stable_order(keys@, n as int),
                ascending(out@, keys@),
                is_permutation(out@, n as int),
                forall|i: int| 0 <= i < low ==> keys@[#[trigger] out@[i] as int] <= key,
                forall|i: int| high <= i < out@.len() ==> keys@[#[trigger] out@[i] as int] > key,
            decreases high - low,
        {
            let mid: usize = low + (high - low) / 2;
            assert(out@.contains(out@[mid as int]));
            if keys[out[mid]] <= key {
                assert forall|i: int| 0 <= i < mid + 1 implies keys@[#[trigger] out@[i] as int]
                    <= key by {
                    if i < mid {
                        assert(precedes(keys@, out@[i], out@[mid as int]));
                    }
                }
                low = mid + 1;
            } else {
                assert forall|i: int| mid <= i < out@.len() implies keys@[#[trigger] out@[i] as int]
                    > key by {
                    if i > mid {
                        assert(precedes(keys@, out@[mid as int], out@[i]));
                    }
                }
                high = mid;
            }
        }
        proof {
            rank_is(out@, keys@, key, low as int);
        }
        out.insert(low, n);
        n = n + 1;
    }
    proof {
        stable_order_is_sorted(keys@, n as int);
    }
    out
}

/// A sorted order has every place once, with the smaller key first, and of equal
/// keys the one that stood first.
pub proof fn smaller_keys_come_first(keys: Seq<u64>, i: int, j: int, place: usize)
    requires
        keys.len() <= usize::MAX,
        0 <= i < j < keys.len(),
    ensures
        ({
            let order = stable_order(keys, keys.len() as int);
            &&& order.len() == keys.len()
            &&& order[i] < keys.len() && order[j] < keys.len() && order[i] != order[j]
            &&& keys[order[i] as int] <= keys[order[j] as int]
            &&& keys[order[i] as int] == keys[order[j] as int] ==> order[i] < order[j]
            &&& place < keys.len() ==> order.contains(place)
        }),
{
    let n = keys.len() as int;
    stable_order_is_sorted(keys, n);
    let order = stable_order(keys, n);
    assert(order.contains(order[i]));
    assert(order.contains(order[j]));
    assert(precedes(keys, order[i], order[j]));
}

} // verus!
