//! Merging nearby byte ranges, so that they are read at once.
use std::ops::Range;

use vstd::prelude::*;

use crate::sort::{
    is_permutation, sort_places, sorted_stays, stable_order, stable_order_is_sorted,
};

verus! {

/// The ranges in ascending order of their starts; those with equal starts keep
/// their order.
pub open spec fn by_start(ranges: Seq<Range<u64>>) -> Seq<Range<u64>> {
    let order = stable_order(starts(ranges), ranges.len() as int);
    Seq::new(ranges.len(), |i: int| ranges[order[i] as int])
}

/// Where the ranges start.
pub open spec fn starts(ranges: Seq<Range<u64>>) -> Seq<u64> {
    ranges.map_values(|r: Range<u64>| r.start)
}

/// The end of a range with the window behind it; it stops at the largest
/// number.
pub open spec fn reach(range: Range<u64>, window: u64) -> int {
    if range.end + window > u64::MAX {
        u64::MAX as int
    } else {
        range.end + window
    }
}

/// One more range, in order of starts: it is merged into the last one where
/// that, with the window, reaches it.
pub open spec fn absorb(done: Seq<Range<u64>>, next: Range<u64>, window: u64) -> Seq<Range<u64>> {
    if done.len() > 0 && next.start <= reach(done.last(), window) {
        done.update(
            done.len() - 1,
            (Range {
                start: done.last().start,
                end: if done.last().end >= next.end {
                    done.last().end
                } else {
                    next.end
                },
            }),
        )
    } else {
        done.push(next)
    }
}

/// What ranges in order of their starts merge to.
pub open spec fn merged(ranges: Seq<Range<u64>>, window: u64) -> Seq<Range<u64>>
    decreases ranges.len(),
{
    if ranges.len() == 0 {
        seq![]
    } else {
        absorb(merged(ranges.drop_last(), window), ranges.last(), window)
    }
}

/// Merges ranges that overlap or are at most `window` apart. The result is in
/// order of the starts. `ranges` is left empty.
pub fn coalesce_ranges(ranges: &mut Vec<Range<u64>>, window: u64) -> (r: Vec<Range<u64>>)
    ensures
        r@ == merged(by_start(old(ranges)@), window),
        final(ranges)@.len() == 0,
{
    let ghost all = ranges@;
    let mut keys: Vec<u64> = Vec::new();
    let mut i: usize = 0;
    while i < ranges.len()
        invariant
            i <= ranges@.len(),
            ranges@ == all,
            keys@.len() == i,
            forall|k: int| 0 <= k < i ==> keys@[k] == all[k].start,
        decreases ranges@.len() - i,
    {
        keys.push(ranges[i].start);
        i = i + 1;
    }
    assert(keys@ =~= starts(all));
    let order = sort_places(&keys);
    let ghost sorted = by_start(all);
    let mut out: Vec<Range<u64>> = Vec::new();
    let mut n: usize = 0;
    assert(sorted.take(0) =~= seq![]);
    while n < order.len()
        invariant
            n <= order@.len() == all.len(),
            ranges@ == all,
            keys@ == starts(all),
            sorted == by_start(all),
            order@ == stable_order(starts(all), all.len() as int),
            is_permutation(order@, all.len() as int),
            out@ == merged(sorted.take(n as int), window),
        decreases order@.len() - n,
    {
        assert(sorted.take(n as int + 1).drop_last() =~= sorted.take(n as int));
        assert(order@.contains(order@[n as int]));
        let start: u64 = ranges[order[n]].start;
        let end: u64 = ranges[order[n]].end;
        let ghost next = sorted[n as int];
        assert(next == all[order@[n as int] as int]);
        let ghost before = out@;
        let last: usize = out.len();
        if last > 0 && start <= out[last - 1].end.saturating_add(window) {
            let first: u64 = out[last - 1].start;
            let furthest: u64 = if out[last - 1].end >= end {
                out[last - 1].end
            } else {
                end
            };
            out.set(last - 1, first..furthest);
        } else {
            out.push(start..end);
        }
        assert(out@ =~= absorb(before, next, window));
        n = n + 1;
    }
    assert(sorted.take(n as int) =~= sorted);
    ranges.clear();
    out
}

/// Whether the ranges are in order of their starts.
pub open spec fn in_order(ranges: Seq<Range<u64>>) -> bool {
    forall|i: int, j: int| 0 <= i < j < ranges.len() ==> ranges[i].start <= ranges[j].start
}

/// Whether each range ends more than `window` before the next one starts.
pub open spec fn apart(ranges: Seq<Range<u64>>, window: u64) -> bool {
    forall|i: int|
        0 <= i < ranges.len() - 1 ==> reach(#[trigger] ranges[i], window) < ranges[i + 1].start
}

/// Whether some range holds all of `r`.
pub open spec fn within(r: Range<u64>, ranges: Seq<Range<u64>>) -> bool {
    exists|i: int|
        0 <= i < ranges.len() && (#[trigger] ranges[i]).start <= r.start && r.end <= ranges[i].end
}

/// `by_start` only rearranges, and puts the ranges in order.
proof fn by_start_rearranges(ranges: Seq<Range<u64>>)
    requires
        ranges.len() <= usize::MAX,
    ensures
        in_order(by_start(ranges)),
        forall|i: int| 0 <= i < ranges.len() ==> by_start(ranges).contains(#[trigger] ranges[i]),
        forall|i: int|
            0 <= i < by_start(ranges).len() ==> ranges.contains(#[trigger] by_start(ranges)[i]),
{
    let keys = starts(ranges);
    let order = stable_order(keys, ranges.len() as int);
    let sorted = by_start(ranges);
    stable_order_is_sorted(keys, ranges.len() as int);
    assert forall|i: int, j: int| 0 <= i < j < sorted.len() implies sorted[i].start
        <= sorted[j].start by {
        assert(order.contains(order[i]));
        assert(order.contains(order[j]));
        assert(crate::sort::precedes(keys, order[i], order[j]));
    }
    assert forall|i: int| 0 <= i < ranges.len() implies sorted.contains(#[trigger] ranges[i]) by {
        assert(order.contains(i as usize));
        let k = order.index_of(i as usize);
        assert(sorted[k] == ranges[i]);
    }
    assert forall|i: int| 0 <= i < sorted.len() implies ranges.contains(
        #[trigger] sorted[i],
    ) by {
        assert(order.contains(order[i]));
        assert(ranges[order[i] as int] == sorted[i]);
    }
}

proof fn front_in_order(ranges: Seq<Range<u64>>)
    requires
        in_order(ranges),
        ranges.len() > 0,
    ensures
        in_order(ranges.drop_last()),
{
    let front = ranges.drop_last();
    assert forall|i: int, j: int| 0 <= i < j < front.len() implies front[i].start
        <= front[j].start by {
        assert(ranges[i].start <= ranges[j].start);
    }
}

proof fn merged_facts(ranges: Seq<Range<u64>>, window: u64)
    requires
        in_order(ranges),
    ensures
        apart(merged(ranges, window), window),
        in_order(merged(ranges, window)),
        ranges.len() > 0 ==> merged(ranges, window).len() > 0
            && merged(ranges, window).last().start <= ranges.last().start,
        forall|i: int|
            0 <= i < ranges.len() ==> within(#[trigger] ranges[i], merged(ranges, window)),
    decreases ranges.len(),
{
    let out = merged(ranges, window);
    if ranges.len() > 0 {
        let front = ranges.drop_last();
        let next = ranges.last();
        front_in_order(ranges);
        merged_facts(front, window);
        let done = merged(front, window);
        if front.len() > 0 {
            assert(front.last() == ranges[ranges.len() - 2]);
            assert(front.last().start <= next.start);
        }
        assert forall|i: int, j: int| 0 <= i < j < out.len() implies out[i].start
            <= out[j].start by {
            if j < done.len() {
                assert(done[i].start <= done[j].start);
            } else if i < done.len() - 1 {
                assert(done[i].start <= done[done.len() - 1].start);
            }
        }
        assert forall|i: int| 0 <= i < ranges.len() implies within(#[trigger] ranges[i], out) by {
            if i < front.len() {
                assert(within(front[i], done));
                let k = choose|k: int|
                    0 <= k < done.len() && (#[trigger] done[k]).start <= front[i].start
                        && front[i].end <= done[k].end;
                assert(out[k].start <= ranges[i].start && ranges[i].end <= out[k].end);
            } else {
                let k = out.len() - 1;
                assert(out[k].start <= next.start && next.end <= out[k].end);
            }
        }
    }
}

/// What is read is in order, and two reads are always more than `window`
/// apart: none could have been merged with the next.
pub proof fn reads_are_apart(ranges: Seq<Range<u64>>, window: u64)
    requires
        ranges.len() <= usize::MAX,
    ensures
        in_order(merged(by_start(ranges), window)),
        apart(merged(by_start(ranges), window), window),
{
    by_start_rearranges(ranges);
    merged_facts(by_start(ranges), window);
}

/// Every range that was asked for is read, by a single read.
pub proof fn every_range_is_read(ranges: Seq<Range<u64>>, window: u64, i: int)
    requires
        ranges.len() <= usize::MAX,
        0 <= i < ranges.len(),
    ensures
        within(ranges[i], merged(by_start(ranges), window)),
{
    let sorted = by_start(ranges);
    by_start_rearranges(ranges);
    merged_facts(sorted, window);
    assert(sorted.contains(ranges[i]));
    let k = sorted.index_of(ranges[i]);
    assert(within(sorted[k], merged(sorted, window)));
}

/// Whether byte `x` is in one of the ranges, or at most `window` behind the
/// end of one.
pub open spec fn near(ranges: Seq<Range<u64>>, window: u64, x: int) -> bool {
    exists|i: int|
        0 <= i < ranges.len() && (#[trigger] ranges[i]).start <= x && x < ranges[i].end + window
}

/// Whether one of the ranges ends at `end`.
spec fn some_end(ranges: Seq<Range<u64>>, end: u64) -> bool {
    exists|i: int| 0 <= i < ranges.len() && (#[trigger] ranges[i]).end == end
}

proof fn merged_stays_near(ranges: Seq<Range<u64>>, window: u64, k: int, x: int)
    requires
        in_order(ranges),
        forall|i: int| 0 <= i < ranges.len() ==> (#[trigger] ranges[i]).start <= ranges[i].end,
        0 <= k < merged(ranges, window).len(),
    ensures
        merged(ranges, window)[k].start <= x < merged(ranges, window)[k].end ==> near(
            ranges,
            window,
            x,
        ),
        some_end(ranges, merged(ranges, window)[k].end),
    decreases ranges.len(),
{
    let out = merged(ranges, window);
    let front = ranges.drop_last();
    let next = ranges.last();
    let done = merged(front, window);
    let n = ranges.len() - 1;
    front_in_order(ranges);
    assert(ranges[n] == next);
    assert forall|i: int| 0 <= i < front.len() implies (#[trigger] front[i]).start
        <= front[i].end by {
        assert(ranges[i].start <= ranges[i].end);
    }
    if k < done.len() {
        merged_stays_near(front, window, k, x);
        let e = choose|i: int| 0 <= i < front.len() && (#[trigger] front[i]).end == done[k].end;
        assert(ranges[e].end == done[k].end);
        if done[k].start <= x < done[k].end {
            let i = choose|i: int|
                0 <= i < front.len() && (#[trigger] front[i]).start <= x && x < front[i].end
                    + window;
            assert(ranges[i].start <= x && x < ranges[i].end + window);
        } else if out[k].start <= x < out[k].end {
            if next.start <= x {
                assert(ranges[n].start <= x && x < ranges[n].end + window);
            } else {
                assert(ranges[e].start <= x && x < ranges[e].end + window);
            }
        }
        if out[k].end != done[k].end {
            assert(ranges[n].end == out[k].end);
        }
    } else {
        assert(out[k] == next);
        if next.start <= x < next.end {
            assert(ranges[n].start <= x && x < ranges[n].end + window);
        }
    }
}

/// Nothing is read but the ranges that were asked for and, behind each, at most
/// `window` bytes. With no window nothing else is read at all.
pub proof fn little_else_is_read(ranges: Seq<Range<u64>>, window: u64, k: int, x: int)
    requires
        ranges.len() <= usize::MAX,
        forall|i: int| 0 <= i < ranges.len() ==> (#[trigger] ranges[i]).start <= ranges[i].end,
        0 <= k < merged(by_start(ranges), window).len(),
        merged(by_start(ranges), window)[k].start <= x < merged(by_start(ranges), window)[k].end,
    ensures
        near(ranges, window, x),
{
    let sorted = by_start(ranges);
    by_start_rearranges(ranges);
    assert forall|i: int| 0 <= i < sorted.len() implies (#[trigger] sorted[i]).start
        <= sorted[i].end by {
        assert(ranges.contains(sorted[i]));
        let j = ranges.index_of(sorted[i]);
        assert(ranges[j].start <= ranges[j].end);
    }
    merged_stays_near(sorted, window, k, x);
    let i = choose|i: int|
        0 <= i < sorted.len() && (#[trigger] sorted[i]).start <= x && x < sorted[i].end + window;
    assert(ranges.contains(sorted[i]));
    let j = ranges.index_of(sorted[i]);
    assert(ranges[j].start <= x && x < ranges[j].end + window);
}

proof fn apart_merges_to_itself(ranges: Seq<Range<u64>>, window: u64)
    requires
        apart(ranges, window),
    ensures
        merged(ranges, window) == ranges,
    decreases ranges.len(),
{
    if ranges.len() > 0 {
        let front = ranges.drop_last();
        assert forall|i: int| 0 <= i < front.len() - 1 implies reach(#[trigger] front[i], window)
            < front[i + 1].start by {
            assert(reach(ranges[i], window) < ranges[i + 1].start);
        }
        apart_merges_to_itself(front, window);
        if front.len() > 0 {
            assert(front.last() == ranges[ranges.len() - 2]);
            assert(reach(ranges[ranges.len() - 2], window) < ranges.last().start);
        }
        assert(front.push(ranges.last()) =~= ranges);
    } else {
        assert(merged(ranges, window) =~= ranges);
    }
}

/// Merging what has been merged changes nothing.
pub proof fn merging_twice_is_merging_once(ranges: Seq<Range<u64>>, window: u64)
    requires
        ranges.len() <= usize::MAX,
    ensures
        merged(by_start(merged(by_start(ranges), window)), window) == merged(
            by_start(ranges),
            window,
        ),
{
    let out = merged(by_start(ranges), window);
    reads_are_apart(ranges, window);
    merged_is_no_longer(by_start(ranges), window);
    assert forall|i: int, j: int| 0 <= i < j < starts(out).len() implies starts(out)[i] <= starts(
        out,
    )[j] by {
        assert(out[i].start <= out[j].start);
    }
    sorted_stays(starts(out), out.len() as int);
    assert(by_start(out) =~= out);
    apart_merges_to_itself(out, window);
}

proof fn merged_is_no_longer(ranges: Seq<Range<u64>>, window: u64)
    ensures
        merged(ranges, window).len() <= ranges.len(),
    decreases ranges.len(),
{
    if ranges.len() > 0 {
        merged_is_no_longer(ranges.drop_last(), window);
    }
}

/// Whether every range starts no later than it ends.
pub open spec fn valid(ranges: Seq<Range<u64>>) -> bool {
    forall|i: int| 0 <= i < ranges.len() ==> (#[trigger] ranges[i]).start <= ranges[i].end
}

/// Whether one of the ranges starts at `start`.
pub open spec fn some_start(ranges: Seq<Range<u64>>, start: u64) -> bool {
    exists|i: int| 0 <= i < ranges.len() && (#[trigger] ranges[i]).start == start
}

/// Whether a range leads past `cut`: it starts at `from` or later, no more than
/// `window` behind `cut`, and ends behind `cut`.
pub open spec fn leads_past(ranges: Seq<Range<u64>>, from: u64, window: u64, cut: u64) -> bool {
    exists|i: int|
        {
            &&& 0 <= i < ranges.len()
            &&& from <= (#[trigger] ranges[i]).start
            &&& ranges[i].start <= reach((Range { start: cut, end: cut }), window)
            &&& cut < ranges[i].end
        }
}

/// Whether `m` is nowhere interrupted: wherever it is cut, a range leads past
/// the cut.
pub open spec fn chained(ranges: Seq<Range<u64>>, m: Range<u64>, window: u64) -> bool {
    forall|cut: u64|
        m.start <= cut < m.end ==> #[trigger] leads_past(ranges, m.start, window, cut)
}

/// What merging ranges gives, without regard to their order: reads that are
/// apart, hold every range, start where a range does, and are nowhere
/// interrupted.
#[verifier::opaque]
pub open spec fn is_merge(ranges: Seq<Range<u64>>, out: Seq<Range<u64>>, window: u64) -> bool {
    &&& valid(out)
    &&& apart(out, window)
    &&& in_order(out)
    &&& forall|i: int| 0 <= i < ranges.len() ==> within(#[trigger] ranges[i], out)
    &&& forall|k: int| 0 <= k < out.len() ==> some_start(ranges, (#[trigger] out[k]).start)
    &&& forall|k: int| 0 <= k < out.len() ==> chained(ranges, #[trigger] out[k], window)
}

proof fn merge_holds(ranges: Seq<Range<u64>>, out: Seq<Range<u64>>, window: u64, i: int)
    requires
        is_merge(ranges, out, window),
        0 <= i < ranges.len(),
    ensures
        within(ranges[i], out),
{
    reveal(is_merge);
}

proof fn merge_read(ranges: Seq<Range<u64>>, out: Seq<Range<u64>>, window: u64, k: int)
    requires
        is_merge(ranges, out, window),
        0 <= k < out.len(),
    ensures
        out[k].start <= out[k].end,
        some_start(ranges, out[k].start),
        chained(ranges, out[k], window),
{
    reveal(is_merge);
}

proof fn merge_apart(ranges: Seq<Range<u64>>, out: Seq<Range<u64>>, window: u64, j: int, k: int)
    requires
        is_merge(ranges, out, window),
        0 <= j < k < out.len(),
    ensures
        reach(out[j], window) < out[k].start,
{
    reveal(is_merge);
    assert(apart(out, window));
    assert(reach(out[j], window) < out[j + 1].start);
    if j + 1 < k {
        assert(in_order(out));
        assert(out[j + 1].start <= out[k].start);
    }
}

proof fn chained_with_more(
    ranges: Seq<Range<u64>>,
    more: Seq<Range<u64>>,
    m: Range<u64>,
    window: u64,
)
    requires
        chained(ranges, m, window),
        forall|i: int| 0 <= i < ranges.len() ==> more.contains(#[trigger] ranges[i]),
    ensures
        chained(more, m, window),
{
    assert forall|cut: u64| m.start <= cut < m.end implies #[trigger] leads_past(
        more,
        m.start,
        window,
        cut,
    ) by {
        assert(leads_past(ranges, m.start, window, cut));
        let i = choose|i: int|
            {
                &&& 0 <= i < ranges.len()
                &&& m.start <= (#[trigger] ranges[i]).start
                &&& ranges[i].start <= reach((Range { start: cut, end: cut }), window)
                &&& cut < ranges[i].end
            };
        assert(more.contains(ranges[i]));
        assert(more[more.index_of(ranges[i])] == ranges[i]);
    }
}

proof fn some_start_with_more(ranges: Seq<Range<u64>>, more: Seq<Range<u64>>, start: u64)
    requires
        some_start(ranges, start),
        forall|i: int| 0 <= i < ranges.len() ==> more.contains(#[trigger] ranges[i]),
    ensures
        some_start(more, start),
{
    let i = choose|i: int| 0 <= i < ranges.len() && (#[trigger] ranges[i]).start == start;
    assert(more.contains(ranges[i]));
    assert(more[more.index_of(ranges[i])].start == start);
}

/// A merge of ranges is one of any other arrangement of them.
proof fn merge_of_rearranged(
    ranges: Seq<Range<u64>>,
    other: Seq<Range<u64>>,
    out: Seq<Range<u64>>,
    window: u64,
)
    requires
        is_merge(ranges, out, window),
        forall|i: int| 0 <= i < ranges.len() ==> other.contains(#[trigger] ranges[i]),
        forall|i: int| 0 <= i < other.len() ==> ranges.contains(#[trigger] other[i]),
    ensures
        is_merge(other, out, window),
{
    assert forall|i: int| 0 <= i < other.len() implies within(#[trigger] other[i], out) by {
        assert(ranges.contains(other[i]));
        merge_holds(ranges, out, window, ranges.index_of(other[i]));
    }
    assert forall|k: int| 0 <= k < out.len() implies some_start(
        other,
        (#[trigger] out[k]).start,
    ) by {
        merge_read(ranges, out, window, k);
        some_start_with_more(ranges, other, out[k].start);
    }
    assert forall|k: int| 0 <= k < out.len() implies chained(other, #[trigger] out[k], window) by {
        merge_read(ranges, out, window, k);
        chained_with_more(ranges, other, out[k], window);
    }
    assert(is_merge(other, out, window)) by {
        reveal(is_merge);
    }
}

proof fn merged_is_merge(ranges: Seq<Range<u64>>, window: u64)
    requires
        in_order(ranges),
        valid(ranges),
    ensures
        is_merge(ranges, merged(ranges, window), window),
    decreases ranges.len(),
{
    let out = merged(ranges, window);
    merged_facts(ranges, window);
    if ranges.len() == 0 {
        reveal(is_merge);
    } else {
        let front = ranges.drop_last();
        let next = ranges.last();
        let n = ranges.len() - 1;
        front_in_order(ranges);
        assert forall|i: int| 0 <= i < front.len() implies (#[trigger] front[i]).start
            <= front[i].end by {
            assert(ranges[i].start <= ranges[i].end);
        }
        merged_is_merge(front, window);
        merged_facts(front, window);
        let done = merged(front, window);
        assert(ranges[n] == next);
        if front.len() > 0 {
            assert(front.last() == ranges[n - 1]);
            assert(ranges[n - 1].start <= ranges[n].start);
        }
        assert forall|i: int| 0 <= i < front.len() implies ranges.contains(#[trigger] front[i]) by {
            assert(ranges[i] == front[i]);
        }
        assert forall|k: int| 0 <= k < out.len() implies {
            &&& (#[trigger] out[k]).start <= out[k].end
            &&& some_start(ranges, out[k].start)
            &&& chained(ranges, out[k], window)
        } by {
            if k < done.len() {
                merge_read(front, done, window, k);
                some_start_with_more(front, ranges, done[k].start);
                chained_with_more(front, ranges, done[k], window);
                if out[k] != done[k] {
                    assert forall|cut: u64| out[k].start <= cut < out[k].end implies
                        #[trigger] leads_past(ranges, out[k].start, window, cut) by {
                        if cut < done[k].end {
                            assert(leads_past(ranges, done[k].start, window, cut));
                        } else {
                            assert(out[k].start <= ranges[n].start);
                            assert(ranges[n].start <= reach(
                                (Range { start: cut, end: cut }),
                                window,
                            ));
                            assert(cut < ranges[n].end);
                        }
                    }
                }
            } else {
                assert(out[k] == next);
                assert(ranges[n].start == out[k].start);
                assert forall|cut: u64| out[k].start <= cut < out[k].end implies
                    #[trigger] leads_past(ranges, out[k].start, window, cut) by {
                    assert(out[k].start <= ranges[n].start);
                    assert(ranges[n].start <= reach((Range { start: cut, end: cut }), window));
                    assert(cut < ranges[n].end);
                }
            }
        }
        reveal(is_merge);
    }
}

/// Where `a` and `b` are merges that agree up to place `k`, a range that
/// starts no earlier than `a[k]` is in none of the first `k` reads of `b`.
proof fn not_in_the_first(
    ranges: Seq<Range<u64>>,
    a: Seq<Range<u64>>,
    b: Seq<Range<u64>>,
    window: u64,
    k: int,
    i: int,
    j: int,
)
    requires
        valid(ranges),
        is_merge(ranges, a, window),
        0 <= k < a.len(),
        k <= b.len(),
        forall|x: int| 0 <= x < k ==> a[x] == b[x],
        0 <= i < ranges.len(),
        a[k].start <= ranges[i].start,
        0 <= j < b.len(),
        b[j].start <= ranges[i].start,
        ranges[i].end <= b[j].end,
    ensures
        k <= j,
{
    if j < k {
        assert(a[j] == b[j]);
        merge_apart(ranges, a, window, j, k);
        assert(ranges[i].start <= ranges[i].end);
    }
}

/// The reads of two merges of the same ranges start at the same places, as far
/// as they agree before.
proof fn no_later_start(
    ranges: Seq<Range<u64>>,
    a: Seq<Range<u64>>,
    b: Seq<Range<u64>>,
    window: u64,
    k: int,
)
    requires
        valid(ranges),
        is_merge(ranges, a, window),
        is_merge(ranges, b, window),
        0 <= k < a.len(),
        k <= b.len(),
        forall|x: int| 0 <= x < k ==> a[x] == b[x],
    ensures
        k < b.len(),
        b[k].start <= a[k].start,
{
    merge_read(ranges, a, window, k);
    let i = choose|i: int| 0 <= i < ranges.len() && (#[trigger] ranges[i]).start == a[k].start;
    merge_holds(ranges, b, window, i);
    let j = choose|j: int|
        0 <= j < b.len() && (#[trigger] b[j]).start <= ranges[i].start && ranges[i].end
            <= b[j].end;
    not_in_the_first(ranges, a, b, window, k, i, j);
    if k < j {
        merge_read(ranges, b, window, k);
        merge_apart(ranges, b, window, k, j);
    }
}

proof fn no_earlier_end(
    ranges: Seq<Range<u64>>,
    a: Seq<Range<u64>>,
    b: Seq<Range<u64>>,
    window: u64,
    k: int,
)
    requires
        valid(ranges),
        is_merge(ranges, a, window),
        is_merge(ranges, b, window),
        0 <= k < a.len(),
        k < b.len(),
        forall|x: int| 0 <= x < k ==> a[x] == b[x],
        a[k].start == b[k].start,
    ensures
        b[k].end <= a[k].end,
{
    if a[k].end < b[k].end {
        let cut = a[k].end;
        merge_read(ranges, a, window, k);
        merge_read(ranges, b, window, k);
        assert(leads_past(ranges, b[k].start, window, cut));
        let i = choose|i: int|
            {
                &&& 0 <= i < ranges.len()
                &&& b[k].start <= (#[trigger] ranges[i]).start
                &&& ranges[i].start <= reach((Range { start: cut, end: cut }), window)
                &&& cut < ranges[i].end
            };
        merge_holds(ranges, a, window, i);
        let j = choose|j: int|
            0 <= j < a.len() && (#[trigger] a[j]).start <= ranges[i].start && ranges[i].end
                <= a[j].end;
        not_in_the_first(ranges, b, a, window, k, i, j);
        if k < j {
            merge_apart(ranges, a, window, k, j);
        }
    }
}

/// There is one merge of given ranges.
proof fn merges_agree(
    ranges: Seq<Range<u64>>,
    a: Seq<Range<u64>>,
    b: Seq<Range<u64>>,
    window: u64,
    n: int,
)
    requires
        valid(ranges),
        is_merge(ranges, a, window),
        is_merge(ranges, b, window),
        0 <= n <= a.len(),
    ensures
        n <= b.len(),
        forall|x: int| 0 <= x < n ==> a[x] == b[x],
    decreases n,
{
    if n > 0 {
        let k = n - 1;
        merges_agree(ranges, a, b, window, k);
        no_later_start(ranges, a, b, window, k);
        no_later_start(ranges, b, a, window, k);
        no_earlier_end(ranges, a, b, window, k);
        no_earlier_end(ranges, b, a, window, k);
    }
}

proof fn one_merge(
    ranges: Seq<Range<u64>>,
    a: Seq<Range<u64>>,
    b: Seq<Range<u64>>,
    window: u64,
)
    requires
        valid(ranges),
        is_merge(ranges, a, window),
        is_merge(ranges, b, window),
    ensures
        a == b,
{
    merges_agree(ranges, a, b, window, a.len() as int);
    merges_agree(ranges, b, a, window, b.len() as int);
    assert(a =~= b);
}

/// What `coalesce_ranges` gives is the merge of its ranges.
proof fn coalesced_is_merge(ranges: Seq<Range<u64>>, window: u64)
    requires
        ranges.len() <= usize::MAX,
        valid(ranges),
    ensures
        is_merge(ranges, merged(by_start(ranges), window), window),
{
    let sorted = by_start(ranges);
    by_start_rearranges(ranges);
    assert forall|i: int| 0 <= i < sorted.len() implies (#[trigger] sorted[i]).start
        <= sorted[i].end by {
        assert(ranges.contains(sorted[i]));
        let j = ranges.index_of(sorted[i]);
        assert(ranges[j].start <= ranges[j].end);
    }
    merged_is_merge(sorted, window);
    merge_of_rearranged(sorted, ranges, merged(sorted, window), window);
}

/// The order of the ranges does not matter: any arrangement of them merges to
/// the same.
pub proof fn order_does_not_matter(a: Seq<Range<u64>>, b: Seq<Range<u64>>, window: u64)
    requires
        a.len() <= usize::MAX,
        b.len() <= usize::MAX,
        valid(a),
        a.to_multiset() == b.to_multiset(),
    ensures
        merged(by_start(a), window) == merged(by_start(b), window),
{
    broadcast use vstd::seq_lib::group_to_multiset_ensures;

    assert forall|i: int| 0 <= i < a.len() implies b.contains(#[trigger] a[i]) by {
        assert(a.contains(a[i]));
        assert(a.to_multiset().count(a[i]) > 0);
    }
    assert forall|i: int| 0 <= i < b.len() implies a.contains(#[trigger] b[i]) by {
        assert(b.contains(b[i]));
        assert(b.to_multiset().count(b[i]) > 0);
    }
    assert forall|i: int| 0 <= i < b.len() implies (#[trigger] b[i]).start <= b[i].end by {
        assert(a.contains(b[i]));
        let j = a.index_of(b[i]);
        assert(a[j].start <= a[j].end);
    }
    coalesced_is_merge(a, window);
    coalesced_is_merge(b, window);
    merge_of_rearranged(b, a, merged(by_start(b), window), window);
    one_merge(a, merged(by_start(a), window), merged(by_start(b), window), window);
}

/// A merge with a larger window of a merge with a smaller one is a merge of the
/// ranges themselves.
proof fn merge_of_merge(
    ranges: Seq<Range<u64>>,
    inner: Seq<Range<u64>>,
    outer: Seq<Range<u64>>,
    smaller: u64,
    larger: u64,
)
    requires
        valid(ranges),
        smaller <= larger,
        is_merge(ranges, inner, smaller),
        is_merge(inner, outer, larger),
    ensures
        is_merge(ranges, outer, larger),
{
    assert forall|i: int| 0 <= i < ranges.len() implies within(#[trigger] ranges[i], outer) by {
        merge_holds(ranges, inner, smaller, i);
        let j = choose|j: int|
            0 <= j < inner.len() && (#[trigger] inner[j]).start <= ranges[i].start
                && ranges[i].end <= inner[j].end;
        merge_holds(inner, outer, larger, j);
        let k = choose|k: int|
            0 <= k < outer.len() && (#[trigger] outer[k]).start <= inner[j].start && inner[j].end
                <= outer[k].end;
        assert(outer[k].start <= ranges[i].start && ranges[i].end <= outer[k].end);
    }
    assert forall|k: int| 0 <= k < outer.len() implies some_start(
        ranges,
        (#[trigger] outer[k]).start,
    ) by {
        merge_read(inner, outer, larger, k);
        let j = choose|j: int|
            0 <= j < inner.len() && (#[trigger] inner[j]).start == outer[k].start;
        merge_read(ranges, inner, smaller, j);
    }
    assert forall|k: int| 0 <= k < outer.len() implies chained(
        ranges,
        #[trigger] outer[k],
        larger,
    ) by {
        let m = outer[k];
        assert forall|cut: u64| m.start <= cut < m.end implies #[trigger] leads_past(
            ranges,
            m.start,
            larger,
            cut,
        ) by {
            merge_read(inner, outer, larger, k);
            assert(leads_past(inner, m.start, larger, cut));
            let j = choose|j: int|
                {
                    &&& 0 <= j < inner.len()
                    &&& m.start <= (#[trigger] inner[j]).start
                    &&& inner[j].start <= reach((Range { start: cut, end: cut }), larger)
                    &&& cut < inner[j].end
                };
            merge_read(ranges, inner, smaller, j);
            if inner[j].start <= cut {
                assert(leads_past(ranges, inner[j].start, smaller, cut));
                let i = choose|i: int|
                    {
                        &&& 0 <= i < ranges.len()
                        &&& inner[j].start <= (#[trigger] ranges[i]).start
                        &&& ranges[i].start <= reach((Range { start: cut, end: cut }), smaller)
                        &&& cut < ranges[i].end
                    };
                assert(m.start <= ranges[i].start);
                assert(ranges[i].start <= reach((Range { start: cut, end: cut }), larger));
            } else {
                let i = choose|i: int|
                    0 <= i < ranges.len() && (#[trigger] ranges[i]).start == inner[j].start;
                assert(ranges[i].start <= ranges[i].end);
                assert(m.start <= ranges[i].start);
            }
        }
    }
    reveal(is_merge);
}

/// Merging with a smaller window first changes nothing: merging the result
/// with a larger one gives what merging the ranges with the larger one gives,
/// and that is no more reads.
pub proof fn a_smaller_window_first_changes_nothing(
    ranges: Seq<Range<u64>>,
    smaller: u64,
    larger: u64,
)
    requires
        ranges.len() <= usize::MAX,
        valid(ranges),
        smaller <= larger,
    ensures
        merged(by_start(merged(by_start(ranges), smaller)), larger) == merged(
            by_start(ranges),
            larger,
        ),
        merged(by_start(ranges), larger).len() <= merged(by_start(ranges), smaller).len(),
{
    let inner = merged(by_start(ranges), smaller);
    let outer = merged(by_start(inner), larger);
    merged_is_no_longer(by_start(ranges), smaller);
    coalesced_is_merge(ranges, smaller);
    coalesced_is_merge(ranges, larger);
    assert(valid(inner)) by {
        reveal(is_merge);
    }
    coalesced_is_merge(inner, larger);
    merge_of_merge(ranges, inner, outer, smaller, larger);
    one_merge(ranges, outer, merged(by_start(ranges), larger), larger);
    merged_is_no_longer(by_start(inner), larger);
}

/// Between two reads there are more bytes than the window has: ranges that are no
/// further apart are read together.
pub proof fn gaps_are_wider_than_the_window(ranges: Seq<Range<u64>>, window: u64, i: int)
    requires
        ranges.len() <= usize::MAX,
        0 <= i < merged(by_start(ranges), window).len() - 1,
    ensures
        merged(by_start(ranges), window)[i].end + window < merged(by_start(ranges), window)[i
            + 1].start,
{
    reads_are_apart(ranges, window);
    let out = merged(by_start(ranges), window);
    assert(reach(out[i], window) < out[i + 1].start);
}

/// A read begins where a range does. Wherever it is cut, a range of it goes on
/// behind the cut, and begins no more than the window behind it: no gap that is
/// wider is read.
pub proof fn no_wider_gap_is_read(ranges: Seq<Range<u64>>, window: u64, k: int, cut: u64)
    requires
        ranges.len() <= usize::MAX,
        forall|i: int| 0 <= i < ranges.len() ==> (#[trigger] ranges[i]).start <= ranges[i].end,
        0 <= k < merged(by_start(ranges), window).len(),
    ensures
        ({
            let read = merged(by_start(ranges), window)[k];
            &&& exists|i: int| 0 <= i < ranges.len() && (#[trigger] ranges[i]).start == read.start
            &&& read.start <= cut < read.end ==> exists|i: int|
                {
                    &&& 0 <= i < ranges.len()
                    &&& read.start <= (#[trigger] ranges[i]).start
                    &&& ranges[i].start <= cut + window
                    &&& cut < ranges[i].end
                }
        }),
{
    coalesced_is_merge(ranges, window);
    let out = merged(by_start(ranges), window);
    let read = out[k];
    merge_read(ranges, out, window, k);
    assert(some_start(ranges, read.start) && chained(ranges, read, window)) by {
        reveal(is_merge);
        assert(out[k] == read);
    }
    if read.start <= cut < read.end {
        assert(leads_past(ranges, read.start, window, cut));
        let i = choose|i: int|
            {
                &&& 0 <= i < ranges.len()
                &&& read.start <= (#[trigger] ranges[i]).start
                &&& ranges[i].start <= reach((Range { start: cut, end: cut }), window)
                &&& cut < ranges[i].end
            };
        assert(ranges[i].start <= cut + window);
    }
}

} // verus!
