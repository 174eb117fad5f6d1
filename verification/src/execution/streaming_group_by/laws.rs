//! What the stream gives out.
use vstd::prelude::*;

use super::keys::{key_less, key_less_strict, key_less_total, key_less_transitive};
use super::{
    after_batch, after_end, ascending, completed, new_aggs, place, place_bounds, remaining, updated_aggs,
    with_row, with_row_ascends, with_rows, with_rows_ascend, AggType, AggValue, AggView, Entry,
    GroupRowView, StreamView,
};

verus! {

/// The rows of several batches, one batch after the other.
pub open spec fn all_rows(batches: Seq<Seq<GroupRowView>>) -> Seq<GroupRowView>
    decreases batches.len(),
{
    if batches.len() == 0 {
        seq![]
    } else {
        all_rows(batches.drop_last()) + batches.last()
    }
}

/// Whether rows are in the order of their keys.
pub open spec fn in_key_order(rows: Seq<GroupRowView>) -> bool {
    forall|i: int, j: int|
        0 <= i < j < rows.len() ==> !key_less((#[trigger] rows[j]).key, (#[trigger] rows[i]).key)
}

/// What has been given out, and what is kept.
pub struct Progress {
    pub emitted: Seq<Entry>,
    pub entries: Seq<Entry>,
    pub bound: Option<Seq<u8>>,
}

/// Where the stream is after some batches, when complete groups are given out
/// before the next batch is read; `None` where the rows are found to be out of
/// order.
pub open spec fn progress(batches: Seq<Seq<GroupRowView>>, types: Seq<AggType>) -> Option<Progress>
    decreases batches.len(),
{
    if batches.len() == 0 {
        Some(Progress { emitted: seq![], entries: seq![], bound: None })
    } else {
        match progress(batches.drop_last(), types) {
            None => None,
            Some(before) => {
                let s = StreamView {
                    entries: before.entries,
                    bound: before.bound,
                    pending: seq![],
                    done: false,
                };
                match after_batch(s, batches.last(), types) {
                    None => None,
                    Some(after) => Some(
                        Progress {
                            emitted: before.emitted + if after.pending.len() > 0 {
                                after.pending[0]
                            } else {
                                seq![]
                            },
                            entries: after.entries,
                            bound: after.bound,
                        },
                    ),
                }
            },
        }
    }
}

proof fn with_rows_concat(
    entries: Seq<Entry>,
    a: Seq<GroupRowView>,
    b: Seq<GroupRowView>,
    types: Seq<AggType>,
)
    ensures
        with_rows(entries, a + b, types) == with_rows(with_rows(entries, a, types), b, types),
    decreases b.len(),
{
    if b.len() == 0 {
        assert(a + b =~= a);
    } else {
        assert((a + b).drop_last() =~= a + b.drop_last());
        with_rows_concat(entries, a, b.drop_last(), types);
    }
}

/// Whether all groups have a key before `key`.
spec fn all_before(entries: Seq<Entry>, key: Seq<u8>) -> bool {
    forall|i: int| 0 <= i < entries.len() ==> key_less((#[trigger] entries[i]).0, key)
}

proof fn place_behind(front: Seq<Entry>, back: Seq<Entry>, key: Seq<u8>)
    requires
        all_before(front, key),
    ensures
        place(front + back, key) == front.len() + place(back, key),
    decreases front.len(),
{
    if front.len() == 0 {
        assert(front + back =~= back);
    } else {
        assert((front + back).drop_first() =~= front.drop_first() + back);
        assert((front + back)[0] == front[0]);
        assert(all_before(front.drop_first(), key)) by {
            assert forall|i: int| 0 <= i < front.drop_first().len() implies key_less(
                (#[trigger] front.drop_first()[i]).0,
                key,
            ) by {
                assert(front.drop_first()[i] == front[i + 1]);
            }
        }
        place_behind(front.drop_first(), back, key);
    }
}

proof fn with_row_behind(
    front: Seq<Entry>,
    back: Seq<Entry>,
    row: GroupRowView,
    types: Seq<AggType>,
)
    requires
        all_before(front, row.key),
        ascending(back),
    ensures
        with_row(front + back, row, types) == front + with_row(back, row, types),
{
    place_behind(front, back, row.key);
    place_bounds(back, row.key);
    let p = place(back, row.key);
    let n = front.len();
    if p < back.len() {
        assert((front + back)[n + p] == back[p]);
    }
    assert(with_row(front + back, row, types) =~= front + with_row(back, row, types));
}

proof fn with_rows_behind(
    front: Seq<Entry>,
    back: Seq<Entry>,
    rows: Seq<GroupRowView>,
    types: Seq<AggType>,
)
    requires
        forall|i: int| 0 <= i < rows.len() ==> all_before(front, (#[trigger] rows[i]).key),
        ascending(back),
    ensures
        with_rows(front + back, rows, types) == front + with_rows(back, rows, types),
    decreases rows.len(),
{
    if rows.len() > 0 {
        let fewer = rows.drop_last();
        assert forall|i: int| 0 <= i < fewer.len() implies all_before(
            front,
            (#[trigger] fewer[i]).key,
        ) by {
            assert(fewer[i] == rows[i]);
        }
        with_rows_behind(front, back, fewer, types);
        with_rows_ascend(back, fewer, types);
        assert(all_before(front, rows[rows.len() - 1].key));
        with_row_behind(front, with_rows(back, fewer, types), rows.last(), types);
    }
}

/// For rows in the order of their keys, streaming gives what grouping all of
/// them at once would: nothing is refused, and what was given out, followed by
/// what is left for the end, is the grouping of all rows. However the rows are
/// divided into batches, no group is given out twice or too early.
pub proof fn streaming_is_grouping(batches: Seq<Seq<GroupRowView>>, types: Seq<AggType>)
    requires
        in_key_order(all_rows(batches)),
    ensures
        progress(batches, types) is Some,
        ({
            let p = progress(batches, types)->0;
            p.emitted + p.entries == with_rows(seq![], all_rows(batches), types)
        }),
{
    progress_facts(batches, types);
}

proof fn progress_facts(batches: Seq<Seq<GroupRowView>>, types: Seq<AggType>)
    requires
        in_key_order(all_rows(batches)),
    ensures
        progress(batches, types) is Some,
        ({
            let p = progress(batches, types)->0;
            let rows = all_rows(batches);
            &&& p.emitted + p.entries == with_rows(seq![], rows, types)
            &&& ascending(p.entries)
            &&& match p.bound {
                None => p.emitted.len() == 0 && rows.len() == 0,
                Some(b) => all_before(p.emitted, b) && exists|i: int|
                    0 <= i < rows.len() && (#[trigger] rows[i]).key == b,
            }
        }),
    decreases batches.len(),
{
    if batches.len() == 0 {
        let p = progress(batches, types)->0;
        assert(p.emitted + p.entries =~= with_rows(seq![], all_rows(batches), types));
    } else {
        let front = batches.drop_last();
        let batch = batches.last();
        let rows = all_rows(batches);
        let earlier = all_rows(front);
        assert forall|i: int, j: int| 0 <= i < j < earlier.len() implies !key_less(
            (#[trigger] earlier[j]).key,
            (#[trigger] earlier[i]).key,
        ) by {
            assert(rows[i] == earlier[i]);
            assert(rows[j] == earlier[j]);
        }
        progress_facts(front, types);
        let before = progress(front, types)->0;
        let s = StreamView {
            entries: before.entries,
            bound: before.bound,
            pending: seq![],
            done: false,
        };
        with_rows_concat(seq![], earlier, batch, types);
        if batch.len() == 0 {
            assert(rows =~= earlier);
            let p = progress(batches, types)->0;
            assert(p.emitted =~= before.emitted);
        } else {
            let first = batch[0].key;
            let start = earlier.len() as int;
            assert(rows[start] == batch[0]);
            assert forall|i: int| 0 <= i < batch.len() implies !key_less(
                (#[trigger] batch[i]).key,
                first,
            ) by {
                assert(rows[start + i] == batch[i]);
                if i == 0 {
                    key_less_strict(first, first);
                } else {
                    assert(!key_less(rows[start + i].key, rows[start].key));
                }
            }
            match before.bound {
                Some(b) => {
                    let i = choose|i: int|
                        0 <= i < earlier.len() && (#[trigger] earlier[i]).key == b;
                    assert(rows[i] == earlier[i]);
                    assert(!key_less(rows[start].key, rows[i].key));
                },
                None => {},
            }
            let p = progress(batches, types)->0;
            let out = completed(s, first);
            let left = remaining(s, first);
            place_bounds(before.entries, first);
            assert(out + left =~= before.entries);
            let emitted = before.emitted + out;
            assert(p.emitted =~= emitted);
            assert(emitted + left =~= before.emitted + before.entries);
            assert(ascending(left)) by {
                assert forall|i: int, j: int| 0 <= i < j < left.len() implies key_less(
                    (#[trigger] left[i]).0,
                    (#[trigger] left[j]).0,
                ) by {
                    let shift = out.len() as int;
                    assert(left[i] == before.entries[i + shift]);
                    assert(left[j] == before.entries[j + shift]);
                }
            }
            assert(all_before(emitted, first)) by {
                assert forall|i: int| 0 <= i < emitted.len() implies key_less(
                    (#[trigger] emitted[i]).0,
                    first,
                ) by {
                    if i < before.emitted.len() {
                        let b = before.bound->0;
                        assert(emitted[i] == before.emitted[i]);
                        assert(key_less(before.emitted[i].0, b));
                        key_less_total(b, first);
                        key_less_transitive(before.emitted[i].0, b, first);
                    } else {
                        assert(emitted[i] == out[i - before.emitted.len()]);
                        assert(out[i - before.emitted.len()] == before.entries[i
                            - before.emitted.len()]);
                    }
                }
            }
            assert forall|i: int| 0 <= i < batch.len() implies all_before(
                emitted,
                (#[trigger] batch[i]).key,
            ) by {
                assert(!key_less(batch[i].key, first));
                key_less_total(batch[i].key, first);
                assert forall|e: int| 0 <= e < emitted.len() implies key_less(
                    (#[trigger] emitted[e]).0,
                    batch[i].key,
                ) by {
                    assert(key_less(emitted[e].0, first));
                    key_less_transitive(emitted[e].0, first, batch[i].key);
                }
            }
            with_rows_behind(emitted, left, batch, types);
            with_rows_ascend(left, batch, types);
            assert(p.bound == Some(first));
            assert(rows[start].key == first);
        }
    }
}

/// What a group gives for a key.
pub open spec fn group_of(entries: Seq<Entry>, key: Seq<u8>) -> Option<Seq<AggView>>
    decreases entries.len(),
{
    if entries.len() == 0 {
        None
    } else if entries.last().0 == key {
        Some(entries.last().1)
    } else {
        group_of(entries.drop_last(), key)
    }
}

/// The aggregates of the rows with a key; `None` where there are none.
pub open spec fn totals(rows: Seq<GroupRowView>, key: Seq<u8>, types: Seq<AggType>) -> Option<
    Seq<AggView>,
>
    decreases rows.len(),
{
    if rows.len() == 0 {
        None
    } else {
        let before = totals(rows.drop_last(), key, types);
        if rows.last().key == key {
            let aggs = match before {
                Some(a) => a,
                None => new_aggs(types),
            };
            Some(updated_aggs(aggs, rows.last().values, types))
        } else {
            before
        }
    }
}

proof fn group_of_is(entries: Seq<Entry>, i: int)
    requires
        ascending(entries),
        0 <= i < entries.len(),
    ensures
        group_of(entries, entries[i].0) == Some(entries[i].1),
    decreases entries.len(),
{
    let n = entries.len() - 1;
    if i < n {
        assert(key_less(entries[i].0, entries[n].0));
        key_less_strict(entries[i].0, entries[n].0);
        let front = entries.drop_last();
        assert(front[i] == entries[i]);
        assert(ascending(front)) by {
            assert forall|a: int, b: int| 0 <= a < b < front.len() implies key_less(
                (#[trigger] front[a]).0,
                (#[trigger] front[b]).0,
            ) by {
                assert(front[a] == entries[a]);
                assert(front[b] == entries[b]);
            }
        }
        group_of_is(front, i);
    }
}

proof fn no_group(entries: Seq<Entry>, key: Seq<u8>)
    requires
        forall|i: int| 0 <= i < entries.len() ==> (#[trigger] entries[i]).0 != key,
    ensures
        group_of(entries, key) is None,
    decreases entries.len(),
{
    if entries.len() > 0 {
        let front = entries.drop_last();
        assert(entries[entries.len() - 1].0 != key);
        assert forall|i: int| 0 <= i < front.len() implies (#[trigger] front[i]).0 != key by {
            assert(front[i] == entries[i]);
        }
        no_group(front, key);
    }
}

proof fn with_row_group(entries: Seq<Entry>, row: GroupRowView, types: Seq<AggType>, key: Seq<u8>)
    requires
        ascending(entries),
    ensures
        group_of(with_row(entries, row, types), key) == if key == row.key {
            let aggs = match group_of(entries, key) {
                Some(a) => a,
                None => new_aggs(types),
            };
            Some(updated_aggs(aggs, row.values, types))
        } else {
            group_of(entries, key)
        },
{
    let after = with_row(entries, row, types);
    let p = place(entries, row.key);
    place_bounds(entries, row.key);
    with_row_ascends(entries, row, types);
    let known = p < entries.len() && entries[p].0 == row.key;
    if key == row.key {
        assert(after[p].0 == key);
        group_of_is(after, p);
        if known {
            group_of_is(entries, p);
        } else {
            assert forall|i: int| 0 <= i < entries.len() implies (#[trigger] entries[i]).0
                != key by {
                if i < p {
                    key_less_strict(entries[i].0, key);
                } else if i > p {
                    assert(key_less(entries[p].0, entries[i].0));
                    key_less_total(entries[p].0, key);
                    key_less_strict(entries[p].0, key);
                }
            }
            no_group(entries, key);
        }
    } else if exists|i: int| 0 <= i < entries.len() && (#[trigger] entries[i]).0 == key {
        let i = choose|i: int| 0 <= i < entries.len() && (#[trigger] entries[i]).0 == key;
        group_of_is(entries, i);
        let m = if known || i < p {
            i
        } else {
            i + 1
        };
        assert(after[m] == entries[i]);
        group_of_is(after, m);
    } else {
        no_group(entries, key);
        assert forall|i: int| 0 <= i < after.len() implies (#[trigger] after[i]).0 != key by {
            if i != p {
                let was = if known || i < p {
                    i
                } else {
                    i - 1
                };
                assert(after[i] == entries[was]);
            }
        }
        no_group(after, key);
    }
}

/// Grouping is exact: the groups ascend by key, so none is there twice, and the
/// aggregates of each are those of exactly the rows with its key.
pub proof fn grouping_is_exact(rows: Seq<GroupRowView>, types: Seq<AggType>, key: Seq<u8>)
    ensures
        ascending(with_rows(seq![], rows, types)),
        group_of(with_rows(seq![], rows, types), key) == totals(rows, key, types),
    decreases rows.len(),
{
    with_rows_ascend(seq![], rows, types);
    if rows.len() > 0 {
        grouping_is_exact(rows.drop_last(), types, key);
        with_row_group(with_rows(seq![], rows.drop_last(), types), rows.last(), types, key);
    }
}

/// How many rows with a key have a value in a column.
pub open spec fn present(rows: Seq<GroupRowView>, key: Seq<u8>, column: int) -> int
    decreases rows.len(),
{
    if rows.len() == 0 {
        0
    } else {
        present(rows.drop_last(), key, column) + if rows.last().key == key && !(
        rows.last().values[column] is Null) {
            1int
        } else {
            0int
        }
    }
}

/// How many rows with a key have an integer in a column.
pub open spec fn integers(rows: Seq<GroupRowView>, key: Seq<u8>, column: int) -> int
    decreases rows.len(),
{
    if rows.len() == 0 {
        0
    } else {
        integers(rows.drop_last(), key, column) + if rows.last().key == key && (
        rows.last().values[column] is Signed || rows.last().values[column] is Unsigned) {
            1int
        } else {
            0int
        }
    }
}

/// The sum of the integers that the rows with a key have in a column.
pub open spec fn integer_sum(rows: Seq<GroupRowView>, key: Seq<u8>, column: int) -> int
    decreases rows.len(),
{
    if rows.len() == 0 {
        0
    } else {
        integer_sum(rows.drop_last(), key, column) + if rows.last().key == key {
            match rows.last().values[column] {
                AggValue::Signed(v) => v as int,
                AggValue::Unsigned(v) => v as int,
                _ => 0,
            }
        } else {
            0
        }
    }
}

/// What the aggregates of a group say of its rows: a count or an average has
/// counted the values that are not null, and a sum or an average of integers
/// has added up all of them, and is null where there are none.
pub proof fn aggregates_are_of_the_rows(
    rows: Seq<GroupRowView>,
    key: Seq<u8>,
    types: Seq<AggType>,
    a: int,
)
    requires
        0 <= a < types.len(),
    ensures
        totals(rows, key, types) is Some <==> exists|i: int|
            0 <= i < rows.len() && (#[trigger] rows[i]).key == key,
        totals(rows, key, types) matches Some(aggs) ==> {
            &&& aggs.len() == types.len()
            &&& !(types[a] is Sum) ==> aggs[a].count == present(rows, key, a)
            &&& types[a] is Sum ==> aggs[a].count == 0
            &&& types[a] is Count ==> aggs[a].sum is None
            &&& !(types[a] is Count) ==> aggs[a].sum == if integers(rows, key, a) > 0 {
                Some(integer_sum(rows, key, a))
            } else {
                None
            }
        },
        totals(rows, key, types) is None ==> present(rows, key, a) == 0 && integers(rows, key, a)
            == 0 && integer_sum(rows, key, a) == 0,
        integers(rows, key, a) >= 0,
        integers(rows, key, a) == 0 ==> integer_sum(rows, key, a) == 0,
    decreases rows.len(),
{
    if rows.len() > 0 {
        let front = rows.drop_last();
        let n = rows.len() - 1;
        aggregates_are_of_the_rows(front, key, types, a);
        assert(rows[n] == rows.last());
        if totals(front, key, types) is Some {
            let i = choose|i: int| 0 <= i < front.len() && (#[trigger] front[i]).key == key;
            assert(rows[i].key == key);
        }
        if totals(front, key, types) is None && rows.last().key != key {
            assert forall|i: int| 0 <= i < rows.len() implies (#[trigger] rows[i]).key != key by {
                if i < n {
                    assert(front[i] == rows[i]);
                }
            }
        }
    }
}

/// What streaming gives out for a key, of rows in the order of their keys: one
/// group, where some row has the key, whose counts are the numbers of values
/// and whose sums are the sums of the integers, over all rows of the key,
/// however they are divided into batches.
pub proof fn streamed_aggregates_are_of_the_rows(
    batches: Seq<Seq<GroupRowView>>,
    types: Seq<AggType>,
    key: Seq<u8>,
    a: int,
)
    requires
        in_key_order(all_rows(batches)),
        0 <= a < types.len(),
    ensures
        progress(batches, types) matches Some(p) && {
            let rows = all_rows(batches);
            match group_of(p.emitted + p.entries, key) {
                Some(aggs) => {
                    &&& exists|i: int| 0 <= i < rows.len() && (#[trigger] rows[i]).key == key
                    &&& !(types[a] is Sum) ==> aggs[a].count == present(rows, key, a)
                    &&& types[a] is Sum ==> aggs[a].count == 0
                    &&& types[a] is Count ==> aggs[a].sum is None
                    &&& !(types[a] is Count) ==> aggs[a].sum == if integers(rows, key, a) > 0 {
                        Some(integer_sum(rows, key, a))
                    } else {
                        None
                    }
                },
                None => forall|i: int| 0 <= i < rows.len() ==> (#[trigger] rows[i]).key != key,
            }
        },
{
    let rows = all_rows(batches);
    streaming_is_grouping(batches, types);
    grouping_is_exact(rows, types, key);
    aggregates_are_of_the_rows(rows, key, types, a);
}

/// The rows of batches are those of the first ones, followed by those of the
/// others, and the rows of one batch are its own.
pub proof fn rows_follow_the_batches(a: Seq<Seq<GroupRowView>>, b: Seq<Seq<GroupRowView>>)
    ensures
        all_rows(a + b) == all_rows(a) + all_rows(b),
        forall|batch: Seq<GroupRowView>| #[trigger] all_rows(seq![batch]) == batch,
    decreases b.len(),
{
    assert forall|batch: Seq<GroupRowView>| #[trigger] all_rows(seq![batch]) == batch by {
        reveal_with_fuel(all_rows, 2);
        assert(seq![batch].drop_last() =~= seq![]);
        assert(all_rows(seq![batch]) =~= batch);
    }
    if b.len() == 0 {
        assert(a + b =~= a);
        assert(all_rows(a) + all_rows(b) =~= all_rows(a));
    } else {
        assert((a + b).drop_last() =~= a + b.drop_last());
        rows_follow_the_batches(a, b.drop_last());
        assert(all_rows(a + b) =~= all_rows(a) + all_rows(b));
    }
}

/// A group that is found for a key is one of the groups, and none is found only
/// where there is none.
pub proof fn found_groups_are_there(entries: Seq<Entry>, key: Seq<u8>)
    requires
        ascending(entries),
    ensures
        match group_of(entries, key) {
            Some(aggs) => exists|i: int|
                0 <= i < entries.len() && (#[trigger] entries[i]) == (key, aggs),
            None => forall|i: int| 0 <= i < entries.len() ==> (#[trigger] entries[i]).0 != key,
        },
{
    if exists|i: int| 0 <= i < entries.len() && (#[trigger] entries[i]).0 == key {
        let i = choose|i: int| 0 <= i < entries.len() && (#[trigger] entries[i]).0 == key;
        group_of_is(entries, i);
        assert(entries[i] == (key, entries[i].1));
    } else {
        no_group(entries, key);
    }
}

proof fn bound_is_no_less(batches: Seq<Seq<GroupRowView>>, types: Seq<AggType>, j: int)
    requires
        progress(batches, types) is Some,
        0 <= j < batches.len(),
        batches[j].len() > 0,
    ensures
        progress(batches, types)->0.bound matches Some(b) && !key_less(b, batches[j][0].key),
    decreases batches.len(),
{
    let front = batches.drop_last();
    let n = batches.len() - 1;
    let first = batches.last();
    let before = progress(front, types)->0;
    if j < n {
        bound_is_no_less(front, types, j);
        assert(front[j] == batches[j]);
        if first.len() > 0 {
            let b = before.bound->0;
            let f = first[0].key;
            let k = batches[j][0].key;
            assert(!key_less(f, b));
            if key_less(f, k) {
                key_less_total(f, b);
                key_less_total(b, k);
                key_less_strict(b, k);
                key_less_transitive(b, f, k);
            }
        }
    } else {
        key_less_strict(first[0].key, first[0].key);
    }
}

/// A batch that starts before an earlier one did is refused: its groups may
/// have been given out already.
pub proof fn batches_out_of_order_are_refused(
    batches: Seq<Seq<GroupRowView>>,
    next: Seq<GroupRowView>,
    types: Seq<AggType>,
    j: int,
)
    requires
        0 <= j < batches.len(),
        batches[j].len() > 0,
        next.len() > 0,
        key_less(next[0].key, batches[j][0].key),
    ensures
        progress(batches.push(next), types) is None,
{
    let all = batches.push(next);
    assert(all.drop_last() =~= batches);
    if progress(batches, types) is Some {
        bound_is_no_less(batches, types, j);
        let b = progress(batches, types)->0.bound->0;
        let f = next[0].key;
        let k = batches[j][0].key;
        if !key_less(f, b) {
            key_less_total(f, b);
            key_less_total(b, k);
            key_less_strict(b, k);
            key_less_strict(f, k);
            key_less_transitive(b, f, k);
        }
    }
}

/// At the end nothing is left behind: all groups that are kept are handed over,
/// once, behind what was to be given out before.
pub proof fn the_end_gives_everything_out(s: StreamView)
    ensures
        after_end(s).done,
        after_end(s).entries.len() == 0,
        s.entries.len() == 0 ==> after_end(s).pending == s.pending,
        s.entries.len() > 0 ==> after_end(s).pending.len() == s.pending.len() + 1
            && after_end(s).pending.last() == s.entries && after_end(s).pending.drop_last()
            =~= s.pending,
{
}

} // verus!
