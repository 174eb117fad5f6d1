//! Grouping rows that come in the order of their keys.
//!
//! A group is complete once a batch starts with a larger key, and is given out
//! then. The rest is given out at the end. Keys are compared by their encoded
//! bytes.
//!
//! Sums of integers are kept exactly. The caller keeps the sums of floating
//! point columns, by the key of the group.
pub mod keys;
pub mod laws;
pub mod output;

use vstd::prelude::*;
use vstd::string::*;

use self::keys::{
    key_less, key_less_strict, key_less_total, key_less_transitive, order_keys, KeyOrder,
};

use crate::error::{other, QueryError, Result};
use crate::scalar::DataType;

verus! {

/// What is computed of a column.
#[derive(Debug, Clone, Copy, PartialEq, Eq, Structural)]
pub enum AggType {
    /// `COUNT(*)` or `COUNT(col)`.
    Count,
    /// `SUM(col)`.
    Sum,
    /// `AVG(col)`.
    Avg,
}

/// The value of a column in one row, as far as it is aggregated here.
#[derive(Debug, Clone, Copy, PartialEq, Eq, Structural)]
pub enum AggValue {
    Null,
    /// A value that is only counted, or that the caller sums.
    Present,
    Signed(i64),
    Unsigned(u64),
}

/// The running sum of a column, by its type.
#[derive(Debug, Clone, Copy, PartialEq, Eq, Structural)]
pub enum Accumulator {
    /// None is kept, for a count.
    Count,
    /// Of signed integers.
    I128(Option<i128>),
    /// Of unsigned integers.
    U128(Option<u128>),
    /// Of floating point numbers, which the caller keeps.
    F64,
}

/// The sum that an aggregate of a column starts with; `None` for a column that
/// cannot be summed.
pub open spec fn accumulator_for(input_type: DataType, agg_type: AggType) -> Option<Accumulator> {
    match agg_type {
        AggType::Count => Some(Accumulator::Count),
        _ => match input_type {
            DataType::Int8 | DataType::Int16 | DataType::Int32 | DataType::Int64 => Some(
                Accumulator::I128(None),
            ),
            DataType::UInt8 | DataType::UInt16 | DataType::UInt32 | DataType::UInt64 => Some(
                Accumulator::U128(None),
            ),
            DataType::Float32 | DataType::Float64 => Some(Accumulator::F64),
            _ => None,
        },
    }
}

pub open spec fn unsupported_input_message(name: Seq<char>) -> Seq<char> {
    "unsupported numeric type for streaming aggregation: "@ + name
}

impl Accumulator {
    pub fn new(input_type: &DataType, agg_type: AggType) -> (r: Result<Accumulator>)
        ensures
            match accumulator_for(*input_type, agg_type) {
                Some(a) => r == Ok::<Accumulator, QueryError>(a),
                None => r matches Err(e) && e.says(
                    unsupported_input_message(input_type.written_name()),
                ),
            },
    {
        match agg_type {
            AggType::Count => Ok(Accumulator::Count),
            _ => match input_type {
                DataType::Int8 | DataType::Int16 | DataType::Int32 | DataType::Int64 => Ok(
                    Accumulator::I128(None),
                ),
                DataType::UInt8 | DataType::UInt16 | DataType::UInt32 | DataType::UInt64 => Ok(
                    Accumulator::U128(None),
                ),
                DataType::Float32 | DataType::Float64 => Ok(Accumulator::F64),
                _ => {
                    let mut message: String =
                        "unsupported numeric type for streaming aggregation: ".to_owned();
                    message.append(input_type.name());
                    Err(other(message.as_str()))
                },
            },
        }
    }
}

/// One aggregate of one group, so far.
#[derive(Debug, Clone, Copy, PartialEq, Eq, Structural)]
pub struct PerAggState {
    /// The values that were counted, for a count or an average.
    pub count: i64,
    /// Their sum, for a sum or an average.
    pub accumulator: Accumulator,
}

pub struct AggView {
    pub count: int,
    pub sum: Option<int>,
}

impl View for PerAggState {
    type V = AggView;

    open spec fn view(&self) -> AggView {
        AggView {
            count: self.count as int,
            sum: match self.accumulator {
                Accumulator::I128(Some(s)) => Some(s as int),
                Accumulator::U128(Some(s)) => Some(s as int),
                _ => None,
            },
        }
    }
}

/// The sum with one more value. The first value starts it, so that the sum of
/// nothing is null.
pub open spec fn summed(sum: Option<int>, value: AggValue) -> Option<int> {
    let before = match sum {
        Some(s) => s,
        None => 0,
    };
    match value {
        AggValue::Signed(v) => Some(before + v),
        AggValue::Unsigned(v) => Some(before + v),
        _ => sum,
    }
}

/// An aggregate after one more row. Nulls do not count.
pub open spec fn aggregated(before: AggView, value: AggValue, agg_type: AggType) -> AggView {
    if value is Null {
        before
    } else {
        match agg_type {
            AggType::Count => AggView { count: before.count + 1, sum: before.sum },
            AggType::Sum => AggView { count: before.count, sum: summed(before.sum, value) },
            AggType::Avg => AggView { count: before.count + 1, sum: summed(before.sum, value) },
        }
    }
}

/// Whether two sums are of the same kind.
pub open spec fn same_kind(a: Accumulator, b: Accumulator) -> bool {
    match a {
        Accumulator::Count => b is Count,
        Accumulator::I128(_) => b is I128,
        Accumulator::U128(_) => b is U128,
        Accumulator::F64 => b is F64,
    }
}

/// Whether a value is of the type that the sum is of.
pub open spec fn value_fits(kind: Accumulator, agg_type: AggType, value: AggValue) -> bool {
    value is Null || agg_type is Count || match kind {
        Accumulator::Count => false,
        Accumulator::I128(_) => value is Signed,
        Accumulator::U128(_) => value is Unsigned,
        Accumulator::F64 => value is Present,
    }
}

/// Whether an aggregate can be of `n` rows: its count and sum are within what
/// these can give.
pub open spec fn within_rows(state: PerAggState, n: int) -> bool {
    &&& 0 <= state.count <= n
    &&& match state.accumulator {
        Accumulator::I128(Some(s)) => -n * 0x8000_0000_0000_0000 <= s <= n * 0x8000_0000_0000_0000,
        Accumulator::U128(Some(s)) => s <= n * 0x1_0000_0000_0000_0000,
        _ => true,
    }
}

fn update_per_agg_state(
    state: &PerAggState,
    value: AggValue,
    agg_type: AggType,
    rows: Ghost<int>,
) -> (r: PerAggState)
    requires
        within_rows(*state, rows@),
        0 <= rows@ < i64::MAX,
        value_fits(state.accumulator, agg_type, value),
    ensures
        r@ == aggregated(state@, value, agg_type),
        same_kind(r.accumulator, state.accumulator),
        within_rows(r, rows@ + 1),
{
    proof {
        let n = rows@;
        assert((n + 1) * 0x8000_0000_0000_0000 == n * 0x8000_0000_0000_0000
            + 0x8000_0000_0000_0000) by (nonlinear_arith);
        assert(-(n + 1) * 0x8000_0000_0000_0000 == -n * 0x8000_0000_0000_0000
            - 0x8000_0000_0000_0000) by (nonlinear_arith);
        assert((n + 1) * 0x1_0000_0000_0000_0000 == n * 0x1_0000_0000_0000_0000
            + 0x1_0000_0000_0000_0000) by (nonlinear_arith);
        assert(n * 0x1_0000_0000_0000_0000 <= 0x7fff_ffff_ffff_ffff * 0x1_0000_0000_0000_0000)
            by (nonlinear_arith)
            requires
                0 <= n < 0x7fff_ffff_ffff_ffff,
        ;
        assert(n * 0x8000_0000_0000_0000 <= 0x7fff_ffff_ffff_ffff * 0x8000_0000_0000_0000)
            by (nonlinear_arith)
            requires
                0 <= n < 0x7fff_ffff_ffff_ffff,
        ;
    }
    let mut out = *state;
    if matches!(value, AggValue::Null) {
        return out;
    }
    if agg_type != AggType::Count {
        match (state.accumulator, value) {
            (Accumulator::I128(sum), AggValue::Signed(v)) => {
                let before: i128 = match sum {
                    Some(s) => s,
                    None => 0,
                };
                out.accumulator = Accumulator::I128(Some(before + v as i128));
            },
            (Accumulator::U128(sum), AggValue::Unsigned(v)) => {
                let before: u128 = match sum {
                    Some(s) => s,
                    None => 0,
                };
                out.accumulator = Accumulator::U128(Some(before + v as u128));
            },
            _ => {},
        }
    }
    if agg_type != AggType::Sum {
        out.count = out.count + 1;
    }
    out
}

/// What is grouped: the aggregates with the types of their columns.
pub struct StreamingGroupByExec {
    pub aggr_types: Vec<AggType>,
    pub aggr_input_types: Vec<DataType>,
}

impl StreamingGroupByExec {
    /// Every column can be aggregated.
    pub open spec fn well_formed(self) -> bool {
        &&& self.aggr_types@.len() == self.aggr_input_types@.len()
        &&& forall|i: int|
            0 <= i < self.aggr_types@.len() ==> accumulator_for(
                self.aggr_input_types@[i],
                #[trigger] self.aggr_types@[i],
            ) is Some
    }

    /// Checks that every column can be aggregated.
    pub fn try_new(aggr_types: Vec<AggType>, aggr_input_types: Vec<DataType>) -> (r: Result<
        StreamingGroupByExec,
    >)
        requires
            aggr_types@.len() == aggr_input_types@.len(),
        ensures
            match r {
                Ok(exec) => exec.well_formed() && exec.aggr_types == aggr_types
                    && exec.aggr_input_types == aggr_input_types,
                Err(e) => exists|i: int|
                    {
                        &&& 0 <= i < aggr_types@.len()
                        &&& accumulator_for(aggr_input_types@[i], #[trigger] aggr_types@[i]) is None
                        &&& forall|k: int|
                            0 <= k < i ==> accumulator_for(
                                aggr_input_types@[k],
                                #[trigger] aggr_types@[k],
                            ) is Some
                        &&& e.says(unsupported_input_message(aggr_input_types@[i].written_name()))
                    },
            },
    {
        let mut i: usize = 0;
        while i < aggr_types.len()
            invariant
                i <= aggr_types@.len() == aggr_input_types@.len(),
                forall|k: int|
                    0 <= k < i ==> accumulator_for(
                        aggr_input_types@[k],
                        #[trigger] aggr_types@[k],
                    ) is Some,
            decreases aggr_types@.len() - i,
        {
            match Accumulator::new(&aggr_input_types[i], aggr_types[i]) {
                Ok(_) => {},
                Err(e) => {
                    assert(accumulator_for(aggr_input_types@[i as int], aggr_types@[i as int])
                        is None);
                    return Err(e);
                },
            }
            i = i + 1;
        }
        Ok(StreamingGroupByExec { aggr_types, aggr_input_types })
    }

    /// Whether the aggregates of a group are of the right kinds.
    pub open spec fn typed(self, aggs: Seq<PerAggState>) -> bool {
        &&& aggs.len() == self.aggr_types@.len()
        &&& forall|i: int|
            0 <= i < aggs.len() ==> same_kind(
                accumulator_for(self.aggr_input_types@[i], self.aggr_types@[i])->0,
                (#[trigger] aggs[i]).accumulator,
            )
    }

    /// Whether the values of a row are of the types of the columns.
    pub open spec fn row_fits(self, values: Seq<AggValue>) -> bool {
        &&& values.len() == self.aggr_types@.len()
        &&& forall|i: int|
            0 <= i < values.len() ==> value_fits(
                accumulator_for(self.aggr_input_types@[i], self.aggr_types@[i])->0,
                self.aggr_types@[i],
                #[trigger] values[i],
            )
    }

    fn new_group(&self) -> (r: Vec<PerAggState>)
        requires
            self.well_formed(),
        ensures
            self.typed(r@),
            agg_views(r@) == new_aggs(self.aggr_types@),
            forall|i: int| 0 <= i < r@.len() ==> within_rows(#[trigger] r@[i], 0),
    {
        let mut out: Vec<PerAggState> = Vec::new();
        let mut i: usize = 0;
        while i < self.aggr_types.len()
            invariant
                self.well_formed(),
                i <= self.aggr_types@.len(),
                out@.len() == i,
                forall|k: int|
                    0 <= k < i ==> same_kind(
                        accumulator_for(self.aggr_input_types@[k], self.aggr_types@[k])->0,
                        (#[trigger] out@[k]).accumulator,
                    ),
                forall|k: int|
                    0 <= k < i ==> (#[trigger] out@[k])@ == (AggView { count: 0, sum: None }),
                forall|k: int| 0 <= k < i ==> within_rows(#[trigger] out@[k], 0),
            decreases self.aggr_types@.len() - i,
        {
            assert(accumulator_for(self.aggr_input_types@[i as int], self.aggr_types@[i as int])
                is Some);
            let accumulator = match Accumulator::new(
                &self.aggr_input_types[i],
                self.aggr_types[i],
            ) {
                Ok(a) => a,
                Err(_) => Accumulator::Count,
            };
            out.push(PerAggState { count: 0, accumulator });
            i = i + 1;
        }
        assert(agg_views(out@) =~= new_aggs(self.aggr_types@));
        out
    }

    fn update_group(&self, aggs: &mut Vec<PerAggState>, values: &Vec<AggValue>, rows: Ghost<int>)
        requires
            self.well_formed(),
            self.typed(old(aggs)@),
            self.row_fits(values@),
            0 <= rows@ < i64::MAX,
            forall|i: int|
                0 <= i < old(aggs)@.len() ==> within_rows(#[trigger] old(aggs)@[i], rows@),
        ensures
            self.typed(final(aggs)@),
            agg_views(final(aggs)@) == updated_aggs(
                agg_views(old(aggs)@),
                values@,
                self.aggr_types@,
            ),
            forall|i: int|
                0 <= i < final(aggs)@.len() ==> within_rows(
                    #[trigger] final(aggs)@[i],
                    rows@ + 1,
                ),
    {
        let ghost before = aggs@;
        let mut i: usize = 0;
        while i < self.aggr_types.len()
            invariant
                self.well_formed(),
                self.row_fits(values@),
                0 <= rows@ < i64::MAX,
                i <= self.aggr_types@.len(),
                aggs@.len() == self.aggr_types@.len() == before.len(),
                self.typed(before),
                forall|k: int| 0 <= k < before.len() ==> within_rows(#[trigger] before[k], rows@),
                forall|k: int| i <= k < aggs@.len() ==> #[trigger] aggs@[k] == before[k],
                forall|k: int|
                    0 <= k < i ==> same_kind(
                        before[k].accumulator,
                        (#[trigger] aggs@[k]).accumulator,
                    ),
                forall|k: int|
                    0 <= k < i ==> (#[trigger] aggs@[k])@ == aggregated(
                        before[k]@,
                        values@[k],
                        self.aggr_types@[k],
                    ),
                forall|k: int|
                    0 <= k < i ==> within_rows(#[trigger] aggs@[k], rows@ + 1),
            decreases self.aggr_types@.len() - i,
        {
            assert(aggs@[i as int] == before[i as int]);
            assert(within_rows(before[i as int], rows@));
            assert(same_kind(
                accumulator_for(self.aggr_input_types@[i as int], self.aggr_types@[i as int])->0,
                before[i as int].accumulator,
            ));
            assert(value_fits(
                accumulator_for(self.aggr_input_types@[i as int], self.aggr_types@[i as int])->0,
                self.aggr_types@[i as int],
                values@[i as int],
            ));
            let next = update_per_agg_state(&aggs[i], values[i], self.aggr_types[i], rows);
            aggs.set(i, next);
            i = i + 1;
        }
        assert(agg_views(aggs@) =~= updated_aggs(agg_views(before), values@, self.aggr_types@));
        assert forall|k: int| 0 <= k < aggs@.len() implies same_kind(
            accumulator_for(self.aggr_input_types@[k], self.aggr_types@[k])->0,
            (#[trigger] aggs@[k]).accumulator,
        ) by {
            assert(same_kind(
                accumulator_for(self.aggr_input_types@[k], self.aggr_types@[k])->0,
                before[k].accumulator,
            ));
        }
    }
}

/// The views of the aggregates of a group.
pub open spec fn agg_views(aggs: Seq<PerAggState>) -> Seq<AggView> {
    aggs.map_values(|a: PerAggState| a@)
}

/// The aggregates of a group without rows.
pub open spec fn new_aggs(types: Seq<AggType>) -> Seq<AggView> {
    types.map_values(|t: AggType| AggView { count: 0, sum: None })
}

/// The aggregates of a group after one more row.
pub open spec fn updated_aggs(
    aggs: Seq<AggView>,
    values: Seq<AggValue>,
    types: Seq<AggType>,
) -> Seq<AggView> {
    Seq::new(aggs.len(), |i: int| aggregated(aggs[i], values[i], types[i]))
}

// ---------------------------------------------------------------------------
// Groups
// ---------------------------------------------------------------------------
/// One row: the encoded key of its group, and the values to aggregate.
pub struct GroupRow {
    pub key: Vec<u8>,
    pub values: Vec<AggValue>,
}

pub struct GroupRowView {
    pub key: Seq<u8>,
    pub values: Seq<AggValue>,
}

impl View for GroupRow {
    type V = GroupRowView;

    open spec fn view(&self) -> GroupRowView {
        GroupRowView { key: self.key@, values: self.values@ }
    }
}

/// The views of a sequence of rows.
pub open spec fn group_row_views(rows: Seq<GroupRow>) -> Seq<GroupRowView> {
    rows.map_values(|r: GroupRow| r@)
}

/// A group: its key and its aggregates.
pub type Group = (Vec<u8>, Vec<PerAggState>);

pub type Entry = (Seq<u8>, Seq<AggView>);

/// The views of a sequence of groups.
pub open spec fn entries_of(groups: Seq<Group>) -> Seq<Entry> {
    groups.map_values(|g: Group| (g.0@, agg_views(g.1@)))
}

/// Whether the keys of the groups ascend.
pub open spec fn ascending(entries: Seq<Entry>) -> bool {
    forall|i: int, j: int|
        0 <= i < j < entries.len() ==> key_less((#[trigger] entries[i]).0, (
        #[trigger] entries[j]).0)
}

/// How many groups at the front have a key before `key`.
pub open spec fn place(entries: Seq<Entry>, key: Seq<u8>) -> int
    decreases entries.len(),
{
    if entries.len() == 0 || !key_less(entries[0].0, key) {
        0
    } else {
        1 + place(entries.drop_first(), key)
    }
}

/// The groups after one more row: the group of its key is updated, or made.
pub open spec fn with_row(entries: Seq<Entry>, row: GroupRowView, types: Seq<AggType>) -> Seq<
    Entry,
> {
    let p = place(entries, row.key);
    if p < entries.len() && entries[p].0 == row.key {
        entries.update(p, (row.key, updated_aggs(entries[p].1, row.values, types)))
    } else {
        entries.insert(p, (row.key, updated_aggs(new_aggs(types), row.values, types)))
    }
}

/// The groups after some more rows.
pub open spec fn with_rows(
    entries: Seq<Entry>,
    rows: Seq<GroupRowView>,
    types: Seq<AggType>,
) -> Seq<Entry>
    decreases rows.len(),
{
    if rows.len() == 0 {
        entries
    } else {
        with_row(with_rows(entries, rows.drop_last(), types), rows.last(), types)
    }
}

pub(crate) proof fn place_bounds(entries: Seq<Entry>, key: Seq<u8>)
    requires
        ascending(entries),
    ensures
        0 <= place(entries, key) <= entries.len(),
        forall|i: int| 0 <= i < place(entries, key) ==> key_less((#[trigger] entries[i]).0, key),
        forall|i: int|
            place(entries, key) <= i < entries.len() ==> !key_less((#[trigger] entries[i]).0, key),
    decreases entries.len(),
{
    if entries.len() > 0 {
        if key_less(entries[0].0, key) {
            let rest = entries.drop_first();
            assert forall|i: int, j: int| 0 <= i < j < rest.len() implies key_less(
                (#[trigger] rest[i]).0,
                (#[trigger] rest[j]).0,
            ) by {
                assert(rest[i] == entries[i + 1]);
                assert(rest[j] == entries[j + 1]);
            }
            place_bounds(rest, key);
            assert forall|i: int| 0 <= i < place(entries, key) implies key_less(
                (#[trigger] entries[i]).0,
                key,
            ) by {
                if i > 0 {
                    assert(rest[i - 1] == entries[i]);
                }
            }
            assert forall|i: int| place(entries, key) <= i < entries.len() implies !key_less(
                (#[trigger] entries[i]).0,
                key,
            ) by {
                assert(rest[i - 1] == entries[i]);
            }
        } else {
            assert forall|i: int| 0 <= i < entries.len() implies !key_less(
                (#[trigger] entries[i]).0,
                key,
            ) by {
                if i > 0 && key_less(entries[i].0, key) {
                    assert(key_less(entries[0].0, entries[i].0));
                    key_less_transitive(entries[0].0, entries[i].0, key);
                }
            }
        }
    }
}

proof fn place_is(entries: Seq<Entry>, key: Seq<u8>, p: int)
    requires
        ascending(entries),
        0 <= p <= entries.len(),
        forall|i: int| 0 <= i < p ==> key_less((#[trigger] entries[i]).0, key),
        forall|i: int| p <= i < entries.len() ==> !key_less((#[trigger] entries[i]).0, key),
    ensures
        place(entries, key) == p,
{
    place_bounds(entries, key);
    let q = place(entries, key);
    if q < p {
        assert(key_less(entries[q].0, key));
    }
    if p < q {
        assert(!key_less(entries[p].0, key));
    }
}

pub(crate) proof fn with_row_ascends(entries: Seq<Entry>, row: GroupRowView, types: Seq<AggType>)
    requires
        ascending(entries),
    ensures
        ascending(with_row(entries, row, types)),
{
    let p = place(entries, row.key);
    place_bounds(entries, row.key);
    let after = with_row(entries, row, types);
    if p < entries.len() && entries[p].0 == row.key {
        assert forall|i: int, j: int| 0 <= i < j < after.len() implies key_less(
            (#[trigger] after[i]).0,
            (#[trigger] after[j]).0,
        ) by {
            assert(key_less(entries[i].0, entries[j].0));
        }
    } else {
        assert forall|i: int, j: int| 0 <= i < j < after.len() implies key_less(
            (#[trigger] after[i]).0,
            (#[trigger] after[j]).0,
        ) by {
            let a = if i < p {
                i
            } else {
                i - 1
            };
            let b = if j < p {
                j
            } else {
                j - 1
            };
            if i == p {
                assert(after[j] == entries[b]);
                assert(!key_less(entries[b].0, row.key));
                key_less_total(entries[b].0, row.key);
                if entries[b].0 == row.key && b != p {
                    assert(key_less(entries[p].0, entries[b].0));
                    key_less_total(entries[p].0, row.key);
                }
            } else if j == p {
                assert(after[i] == entries[a]);
                assert(key_less(entries[a].0, row.key));
            } else {
                assert(after[i] == entries[a]);
                assert(after[j] == entries[b]);
                assert(key_less(entries[a].0, entries[b].0));
            }
        }
    }
}

pub(crate) proof fn with_rows_ascend(entries: Seq<Entry>, rows: Seq<GroupRowView>, types: Seq<AggType>)
    requires
        ascending(entries),
    ensures
        ascending(with_rows(entries, rows, types)),
    decreases rows.len(),
{
    if rows.len() > 0 {
        with_rows_ascend(entries, rows.drop_last(), types);
        with_row_ascends(with_rows(entries, rows.drop_last(), types), rows.last(), types);
    }
}

// ---------------------------------------------------------------------------
// The stream
// ---------------------------------------------------------------------------
/// What is kept between batches.
pub struct StreamingState {
    /// The groups that are not complete, in the order of their keys.
    pub groups: Vec<Group>,
    /// All groups with a key before this have been completed.
    pub drained_up_to: Option<Vec<u8>>,
    /// Complete groups that have not been given out.
    pub pending: Vec<Vec<Group>>,
    /// The rows that have been read.
    pub rows: u64,
    pub done_reading: bool,
}

pub struct StreamView {
    pub entries: Seq<Entry>,
    pub bound: Option<Seq<u8>>,
    pub pending: Seq<Seq<Entry>>,
    pub done: bool,
}

pub open spec fn key_view(key: Option<Vec<u8>>) -> Option<Seq<u8>> {
    match key {
        Some(k) => Some(k@),
        None => None,
    }
}

impl View for StreamingState {
    type V = StreamView;

    open spec fn view(&self) -> StreamView {
        StreamView {
            entries: entries_of(self.groups@),
            bound: key_view(self.drained_up_to),
            pending: self.pending@.map_values(|p: Vec<Group>| entries_of(p@)),
            done: self.done_reading,
        }
    }
}

/// The groups that are complete when a batch starts with `first`.
pub open spec fn completed(s: StreamView, first: Seq<u8>) -> Seq<Entry> {
    match s.bound {
        Some(b) if key_less(b, first) => s.entries.take(place(s.entries, first)),
        _ => seq![],
    }
}

/// The groups that are then left.
pub open spec fn remaining(s: StreamView, first: Seq<u8>) -> Seq<Entry> {
    match s.bound {
        Some(b) if key_less(b, first) => s.entries.skip(place(s.entries, first)),
        _ => s.entries,
    }
}

/// What is kept after one more batch; `None` where it shows that the rows are
/// not in the order of their keys.
pub open spec fn after_batch(s: StreamView, rows: Seq<GroupRowView>, types: Seq<AggType>) -> Option<
    StreamView,
> {
    if rows.len() == 0 {
        Some(s)
    } else {
        let first = rows[0].key;
        let out = completed(s, first);
        let next = StreamView {
            entries: with_rows(remaining(s, first), rows, types),
            bound: Some(first),
            pending: if out.len() > 0 {
                s.pending.push(out)
            } else {
                s.pending
            },
            done: s.done,
        };
        match s.bound {
            Some(b) if key_less(first, b) => None,
            _ => Some(next),
        }
    }
}

/// What is kept after the last batch: all groups are complete.
pub open spec fn after_end(s: StreamView) -> StreamView {
    StreamView {
        entries: seq![],
        bound: s.bound,
        pending: if s.entries.len() > 0 {
            s.pending.push(s.entries)
        } else {
            s.pending
        },
        done: true,
    }
}

/// What the operator does next.
pub enum StreamStep {
    /// Give out these groups.
    Emit(Vec<Group>),
    /// There is nothing left.
    Finished,
    /// Read the next batch.
    Read,
}

impl StreamingState {
    /// The keys ascend, and every aggregate is of the right kind and within
    /// what the rows that were read can give.
    pub open spec fn well_formed(self, exec: StreamingGroupByExec) -> bool {
        &&& self.rows <= i64::MAX
        &&& ascending(entries_of(self.groups@))
        &&& forall|g: int|
            0 <= g < self.groups@.len() ==> sound_group(
                exec,
                #[trigger] self.groups@[g],
                self.rows as int,
            )
    }

    pub fn new() -> (r: StreamingState)
        ensures
            forall|exec: StreamingGroupByExec| #[trigger] r.well_formed(exec),
            r.rows == 0,
            r@ == (StreamView { entries: seq![], bound: None, pending: seq![], done: false }),
    {
        let r = StreamingState {
            groups: Vec::new(),
            drained_up_to: None,
            pending: Vec::new(),
            rows: 0,
            done_reading: false,
        };
        assert(r@.entries =~= seq![]);
        assert(r@.pending =~= seq![]);
        r
    }

    /// Decides what the operator does next.
    pub fn next_step(&mut self) -> (r: StreamStep)
        ensures
            match r {
                StreamStep::Emit(groups) => {
                    &&& old(self)@.pending.len() > 0
                    &&& entries_of(groups@) == old(self)@.pending.last()
                    &&& final(self)@ == (StreamView {
                        pending: old(self)@.pending.drop_last(),
                        ..old(self)@
                    })
                    &&& final(self).groups == old(self).groups
                    &&& final(self).rows == old(self).rows
                },
                StreamStep::Finished => {
                    &&& old(self)@.pending.len() == 0
                    &&& old(self)@.done
                    &&& *final(self) == *old(self)
                },
                StreamStep::Read => {
                    &&& old(self)@.pending.len() == 0
                    &&& !old(self)@.done
                    &&& *final(self) == *old(self)
                },
            },
    {
        let ghost before = self@;
        let n: usize = self.pending.len();
        assert(before.pending.len() == n);
        if n > 0 {
            match self.pending.pop() {
                Some(groups) => {
                    assert(self@.pending =~= before.pending.drop_last());
                    return StreamStep::Emit(groups);
                },
                None => {},
            }
        }
        if self.done_reading {
            StreamStep::Finished
        } else {
            StreamStep::Read
        }
    }

    fn find_place(&self, key: &Vec<u8>) -> (r: usize)
        requires
            ascending(entries_of(self.groups@)),
        ensures
            r == place(entries_of(self.groups@), key@),
            r <= self.groups@.len(),
    {
        let ghost entries = entries_of(self.groups@);
        let mut low: usize = 0;
        let mut high: usize = self.groups.len();
        while low < high
            invariant
                low <= high <= self.groups@.len(),
                entries == entries_of(self.groups@),
                entries.len() == self.groups@.len(),
                ascending(entries),
                forall|i: int| 0 <= i < low ==> key_less((#[trigger] entries[i]).0, key@),
                forall|i: int|
                    high <= i < entries.len() ==> !key_less((#[trigger] entries[i]).0, key@),
            decreases high - low,
        {
            let mid: usize = low + (high - low) / 2;
            assert(entries[mid as int].0 == self.groups@[mid as int].0@);
            if matches!(order_keys(&self.groups[mid].0, key), KeyOrder::Before) {
                assert forall|i: int| 0 <= i < mid + 1 implies key_less(
                    (#[trigger] entries[i]).0,
                    key@,
                ) by {
                    if i < mid {
                        assert(key_less(entries[i].0, entries[mid as int].0));
                        key_less_transitive(entries[i].0, entries[mid as int].0, key@);
                    }
                }
                low = mid + 1;
            } else {
                assert forall|i: int| mid <= i < entries.len() implies !key_less(
                    (#[trigger] entries[i]).0,
                    key@,
                ) by {
                    if i > mid && key_less(entries[i].0, key@) {
                        assert(key_less(entries[mid as int].0, entries[i].0));
                        key_less_transitive(entries[mid as int].0, entries[i].0, key@);
                    }
                }
                high = mid;
            }
        }
        proof {
            place_is(entries, key@, low as int);
        }
        low
    }

    /// Completes the groups with a key before `threshold`.
    fn drain_groups_lt(&mut self, threshold: &Vec<u8>, exec: Ghost<StreamingGroupByExec>)
        requires
            old(self).well_formed(exec@),
        ensures
            final(self).well_formed(exec@),
            final(self).rows == old(self).rows,
            final(self).drained_up_to == old(self).drained_up_to,
            final(self)@ == ({
                let p = place(old(self)@.entries, threshold@);
                StreamView {
                    entries: old(self)@.entries.skip(p),
                    pending: if p > 0 {
                        old(self)@.pending.push(old(self)@.entries.take(p))
                    } else {
                        old(self)@.pending
                    },
                    ..old(self)@
                }
            }),
    {
        let ghost before = self@;
        let ghost old_groups = self.groups@;
        let p = self.find_place(threshold);
        let mut rest = self.groups.split_off(p);
        std::mem::swap(&mut self.groups, &mut rest);
        assert(entries_of(self.groups@) =~= before.entries.skip(p as int));
        assert(entries_of(rest@) =~= before.entries.take(p as int));
        proof {
            let kept = before.entries.skip(p as int);
            assert forall|i: int, j: int| 0 <= i < j < kept.len() implies key_less(
                (#[trigger] kept[i]).0,
                (#[trigger] kept[j]).0,
            ) by {
                assert(key_less(before.entries[i + p].0, before.entries[j + p].0));
            }
            assert forall|g: int| 0 <= g < self.groups@.len() implies sound_group(
                exec@,
                #[trigger] self.groups@[g],
                self.rows as int,
            ) by {
                assert(self.groups@[g] == old_groups[g + p]);
            }
        }
        if rest.len() > 0 {
            self.pending.push(rest);
            assert(self@.pending =~= before.pending.push(before.entries.take(p as int)));
        }
    }

    fn add_row(&mut self, exec: &StreamingGroupByExec, row: &GroupRow)
        requires
            exec.well_formed(),
            old(self).well_formed(*exec),
            old(self).rows < i64::MAX,
            exec.row_fits(row.values@),
        ensures
            final(self).well_formed(*exec),
            final(self).rows == old(self).rows + 1,
            final(self).drained_up_to == old(self).drained_up_to,
            final(self)@ == (StreamView {
                entries: with_row(old(self)@.entries, row@, exec.aggr_types@),
                ..old(self)@
            }),
    {
        let ghost before = self@;
        let ghost old_groups = self.groups@;
        let ghost n = self.rows as int;
        proof {
            place_bounds(before.entries, row.key@);
            with_row_ascends(before.entries, row@, exec.aggr_types@);
        }
        let p = self.find_place(&row.key);
        let known = p < self.groups.len() && matches!(
            order_keys(&self.groups[p].0, &row.key),
            KeyOrder::Same
        );
        assert(p < old_groups.len() ==> before.entries[p as int].0 == old_groups[p as int].0@);
        if known {
            assert(sound_group(*exec, old_groups[p as int], n));
            let mut group: Group = (Vec::new(), Vec::new());
            std::mem::swap(&mut group, &mut self.groups[p]);
            exec.update_group(&mut group.1, &row.values, Ghost(n));
            self.groups.set(p, group);
            assert(entries_of(self.groups@) =~= with_row(
                before.entries,
                row@,
                exec.aggr_types@,
            ));
        } else {
            let mut aggs = exec.new_group();
            assert forall|i: int| 0 <= i < aggs@.len() implies within_rows(
                #[trigger] aggs@[i],
                n,
            ) by {
                assert(within_rows(aggs@[i], 0));
            }
            exec.update_group(&mut aggs, &row.values, Ghost(n));
            let key = row.key.clone();
            assert(key@ =~= row.key@);
            self.groups.insert(p, (key, aggs));
            assert(entries_of(self.groups@) =~= with_row(
                before.entries,
                row@,
                exec.aggr_types@,
            ));
        }
        self.rows = self.rows + 1;
        assert forall|g: int| 0 <= g < self.groups@.len() implies sound_group(
            *exec,
            #[trigger] self.groups@[g],
            n + 1,
        ) by {
            if g != p {
                let was = if known || g < p {
                    g
                } else {
                    g - 1
                };
                assert(self.groups@[g] == old_groups[was]);
                assert(sound_group(*exec, old_groups[was], n));
                sound_group_grows(*exec, old_groups[was], n);
            }
        }
    }

    /// Takes in one batch. Where it starts with a larger key than the last
    /// ones did, the groups before that key are complete. A batch that starts
    /// with a smaller key shows that the rows are not in order.
    pub fn process_batch(&mut self, exec: &StreamingGroupByExec, rows: &Vec<GroupRow>) -> (r: Result<
        (),
    >)
        requires
            exec.well_formed(),
            old(self).well_formed(*exec),
            old(self).rows + rows@.len() <= i64::MAX,
            forall|i: int| 0 <= i < rows@.len() ==> exec.row_fits((#[trigger] rows@[i]).values@),
        ensures
            final(self).well_formed(*exec),
            match after_batch(old(self)@, group_row_views(rows@), exec.aggr_types@) {
                Some(after) => {
                    &&& r is Ok
                    &&& final(self)@ == after
                    &&& final(self).rows == old(self).rows + rows@.len()
                },
                None => {
                    &&& r matches Err(e) && e.says(
                        "StreamingGroupByExec input is not sorted by group key"@,
                    )
                    &&& *final(self) == *old(self)
                },
            },
    {
        let ghost before = self@;
        let ghost all = group_row_views(rows@);
        assert(all.len() == rows@.len());
        if rows.len() == 0 {
            return Ok(());
        }
        assert(all[0].key == rows@[0].key@);
        let first = rows[0].key.clone();
        assert(first@ =~= rows@[0].key@);
        match &self.drained_up_to {
            Some(drained) => {
                proof {
                    key_less_strict(first@, drained@);
                }
                match order_keys(&first, drained) {
                    KeyOrder::Before => {
                        return Err(other("StreamingGroupByExec input is not sorted by group key"));
                    },
                    KeyOrder::After => {
                        proof {
                            place_bounds(before.entries, first@);
                        }
                        self.drain_groups_lt(&first, Ghost(*exec));
                        self.drained_up_to = Some(first);
                    },
                    KeyOrder::Same => {},
                }
            },
            None => {
                self.drained_up_to = Some(first);
            },
        }
        let ghost start = self@;
        let ghost rows_before = self.rows;
        assert(start.entries == remaining(before, all[0].key));
        assert(start.bound == Some(all[0].key));
        let mut i: usize = 0;
        assert(all.take(0) =~= seq![]);
        while i < rows.len()
            invariant
                i <= rows@.len(),
                exec.well_formed(),
                self.well_formed(*exec),
                self.rows == rows_before + i,
                rows_before + rows@.len() <= i64::MAX,
                forall|k: int|
                    0 <= k < rows@.len() ==> exec.row_fits((#[trigger] rows@[k]).values@),
                all == group_row_views(rows@),
                all.len() == rows@.len(),
                self@ == (StreamView {
                    entries: with_rows(start.entries, all.take(i as int), exec.aggr_types@),
                    ..start
                }),
            decreases rows@.len() - i,
        {
            assert(all.take(i as int + 1).drop_last() =~= all.take(i as int));
            assert(all.take(i as int + 1).last() == rows@[i as int]@);
            assert(exec.row_fits(rows@[i as int].values@));
            self.add_row(exec, &rows[i]);
            i = i + 1;
        }
        assert(all.take(i as int) =~= all);
        Ok(())
    }

    /// Completes all groups, at the end.
    pub fn flush_remaining(&mut self, exec: &StreamingGroupByExec)
        requires
            old(self).well_formed(*exec),
        ensures
            final(self).well_formed(*exec),
            final(self)@ == after_end(old(self)@),
            final(self).rows == old(self).rows,
    {
        let ghost before = self@;
        let mut rest: Vec<Group> = Vec::new();
        std::mem::swap(&mut self.groups, &mut rest);
        assert(entries_of(self.groups@) =~= seq![]);
        assert(entries_of(rest@).len() == rest@.len());
        if rest.len() > 0 {
            self.pending.push(rest);
            assert(self@.pending =~= before.pending.push(before.entries));
        }
        self.done_reading = true;
    }
}

/// Whether the aggregates of a group are of the right kinds, and within what
/// `n` rows can give.
pub open spec fn sound_group(exec: StreamingGroupByExec, group: Group, n: int) -> bool {
    &&& exec.typed(group.1@)
    &&& forall|i: int| 0 <= i < group.1@.len() ==> within_rows(#[trigger] group.1@[i], n)
}

proof fn sound_group_grows(exec: StreamingGroupByExec, group: Group, n: int)
    requires
        sound_group(exec, group, n),
        0 <= n,
    ensures
        sound_group(exec, group, n + 1),
{
    assert forall|i: int| 0 <= i < group.1@.len() implies within_rows(
        #[trigger] group.1@[i],
        n + 1,
    ) by {
        assert(within_rows(group.1@[i], n));
        assert((n + 1) * 0x8000_0000_0000_0000 == n * 0x8000_0000_0000_0000
            + 0x8000_0000_0000_0000) by (nonlinear_arith);
        assert(-(n + 1) * 0x8000_0000_0000_0000 == -n * 0x8000_0000_0000_0000
            - 0x8000_0000_0000_0000) by (nonlinear_arith);
        assert((n + 1) * 0x1_0000_0000_0000_0000 == n * 0x1_0000_0000_0000_0000
            + 0x1_0000_0000_0000_0000) by (nonlinear_arith);
    }
}

/// An average is always made of what it needs: where values of integers were
/// counted for it, there is a sum of them.
pub proof fn counted_values_have_a_sum(before: AggView, value: AggValue)
    requires
        before.count > 0 ==> before.sum is Some,
        before.count >= 0,
        value is Signed || value is Unsigned || value is Null,
    ensures
        aggregated(before, value, AggType::Avg).count > 0 ==> aggregated(
            before,
            value,
            AggType::Avg,
        ).sum is Some,
{
}

/// Whether a type is one of signed integers, of unsigned integers, or of floating
/// point numbers.
pub open spec fn is_numeric(t: DataType, value: AggValue) -> bool {
    match value {
        AggValue::Signed(_) => t is Int8 || t is Int16 || t is Int32 || t is Int64,
        AggValue::Unsigned(_) => t is UInt8 || t is UInt16 || t is UInt32 || t is UInt64,
        AggValue::Present => t is Float32 || t is Float64,
        AggValue::Null => false,
    }
}

/// A column of numbers can be summed, and its sum takes the numbers of its kind;
/// counting takes any column and any value.
pub proof fn columns_are_summed_in_their_kind(t: DataType, agg_type: AggType, value: AggValue)
    ensures
        agg_type is Count ==> accumulator_for(t, agg_type) is Some,
        !(value is Null) && is_numeric(t, value) ==> (accumulator_for(t, agg_type) matches Some(sum)
            && value_fits(sum, agg_type, value)),
        !(agg_type is Count) && !(value is Null) && !is_numeric(t, value) ==> (accumulator_for(
            t,
            agg_type,
        ) matches Some(sum) ==> !value_fits(sum, agg_type, value)),
        !(agg_type is Count) ==> (accumulator_for(t, agg_type) is Some <==> is_numeric(
            t,
            AggValue::Present,
        ) || is_numeric(t, AggValue::Signed(0)) || is_numeric(t, AggValue::Unsigned(0))),
        accumulator_for(t, agg_type) matches Some(sum) ==> value_fits(sum, agg_type, AggValue::Null),
{
}

/// The groups and the rows are seen as they are, in their order: a group by its key
/// and what each of its aggregates has counted and summed up, a row by its key and
/// its values.
pub proof fn groups_are_seen_as_they_are(groups: Seq<Group>, rows: Seq<GroupRow>, i: int, a: int)
    ensures
        entries_of(groups).len() == groups.len(),
        group_row_views(rows).len() == rows.len(),
        0 <= i < rows.len() ==> group_row_views(rows)[i].key == rows[i].key@ && group_row_views(
            rows,
        )[i].values == rows[i].values@,
        0 <= i < groups.len() ==> entries_of(groups)[i].0 == groups[i].0@ && entries_of(
            groups,
        )[i].1.len() == groups[i].1@.len(),
        0 <= i < groups.len() && 0 <= a < groups[i].1@.len() ==> {
            let seen = entries_of(groups)[i].1[a];
            let state = groups[i].1@[a];
            &&& seen.count == state.count
            &&& match state.accumulator {
                Accumulator::I128(Some(s)) => seen.sum == Some(s as int),
                Accumulator::U128(Some(s)) => seen.sum == Some(s as int),
                _ => seen.sum is None,
            }
        },
{
}

} // verus!
