//! The columns of complete groups.
use vstd::prelude::*;
use vstd::string::*;

use super::{accumulator_for, same_kind, Accumulator, Group, PerAggState, StreamingGroupByExec};
use crate::error::{other, QueryError, Result};
use crate::scalar::DataType;

verus! {

/// A column of sums in the type of the output.
#[derive(Debug, PartialEq, Eq)]
pub enum SumColumn {
    Int8(Vec<Option<i8>>),
    Int16(Vec<Option<i16>>),
    Int32(Vec<Option<i32>>),
    Int64(Vec<Option<i64>>),
    UInt8(Vec<Option<u8>>),
    UInt16(Vec<Option<u16>>),
    UInt32(Vec<Option<u32>>),
    UInt64(Vec<Option<u64>>),
    /// Exact sums, which the caller converts to floating point.
    SignedFloat(Vec<Option<i128>>),
    UnsignedFloat(Vec<Option<u128>>),
    /// The sums that the caller keeps.
    Floats,
}

pub open spec fn unsupported_output_message(name: Seq<char>) -> Seq<char> {
    "unsupported SUM output type: "@ + name
}

fn unsupported_output(output_type: &DataType) -> (r: QueryError)
    ensures
        r.says(unsupported_output_message(output_type.written_name())),
{
    let mut message: String = "unsupported SUM output type: ".to_owned();
    message.append(output_type.name());
    other(message.as_str())
}

/// A sum as a number.
pub open spec fn widened(v: Option<i128>) -> Option<int> {
    match v {
        Some(x) => Some(x as int),
        None => None,
    }
}

/// A sum as a number.
pub open spec fn unsigned_widened(v: Option<u128>) -> Option<int> {
    match v {
        Some(x) => Some(x as int),
        None => None,
    }
}

/// Whether `r` is the column of these sums of signed integers in the type of
/// the output. A sum that does not fit is cut off as a cast does.
pub open spec fn signed_output(
    sums: Seq<Option<int>>,
    output_type: DataType,
    r: Result<SumColumn>,
) -> bool {
    match output_type {
        DataType::Int8 => r matches Ok(SumColumn::Int8(c)) && c@ == sums.map_values(
            |v: Option<int>| match v {
                Some(x) => Some(x as i8),
                None => None,
            },
        ),
        DataType::Int16 => r matches Ok(SumColumn::Int16(c)) && c@ == sums.map_values(
            |v: Option<int>| match v {
                Some(x) => Some(x as i16),
                None => None,
            },
        ),
        DataType::Int32 => r matches Ok(SumColumn::Int32(c)) && c@ == sums.map_values(
            |v: Option<int>| match v {
                Some(x) => Some(x as i32),
                None => None,
            },
        ),
        DataType::Int64 => r matches Ok(SumColumn::Int64(c)) && c@ == sums.map_values(
            |v: Option<int>| match v {
                Some(x) => Some(x as i64),
                None => None,
            },
        ),
        DataType::Float32 | DataType::Float64 => r matches Ok(SumColumn::SignedFloat(c))
            && c@.map_values(|v: Option<i128>| widened(v)) == sums,
        _ => r matches Err(e) && e.says(unsupported_output_message(output_type.written_name())),
    }
}

/// Whether `r` is the column of these sums of unsigned integers in the type of
/// the output. A sum that does not fit is cut off as a cast does.
pub open spec fn unsigned_output(
    sums: Seq<Option<int>>,
    output_type: DataType,
    r: Result<SumColumn>,
) -> bool {
    match output_type {
        DataType::UInt8 => r matches Ok(SumColumn::UInt8(c)) && c@ == sums.map_values(
            |v: Option<int>| match v {
                Some(x) => Some(x as u8),
                None => None,
            },
        ),
        DataType::UInt16 => r matches Ok(SumColumn::UInt16(c)) && c@ == sums.map_values(
            |v: Option<int>| match v {
                Some(x) => Some(x as u16),
                None => None,
            },
        ),
        DataType::UInt32 => r matches Ok(SumColumn::UInt32(c)) && c@ == sums.map_values(
            |v: Option<int>| match v {
                Some(x) => Some(x as u32),
                None => None,
            },
        ),
        DataType::UInt64 => r matches Ok(SumColumn::UInt64(c)) && c@ == sums.map_values(
            |v: Option<int>| match v {
                Some(x) => Some(x as u64),
                None => None,
            },
        ),
        DataType::Float32 | DataType::Float64 => r matches Ok(SumColumn::UnsignedFloat(c))
            && c@.map_values(|v: Option<u128>| unsigned_widened(v)) == sums,
        _ => r matches Err(e) && e.says(unsupported_output_message(output_type.written_name())),
    }
}

/// `f` of every value that is not null.
fn map_present<A: Copy, B, F: Fn(A) -> B>(values: &Vec<Option<A>>, f: F) -> (r: Vec<Option<B>>)
    requires
        forall|x: A| #[trigger] call_requires(f, (x,)),
    ensures
        r@.len() == values@.len(),
        forall|i: int|
            0 <= i < r@.len() ==> match values@[i] {
                Some(x) => (#[trigger] r@[i]) is Some && call_ensures(f, (x,), r@[i]->0),
                None => r@[i] is None,
            },
{
    let mut out: Vec<Option<B>> = Vec::new();
    let mut i: usize = 0;
    while i < values.len()
        invariant
            i <= values@.len(),
            forall|x: A| #[trigger] call_requires(f, (x,)),
            out@.len() == i,
            forall|k: int|
                0 <= k < i ==> match values@[k] {
                    Some(x) => (#[trigger] out@[k]) is Some && call_ensures(f, (x,), out@[k]->0),
                    None => out@[k] is None,
                },
        decreases values@.len() - i,
    {
        out.push(match values[i] {
            Some(x) => Some(f(x)),
            None => None,
        });
        i = i + 1;
    }
    out
}

fn as_i8(x: i128) -> (r: i8)
    ensures
        r == x as i8,
{
    #[verifier::truncate]
    (x as i8)
}

fn as_i16(x: i128) -> (r: i16)
    ensures
        r == x as i16,
{
    #[verifier::truncate]
    (x as i16)
}

fn as_i32(x: i128) -> (r: i32)
    ensures
        r == x as i32,
{
    #[verifier::truncate]
    (x as i32)
}

fn as_i64(x: i128) -> (r: i64)
    ensures
        r == x as i64,
{
    #[verifier::truncate]
    (x as i64)
}

fn as_u8(x: u128) -> (r: u8)
    ensures
        r == x as u8,
{
    #[verifier::truncate]
    (x as u8)
}

fn as_u16(x: u128) -> (r: u16)
    ensures
        r == x as u16,
{
    #[verifier::truncate]
    (x as u16)
}

fn as_u32(x: u128) -> (r: u32)
    ensures
        r == x as u32,
{
    #[verifier::truncate]
    (x as u32)
}

fn as_u64(x: u128) -> (r: u64)
    ensures
        r == x as u64,
{
    #[verifier::truncate]
    (x as u64)
}

/// Puts sums of signed integers into the type of the output, which keeps the
/// low bits of one that does not fit.
pub fn build_i128_output(values: Vec<Option<i128>>, output_type: &DataType) -> (r: Result<SumColumn>)
    ensures
        signed_output(
            values@.map_values(|v: Option<i128>| widened(v)),
            *output_type,
            r,
        ),
{
    let ghost sums = values@.map_values(|v: Option<i128>| widened(v));
    match output_type {
        DataType::Int8 => {
            let column = map_present(&values, as_i8);
            assert(column@ =~= sums.map_values(
                |v: Option<int>| match v {
                    Some(x) => Some(x as i8),
                    None => None,
                },
            ));
            Ok(SumColumn::Int8(column))
        },
        DataType::Int16 => {
            let column = map_present(&values, as_i16);
            assert(column@ =~= sums.map_values(
                |v: Option<int>| match v {
                    Some(x) => Some(x as i16),
                    None => None,
                },
            ));
            Ok(SumColumn::Int16(column))
        },
        DataType::Int32 => {
            let column = map_present(&values, as_i32);
            assert(column@ =~= sums.map_values(
                |v: Option<int>| match v {
                    Some(x) => Some(x as i32),
                    None => None,
                },
            ));
            Ok(SumColumn::Int32(column))
        },
        DataType::Int64 => {
            let column = map_present(&values, as_i64);
            assert(column@ =~= sums.map_values(
                |v: Option<int>| match v {
                    Some(x) => Some(x as i64),
                    None => None,
                },
            ));
            Ok(SumColumn::Int64(column))
        },
        DataType::Float32 | DataType::Float64 => Ok(SumColumn::SignedFloat(values)),
        _ => Err(unsupported_output(output_type)),
    }
}

/// Puts sums of unsigned integers into the type of the output, which keeps the
/// low bits of one that does not fit.
pub fn build_u128_output(values: Vec<Option<u128>>, output_type: &DataType) -> (r: Result<SumColumn>)
    ensures
        unsigned_output(
            values@.map_values(|v: Option<u128>| unsigned_widened(v)),
            *output_type,
            r,
        ),
{
    let ghost sums = values@.map_values(|v: Option<u128>| unsigned_widened(v));
    match output_type {
        DataType::UInt8 => {
            let column = map_present(&values, as_u8);
            assert(column@ =~= sums.map_values(
                |v: Option<int>| match v {
                    Some(x) => Some(x as u8),
                    None => None,
                },
            ));
            Ok(SumColumn::UInt8(column))
        },
        DataType::UInt16 => {
            let column = map_present(&values, as_u16);
            assert(column@ =~= sums.map_values(
                |v: Option<int>| match v {
                    Some(x) => Some(x as u16),
                    None => None,
                },
            ));
            Ok(SumColumn::UInt16(column))
        },
        DataType::UInt32 => {
            let column = map_present(&values, as_u32);
            assert(column@ =~= sums.map_values(
                |v: Option<int>| match v {
                    Some(x) => Some(x as u32),
                    None => None,
                },
            ));
            Ok(SumColumn::UInt32(column))
        },
        DataType::UInt64 => {
            let column = map_present(&values, as_u64);
            assert(column@ =~= sums.map_values(
                |v: Option<int>| match v {
                    Some(x) => Some(x as u64),
                    None => None,
                },
            ));
            Ok(SumColumn::UInt64(column))
        },
        DataType::Float32 | DataType::Float64 => Ok(SumColumn::UnsignedFloat(values)),
        _ => Err(unsupported_output(output_type)),
    }
}

/// The counts of an aggregate, one per group.
pub fn count_column(groups: &Vec<Group>, agg_idx: usize) -> (r: Vec<i64>)
    requires
        forall|g: int| 0 <= g < groups@.len() ==> agg_idx < (#[trigger] groups@[g]).1@.len(),
    ensures
        r@ == groups@.map_values(|g: Group| g.1@[agg_idx as int].count),
{
    let mut out: Vec<i64> = Vec::new();
    let mut i: usize = 0;
    while i < groups.len()
        invariant
            i <= groups@.len(),
            forall|g: int| 0 <= g < groups@.len() ==> agg_idx < (#[trigger] groups@[g]).1@.len(),
            out@.len() == i,
            forall|k: int| 0 <= k < i ==> out@[k] == groups@[k].1@[agg_idx as int].count,
        decreases groups@.len() - i,
    {
        assert(agg_idx < groups@[i as int].1@.len());
        out.push(groups[i].1[agg_idx].count);
        i = i + 1;
    }
    assert(out@ =~= groups@.map_values(|g: Group| g.1@[agg_idx as int].count));
    out
}

/// The exact sums of an aggregate, one per group; null for a group without
/// values.
pub open spec fn sums_of(groups: Seq<Group>, agg_idx: int) -> Seq<Option<int>> {
    groups.map_values(|g: Group| g.1@[agg_idx]@.sum)
}

/// The column of an aggregate's sums, in the type of the output.
pub fn sum_column(
    exec: &StreamingGroupByExec,
    groups: &Vec<Group>,
    agg_idx: usize,
    output_type: &DataType,
) -> (r: Result<SumColumn>)
    requires
        exec.well_formed(),
        agg_idx < exec.aggr_types@.len(),
        !(exec.aggr_types@[agg_idx as int] is Count),
        forall|g: int| 0 <= g < groups@.len() ==> exec.typed((#[trigger] groups@[g]).1@),
    ensures
        match accumulator_for(
            exec.aggr_input_types@[agg_idx as int],
            exec.aggr_types@[agg_idx as int],
        )->0 {
            Accumulator::I128(_) => signed_output(
                sums_of(groups@, agg_idx as int),
                *output_type,
                r,
            ),
            Accumulator::U128(_) => unsigned_output(
                sums_of(groups@, agg_idx as int),
                *output_type,
                r,
            ),
            _ => r matches Ok(SumColumn::Floats),
        },
{
    let ghost kind = accumulator_for(
        exec.aggr_input_types@[agg_idx as int],
        exec.aggr_types@[agg_idx as int],
    )->0;
    assert(accumulator_for(
        exec.aggr_input_types@[agg_idx as int],
        exec.aggr_types@[agg_idx as int],
    ) is Some);
    let accumulator = match Accumulator::new(
        &exec.aggr_input_types[agg_idx],
        exec.aggr_types[agg_idx],
    ) {
        Ok(a) => a,
        Err(e) => return Err(e),
    };
    assert(accumulator == kind);
    match accumulator {
        Accumulator::I128(_) => {
            let mut values: Vec<Option<i128>> = Vec::new();
            let mut i: usize = 0;
            while i < groups.len()
                invariant
                    i <= groups@.len(),
                    agg_idx < exec.aggr_types@.len(),
                    kind is I128,
                    kind == accumulator_for(
                        exec.aggr_input_types@[agg_idx as int],
                        exec.aggr_types@[agg_idx as int],
                    )->0,
                    forall|g: int|
                        0 <= g < groups@.len() ==> exec.typed((#[trigger] groups@[g]).1@),
                    values@.len() == i,
                    forall|k: int|
                        0 <= k < i ==> widened(#[trigger] values@[k])
                            == groups@[k].1@[agg_idx as int]@.sum,
                decreases groups@.len() - i,
            {
                assert(exec.typed(groups@[i as int].1@));
                let state = groups[i].1[agg_idx];
                assert(same_kind(kind, groups@[i as int].1@[agg_idx as int].accumulator));
                values.push(match state.accumulator {
                    Accumulator::I128(v) => v,
                    _ => None,
                });
                i = i + 1;
            }
            assert(values@.map_values(|v: Option<i128>| widened(v)) =~= sums_of(
                groups@,
                agg_idx as int,
            ));
            build_i128_output(values, output_type)
        },
        Accumulator::U128(_) => {
            let mut values: Vec<Option<u128>> = Vec::new();
            let mut i: usize = 0;
            while i < groups.len()
                invariant
                    i <= groups@.len(),
                    agg_idx < exec.aggr_types@.len(),
                    kind is U128,
                    kind == accumulator_for(
                        exec.aggr_input_types@[agg_idx as int],
                        exec.aggr_types@[agg_idx as int],
                    )->0,
                    forall|g: int|
                        0 <= g < groups@.len() ==> exec.typed((#[trigger] groups@[g]).1@),
                    values@.len() == i,
                    forall|k: int|
                        0 <= k < i ==> unsigned_widened(#[trigger] values@[k])
                            == groups@[k].1@[agg_idx as int]@.sum,
                decreases groups@.len() - i,
            {
                assert(exec.typed(groups@[i as int].1@));
                let state = groups[i].1[agg_idx];
                assert(same_kind(kind, groups@[i as int].1@[agg_idx as int].accumulator));
                values.push(match state.accumulator {
                    Accumulator::U128(v) => v,
                    _ => None,
                });
                i = i + 1;
            }
            assert(values@.map_values(|v: Option<u128>| unsigned_widened(v)) =~= sums_of(
                groups@,
                agg_idx as int,
            ));
            build_u128_output(values, output_type)
        },
        _ => Ok(SumColumn::Floats),
    }
}

/// What an average is made of.
#[derive(Debug, Clone, Copy, PartialEq, Eq, Structural)]
pub enum AverageParts {
    /// The exact sum and the count.
    Signed(i128, i64),
    Unsigned(u128, i64),
    /// The count; the caller keeps the sum.
    Float(i64),
}

/// Whether `r` is the sum and the count of an aggregate: nothing where it is of
/// no values, and an error where it is of another kind.
pub open spec fn is_average_of(state: PerAggState, r: Result<Option<AverageParts>>) -> bool {
    if state.count <= 0 {
        r == Ok::<Option<AverageParts>, QueryError>(None)
    } else {
        match state.accumulator {
            Accumulator::I128(Some(sum)) => r == Ok::<Option<AverageParts>, QueryError>(
                Some(AverageParts::Signed(sum, state.count)),
            ),
            Accumulator::U128(Some(sum)) => r == Ok::<Option<AverageParts>, QueryError>(
                Some(AverageParts::Unsigned(sum, state.count)),
            ),
            Accumulator::F64 => r == Ok::<Option<AverageParts>, QueryError>(
                Some(AverageParts::Float(state.count)),
            ),
            Accumulator::Count => r matches Err(e) && e.says(
                "streaming group-by internal error: Count accumulator used for Avg"@,
            ),
            _ => r matches Err(e) && e.says(
                "streaming group-by internal error: empty accumulator with non-zero count"@,
            ),
        }
    }
}

/// What the average of a group is made of, `None` where there are no values.
pub fn average_parts(state: &PerAggState) -> (r: Result<Option<AverageParts>>)
    ensures
        is_average_of(*state, r),
{
    if state.count <= 0 {
        return Ok(None);
    }
    match state.accumulator {
        Accumulator::I128(Some(sum)) => Ok(
            Some(AverageParts::Signed(sum, state.count)),
        ),
        Accumulator::U128(Some(sum)) => Ok(
            Some(AverageParts::Unsigned(sum, state.count)),
        ),
        Accumulator::F64 => Ok(Some(AverageParts::Float(state.count))),
        Accumulator::Count => Err(
            other("streaming group-by internal error: Count accumulator used for Avg"),
        ),
        _ => Err(
            other("streaming group-by internal error: empty accumulator with non-zero count"),
        ),
    }
}

/// Whether averages are given out in double precision, by the type of the
/// output.
pub fn average_in_double(output_type: &DataType) -> (r: Result<bool>)
    ensures
        match *output_type {
            DataType::Float64 => r == Ok::<bool, QueryError>(true),
            DataType::Float32 => r == Ok::<bool, QueryError>(false),
            _ => r matches Err(e) && e.says(
                "unsupported AVG output type: "@ + output_type.written_name(),
            ),
        },
{
    match output_type {
        DataType::Float64 => Ok(true),
        DataType::Float32 => Ok(false),
        _ => {
            let mut message: String = "unsupported AVG output type: ".to_owned();
            message.append(output_type.name());
            Err(other(message.as_str()))
        },
    }
}

/// The number at a place of a column of integers; `None` for null.
pub open spec fn number_at(column: SumColumn, i: int) -> Option<int> {
    match column {
        SumColumn::Int8(c) => match c@[i] {
            Some(x) => Some(x as int),
            None => None,
        },
        SumColumn::Int16(c) => match c@[i] {
            Some(x) => Some(x as int),
            None => None,
        },
        SumColumn::Int32(c) => match c@[i] {
            Some(x) => Some(x as int),
            None => None,
        },
        SumColumn::Int64(c) => match c@[i] {
            Some(x) => Some(x as int),
            None => None,
        },
        SumColumn::UInt8(c) => match c@[i] {
            Some(x) => Some(x as int),
            None => None,
        },
        SumColumn::UInt16(c) => match c@[i] {
            Some(x) => Some(x as int),
            None => None,
        },
        SumColumn::UInt32(c) => match c@[i] {
            Some(x) => Some(x as int),
            None => None,
        },
        SumColumn::UInt64(c) => match c@[i] {
            Some(x) => Some(x as int),
            None => None,
        },
        SumColumn::SignedFloat(c) => match c@[i] {
            Some(x) => Some(x as int),
            None => None,
        },
        SumColumn::UnsignedFloat(c) => match c@[i] {
            Some(x) => Some(x as int),
            None => None,
        },
        SumColumn::Floats => None,
    }
}

/// The least and the largest sum that a type of output holds exactly; `None`
/// for a type that holds no sums of such integers.
pub open spec fn exact_range(output_type: DataType, signed: bool) -> Option<(int, int)> {
    match (output_type, signed) {
        (DataType::Int8, true) => Some((-0x80, 0x7f)),
        (DataType::Int16, true) => Some((-0x8000, 0x7fff)),
        (DataType::Int32, true) => Some((-0x8000_0000, 0x7fff_ffff)),
        (DataType::Int64, true) => Some((-0x8000_0000_0000_0000, 0x7fff_ffff_ffff_ffff)),
        (DataType::UInt8, false) => Some((0, 0xff)),
        (DataType::UInt16, false) => Some((0, 0xffff)),
        (DataType::UInt32, false) => Some((0, 0xffff_ffff)),
        (DataType::UInt64, false) => Some((0, 0xffff_ffff_ffff_ffff)),
        (DataType::Float32, true) => Some((i128::MIN as int, i128::MAX as int)),
        (DataType::Float64, true) => Some((i128::MIN as int, i128::MAX as int)),
        (DataType::Float32, false) => Some((0, u128::MAX as int)),
        (DataType::Float64, false) => Some((0, u128::MAX as int)),
        _ => None,
    }
}

/// A sum of signed integers that fits in the type of the output is given out
/// as it is, in the place of its group, and null stays null. A type that holds
/// no such sums is refused.
pub proof fn signed_sums_are_kept(
    sums: Seq<Option<int>>,
    output_type: DataType,
    r: Result<SumColumn>,
    i: int,
)
    requires
        signed_output(sums, output_type, r),
        0 <= i < sums.len(),
    ensures
        match exact_range(output_type, true) {
            Some((least, largest)) => r matches Ok(column) && match sums[i] {
                None => number_at(column, i) is None,
                Some(x) => (least <= x <= largest ==> number_at(column, i) == Some(x)) && number_at(
                    column,
                    i,
                ) is Some,
            },
            None => r is Err,
        },
{
    match r {
        Ok(SumColumn::SignedFloat(c)) => {
            assert(c@.map_values(|v: Option<i128>| widened(v))[i] == sums[i]);
        },
        _ => {},
    }
}

/// The same of sums of unsigned integers.
pub proof fn unsigned_sums_are_kept(
    sums: Seq<Option<int>>,
    output_type: DataType,
    r: Result<SumColumn>,
    i: int,
)
    requires
        unsigned_output(sums, output_type, r),
        0 <= i < sums.len(),
    ensures
        match exact_range(output_type, false) {
            Some((least, largest)) => r matches Ok(column) && match sums[i] {
                None => number_at(column, i) is None,
                Some(x) => (least <= x <= largest ==> number_at(column, i) == Some(x)) && number_at(
                    column,
                    i,
                ) is Some,
            },
            None => r is Err,
        },
{
    match r {
        Ok(SumColumn::UnsignedFloat(c)) => {
            assert(c@.map_values(|v: Option<u128>| unsigned_widened(v))[i] == sums[i]);
        },
        _ => {},
    }
}

/// An average is of the sum and the count of its aggregate: where there are
/// values, it divides the sum of the integers by their number, and where there are
/// none it is null.
pub proof fn averages_divide_the_sum_by_the_count(
    state: PerAggState,
    r: Result<Option<AverageParts>>,
)
    requires
        is_average_of(state, r),
    ensures
        state@.count <= 0 ==> (r matches Ok(None)),
        state@.count > 0 ==> match state@.sum {
            Some(sum) => r matches Ok(Some(parts)) && match parts {
                AverageParts::Signed(s, n) => s == sum && n == state@.count,
                AverageParts::Unsigned(s, n) => s == sum && n == state@.count,
                AverageParts::Float(_) => false,
            },
            None => match r {
                Ok(Some(parts)) => state.accumulator is F64 && (parts matches AverageParts::Float(n)
                    && n == state@.count),
                Ok(None) => false,
                Err(_) => !(state.accumulator is F64),
            },
        },
{
}

/// The sums come one per group, in the order of the groups, and each is what the
/// group has summed up.
pub proof fn sums_are_those_of_the_groups(groups: Seq<Group>, agg_idx: int, g: int)
    requires
        0 <= g < groups.len(),
        0 <= agg_idx < groups[g].1@.len(),
    ensures
        sums_of(groups, agg_idx).len() == groups.len(),
        match groups[g].1@[agg_idx].accumulator {
            Accumulator::I128(Some(s)) => sums_of(groups, agg_idx)[g] == Some(s as int),
            Accumulator::U128(Some(s)) => sums_of(groups, agg_idx)[g] == Some(s as int),
            _ => sums_of(groups, agg_idx)[g] is None,
        },
        groups[g].1@[agg_idx]@.count == groups[g].1@[agg_idx].count,
{
}

} // verus!
