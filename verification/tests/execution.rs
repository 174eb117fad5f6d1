use icefalldb_query::error::QueryError;
use icefalldb_query::execution::lookup_join::ColumnSource;
use icefalldb_query::execution::streaming_group_by::output::{
    average_in_double, average_parts, build_i128_output, build_u128_output, count_column,
    sum_column, AverageParts, SumColumn,
};
use icefalldb_query::execution::streaming_group_by::{
    Accumulator, AggValue, Group, GroupRow, PerAggState, StreamStep, StreamingState,
};
use icefalldb_query::scalar::{DataType, ScalarValue};
use icefalldb_query::{AggType, LookupJoinExec, StreamingGroupByExec};

fn says<T>(result: Result<T, QueryError>, text: &str) {
    match result {
        Err(QueryError::Other(message)) => assert_eq!(message, text),
        Err(other) => panic!("another error: {other:?}"),
        Ok(_) => panic!("expected an error"),
    }
}

fn num(v: i64) -> ScalarValue {
    ScalarValue::Int64(Some(v))
}

#[test]
fn a_join_pairs_equal_keys_in_order() {
    let keys = vec![num(1), num(2), ScalarValue::Int64(None), num(1)];
    let join = LookupJoinExec::try_new(keys, 4, 2, 3, 5).unwrap();
    assert!(!join.is_empty());
    assert_eq!(
        join.matching_rows(&vec![
            num(2),
            num(9),
            num(1),
            ScalarValue::Int64(None),
            ScalarValue::Int32(Some(1)),
        ]),
        vec![(0, 1), (2, 0), (2, 3)]
    );
    assert_eq!(join.column_source(1), ColumnSource::Build(1));
    assert_eq!(join.column_source(2), ColumnSource::Probe(0));
    assert_eq!(join.column_source(4), ColumnSource::Probe(2));
}

#[test]
fn a_join_of_nulls_is_empty() {
    let join = LookupJoinExec::try_new(vec![ScalarValue::Null], 1, 1, 1, 2).unwrap();
    assert!(join.is_empty());
    assert!(join.matching_rows(&vec![ScalarValue::Null]).is_empty());
}

#[test]
fn a_join_checks_its_sides() {
    says(
        LookupJoinExec::try_new(vec![num(1)], 2, 1, 1, 2),
        "LookupJoinExec build_keys length (1) does not match build rows (2)",
    );
    says(
        LookupJoinExec::try_new(vec![num(1)], 1, 1, 1, 3),
        "LookupJoinExec output schema does not match build + probe columns",
    );
}

fn exec() -> StreamingGroupByExec {
    StreamingGroupByExec::try_new(
        vec![AggType::Count, AggType::Sum, AggType::Avg],
        vec![DataType::Utf8, DataType::Int32, DataType::UInt64],
    )
    .unwrap()
}

fn row(key: u8, present: bool, sum: Option<i64>, avg: Option<u64>) -> GroupRow {
    GroupRow {
        key: vec![key],
        values: vec![
            if present {
                AggValue::Present
            } else {
                AggValue::Null
            },
            sum.map_or(AggValue::Null, AggValue::Signed),
            avg.map_or(AggValue::Null, AggValue::Unsigned),
        ],
    }
}

fn emitted(state: &mut StreamingState) -> Vec<Group> {
    match state.next_step() {
        StreamStep::Emit(groups) => groups,
        StreamStep::Read => panic!("nothing to give out"),
        StreamStep::Finished => panic!("finished"),
    }
}

#[test]
fn groups_are_given_out_when_the_key_moves_on() {
    let exec = exec();
    let mut state = StreamingState::new();
    assert!(matches!(state.next_step(), StreamStep::Read));
    let first = vec![
        row(1, true, Some(-5), Some(2)),
        row(1, false, None, None),
        row(2, true, Some(7), Some(3)),
    ];
    state.process_batch(&exec, &first).unwrap();
    assert!(matches!(state.next_step(), StreamStep::Read));
    state.process_batch(&exec, &vec![]).unwrap();
    state
        .process_batch(&exec, &vec![row(2, true, Some(1), Some(5))])
        .unwrap();
    let groups = emitted(&mut state);
    assert_eq!(groups.len(), 1);
    assert_eq!(groups[0].0, vec![1]);
    assert_eq!(count_column(&groups, 0), vec![1]);
    assert_eq!(
        sum_column(&exec, &groups, 1, &DataType::Int64).unwrap(),
        SumColumn::Int64(vec![Some(-5)])
    );
    assert_eq!(
        average_parts(&groups[0].1[2]).unwrap(),
        Some(AverageParts::Unsigned(2, 1))
    );
    state.flush_remaining(&exec);
    let groups = emitted(&mut state);
    assert_eq!(groups[0].0, vec![2]);
    assert_eq!(
        sum_column(&exec, &groups, 1, &DataType::Int64).unwrap(),
        SumColumn::Int64(vec![Some(8)])
    );
    assert_eq!(
        average_parts(&groups[0].1[2]).unwrap(),
        Some(AverageParts::Unsigned(8, 2))
    );
    assert!(matches!(state.next_step(), StreamStep::Finished));
}

#[test]
fn a_batch_that_starts_before_the_last_is_refused() {
    let exec = exec();
    let mut state = StreamingState::new();
    state
        .process_batch(&exec, &vec![row(5, true, None, None)])
        .unwrap();
    says(
        state.process_batch(&exec, &vec![row(4, true, None, None)]),
        "StreamingGroupByExec input is not sorted by group key",
    );
    state
        .process_batch(&exec, &vec![row(5, true, None, None)])
        .unwrap();
    state.flush_remaining(&exec);
    assert_eq!(count_column(&emitted(&mut state), 0), vec![2]);
}

#[test]
fn the_division_into_batches_does_not_matter() {
    let exec = exec();
    let rows = || {
        vec![
            row(1, true, Some(1), None),
            row(1, true, Some(2), None),
            row(3, true, Some(4), None),
            row(7, false, None, None),
            row(7, true, Some(8), None),
        ]
    };
    let run = |sizes: &[usize]| {
        let mut state = StreamingState::new();
        let mut out = Vec::new();
        let mut left = rows();
        for size in sizes {
            let rest = left.split_off(*size);
            state.process_batch(&exec, &left).unwrap();
            left = rest;
            while let StreamStep::Emit(groups) = state.next_step() {
                out.extend(groups);
            }
        }
        state.flush_remaining(&exec);
        while let StreamStep::Emit(groups) = state.next_step() {
            out.extend(groups);
        }
        out
    };
    let whole = run(&[5]);
    assert_eq!(whole.len(), 3);
    assert_eq!(run(&[1, 1, 1, 1, 1]), whole);
    assert_eq!(run(&[2, 3]), whole);
    assert_eq!(run(&[4, 1]), whole);
}

#[test]
fn only_numbers_are_summed() {
    says(
        StreamingGroupByExec::try_new(vec![AggType::Sum], vec![DataType::Utf8]),
        "unsupported numeric type for streaming aggregation: Utf8",
    );
    says(
        StreamingGroupByExec::try_new(
            vec![AggType::Count, AggType::Avg],
            vec![DataType::Utf8, DataType::Other("Date32".to_string())],
        ),
        "unsupported numeric type for streaming aggregation: Date32",
    );
    assert_eq!(
        Accumulator::new(&DataType::Float32, AggType::Sum).unwrap(),
        Accumulator::F64
    );
}

#[test]
fn sums_take_the_type_of_the_output() {
    let values = || vec![Some(300i128), None, Some(-1)];
    assert_eq!(
        build_i128_output(values(), &DataType::Int8).unwrap(),
        SumColumn::Int8(vec![Some(44), None, Some(-1)])
    );
    assert_eq!(
        build_i128_output(values(), &DataType::Int16).unwrap(),
        SumColumn::Int16(vec![Some(300), None, Some(-1)])
    );
    assert_eq!(
        build_i128_output(values(), &DataType::Int32).unwrap(),
        SumColumn::Int32(vec![Some(300), None, Some(-1)])
    );
    assert_eq!(
        build_i128_output(values(), &DataType::Float64).unwrap(),
        SumColumn::SignedFloat(values())
    );
    says(
        build_i128_output(values(), &DataType::UInt8),
        "unsupported SUM output type: UInt8",
    );
    let unsigned = || vec![Some(70_000u128)];
    assert_eq!(
        build_u128_output(unsigned(), &DataType::UInt8).unwrap(),
        SumColumn::UInt8(vec![Some(112)])
    );
    assert_eq!(
        build_u128_output(unsigned(), &DataType::UInt16).unwrap(),
        SumColumn::UInt16(vec![Some(4464)])
    );
    assert_eq!(
        build_u128_output(unsigned(), &DataType::UInt32).unwrap(),
        SumColumn::UInt32(vec![Some(70_000)])
    );
    assert_eq!(
        build_u128_output(unsigned(), &DataType::UInt64).unwrap(),
        SumColumn::UInt64(vec![Some(70_000)])
    );
    assert_eq!(
        build_u128_output(unsigned(), &DataType::Float32).unwrap(),
        SumColumn::UnsignedFloat(unsigned())
    );
}

#[test]
fn averages_need_values() {
    let state = |count: i64, accumulator: Accumulator| PerAggState { count, accumulator };
    assert_eq!(
        average_parts(&state(0, Accumulator::I128(None))).unwrap(),
        None
    );
    assert_eq!(
        average_parts(&state(2, Accumulator::I128(Some(-4)))).unwrap(),
        Some(AverageParts::Signed(-4, 2))
    );
    assert_eq!(
        average_parts(&state(2, Accumulator::F64)).unwrap(),
        Some(AverageParts::Float(2))
    );
    says(
        average_parts(&state(2, Accumulator::U128(None))),
        "streaming group-by internal error: empty accumulator with non-zero count",
    );
    says(
        average_parts(&state(2, Accumulator::Count)),
        "streaming group-by internal error: Count accumulator used for Avg",
    );
    assert!(average_in_double(&DataType::Float64).unwrap());
    assert!(!average_in_double(&DataType::Float32).unwrap());
    says(
        average_in_double(&DataType::Int64),
        "unsupported AVG output type: Int64",
    );
}
