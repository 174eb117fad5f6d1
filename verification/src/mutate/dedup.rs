//! The rows of a MERGE source, one per key.
use vstd::prelude::*;
use vstd::string::*;

use crate::error::{other, QueryError, Result};
use crate::key_table::KeyTable;
use crate::scalar::{views, RecordBatch, Scalar, ScalarValue, ScalarView};
use crate::text::{decimal, decimal_text, find, find_is, texts};

verus! {

/// How to handle a MERGE source that holds two rows with the same key.
///
/// SQL leaves MERGE undefined where the source repeats a key: one target row
/// cannot be updated by two source rows. A caller whose source is known to be
/// a changelog may let the last row win.
#[derive(Debug, Clone, Copy, PartialEq, Eq, Structural)]
pub enum DupPolicy {
    /// Refuse the second row of a key.
    Error,
    /// Let the last row of a key, in source order, replace the earlier ones.
    LastWriterWins,
}

/// One row of a batch, with the names of its columns.
#[derive(Debug, PartialEq, Eq)]
pub struct RecordBatchRow {
    /// Column names in schema order.
    pub columns: Vec<String>,
    /// The value of each column, aligned with `columns`.
    pub values: Vec<ScalarValue>,
}

pub struct RowView {
    pub columns: Seq<Seq<char>>,
    pub values: Seq<ScalarView>,
}

impl View for RecordBatchRow {
    type V = RowView;

    open spec fn view(&self) -> RowView {
        RowView { columns: texts(self.columns@), values: views(self.values@) }
    }
}

/// Row `row` of a batch.
pub open spec fn batch_row(batch: RecordBatch, row: int) -> RowView {
    RowView {
        columns: batch.schema.names(),
        values: Seq::new(batch.columns@.len(), |c: int| batch.cell(c, row)),
    }
}

impl RecordBatchRow {
    /// Extracts row `row_idx` of `batch`.
    pub fn from_batch(batch: &RecordBatch, row_idx: usize) -> (r: RecordBatchRow)
        requires
            batch.well_formed(),
            row_idx < batch.num_rows,
        ensures
            r@ == batch_row(*batch, row_idx as int),
    {
        let mut columns: Vec<String> = Vec::new();
        let mut values: Vec<ScalarValue> = Vec::new();
        let mut c: usize = 0;
        while c < batch.columns.len()
            invariant
                c <= batch.columns@.len(),
                batch.well_formed(),
                row_idx < batch.num_rows,
                columns@.len() == c,
                values@.len() == c,
                forall|k: int| 0 <= k < c ==> columns@[k]@ == batch.schema.fields@[k].name@,
                forall|k: int| 0 <= k < c ==> values@[k]@ == batch.cell(k, row_idx as int),
            decreases batch.columns@.len() - c,
        {
            columns.push(batch.schema.fields[c].name.clone());
            values.push(batch.columns[c][row_idx].copied());
            c = c + 1;
        }
        assert(texts(columns@) =~= batch.schema.names());
        assert(views(values@) =~= batch_row(*batch, row_idx as int).values);
        RecordBatchRow { columns, values }
    }

    /// Where the column of that name stands, if there is one.
    pub fn position(&self, name: &String) -> (r: Option<usize>)
        ensures
            match r {
                Some(i) => i < self@.columns.len() && i == find(self@.columns, name@),
                None => find(self@.columns, name@) == self@.columns.len(),
            },
    {
        let mut i: usize = 0;
        while i < self.columns.len()
            invariant
                i <= self.columns@.len(),
                forall|k: int| 0 <= k < i ==> self.columns@[k]@ != name@,
            decreases self.columns@.len() - i,
        {
            if self.columns[i] == *name {
                proof {
                    find_is(self@.columns, name@, i as int);
                }
                return Some(i);
            }
            i = i + 1;
        }
        proof {
            find_is(self@.columns, name@, i as int);
        }
        None
    }

    /// The value of a column that holds a signed 64-bit number.
    pub fn get_i64(&self, col_name: &str) -> (r: i64)
        requires
            self@.columns.len() == self@.values.len(),
            self@.columns.contains(col_name@),
            self@.values[find(self@.columns, col_name@)] matches Scalar::Int64(Some(_)),
        ensures
            self@.values[find(self@.columns, col_name@)] == Scalar::<Seq<char>>::Int64(Some(r)),
    {
        let name: String = col_name.to_owned();
        proof {
            crate::text::find_bounds(self@.columns, col_name@);
        }
        match self.position(&name) {
            Some(i) => {
                assert(self@.values[i as int] == self.values@[i as int]@);
                match &self.values[i] {
                    Scalar::Int64(Some(v)) => *v,
                    _ => 0,
                }
            },
            None => 0,
        }
    }

    /// A copy of this row.
    pub fn copied(&self) -> (r: RecordBatchRow)
        ensures
            r@ == self@,
    {
        let mut columns: Vec<String> = Vec::new();
        let mut i: usize = 0;
        while i < self.columns.len()
            invariant
                i <= self.columns@.len(),
                columns@ == self.columns@.take(i as int),
            decreases self.columns@.len() - i,
        {
            columns.push(self.columns[i].clone());
            i = i + 1;
            assert(columns@ =~= self.columns@.take(i as int));
        }
        let mut values: Vec<ScalarValue> = Vec::new();
        let mut j: usize = 0;
        while j < self.values.len()
            invariant
                j <= self.values@.len(),
                values@ == self.values@.take(j as int),
            decreases self.values@.len() - j,
        {
            values.push(self.values[j].copied());
            j = j + 1;
            assert(values@ =~= self.values@.take(j as int));
        }
        assert(columns@ =~= self.columns@);
        assert(values@ =~= self.values@);
        RecordBatchRow { columns, values }
    }
}

/// A key in its canonical form: text of any width is `Utf8`.
///
/// A source column may be typed differently from the stored one; without this
/// a live key would not be recognised, and its row would be inserted again.
pub open spec fn merge_key(v: ScalarView) -> ScalarView {
    match v {
        Scalar::LargeUtf8(x) => Scalar::Utf8(x),
        Scalar::Utf8View(x) => Scalar::Utf8(x),
        _ => v,
    }
}

pub fn normalize_merge_key(sv: ScalarValue) -> (r: ScalarValue)
    ensures
        r@ == merge_key(sv@),
{
    match sv {
        Scalar::LargeUtf8(x) => Scalar::Utf8(x),
        Scalar::Utf8View(x) => Scalar::Utf8(x),
        v => v,
    }
}

/// Text gives the same key in whatever width it is stored.
pub proof fn text_widths_share_keys(text: Option<Seq<char>>)
    ensures
        merge_key(Scalar::LargeUtf8(text)) == merge_key(Scalar::Utf8(text)),
        merge_key(Scalar::Utf8View(text)) == merge_key(Scalar::Utf8(text)),
        merge_key(merge_key(Scalar::LargeUtf8(text))) == merge_key(Scalar::LargeUtf8(text)),
{
}

/// The elements of `s` without repeats, in the order in which each first
/// occurs.
pub open spec fn distinct<A>(s: Seq<A>) -> Seq<A>
    decreases s.len(),
{
    if s.len() == 0 {
        s
    } else {
        let d = distinct(s.drop_last());
        if d.contains(s.last()) {
            d
        } else {
            d.push(s.last())
        }
    }
}

/// Where `a` last stands in `s`; -1 where it does not occur.
pub open spec fn last_at<A>(s: Seq<A>, a: A) -> int
    decreases s.len(),
{
    if s.len() == 0 {
        -1
    } else if s.last() == a {
        s.len() - 1
    } else {
        last_at(s.drop_last(), a)
    }
}

/// `distinct` keeps exactly the elements, each once.
proof fn distinct_elements<A>(s: Seq<A>)
    ensures
        distinct(s).no_duplicates(),
        forall|a: A| #[trigger] distinct(s).contains(a) <==> s.contains(a),
        distinct(s).len() <= s.len(),
    decreases s.len(),
{
    if s.len() > 0 {
        let front = s.drop_last();
        distinct_elements(front);
        let d = distinct(front);
        assert(s =~= front.push(s.last()));
        assert forall|a: A| #[trigger] distinct(s).contains(a) <==> s.contains(a) by {
            assert(d.contains(a) <==> front.contains(a));
            if front.contains(a) {
                let i = front.index_of(a);
                assert(s[i] == a);
            }
            if s.contains(a) && a != s.last() {
                let i = s.index_of(a);
                assert(front[i] == a);
            }
            if d.contains(a) {
                let i = d.index_of(a);
                assert(distinct(s)[i] == a);
            }
            if !d.contains(s.last()) {
                assert(distinct(s).last() == s.last());
                if distinct(s).contains(a) && a != s.last() {
                    let i = distinct(s).index_of(a);
                    assert(d[i] == a);
                }
            }
            assert(s[s.len() - 1] == s.last());
        }
    }
}

/// Where nothing repeats, nothing is dropped.
proof fn distinct_of_distinct<A>(s: Seq<A>)
    requires
        s.no_duplicates(),
    ensures
        distinct(s) == s,
    decreases s.len(),
{
    if s.len() > 0 {
        let front = s.drop_last();
        distinct_of_distinct(front);
        assert(!front.contains(s.last())) by {
            if front.contains(s.last()) {
                let i = front.index_of(s.last());
                assert(s[i] == s[s.len() - 1]);
            }
        }
        assert(s =~= front.push(s.last()));
    }
}

/// `last_at` finds the last occurrence.
proof fn last_at_bounds<A>(s: Seq<A>, a: A)
    ensures
        -1 <= last_at(s, a) < s.len(),
        s.contains(a) <==> last_at(s, a) >= 0,
        last_at(s, a) >= 0 ==> s[last_at(s, a)] == a,
        forall|i: int| last_at(s, a) < i < s.len() ==> s[i] != a,
    decreases s.len(),
{
    if s.len() > 0 {
        let front = s.drop_last();
        last_at_bounds(front, a);
        assert(s[s.len() - 1] == s.last());
        if s.last() != a {
            assert forall|i: int| last_at(s, a) < i < s.len() implies s[i] != a by {
                if i < s.len() - 1 {
                    assert(front[i] == s[i]);
                }
            }
            if s.contains(a) {
                let i = s.index_of(a);
                assert(front[i] == a);
            }
        }
    }
}

/// The canonical keys of the rows of a batch.
pub open spec fn source_keys(batch: RecordBatch, column: int) -> Seq<ScalarView> {
    Seq::new(batch.num_rows as nat, |r: int| merge_key(batch.cell(column, r)))
}

/// Whether row `row` of a source with these keys is refused.
pub open spec fn refused_row(keys: Seq<ScalarView>, policy: DupPolicy, row: int) -> bool {
    keys[row].null() || (policy is Error && keys.take(row).contains(keys[row]))
}

/// Whether `row` is the first row that is refused.
pub open spec fn first_refused(keys: Seq<ScalarView>, policy: DupPolicy, row: int) -> bool {
    &&& 0 <= row < keys.len()
    &&& refused_row(keys, policy, row)
    &&& forall|r: int| 0 <= r < row ==> !#[trigger] refused_row(keys, policy, r)
}

pub open spec fn missing_key_message(key_col: Seq<char>) -> Seq<char> {
    "MERGE key column '"@ + key_col + "' not found in source"@
}

pub open spec fn null_key_message(key_col: Seq<char>, row: int) -> Seq<char> {
    "MERGE source contains a NULL value in key column '"@ + key_col + "' at row "@ + decimal(
        row as nat,
    ) + "; null merge keys are not permitted"@
}

/// Whether the first row that is refused has a null key, and `e` says so.
pub open spec fn null_key_refused(
    keys: Seq<ScalarView>,
    policy: DupPolicy,
    key_col: Seq<char>,
    e: QueryError,
) -> bool {
    exists|row: int|
        {
            &&& #[trigger] first_refused(keys, policy, row)
            &&& keys[row].null()
            &&& e.says(null_key_message(key_col, row))
        }
}

/// The rows of a MERGE source by key: each key once, in the order in which the
/// keys first occur.
pub struct DedupedSource {
    /// The keys with their rows. A slot keeps its place when a later row
    /// replaces its row.
    pub by_key: Vec<(ScalarValue, RecordBatchRow)>,
    /// Finds the slot of a key.
    pub key_index: KeyTable,
}

impl DedupedSource {
    /// The keys, in order.
    pub open spec fn keys(self) -> Seq<ScalarView> {
        self.by_key@.map_values(|e: (ScalarValue, RecordBatchRow)| e.0@)
    }

    /// The rows, in order.
    pub open spec fn rows(self) -> Seq<RowView> {
        self.by_key@.map_values(|e: (ScalarValue, RecordBatchRow)| e.1@)
    }

    /// The index knows exactly the keys of the slots.
    pub open spec fn well_formed(self) -> bool {
        self.key_index.well_formed() && self.key_index@ == self.keys()
    }

    fn new() -> (r: DedupedSource)
        ensures
            r.well_formed(),
            r.by_key@.len() == 0,
    {
        let r = DedupedSource { by_key: Vec::new(), key_index: KeyTable::new() };
        assert(r.keys() =~= Seq::<ScalarView>::empty());
        r
    }

    /// The row of `key`, if there is one.
    pub fn get(&self, key: &ScalarValue) -> (r: Option<&RecordBatchRow>)
        requires
            self.well_formed(),
        ensures
            r is Some <==> self.keys().contains(key@),
            r matches Some(row) ==> row@ == self.rows()[find(self.keys(), key@)],
    {
        match self.key_index.slot_of(key) {
            Some(i) => Some(&self.by_key[i].1),
            None => None,
        }
    }

    /// The number of distinct keys.
    pub fn len(&self) -> (r: usize)
        ensures
            r == self.keys().len(),
    {
        self.by_key.len()
    }

    pub fn is_empty(&self) -> (r: bool)
        ensures
            r == (self.keys().len() == 0),
    {
        self.by_key.len() == 0
    }
}

/// Whether `out` is what a source with these keys folds to: its distinct keys,
/// each with the last of its rows.
pub open spec fn folds_to(src: RecordBatch, keys: Seq<ScalarView>, out: DedupedSource) -> bool {
    &&& out.keys() == distinct(keys)
    &&& forall|i: int|
        0 <= i < out.by_key@.len() ==> (#[trigger] out.rows()[i]) == batch_row(
            src,
            last_at(keys, out.keys()[i]),
        )
}

/// Folds `src` into its rows by `key_col`.
///
/// A null key is refused whatever the policy: null equals nothing in SQL, so
/// such a row would be routed wrongly.
pub fn dedup_source(src: &RecordBatch, key_col: &str, policy: DupPolicy) -> (r: Result<
    DedupedSource,
>)
    requires
        src.well_formed(),
    ensures
        match src.schema.position(key_col@) {
            None => r matches Err(e) && e.says(missing_key_message(key_col@)),
            Some(c) => {
                let keys = source_keys(*src, c);
                match r {
                    Ok(out) => {
                        &&& out.well_formed()
                        &&& folds_to(*src, keys, out)
                        &&& forall|row: int|
                            0 <= row < keys.len() ==> !#[trigger] refused_row(keys, policy, row)
                    },
                    Err(QueryError::DuplicateMergeKey { key, slot, row }) => {
                        &&& first_refused(keys, policy, row as int)
                        &&& !keys[row as int].null()
                        &&& key@ == keys[row as int]
                        &&& slot == find(distinct(keys.take(row as int)), key@)
                    },
                    Err(e) => null_key_refused(keys, policy, key_col@, e),
                }
            },
        },
{
    let name: String = key_col.to_owned();
    let column: usize = match src.schema.index_of(&name) {
        Some(c) => c,
        None => {
            let mut message: String = "MERGE key column '".to_owned();
            message.append(key_col);
            message.append("' not found in source");
            return Err(other(message.as_str()));
        },
    };
    let ghost keys = source_keys(*src, column as int);
    let mut out = DedupedSource::new();
    let mut row: usize = 0;
    assert(keys.take(0) =~= Seq::<ScalarView>::empty());
    assert(out.keys() =~= distinct(keys.take(0)));
    while row < src.num_rows
        invariant
            row <= src.num_rows,
            src.well_formed(),
            column < src.columns@.len(),
            src.schema.position(key_col@) == Some(column as int),
            keys == source_keys(*src, column as int),
            out.well_formed(),
            folds_to(*src, keys.take(row as int), out),
            forall|r: int| 0 <= r < row ==> !#[trigger] refused_row(keys, policy, r),
        decreases src.num_rows - row,
    {
        let ghost seen = keys.take(row as int);
        let ghost next = keys.take(row as int + 1);
        assert(next.drop_last() =~= seen);
        assert(next.last() == keys[row as int]);
        proof {
            distinct_elements(seen);
        }
        let key = normalize_merge_key(src.columns[column][row].copied());
        assert(key@ == keys[row as int]);
        if key.is_null() {
            assert(key@.null());
            assert(first_refused(keys, policy, row as int));
            let mut message: String = "MERGE source contains a NULL value in key column '".to_owned();
            message.append(key_col);
            message.append("' at row ");
            let number = decimal_text(row as u64);
            message.append(number.as_str());
            message.append("; null merge keys are not permitted");
            assert(message@ =~= null_key_message(key_col@, row as int));
            let e = other(message.as_str());
            assert(null_key_refused(keys, policy, key_col@, e)) by {
                assert(first_refused(keys, policy, row as int));
            }
            return Err(e);
        }
        assert(!key@.null());
        let values = RecordBatchRow::from_batch(src, row);
        match out.key_index.slot_of(&key) {
            Some(slot) => {
                assert(seen.contains(keys[row as int]));
                match policy {
                    DupPolicy::Error => {
                        assert(first_refused(keys, policy, row as int));
                        return Err(QueryError::DuplicateMergeKey { key, slot, row });
                    },
                    DupPolicy::LastWriterWins => {
                        let ghost before = out;
                        let kept = out.by_key[slot].0.copied();
                        out.by_key.set(slot, (kept, values));
                        assert(out.keys() =~= before.keys());
                        assert forall|i: int| 0 <= i < out.by_key@.len() implies (
                        #[trigger] out.rows()[i]) == batch_row(
                            *src,
                            last_at(next, out.keys()[i]),
                        ) by {
                            if i != slot {
                                assert(out.rows()[i] == before.rows()[i]);
                                assert(before.keys().no_duplicates());
                                assert(out.keys()[i] != key@);
                            }
                        }
                    },
                }
            },
            None => {
                let ghost before = out;
                assert(!seen.contains(key@));
                out.key_index.insert(key.copied());
                out.by_key.push((key, values));
                assert(out.keys() =~= before.keys().push(key@));
                assert forall|i: int| 0 <= i < out.by_key@.len() implies (
                #[trigger] out.rows()[i]) == batch_row(*src, last_at(next, out.keys()[i])) by {
                    if i < before.by_key@.len() {
                        assert(out.rows()[i] == before.rows()[i]);
                        assert(before.keys()[i] != key@) by {
                            assert(before.keys().contains(before.keys()[i]));
                        }
                    }
                }
            },
        }
        assert(!refused_row(keys, policy, row as int));
        row = row + 1;
    }
    assert(keys.take(row as int) =~= keys);
    Ok(out)
}

/// Where repeats are refused, the source that is accepted is its own fold:
/// every row survives, in order, under its own key.
pub proof fn accepted_rows_all_survive(src: RecordBatch, column: int, out: DedupedSource)
    requires
        src.well_formed(),
        0 <= column < src.columns@.len(),
        folds_to(src, source_keys(src, column), out),
        forall|row: int|
            0 <= row < src.num_rows ==> !#[trigger] refused_row(
                source_keys(src, column),
                DupPolicy::Error,
                row,
            ),
    ensures
        out.keys() == source_keys(src, column),
        forall|row: int|
            0 <= row < src.num_rows ==> #[trigger] out.rows()[row] == batch_row(src, row),
{
    let keys = source_keys(src, column);
    assert(keys.no_duplicates()) by {
        assert forall|i: int, j: int| 0 <= i < j < keys.len() implies keys[i] != keys[j] by {
            assert(!refused_row(keys, DupPolicy::Error, j));
            assert(keys.take(j)[i] == keys[i]);
        }
    }
    distinct_of_distinct(keys);
    assert forall|row: int| 0 <= row < src.num_rows implies #[trigger] out.rows()[row] == batch_row(
        src,
        row,
    ) by {
        assert(out.by_key@.len() == out.keys().len());
        last_at_bounds(keys, keys[row]);
        assert(last_at(keys, out.keys()[row]) == row);
    }
}

/// Every key of the source has exactly one row in the fold, and it is the last
/// row of that key.
pub proof fn last_writer_wins(src: RecordBatch, column: int, out: DedupedSource, row: int)
    requires
        src.well_formed(),
        0 <= column < src.columns@.len(),
        folds_to(src, source_keys(src, column), out),
        0 <= row < src.num_rows,
    ensures
        out.keys().no_duplicates(),
        exists|i: int|
            {
                &&& 0 <= i < out.keys().len()
                &&& #[trigger] out.keys()[i] == source_keys(src, column)[row]
                &&& out.rows()[i] == batch_row(
                    src,
                    last_at(source_keys(src, column), source_keys(src, column)[row]),
                )
                &&& last_at(source_keys(src, column), source_keys(src, column)[row]) >= row
            },
{
    let keys = source_keys(src, column);
    distinct_elements(keys);
    last_at_bounds(keys, keys[row]);
    assert(keys.contains(keys[row]));
    assert(out.keys().contains(keys[row]));
    let i = choose|i: int| 0 <= i < out.keys().len() && out.keys()[i] == keys[row];
    assert(out.by_key@.len() == out.keys().len());
    assert(out.rows()[i] == batch_row(src, last_at(keys, keys[row])));
}

/// The text that a value of a text type holds, in whatever width.
pub open spec fn text_in(v: ScalarView) -> Option<Option<Seq<char>>> {
    match v {
        Scalar::Utf8(x) => Some(x),
        Scalar::LargeUtf8(x) => Some(x),
        Scalar::Utf8View(x) => Some(x),
        _ => None,
    }
}

/// Whether two values are the same, texts by what they hold.
pub open spec fn same_key(a: ScalarView, b: ScalarView) -> bool {
    a == b || (text_in(a) is Some && text_in(a) == text_in(b))
}

/// Two values have one key exactly where they are the same, and a null has a
/// null key.
pub proof fn keys_are_the_values(a: ScalarView, b: ScalarView)
    ensures
        merge_key(a) == merge_key(b) <==> same_key(a, b),
        merge_key(a).null() <==> a.null(),
        same_key(merge_key(a), a),
{
}

/// A row is refused exactly where its key is null or, where repeats are refused,
/// a row before it holds the same key.
pub proof fn repeats_and_nulls_are_refused(
    src: RecordBatch,
    column: int,
    policy: DupPolicy,
    row: int,
)
    requires
        src.well_formed(),
        0 <= column < src.columns@.len(),
        0 <= row < src.num_rows,
    ensures
        source_keys(src, column).len() == src.num_rows,
        refused_row(source_keys(src, column), policy, row) <==> {
            ||| src.columns@[column]@[row]@.null()
            ||| policy is Error && exists|r: int|
                0 <= r < row && same_key(
                    #[trigger] src.columns@[column]@[r]@,
                    src.columns@[column]@[row]@,
                )
        },
{
    let keys = source_keys(src, column);
    let cell = src.columns@[column]@[row]@;
    keys_are_the_values(cell, cell);
    assert(keys[row] == merge_key(cell));
    if keys.take(row).contains(keys[row]) {
        let r = keys.take(row).index_of(keys[row]);
        assert(keys[r] == merge_key(src.columns@[column]@[r]@));
        keys_are_the_values(src.columns@[column]@[r]@, cell);
        assert(same_key(src.columns@[column]@[r]@, cell));
    }
    if exists|r: int| 0 <= r < row && same_key(#[trigger] src.columns@[column]@[r]@, cell) {
        let r = choose|r: int| 0 <= r < row && same_key(#[trigger] src.columns@[column]@[r]@, cell);
        keys_are_the_values(src.columns@[column]@[r]@, cell);
        assert(keys.take(row)[r] == keys[row]);
    }
}

/// A row of a batch holds, under the name of each column, the value that the
/// column has there.
pub proof fn rows_hold_the_cells(batch: RecordBatch, row: int, c: int)
    requires
        batch.well_formed(),
        0 <= row < batch.num_rows,
        0 <= c < batch.columns@.len(),
    ensures
        batch_row(batch, row).columns.len() == batch.columns@.len(),
        batch_row(batch, row).values.len() == batch.columns@.len(),
        batch_row(batch, row).columns[c] == batch.schema.fields@[c].name@,
        batch_row(batch, row).values[c] == batch.columns@[c]@[row]@,
{
}

proof fn distinct_keeps_the_order<A>(s: Seq<A>, i: int, j: int)
    requires
        0 <= i < j < distinct(s).len(),
    ensures
        exists|p: int, q: int|
            {
                &&& 0 <= p < q < s.len()
                &&& #[trigger] s[p] == distinct(s)[i]
                &&& #[trigger] s[q] == distinct(s)[j]
                &&& forall|k: int| 0 <= k < q ==> s[k] != distinct(s)[j]
            },
    decreases s.len(),
{
    if s.len() > 0 {
        let front = s.drop_last();
        let d = distinct(front);
        let n = s.len() - 1;
        distinct_elements(front);
        if j < d.len() {
            distinct_keeps_the_order(front, i, j);
            let (p, q) = choose|p: int, q: int|
                {
                    &&& 0 <= p < q < front.len()
                    &&& #[trigger] front[p] == d[i]
                    &&& #[trigger] front[q] == d[j]
                    &&& forall|k: int| 0 <= k < q ==> front[k] != d[j]
                };
            assert(s[p] == distinct(s)[i]);
            assert(s[q] == distinct(s)[j]);
            assert forall|k: int| 0 <= k < q implies s[k] != distinct(s)[j] by {
                assert(front[k] != d[j]);
            }
        } else {
            assert(d.contains(d[i]));
            assert(front.contains(d[i]));
            let p = front.index_of(d[i]);
            assert(s[p] == distinct(s)[i]);
            assert(s[n] == distinct(s)[j]);
            assert forall|k: int| 0 <= k < n implies s[k] != distinct(s)[j] by {
                if s[k] == s.last() {
                    assert(front[k] == s.last());
                    assert(front.contains(s.last()));
                }
            }
        }
    }
}

/// The fold has every key of the source once and no other, in the order in which
/// each first occurs.
pub proof fn keys_come_in_their_first_order<A>(s: Seq<A>, a: A, i: int, j: int)
    ensures
        distinct(s).no_duplicates(),
        distinct(s).contains(a) <==> s.contains(a),
        0 <= i < j < distinct(s).len() ==> exists|p: int, q: int|
            {
                &&& 0 <= p < q < s.len()
                &&& #[trigger] s[p] == distinct(s)[i]
                &&& #[trigger] s[q] == distinct(s)[j]
                &&& forall|k: int| 0 <= k < q ==> s[k] != distinct(s)[j]
            },
{
    distinct_elements(s);
    if 0 <= i < j < distinct(s).len() {
        distinct_keeps_the_order(s, i, j);
    }
}

/// Where repeats are allowed, the row that survives is the one behind which the
/// key does not occur again.
pub proof fn the_surviving_row_is_the_last(
    src: RecordBatch,
    column: int,
    out: DedupedSource,
    row: int,
)
    requires
        src.well_formed(),
        0 <= column < src.columns@.len(),
        folds_to(src, source_keys(src, column), out),
        0 <= row < src.num_rows,
        forall|r: int|
            row < r < src.num_rows ==> !same_key(
                #[trigger] src.columns@[column]@[r]@,
                src.columns@[column]@[row]@,
            ),
    ensures
        exists|i: int|
            {
                &&& 0 <= i < out.keys().len()
                &&& same_key(#[trigger] out.keys()[i], src.columns@[column]@[row]@)
                &&& out.rows()[i] == batch_row(src, row)
            },
{
    let keys = source_keys(src, column);
    let cell = src.columns@[column]@[row]@;
    assert(keys[row] == merge_key(cell));
    last_writer_wins(src, column, out, row);
    last_at_bounds(keys, keys[row]);
    let at = last_at(keys, keys[row]);
    let other = src.columns@[column]@[at]@;
    assert(keys[at] == merge_key(other));
    keys_are_the_values(other, cell);
    assert(at == row);
    keys_are_the_values(cell, cell);
    let i = choose|i: int|
        {
            &&& 0 <= i < out.keys().len()
            &&& #[trigger] out.keys()[i] == keys[row]
            &&& out.rows()[i] == batch_row(src, at)
            &&& at >= row
        };
    assert(same_key(out.keys()[i], cell));
}

} // verus!
