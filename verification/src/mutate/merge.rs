//! MERGE: routing source rows to updates and inserts.
//!
//! A [`MergeRun`] holds the source by key. The caller probes the target for
//! the keys, one chunk at a time, and hands back the live rows that it found.
//! The source rows are then routed: a key with a live row is an update, any
//! other an insert.
use vstd::prelude::*;
use vstd::string::*;

use super::dedup::{
    dedup_source, distinct, first_refused, folds_to, keys_are_the_values, merge_key, missing_key_message,
    normalize_merge_key, null_key_refused, refused_row, same_key, source_keys, DedupedSource,
    DupPolicy, RecordBatchRow, RowView,
};
use super::sql_text::{keys_by_id_query, keys_by_id_sql};
use crate::error::{other, CoreError, QueryError, Result};
use crate::expr::Expr;
use crate::key_table::KeyTable;
use crate::scalar::{
    is_of_type, null_of, typed_null, views, RecordBatch, Scalar, ScalarValue, ScalarView, Schema,
};
use crate::storage::{located, match_loc, MatchLoc};
use crate::text::{find, find_is, texts};

verus! {

/// What to do where the key of a source row has a live row in the target.
#[derive(Debug, PartialEq, Eq)]
pub enum MatchedAction {
    /// Write all source columns to the target row.
    UpdateAll,
    /// Write only the named target columns; each value is SQL text that may
    /// refer to source columns by the source alias and to target columns by
    /// the table name. Other columns keep their values.
    UpdateAssignments(Vec<(String, String)>),
}

/// What to do where the key of a source row has no live row in the target.
#[derive(Debug, Clone, Copy, PartialEq, Eq)]
pub enum NotMatchedAction {
    /// Insert the source row with a fresh row id.
    Insert,
}

/// What a MERGE did.
#[derive(Debug, Clone, Copy, PartialEq, Eq, Structural)]
pub struct MergeStats {
    /// Target rows updated.
    pub updated: u64,
    /// Source rows inserted.
    pub inserted: u64,
}

impl Default for MergeStats {
    fn default() -> (r: MergeStats)
        ensures
            r.updated == 0,
            r.inserted == 0,
    {
        MergeStats { updated: 0, inserted: 0 }
    }
}

impl MergeStats {
    /// The number of rows that were touched.
    pub fn affected(&self) -> (r: u64)
        requires
            self.updated + self.inserted <= u64::MAX,
        ensures
            r == self.updated + self.inserted,
    {
        self.updated + self.inserted
    }
}

/// An index of the database, as its catalog lists it.
#[derive(Debug, PartialEq, Eq)]
pub struct IndexEntry {
    pub name: String,
    pub table: String,
    pub column: String,
    pub index_type: String,
    pub unique: bool,
}

/// Whether the index makes the values of `key` in `table` unique.
pub open spec fn makes_unique(entry: IndexEntry, table: Seq<char>, key: Seq<char>) -> bool {
    entry.table@ == table && entry.column@ == key && entry.index_type@ == "btree"@ && entry.unique
}

pub open spec fn no_unique_index_message(table: Seq<char>, key: Seq<char>) -> Seq<char> {
    "MERGE INTO "@ + table + " requires a UNIQUE index on "@ + key
}

/// The name of the first unique btree index on `key` of `table`.
///
/// MERGE needs one, so that the probe for an existing row is cheap and finds at
/// most one.
pub fn require_unique_key_index(indexes: &Vec<IndexEntry>, table: &str, key: &str) -> (r: Result<
    String,
>)
    ensures
        match r {
            Ok(name) => exists|i: int|
                {
                    &&& 0 <= i < indexes@.len()
                    &&& makes_unique(#[trigger] indexes@[i], table@, key@)
                    &&& forall|k: int|
                        0 <= k < i ==> !makes_unique(#[trigger] indexes@[k], table@, key@)
                    &&& name@ == indexes@[i].name@
                },
            Err(e) => {
                &&& forall|k: int|
                    0 <= k < indexes@.len() ==> !makes_unique(#[trigger] indexes@[k], table@, key@)
                &&& e.says(no_unique_index_message(table@, key@))
            },
        },
{
    let table_name: String = table.to_owned();
    let key_name: String = key.to_owned();
    let btree: String = "btree".to_owned();
    let mut i: usize = 0;
    while i < indexes.len()
        invariant
            i <= indexes@.len(),
            table_name@ == table@,
            key_name@ == key@,
            btree@ == "btree"@,
            forall|k: int| 0 <= k < i ==> !makes_unique(#[trigger] indexes@[k], table@, key@),
        decreases indexes@.len() - i,
    {
        let entry = &indexes[i];
        if entry.table == table_name && entry.column == key_name && entry.index_type == btree
            && entry.unique {
            return Ok(entry.name.clone());
        }
        i = i + 1;
    }
    let mut message: String = "MERGE INTO ".to_owned();
    message.append(table);
    message.append(" requires a UNIQUE index on ");
    message.append(key);
    Err(other(message.as_str()))
}

/// The literal that a key is probed for with; `None` for a type that cannot be
/// probed for.
pub open spec fn probe_literal(key: ScalarView) -> Option<ScalarView> {
    match key {
        Scalar::Int64(Some(_)) => Some(key),
        Scalar::Int32(Some(_)) => Some(key),
        Scalar::Int16(Some(_)) => Some(key),
        Scalar::Int8(Some(_)) => Some(key),
        Scalar::UInt64(Some(_)) => Some(key),
        Scalar::UInt32(Some(_)) => Some(key),
        Scalar::UInt16(Some(_)) => Some(key),
        Scalar::UInt8(Some(_)) => Some(key),
        Scalar::Utf8(Some(s)) => Some(Scalar::Utf8(Some(s))),
        Scalar::LargeUtf8(Some(s)) => Some(Scalar::Utf8(Some(s))),
        _ => None,
    }
}

/// Converts a key to the literal of a probe.
pub fn scalar_value_to_datafusion_lit(sv: &ScalarValue) -> (r: Result<Expr>)
    ensures
        match probe_literal(sv@) {
            Some(v) => r matches Ok(Expr::Literal(l)) && l@ == v,
            None => r matches Err(QueryError::UnsupportedMergeKey(k)) && k@ == sv@,
        },
{
    match sv {
        Scalar::Int64(Some(v)) => Ok(Expr::Literal(Scalar::Int64(Some(*v)))),
        Scalar::Int32(Some(v)) => Ok(Expr::Literal(Scalar::Int32(Some(*v)))),
        Scalar::Int16(Some(v)) => Ok(Expr::Literal(Scalar::Int16(Some(*v)))),
        Scalar::Int8(Some(v)) => Ok(Expr::Literal(Scalar::Int8(Some(*v)))),
        Scalar::UInt64(Some(v)) => Ok(Expr::Literal(Scalar::UInt64(Some(*v)))),
        Scalar::UInt32(Some(v)) => Ok(Expr::Literal(Scalar::UInt32(Some(*v)))),
        Scalar::UInt16(Some(v)) => Ok(Expr::Literal(Scalar::UInt16(Some(*v)))),
        Scalar::UInt8(Some(v)) => Ok(Expr::Literal(Scalar::UInt8(Some(*v)))),
        Scalar::Utf8(Some(s)) => Ok(Expr::Literal(Scalar::Utf8(Some(s.clone())))),
        Scalar::LargeUtf8(Some(s)) => Ok(Expr::Literal(Scalar::Utf8(Some(s.clone())))),
        _ => Err(QueryError::UnsupportedMergeKey(sv.copied())),
    }
}

/// How many keys one probe asks for.
pub const IN_LIST_CHUNK: usize = 1000;

/// Where the chunk that starts at `from` ends, in a source of `n` keys.
pub open spec fn chunk_end(from: int, n: int) -> int {
    if from + 1000 <= n {
        from + 1000
    } else {
        n
    }
}

/// The live rows that the probes found, by key.
pub struct LiveRows {
    keys: KeyTable,
    locs: Vec<MatchLoc>,
}

impl View for LiveRows {
    type V = Map<ScalarView, MatchLoc>;

    closed spec fn view(&self) -> Map<ScalarView, MatchLoc> {
        Map::new(|k: ScalarView| self.keys@.contains(k), |k: ScalarView| self.locs@[find(self.keys@, k)])
    }
}

impl LiveRows {
    pub closed spec fn well_formed(self) -> bool {
        self.keys.well_formed() && self.keys@.len() == self.locs@.len()
    }

    pub fn new() -> (r: LiveRows)
        ensures
            r.well_formed(),
            r@ == Map::<ScalarView, MatchLoc>::empty(),
    {
        let r = LiveRows { keys: KeyTable::new(), locs: Vec::new() };
        assert(r@ =~= Map::<ScalarView, MatchLoc>::empty());
        r
    }

    /// The live row of a key.
    pub fn get(&self, key: &ScalarValue) -> (r: Option<MatchLoc>)
        requires
            self.well_formed(),
        ensures
            r is Some <==> self@.contains_key(key@),
            r matches Some(loc) ==> loc == self@[key@],
    {
        match self.keys.slot_of(key) {
            Some(i) => Some(self.locs[i]),
            None => None,
        }
    }

    fn insert(&mut self, key: ScalarValue, loc: MatchLoc)
        requires
            old(self).well_formed(),
            !old(self)@.contains_key(key@),
        ensures
            final(self).well_formed(),
            final(self)@ == old(self)@.insert(key@, loc),
    {
        let ghost before = *self;
        let ghost k = key@;
        self.keys.insert(key);
        self.locs.push(loc);
        proof {
            let keys = before.keys@;
            let more = self.keys@;
            assert(more == keys.push(k));
            assert forall|x: ScalarView| more.contains(x) <==> keys.contains(x) || x == k by {
                if keys.contains(x) {
                    assert(more[keys.index_of(x)] == x);
                }
                assert(more[keys.len() as int] == k);
                if more.contains(x) && x != k {
                    assert(keys[more.index_of(x)] == x);
                }
            }
            assert forall|x: ScalarView| keys.contains(x) implies find(more, x) == find(keys, x) by {
                crate::text::find_bounds(keys, x);
                let i = keys.index_of(x);
                assert(keys[i] == x);
                crate::text::find_is(more, x, find(keys, x));
            }
            assert(find(more, k) == keys.len()) by {
                assert forall|i: int| 0 <= i < keys.len() implies more[i] != k by {
                    assert(keys[i] == more[i]);
                    assert(keys.contains(keys[i]));
                }
                crate::text::find_is(more, k, keys.len() as int);
            }
            assert forall|x: ScalarView| keys.contains(x) implies 0 <= find(keys, x) < keys.len() by {
                crate::text::find_bounds(keys, x);
                assert(keys[keys.index_of(x)] == x);
            }
            assert(self@ =~= before@.insert(k, loc));
        }
    }
}

/// The live rows after the first `n` rows of a probe result.
pub open spec fn after_probe(
    live: Map<ScalarView, MatchLoc>,
    keys: Seq<ScalarView>,
    row_ids: Seq<u64>,
    addrs: Seq<u64>,
    n: int,
) -> Map<ScalarView, MatchLoc>
    decreases n,
{
    if n <= 0 {
        live
    } else {
        after_probe(live, keys, row_ids, addrs, n - 1).insert(
            merge_key(keys[n - 1]),
            located(row_ids[n - 1], addrs[n - 1]),
        )
    }
}

/// Whether the probe result shows, at row `i`, a second live row of a key.
pub open spec fn repeats_live(
    live: Map<ScalarView, MatchLoc>,
    keys: Seq<ScalarView>,
    row_ids: Seq<u64>,
    addrs: Seq<u64>,
    i: int,
) -> bool {
    after_probe(live, keys, row_ids, addrs, i).contains_key(merge_key(keys[i]))
}

/// How to read the rows of a chunk.
#[derive(Debug, PartialEq, Eq)]
pub enum ProbeRead {
    /// The index showed that no live row has one of the keys.
    Skip,
    /// Read the rows that the index located, with this query.
    ByRowIds(String),
    /// Scan the table with the predicate of the chunk.
    Scan,
}

/// Whether `r` is how to read the rows of a chunk.
pub open spec fn reads_chunk(
    key: Seq<char>,
    table: Seq<char>,
    located: Option<Vec<u64>>,
    r: ProbeRead,
) -> bool {
    match located {
        None => r is Scan,
        Some(ids) => if ids@.len() == 0 {
            r is Skip
        } else {
            r matches ProbeRead::ByRowIds(sql) && sql@ == keys_by_id_sql(key, table, ids@)
        },
    }
}

/// Decides how to read the rows of a chunk: `located` holds the row ids that
/// the index gave, or is `None` where it could not answer.
pub fn probe_read(key: &str, table: &str, located: &Option<Vec<u64>>) -> (r: ProbeRead)
    ensures
        reads_chunk(key@, table@, *located, r),
{
    match located {
        None => ProbeRead::Scan,
        Some(ids) => {
            if ids.len() == 0 {
                ProbeRead::Skip
            } else {
                ProbeRead::ByRowIds(keys_by_id_query(key, table, ids))
            }
        },
    }
}

/// Where the source rows go.
pub struct MergeRouting {
    /// The source rows that update a live row.
    pub matched_rows: Vec<RecordBatchRow>,
    /// The live row that each of them updates.
    pub matched_locs: Vec<MatchLoc>,
    /// The source rows that are inserted.
    pub unmatched_rows: Vec<RecordBatchRow>,
}

/// The views of a sequence of rows.
pub open spec fn row_views(rows: Seq<RecordBatchRow>) -> Seq<RowView> {
    rows.map_values(|r: RecordBatchRow| r@)
}

/// The rows whose key is live.
pub open spec fn live_rows_of(
    keys: Seq<ScalarView>,
    rows: Seq<RowView>,
    live: Map<ScalarView, MatchLoc>,
) -> Seq<RowView>
    decreases keys.len(),
{
    if keys.len() == 0 {
        seq![]
    } else {
        let front = live_rows_of(keys.drop_last(), rows.drop_last(), live);
        if live.contains_key(keys.last()) {
            front.push(rows.last())
        } else {
            front
        }
    }
}

/// The live rows of the keys that have one.
pub open spec fn live_locs_of(keys: Seq<ScalarView>, live: Map<ScalarView, MatchLoc>) -> Seq<
    MatchLoc,
>
    decreases keys.len(),
{
    if keys.len() == 0 {
        seq![]
    } else {
        let front = live_locs_of(keys.drop_last(), live);
        if live.contains_key(keys.last()) {
            front.push(live[keys.last()])
        } else {
            front
        }
    }
}

/// The rows whose key is not live.
pub open spec fn new_rows_of(
    keys: Seq<ScalarView>,
    rows: Seq<RowView>,
    live: Map<ScalarView, MatchLoc>,
) -> Seq<RowView>
    decreases keys.len(),
{
    if keys.len() == 0 {
        seq![]
    } else {
        let front = new_rows_of(keys.drop_last(), rows.drop_last(), live);
        if live.contains_key(keys.last()) {
            front
        } else {
            front.push(rows.last())
        }
    }
}

impl MergeRouting {
    /// What the MERGE will have done once both sides are committed.
    pub fn stats(&self) -> (r: MergeStats)
        ensures
            r.updated == self.matched_rows@.len(),
            r.inserted == self.unmatched_rows@.len(),
    {
        MergeStats {
            updated: self.matched_rows.len() as u64,
            inserted: self.unmatched_rows.len() as u64,
        }
    }

    /// Whether there is nothing to commit.
    pub fn is_empty(&self) -> (r: bool)
        ensures
            r == (self.matched_rows@.len() == 0 && self.unmatched_rows@.len() == 0),
    {
        self.matched_rows.len() == 0 && self.unmatched_rows.len() == 0
    }
}

/// Every source row goes to exactly one side, in source order: an update
/// where its key is live, with the live row of that key, and an insert where
/// it is not.
pub proof fn routing_splits_the_source(
    keys: Seq<ScalarView>,
    rows: Seq<RowView>,
    live: Map<ScalarView, MatchLoc>,
)
    requires
        keys.len() == rows.len(),
    ensures
        live_rows_of(keys, rows, live).len() + new_rows_of(keys, rows, live).len() == rows.len(),
        live_rows_of(keys, rows, live).len() == live_locs_of(keys, live).len(),
        live_rows_of(keys, rows, live).to_multiset().add(
            new_rows_of(keys, rows, live).to_multiset(),
        ) =~= rows.to_multiset(),
        forall|i: int|
            0 <= i < keys.len() ==> if live.contains_key(#[trigger] keys[i]) {
                exists|j: int|
                    0 <= j < live_rows_of(keys, rows, live).len() && live_rows_of(
                        keys,
                        rows,
                        live,
                    )[j] == rows[i] && #[trigger] live_locs_of(keys, live)[j] == live[keys[i]]
            } else {
                new_rows_of(keys, rows, live).contains(rows[i])
            },
    decreases keys.len(),
{
    broadcast use vstd::seq_lib::group_to_multiset_ensures;

    if keys.len() > 0 {
        let front_keys = keys.drop_last();
        let front_rows = rows.drop_last();
        routing_splits_the_source(front_keys, front_rows, live);
        assert(rows =~= front_rows.push(rows.last()));
        let matched = live_rows_of(keys, rows, live);
        let front_matched = live_rows_of(front_keys, front_rows, live);
        let fresh = new_rows_of(keys, rows, live);
        let front_fresh = new_rows_of(front_keys, front_rows, live);
        let locs = live_locs_of(keys, live);
        let front_locs = live_locs_of(front_keys, live);
        assert forall|i: int| 0 <= i < keys.len() implies if live.contains_key(#[trigger] keys[i]) {
            exists|j: int|
                0 <= j < matched.len() && matched[j] == rows[i] && #[trigger] locs[j]
                    == live[keys[i]]
        } else {
            fresh.contains(rows[i])
        } by {
            if i < front_keys.len() {
                assert(front_keys[i] == keys[i]);
                assert(front_rows[i] == rows[i]);
                if live.contains_key(keys[i]) {
                    let j = choose|j: int|
                        0 <= j < front_matched.len() && front_matched[j] == rows[i]
                            && #[trigger] front_locs[j] == live[keys[i]];
                    assert(matched[j] == front_matched[j]);
                    assert(locs[j] == front_locs[j]);
                } else {
                    let j = front_fresh.index_of(rows[i]);
                    assert(fresh[j] == rows[i]);
                }
            } else if live.contains_key(keys[i]) {
                let j = front_matched.len() as int;
                assert(matched[j] == rows[i]);
                assert(locs[j] == live[keys[i]]);
            } else {
                assert(fresh[front_fresh.len() as int] == rows[i]);
            }
        }
    } else {
        assert(rows =~= seq![]);
    }
}

/// The keys that are live.
pub open spec fn live_keys_of(keys: Seq<ScalarView>, live: Map<ScalarView, MatchLoc>) -> Seq<
    ScalarView,
>
    decreases keys.len(),
{
    if keys.len() == 0 {
        seq![]
    } else {
        let front = live_keys_of(keys.drop_last(), live);
        if live.contains_key(keys.last()) {
            front.push(keys.last())
        } else {
            front
        }
    }
}

/// The keys that are not live.
pub open spec fn new_keys_of(keys: Seq<ScalarView>, live: Map<ScalarView, MatchLoc>) -> Seq<
    ScalarView,
>
    decreases keys.len(),
{
    if keys.len() == 0 {
        seq![]
    } else {
        let front = new_keys_of(keys.drop_last(), live);
        if live.contains_key(keys.last()) {
            front
        } else {
            front.push(keys.last())
        }
    }
}

/// A table by key, after rows were written to it one after the other.
pub open spec fn with_rows(
    table: Map<ScalarView, RowView>,
    keys: Seq<ScalarView>,
    rows: Seq<RowView>,
) -> Map<ScalarView, RowView>
    decreases keys.len(),
{
    if keys.len() == 0 {
        table
    } else {
        with_rows(table, keys.drop_last(), rows.drop_last()).insert(keys.last(), rows.last())
    }
}

proof fn write_commutes(
    table: Map<ScalarView, RowView>,
    keys: Seq<ScalarView>,
    rows: Seq<RowView>,
    key: ScalarView,
    row: RowView,
)
    requires
        keys.len() == rows.len(),
        !keys.contains(key),
    ensures
        with_rows(table.insert(key, row), keys, rows) =~= with_rows(table, keys, rows).insert(
            key,
            row,
        ),
    decreases keys.len(),
{
    if keys.len() > 0 {
        let front = keys.drop_last();
        assert forall|k: ScalarView| front.contains(k) implies keys.contains(k) by {
            assert(keys[front.index_of(k)] == k);
        }
        assert(keys.contains(keys.last())) by {
            assert(keys[keys.len() - 1] == keys.last());
        }
        write_commutes(table, front, rows.drop_last(), key, row);
    }
}

proof fn sides_of_keys(
    keys: Seq<ScalarView>,
    rows: Seq<RowView>,
    live: Map<ScalarView, MatchLoc>,
)
    requires
        keys.len() == rows.len(),
        keys.no_duplicates(),
    ensures
        live_keys_of(keys, live).len() == live_rows_of(keys, rows, live).len(),
        new_keys_of(keys, live).len() == new_rows_of(keys, rows, live).len(),
        new_keys_of(keys, live).no_duplicates(),
        forall|k: ScalarView| #[trigger]
            new_keys_of(keys, live).contains(k) ==> keys.contains(k) && !live.contains_key(k),
    decreases keys.len(),
{
    if keys.len() > 0 {
        let front = keys.drop_last();
        sides_of_keys(front, rows.drop_last(), live);
        let before = new_keys_of(front, live);
        let after = new_keys_of(keys, live);
        assert forall|k: ScalarView| front.contains(k) implies keys.contains(k) by {
            assert(keys[front.index_of(k)] == k);
        }
        assert(!front.contains(keys.last())) by {
            if front.contains(keys.last()) {
                assert(keys[front.index_of(keys.last())] == keys[keys.len() - 1]);
            }
        }
        assert(keys.contains(keys.last())) by {
            assert(keys[keys.len() - 1] == keys.last());
        }
        assert forall|k: ScalarView| #[trigger] after.contains(k) implies keys.contains(k)
            && !live.contains_key(k) by {
            let j = after.index_of(k);
            if j < before.len() {
                assert(before[j] == k);
                assert(before.contains(k));
            }
        }
        assert(after.no_duplicates()) by {
            if !live.contains_key(keys.last()) {
                assert(!before.contains(keys.last()));
                assert forall|i: int, j: int|
                    0 <= i < after.len() && 0 <= j < after.len() && i != j implies after[i]
                    != after[j] by {
                    if i < before.len() {
                        assert(before.contains(before[i]));
                    }
                    if j < before.len() {
                        assert(before.contains(before[j]));
                    }
                }
            }
        }
    }
}

/// A MERGE is an upsert: in a table where the live keys are those that the
/// probes found, the updates and the inserts leave every source key with its
/// source row and every other key as it was. No row is inserted under a key
/// that the table has already, nor two under one key.
pub proof fn merge_is_an_upsert(
    keys: Seq<ScalarView>,
    rows: Seq<RowView>,
    live: Map<ScalarView, MatchLoc>,
    table: Map<ScalarView, RowView>,
)
    requires
        keys.len() == rows.len(),
        keys.no_duplicates(),
        forall|i: int|
            0 <= i < keys.len() ==> (live.contains_key(#[trigger] keys[i]) <==> table.contains_key(
                keys[i],
            )),
    ensures
        with_rows(
            with_rows(table, live_keys_of(keys, live), live_rows_of(keys, rows, live)),
            new_keys_of(keys, live),
            new_rows_of(keys, rows, live),
        ) =~= with_rows(table, keys, rows),
        new_keys_of(keys, live).no_duplicates(),
        forall|k: ScalarView| #[trigger]
            new_keys_of(keys, live).contains(k) ==> !table.contains_key(k),
    decreases keys.len(),
{
    sides_of_keys(keys, rows, live);
    assert forall|k: ScalarView| #[trigger]
        new_keys_of(keys, live).contains(k) implies !table.contains_key(k) by {
        assert(keys[keys.index_of(k)] == k);
    }
    if keys.len() > 0 {
        let front = keys.drop_last();
        let front_rows = rows.drop_last();
        assert forall|i: int| 0 <= i < front.len() implies (live.contains_key(#[trigger] front[i])
            <==> table.contains_key(front[i])) by {
            assert(front[i] == keys[i]);
        }
        merge_is_an_upsert(front, front_rows, live, table);
        sides_of_keys(front, front_rows, live);
        let updated = with_rows(
            table,
            live_keys_of(front, live),
            live_rows_of(front, front_rows, live),
        );
        if live.contains_key(keys.last()) {
            let fresh = new_keys_of(front, live);
            assert(!fresh.contains(keys.last()));
            let matched_keys = live_keys_of(keys, live);
            let matched_rows = live_rows_of(keys, rows, live);
            assert(matched_keys.drop_last() =~= live_keys_of(front, live));
            assert(matched_rows.drop_last() =~= live_rows_of(front, front_rows, live));
            write_commutes(
                updated,
                fresh,
                new_rows_of(front, front_rows, live),
                keys.last(),
                rows.last(),
            );
        } else {
            let fresh_keys = new_keys_of(keys, live);
            let fresh_rows = new_rows_of(keys, rows, live);
            assert(fresh_keys.drop_last() =~= new_keys_of(front, live));
            assert(fresh_rows.drop_last() =~= new_rows_of(front, front_rows, live));
        }
    }
}

/// A MERGE between its start and its commit.
pub struct MergeRun {
    pub table: String,
    pub key: String,
    /// The unique index on the key.
    pub unique_index: String,
    /// The source rows by key.
    pub deduped: DedupedSource,
    /// The live rows that the probes found.
    pub live: LiveRows,
    /// How many of the keys have been probed for.
    pub probed: usize,
}

impl MergeRun {
    pub open spec fn well_formed(self) -> bool {
        &&& self.deduped.well_formed()
        &&& self.live.well_formed()
        &&& self.probed <= self.deduped.keys().len()
    }

    /// The keys that the next probe asks for.
    pub open spec fn next_chunk(self) -> Seq<ScalarView> {
        self.deduped.keys().subrange(
            self.probed as int,
            chunk_end(self.probed as int, self.deduped.keys().len() as int),
        )
    }

    /// Starts a MERGE: takes the source by key, with repeated keys refused.
    pub fn start(table: &str, key: &str, unique_index: &str, src: &RecordBatch) -> (r: Result<
        MergeRun,
    >)
        requires
            src.well_formed(),
        ensures
            match src.schema.position(key@) {
                None => r matches Err(e) && e.says(missing_key_message(key@)),
                Some(c) => {
                    let keys = source_keys(*src, c);
                    match r {
                        Ok(run) => {
                            &&& run.well_formed()
                            &&& run.table@ == table@
                            &&& run.key@ == key@
                            &&& run.unique_index@ == unique_index@
                            &&& run.probed == 0
                            &&& run.live@ == Map::<ScalarView, MatchLoc>::empty()
                            &&& folds_to(*src, keys, run.deduped)
                            &&& forall|row: int|
                                0 <= row < keys.len() ==> !#[trigger] refused_row(
                                    keys,
                                    DupPolicy::Error,
                                    row,
                                )
                        },
                        Err(QueryError::DuplicateMergeKey { key: k, slot, row }) => {
                            &&& first_refused(keys, DupPolicy::Error, row as int)
                            &&& !keys[row as int].null()
                            &&& k@ == keys[row as int]
                            &&& slot == find(distinct(keys.take(row as int)), k@)
                        },
                        Err(e) => null_key_refused(keys, DupPolicy::Error, key@, e),
                    }
                },
            },
    {
        match dedup_source(src, key, DupPolicy::Error) {
            Ok(deduped) => Ok(
                MergeRun {
                    table: table.to_owned(),
                    key: key.to_owned(),
                    unique_index: unique_index.to_owned(),
                    deduped,
                    live: LiveRows::new(),
                    probed: 0,
                },
            ),
            Err(e) => Err(e),
        }
    }

    /// The predicate of the next probe, `key IN (..)` over the next chunk of
    /// keys, or `None` where all keys have been probed for.
    pub fn next_probe(&mut self) -> (r: Result<Option<Expr>>)
        requires
            old(self).well_formed(),
        ensures
            final(self).well_formed(),
            final(self).table == old(self).table,
            final(self).key == old(self).key,
            final(self).unique_index == old(self).unique_index,
            final(self).deduped == old(self).deduped,
            final(self).live == old(self).live,
            match r {
                Ok(None) => {
                    &&& old(self).probed == old(self).deduped.keys().len()
                    &&& final(self).probed == old(self).probed
                },
                Ok(Some(probe)) => {
                    let chunk = old(self).next_chunk();
                    &&& old(self).probed < old(self).deduped.keys().len()
                    &&& final(self).probed == old(self).probed + chunk.len()
                    &&& probes_for(probe, old(self).key@, chunk)
                },
                Err(e) => {
                    let chunk = old(self).next_chunk();
                    &&& final(self).probed == old(self).probed
                    &&& e matches QueryError::UnsupportedMergeKey(k) && exists|i: int|
                        {
                            &&& 0 <= i < chunk.len()
                            &&& k@ == #[trigger] chunk[i]
                            &&& probe_literal(chunk[i]) is None
                            &&& forall|j: int|
                                0 <= j < i ==> probe_literal(#[trigger] chunk[j]) is Some
                        }
                },
            },
    {
        let n: usize = self.deduped.by_key.len();
        if self.probed == n {
            return Ok(None);
        }
        let end: usize = if n - self.probed > IN_LIST_CHUNK {
            self.probed + IN_LIST_CHUNK
        } else {
            n
        };
        let ghost chunk = self.next_chunk();
        let mut list: Vec<Expr> = Vec::new();
        let mut i: usize = self.probed;
        while i < end
            invariant
                self.probed <= i <= end <= self.deduped.by_key@.len(),
                chunk == self.deduped.keys().subrange(self.probed as int, end as int),
                chunk == old(self).next_chunk(),
                *self == *old(self),
                list@.len() == i - self.probed,
                forall|k: int|
                    0 <= k < i - self.probed ==> {
                        &&& probe_literal(#[trigger] chunk[k]) is Some
                        &&& list@[k] matches Expr::Literal(l) && l@ == probe_literal(chunk[k])->0
                    },
                old(self).well_formed(),
            decreases end - i,
        {
            assert(chunk[i - self.probed] == self.deduped.by_key@[i as int].0@);
            match scalar_value_to_datafusion_lit(&self.deduped.by_key[i].0) {
                Ok(literal) => list.push(literal),
                Err(e) => return Err(e),
            }
            i = i + 1;
        }
        let column = Expr::Column(self.key.clone());
        self.probed = end;
        let probe = Expr::InList { expr: Box::new(column), list, negated: false };
        assert(probes_for(probe, old(self).key@, chunk)) by {
            assert forall|k: int| 0 <= k < chunk.len() implies {
                &&& probe_literal(#[trigger] chunk[k]) is Some
                &&& list@[k] matches Expr::Literal(l) && l@ == probe_literal(chunk[k])->0
            } by {}
        }
        Ok(Some(probe))
    }

    /// Records what a probe found: the key, row id and address of live rows.
    ///
    /// A unique index admits one live row per key. A second one means that the
    /// index is broken, and the MERGE is refused rather than hiding it.
    pub fn record_probe(
        &mut self,
        keys: Vec<ScalarValue>,
        row_ids: &Vec<u64>,
        addrs: &Vec<u64>,
    ) -> (r: Result<()>)
        requires
            old(self).well_formed(),
            keys@.len() == row_ids@.len() == addrs@.len(),
        ensures
            final(self).well_formed(),
            final(self).table == old(self).table,
            final(self).key == old(self).key,
            final(self).unique_index == old(self).unique_index,
            final(self).deduped == old(self).deduped,
            final(self).probed == old(self).probed,
            match r {
                Ok(_) => {
                    let ks = crate::scalar::views(keys@);
                    &&& forall|i: int|
                        0 <= i < keys@.len() ==> !#[trigger] repeats_live(
                            old(self).live@,
                            ks,
                            row_ids@,
                            addrs@,
                            i,
                        )
                    &&& final(self).live@ == after_probe(
                        old(self).live@,
                        ks,
                        row_ids@,
                        addrs@,
                        keys@.len() as int,
                    )
                },
                Err(e) => second_live_row(
                    e,
                    *old(self),
                    crate::scalar::views(keys@),
                    row_ids@,
                    addrs@,
                    final(self).live@,
                ),
            },
    {
        let ghost ks = crate::scalar::views(keys@);
        let ghost before = self.live@;
        let mut i: usize = 0;
        while i < keys.len()
            invariant
                i <= keys@.len() == row_ids@.len() == addrs@.len(),
                self.well_formed(),
                old(self).live@ == before,
                ks == crate::scalar::views(keys@),
                self.table == old(self).table,
                self.key == old(self).key,
                self.unique_index == old(self).unique_index,
                self.deduped == old(self).deduped,
                self.probed == old(self).probed,
                self.live@ == after_probe(before, ks, row_ids@, addrs@, i as int),
                forall|k: int|
                    0 <= k < i ==> !#[trigger] repeats_live(before, ks, row_ids@, addrs@, k),
            decreases keys@.len() - i,
        {
            let key = normalize_merge_key(keys[i].copied());
            assert(key@ == merge_key(ks[i as int]));
            let loc = match_loc(row_ids[i], addrs[i]);
            if self.live.get(&key).is_some() {
                assert(repeats_live(before, ks, row_ids@, addrs@, i as int));
                let e = QueryError::Core(
                    CoreError::UniqueKeyViolation {
                        table: self.table.clone(),
                        index: self.unique_index.clone(),
                        key,
                    },
                );
                assert(second_live_row(e, *old(self), ks, row_ids@, addrs@, self.live@));
                return Err(e);
            }
            assert(!repeats_live(before, ks, row_ids@, addrs@, i as int));
            self.live.insert(key, loc);
            i = i + 1;
        }
        Ok(())
    }

    /// Routes the source rows, once every key has been probed for.
    pub fn route(&self) -> (r: MergeRouting)
        requires
            self.well_formed(),
            self.probed == self.deduped.keys().len(),
        ensures
            row_views(r.matched_rows@) == live_rows_of(
                self.deduped.keys(),
                self.deduped.rows(),
                self.live@,
            ),
            r.matched_locs@ == live_locs_of(self.deduped.keys(), self.live@),
            row_views(r.unmatched_rows@) == new_rows_of(
                self.deduped.keys(),
                self.deduped.rows(),
                self.live@,
            ),
            r.matched_rows@.len() + r.unmatched_rows@.len() == self.deduped.keys().len(),
            r.matched_rows@.len() == r.matched_locs@.len(),
    {
        let ghost keys = self.deduped.keys();
        let ghost rows = self.deduped.rows();
        let mut matched_rows: Vec<RecordBatchRow> = Vec::new();
        let mut matched_locs: Vec<MatchLoc> = Vec::new();
        let mut unmatched_rows: Vec<RecordBatchRow> = Vec::new();
        let mut i: usize = 0;
        assert(keys.take(0) =~= seq![]);
        assert(row_views(matched_rows@) =~= seq![]);
        assert(row_views(unmatched_rows@) =~= seq![]);
        while i < self.deduped.by_key.len()
            invariant
                self.well_formed(),
                i <= self.deduped.by_key@.len(),
                keys == self.deduped.keys(),
                rows == self.deduped.rows(),
                row_views(matched_rows@) == live_rows_of(
                    keys.take(i as int),
                    rows.take(i as int),
                    self.live@,
                ),
                matched_locs@ == live_locs_of(keys.take(i as int), self.live@),
                row_views(unmatched_rows@) == new_rows_of(
                    keys.take(i as int),
                    rows.take(i as int),
                    self.live@,
                ),
            decreases self.deduped.by_key@.len() - i,
        {
            assert(keys.take(i as int + 1).drop_last() =~= keys.take(i as int));
            assert(rows.take(i as int + 1).drop_last() =~= rows.take(i as int));
            let ghost before_matched = row_views(matched_rows@);
            let ghost before_unmatched = row_views(unmatched_rows@);
            let entry = &self.deduped.by_key[i];
            let row = entry.1.copied();
            match self.live.get(&entry.0) {
                Some(loc) => {
                    matched_rows.push(row);
                    matched_locs.push(loc);
                    assert(row_views(matched_rows@) =~= before_matched.push(row@));
                },
                None => {
                    unmatched_rows.push(row);
                    assert(row_views(unmatched_rows@) =~= before_unmatched.push(row@));
                },
            }
            i = i + 1;
        }
        assert(keys.take(i as int) =~= keys);
        assert(rows.take(i as int) =~= rows);
        proof {
            routing_splits_the_source(keys, rows, self.live@);
            assert(row_views(matched_rows@).len() == matched_rows@.len());
            assert(row_views(unmatched_rows@).len() == unmatched_rows@.len());
        }
        MergeRouting { matched_rows, matched_locs, unmatched_rows }
    }
}

/// Whether `probe` is `key IN (..)` over the literals of these keys.
pub open spec fn probes_for(probe: Expr, key: Seq<char>, keys: Seq<ScalarView>) -> bool {
    probe matches Expr::InList { expr, list, negated } && {
        &&& !negated
        &&& *expr matches Expr::Column(c) && c@ == key
        &&& list@.len() == keys.len()
        &&& forall|i: int|
            0 <= i < keys.len() ==> {
                &&& probe_literal(#[trigger] keys[i]) is Some
                &&& list@[i] matches Expr::Literal(l) && l@ == probe_literal(keys[i])->0
            }
    }
}

/// Whether `e` reports the first key for which a probe result shows a second
/// live row; `live` holds what was recorded before it.
pub open spec fn second_live_row(
    e: QueryError,
    run: MergeRun,
    keys: Seq<ScalarView>,
    row_ids: Seq<u64>,
    addrs: Seq<u64>,
    live: Map<ScalarView, MatchLoc>,
) -> bool {
    e matches QueryError::Core(CoreError::UniqueKeyViolation { table, index, key }) && exists|
        i: int,
    |
        {
            &&& 0 <= i < keys.len()
            &&& #[trigger] repeats_live(run.live@, keys, row_ids, addrs, i)
            &&& forall|k: int|
                0 <= k < i ==> !#[trigger] repeats_live(run.live@, keys, row_ids, addrs, k)
            &&& table@ == run.table@
            &&& index@ == run.unique_index@
            &&& key@ == merge_key(keys[i])
            &&& live == after_probe(run.live@, keys, row_ids, addrs, i)
        }
}

/// The value of column `name` in a row, or the null of its type where the row
/// does not have the column.
pub open spec fn value_or_null(
    row: RowView,
    name: Seq<char>,
    data_type: crate::scalar::DataType,
) -> ScalarView {
    let i = find(row.columns, name);
    if i < row.columns.len() {
        row.values[i]
    } else {
        null_of(data_type)
    }
}

/// Lays rows out in the columns of `schema`, by column name. A column that a
/// row lacks is null there.
pub fn record_batch_from_rows(rows: &Vec<RecordBatchRow>, schema: &Schema) -> (r: RecordBatch)
    requires
        forall|i: int|
            0 <= i < rows@.len() ==> (#[trigger] rows@[i])@.columns.len()
                == rows@[i]@.values.len(),
    ensures
        r.well_formed(),
        r.schema.fields@ == schema.fields@,
        r.num_rows == rows@.len(),
        forall|c: int, i: int|
            0 <= c < schema.fields@.len() && 0 <= i < rows@.len() ==> #[trigger] r.cell(c, i)
                == value_or_null(
                rows@[i]@,
                schema.fields@[c].name@,
                schema.fields@[c].data_type,
            ),
{
    let mut columns: Vec<Vec<ScalarValue>> = Vec::new();
    let mut c: usize = 0;
    while c < schema.fields.len()
        invariant
            c <= schema.fields@.len(),
            columns@.len() == c,
            forall|i: int|
                0 <= i < rows@.len() ==> (#[trigger] rows@[i])@.columns.len()
                    == rows@[i]@.values.len(),
            forall|k: int| 0 <= k < c ==> (#[trigger] columns@[k])@.len() == rows@.len(),
            forall|k: int, i: int|
                0 <= k < c && 0 <= i < rows@.len() ==> (#[trigger] columns@[k]@[i])@
                    == value_or_null(
                    rows@[i]@,
                    schema.fields@[k].name@,
                    schema.fields@[k].data_type,
                ),
        decreases schema.fields@.len() - c,
    {
        let field = &schema.fields[c];
        let mut values: Vec<ScalarValue> = Vec::new();
        let mut i: usize = 0;
        while i < rows.len()
            invariant
                i <= rows@.len(),
                values@.len() == i,
                *field == schema.fields@[c as int],
                forall|j: int|
                    0 <= j < rows@.len() ==> (#[trigger] rows@[j])@.columns.len()
                        == rows@[j]@.values.len(),
                forall|j: int|
                    0 <= j < i ==> (#[trigger] values@[j])@ == value_or_null(
                        rows@[j]@,
                        field.name@,
                        field.data_type,
                    ),
            decreases rows@.len() - i,
        {
            let row = &rows[i];
            assert(rows@[i as int]@.columns.len() == rows@[i as int]@.values.len());
            let value = match row.position(&field.name) {
                Some(p) => {
                    assert(row@.values[p as int] == row.values@[p as int]@);
                    row.values[p].copied()
                },
                None => typed_null(&field.data_type),
            };
            values.push(value);
            i = i + 1;
        }
        columns.push(values);
        c = c + 1;
    }
    RecordBatch { schema: schema.copied(), columns, num_rows: rows.len() }
}

/// Whether a key can be probed for: an integer, or text that is stored in
/// place.
pub open spec fn can_be_probed(key: ScalarView) -> bool {
    !key.null() && match key {
        Scalar::Int8(_) => true,
        Scalar::Int16(_) => true,
        Scalar::Int32(_) => true,
        Scalar::Int64(_) => true,
        Scalar::UInt8(_) => true,
        Scalar::UInt16(_) => true,
        Scalar::UInt32(_) => true,
        Scalar::UInt64(_) => true,
        Scalar::Utf8(_) => true,
        Scalar::LargeUtf8(_) => true,
        _ => false,
    }
}

/// A probe asks for the key itself.
pub proof fn probes_ask_for_the_key(key: ScalarView)
    ensures
        probe_literal(key) is Some <==> can_be_probed(key),
        probe_literal(key) matches Some(literal) ==> same_key(literal, key),
{
}

/// The chunks of a MERGE are its keys, one behind the other: the next one begins
/// where the last one ended, and has a thousand keys unless fewer are left.
pub proof fn chunks_follow_each_other(run: MergeRun, i: int)
    requires
        run.well_formed(),
        run.probed < run.deduped.keys().len(),
    ensures
        0 < run.next_chunk().len() <= 1000,
        run.next_chunk().len() < 1000 ==> run.probed + run.next_chunk().len()
            == run.deduped.keys().len(),
        run.probed + run.next_chunk().len() <= run.deduped.keys().len(),
        0 <= i < run.next_chunk().len() ==> run.next_chunk()[i] == run.deduped.keys()[run.probed
            + i],
{
}

/// What the probes found of a key: the row that the last result with that key
/// shows, else what was known before.
pub proof fn probed_rows_are_found(
    live: Map<ScalarView, MatchLoc>,
    keys: Seq<ScalarView>,
    row_ids: Seq<u64>,
    addrs: Seq<u64>,
    n: int,
    key: ScalarView,
    i: int,
)
    requires
        -1 <= i < n <= keys.len() == row_ids.len() == addrs.len(),
        forall|k: int| i < k < n ==> merge_key(#[trigger] keys[k]) != key,
    ensures
        i == -1 ==> after_probe(live, keys, row_ids, addrs, n).contains_key(key)
            == live.contains_key(key) && after_probe(live, keys, row_ids, addrs, n)[key]
            == live[key],
        i >= 0 && merge_key(keys[i]) == key ==> {
            let after = after_probe(live, keys, row_ids, addrs, n);
            &&& after.contains_key(key)
            &&& after[key].row_id == row_ids[i]
            &&& after[key].fragment_id * 0x1_0000_0000 + after[key].offset == addrs[i]
        },
    decreases n,
{
    if n > 0 && i < n - 1 {
        probed_rows_are_found(live, keys, row_ids, addrs, n - 1, key, i);
        assert(merge_key(keys[n - 1]) != key);
    }
}

/// The routing looks at each row by itself and keeps their order: a row whose
/// key is live goes to the live row of that key, and any other is new.
pub proof fn rows_are_routed_one_by_one(
    keys: Seq<ScalarView>,
    rows: Seq<RowView>,
    more_keys: Seq<ScalarView>,
    more_rows: Seq<RowView>,
    live: Map<ScalarView, MatchLoc>,
)
    requires
        keys.len() == rows.len(),
        more_keys.len() == more_rows.len(),
    ensures
        live_rows_of(keys + more_keys, rows + more_rows, live) == live_rows_of(keys, rows, live)
            + live_rows_of(more_keys, more_rows, live),
        live_locs_of(keys + more_keys, live) == live_locs_of(keys, live) + live_locs_of(
            more_keys,
            live,
        ),
        new_rows_of(keys + more_keys, rows + more_rows, live) == new_rows_of(keys, rows, live)
            + new_rows_of(more_keys, more_rows, live),
        keys.len() == 1 && live.contains_key(keys[0]) ==> {
            &&& live_rows_of(keys, rows, live) == rows
            &&& live_locs_of(keys, live) == seq![live[keys[0]]]
            &&& new_rows_of(keys, rows, live).len() == 0
        },
        keys.len() == 1 && !live.contains_key(keys[0]) ==> {
            &&& live_rows_of(keys, rows, live).len() == 0
            &&& live_locs_of(keys, live).len() == 0
            &&& new_rows_of(keys, rows, live) == rows
        },
    decreases more_keys.len(),
{
    if keys.len() == 1 {
        reveal_with_fuel(live_rows_of, 2);
        reveal_with_fuel(live_locs_of, 2);
        reveal_with_fuel(new_rows_of, 2);
        assert(keys.last() == keys[0]);
        assert(seq![rows.last()] =~= rows);
        assert(Seq::<RowView>::empty().push(rows.last()) =~= rows);
        assert(Seq::<MatchLoc>::empty().push(live[keys[0]]) =~= seq![live[keys[0]]]);
    }
    if more_keys.len() == 0 {
        assert(keys + more_keys =~= keys);
        assert(rows + more_rows =~= rows);
        assert(live_rows_of(keys, rows, live) + Seq::<RowView>::empty() =~= live_rows_of(
            keys,
            rows,
            live,
        ));
        assert(new_rows_of(keys, rows, live) + Seq::<RowView>::empty() =~= new_rows_of(
            keys,
            rows,
            live,
        ));
        assert(live_locs_of(keys, live) + Seq::<MatchLoc>::empty() =~= live_locs_of(keys, live));
    } else {
        let front_keys = more_keys.drop_last();
        let front_rows = more_rows.drop_last();
        assert((keys + more_keys).drop_last() =~= keys + front_keys);
        assert((rows + more_rows).drop_last() =~= rows + front_rows);
        rows_are_routed_one_by_one(keys, rows, front_keys, front_rows, live);
        assert(live_rows_of(keys + more_keys, rows + more_rows, live) =~= live_rows_of(
            keys,
            rows,
            live,
        ) + live_rows_of(more_keys, more_rows, live));
        assert(live_locs_of(keys + more_keys, live) =~= live_locs_of(keys, live) + live_locs_of(
            more_keys,
            live,
        ));
        assert(new_rows_of(keys + more_keys, rows + more_rows, live) =~= new_rows_of(
            keys,
            rows,
            live,
        ) + new_rows_of(more_keys, more_rows, live));
    }
}

/// A row that is laid out has, in a column, the value of its first column of that
/// name, and the null of the type where it has none.
pub proof fn rows_are_laid_out_by_name(
    row: RowView,
    name: Seq<char>,
    data_type: crate::scalar::DataType,
    i: int,
)
    requires
        0 <= i <= row.columns.len(),
        forall|k: int| 0 <= k < i ==> row.columns[k] != name,
    ensures
        i < row.columns.len() && row.columns[i] == name ==> value_or_null(row, name, data_type)
            == row.values[i],
        i == row.columns.len() ==> value_or_null(row, name, data_type).null() && is_of_type(
            value_or_null(row, name, data_type),
            data_type,
        ),
{
    if i == row.columns.len() || row.columns[i] == name {
        find_is(row.columns, name, i);
    }
}

/// A chunk is skipped exactly where the index showed that no row has one of its
/// keys, and scanned for exactly where the index could not answer; else the rows
/// that it located are read, all of them.
pub proof fn chunks_are_read_by_id(
    key: Seq<char>,
    table: Seq<char>,
    located: Option<Vec<u64>>,
    r: ProbeRead,
)
    requires
        reads_chunk(key, table, located, r),
    ensures
        r is Scan <==> located is None,
        r is Skip <==> (located matches Some(ids) && ids@.len() == 0),
        r matches ProbeRead::ByRowIds(sql) ==> (located matches Some(ids) && sql@ == keys_by_id_sql(
            key,
            table,
            ids@,
        )),
{
}

/// An index that makes a key unique is a unique one, of the table and on the key.
pub proof fn unique_indexes_are_on_the_key(entry: IndexEntry, table: Seq<char>, key: Seq<char>)
    ensures
        makes_unique(entry, table, key) ==> entry.unique && entry.table@ == table && entry.column@
            == key && entry.index_type@ == "btree"@,
        entry.unique && entry.table@ == table && entry.column@ == key && entry.index_type@
            == "btree"@ ==> makes_unique(entry, table, key),
{
}

/// A probe asks for every key of its chunk, in order, and for nothing else: it is a
/// list on the key column that holds each of them.
pub proof fn probes_ask_for_every_key(
    probe: Expr,
    key: Seq<char>,
    keys: Seq<ScalarView>,
    i: int,
)
    requires
        probes_for(probe, key, keys),
        0 <= i < keys.len(),
    ensures
        match probe {
            Expr::InList { expr, list, negated } => {
                &&& !negated
                &&& *expr matches Expr::Column(c) && c@ == key
                &&& list@.len() == keys.len()
                &&& list@[i] matches Expr::Literal(v) && same_key(v@, keys[i])
            },
            _ => false,
        },
{
    assert(probe_literal(keys[i]) is Some);
    probes_ask_for_the_key(keys[i]);
}

/// A row that a probe shows is a second live one exactly where a live row of its key
/// was known before, or a row before it has the same key.
pub proof fn second_rows_repeat_a_key(
    live: Map<ScalarView, MatchLoc>,
    keys: Seq<ScalarView>,
    row_ids: Seq<u64>,
    addrs: Seq<u64>,
    i: int,
)
    requires
        0 <= i < keys.len() == row_ids.len() == addrs.len(),
    ensures
        repeats_live(live, keys, row_ids, addrs, i) <==> live.contains_key(merge_key(keys[i]))
            || exists|k: int| 0 <= k < i && same_key(#[trigger] keys[k], keys[i]),
{
    let key = merge_key(keys[i]);
    keys_known_after(live, keys, row_ids, addrs, i, key);
    if exists|k: int| 0 <= k < i && merge_key(#[trigger] keys[k]) == key {
        let k = choose|k: int| 0 <= k < i && merge_key(#[trigger] keys[k]) == key;
        keys_are_the_values(keys[k], keys[i]);
        assert(same_key(keys[k], keys[i]));
    }
    if exists|k: int| 0 <= k < i && same_key(#[trigger] keys[k], keys[i]) {
        let k = choose|k: int| 0 <= k < i && same_key(#[trigger] keys[k], keys[i]);
        keys_are_the_values(keys[k], keys[i]);
        assert(merge_key(keys[k]) == key);
    }
}

proof fn keys_known_after(
    live: Map<ScalarView, MatchLoc>,
    keys: Seq<ScalarView>,
    row_ids: Seq<u64>,
    addrs: Seq<u64>,
    n: int,
    key: ScalarView,
)
    requires
        0 <= n <= keys.len() == row_ids.len() == addrs.len(),
    ensures
        after_probe(live, keys, row_ids, addrs, n).contains_key(key) <==> live.contains_key(key)
            || exists|k: int| 0 <= k < n && merge_key(#[trigger] keys[k]) == key,
    decreases n,
{
    if n > 0 {
        keys_known_after(live, keys, row_ids, addrs, n - 1, key);
        if exists|k: int| 0 <= k < n && merge_key(#[trigger] keys[k]) == key {
            let k = choose|k: int| 0 <= k < n && merge_key(#[trigger] keys[k]) == key;
            if k < n - 1 {
                assert(merge_key(keys[k]) == key);
            }
        }
        if merge_key(keys[n - 1]) == key {
            assert(0 <= n - 1 < n);
        }
    }
}

/// The rows and the source are seen as they are, in their order.
pub proof fn rows_are_seen_as_they_are(
    rows: Seq<RecordBatchRow>,
    source: DedupedSource,
    i: int,
)
    ensures
        row_views(rows).len() == rows.len(),
        0 <= i < rows.len() ==> row_views(rows)[i] == rows[i]@,
        source.keys().len() == source.by_key@.len() == source.rows().len(),
        0 <= i < source.by_key@.len() ==> source.keys()[i] == source.by_key@[i].0@
            && source.rows()[i].columns == texts(source.by_key@[i].1.columns@)
            && source.rows()[i].values == views(source.by_key@[i].1.values@),
{
}

} // verus!
