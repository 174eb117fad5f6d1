//! Inner equi-join with a small side that is held in memory.
//!
//! The rows of the build side are looked up by key for every row of the probe
//! side. Null keys match nothing, and a key that several build rows share gives
//! one output row for each of them.
use vstd::prelude::*;
use vstd::string::*;

use crate::error::{other, Result};
use crate::key_table::KeyTable;
use crate::scalar::{views, ScalarValue, ScalarView};
use crate::text::laws::{decimal_writes_the_number, is_numeral, numeral};
use crate::text::{decimal, decimal_text};

verus! {

/// The rows among the first `n` that have a key, in order.
pub open spec fn rows_with(keys: Seq<ScalarView>, key: ScalarView, n: int) -> Seq<u32>
    decreases n,
{
    if n <= 0 {
        seq![]
    } else {
        let front = rows_with(keys, key, n - 1);
        if keys[n - 1] == key {
            front.push((n - 1) as u32)
        } else {
            front
        }
    }
}

/// The build rows that a probe key matches: those with the same key, none where
/// it is null.
pub open spec fn matches_of(build: Seq<ScalarView>, key: ScalarView) -> Seq<u32> {
    if key.null() {
        seq![]
    } else {
        rows_with(build, key, build.len() as int)
    }
}

/// The pairs of probe row and build row that match, for the first `n` probe
/// rows.
pub open spec fn join_pairs(build: Seq<ScalarView>, probe: Seq<ScalarView>, n: int) -> Seq<
    (u32, u32),
>
    decreases n,
{
    if n <= 0 {
        seq![]
    } else {
        join_pairs(build, probe, n - 1) + matches_of(build, probe[n - 1]).map_values(
            |b: u32| ((n - 1) as u32, b),
        )
    }
}

proof fn rows_with_bounds(keys: Seq<ScalarView>, key: ScalarView, n: int)
    requires
        0 <= n <= keys.len(),
        n <= 0x1_0000_0000,
    ensures
        forall|b: u32| #[trigger]
            rows_with(keys, key, n).contains(b) <==> b < n && keys[b as int] == key,
        forall|i: int, j: int|
            0 <= i < j < rows_with(keys, key, n).len() ==> rows_with(keys, key, n)[i] < rows_with(
                keys,
                key,
                n,
            )[j],
    decreases n,
{
    if n > 0 {
        rows_with_bounds(keys, key, n - 1);
        let front = rows_with(keys, key, n - 1);
        let all = rows_with(keys, key, n);
        assert forall|b: u32| #[trigger] all.contains(b) <==> b < n && keys[b as int] == key by {
            if front.contains(b) {
                assert(all[front.index_of(b)] == b);
            }
            if keys[n - 1] == key {
                assert(all[front.len() as int] == n - 1);
                if all.contains(b) && b != n - 1 {
                    assert(front[all.index_of(b)] == b);
                }
            }
        }
        assert forall|i: int, j: int| 0 <= i < j < all.len() implies all[i] < all[j] by {
            if j == front.len() {
                assert(front.contains(front[i]));
            }
        }
    }
}

/// The join is an inner equi-join: a probe row and a build row make an output
/// row exactly where their keys are equal and not null.
pub proof fn joins_equal_keys(
    build: Seq<ScalarView>,
    probe: Seq<ScalarView>,
    p: u32,
    b: u32,
)
    requires
        build.len() <= 0x1_0000_0000,
        probe.len() <= 0x1_0000_0000,
    ensures
        join_pairs(build, probe, probe.len() as int).contains((p, b)) <==> p < probe.len() && b
            < build.len() && probe[p as int] == build[b as int] && !probe[p as int].null(),
{
    pairs_of_prefix(build, probe, probe.len() as int, p, b);
}

proof fn pairs_of_prefix(
    build: Seq<ScalarView>,
    probe: Seq<ScalarView>,
    n: int,
    p: u32,
    b: u32,
)
    requires
        build.len() <= 0x1_0000_0000,
        0 <= n <= probe.len() <= 0x1_0000_0000,
    ensures
        join_pairs(build, probe, n).contains((p, b)) <==> p < n && b < build.len()
            && probe[p as int] == build[b as int] && !probe[p as int].null(),
    decreases n,
{
    if n > 0 {
        pairs_of_prefix(build, probe, n - 1, p, b);
        let front = join_pairs(build, probe, n - 1);
        let key = probe[n - 1];
        let rows = matches_of(build, key);
        let last = rows.map_values(|x: u32| ((n - 1) as u32, x));
        let all = join_pairs(build, probe, n);
        rows_with_bounds(build, key, build.len() as int);
        if front.contains((p, b)) {
            assert(all[front.index_of((p, b))] == (p, b));
        }
        if last.contains((p, b)) {
            let i = last.index_of((p, b));
            assert(all[front.len() + i] == (p, b));
            assert(rows[i] == b);
            assert(rows.contains(b));
        }
        if p == n - 1 && rows.contains(b) {
            let i = rows.index_of(b);
            assert(last[i] == (p, b));
            assert(last.contains((p, b)));
        }
        if all.contains((p, b)) {
            let i = all.index_of((p, b));
            if i < front.len() {
                assert(front[i] == (p, b));
            } else {
                assert(last[i - front.len()] == (p, b));
            }
        }
    }
}

/// Output rows come in the order of the probe rows and, for each, of the build
/// rows. No pair comes twice.
pub proof fn output_is_in_order(build: Seq<ScalarView>, probe: Seq<ScalarView>, n: int, i: int, j: int)
    requires
        build.len() <= 0x1_0000_0000,
        0 <= n <= probe.len() <= 0x1_0000_0000,
        0 <= i < j < join_pairs(build, probe, n).len(),
    ensures
        ({
            let a = join_pairs(build, probe, n)[i];
            let b = join_pairs(build, probe, n)[j];
            a.0 < b.0 || (a.0 == b.0 && a.1 < b.1)
        }),
    decreases n,
{
    let front = join_pairs(build, probe, n - 1);
    let key = probe[n - 1];
    let rows = matches_of(build, key);
    let all = join_pairs(build, probe, n);
    if j < front.len() {
        output_is_in_order(build, probe, n - 1, i, j);
    } else if i < front.len() {
        pairs_of_prefix(build, probe, n - 1, front[i].0, front[i].1);
        assert(front.contains(front[i]));
        assert(all[i] == front[i]);
    } else {
        rows_with_bounds(build, key, build.len() as int);
        assert(rows[i - front.len()] < rows[j - front.len()]);
    }
}

/// Where a column of the output comes from.
#[derive(Debug, Clone, Copy, PartialEq, Eq, Structural)]
pub enum ColumnSource {
    /// This column of the build side.
    Build(usize),
    /// This column of the probe side.
    Probe(usize),
}

/// Whether a column of the output comes from there: those of the build side come
/// first.
pub open spec fn comes_from(
    build_columns: usize,
    probe_columns: usize,
    out_idx: usize,
    source: ColumnSource,
) -> bool {
    match source {
        ColumnSource::Build(i) => i == out_idx && i < build_columns,
        ColumnSource::Probe(i) => build_columns + i == out_idx && i < probe_columns,
    }
}

/// Every column of the output comes from one column, and no two from the same one:
/// the first from the build side in its order, the others from the probe side in its.
pub proof fn columns_come_from_both_sides(
    build_columns: usize,
    probe_columns: usize,
    i: usize,
    a: ColumnSource,
    j: usize,
    b: ColumnSource,
)
    requires
        comes_from(build_columns, probe_columns, i, a),
        comes_from(build_columns, probe_columns, j, b),
    ensures
        i < build_columns ==> a == ColumnSource::Build(i),
        i >= build_columns ==> a == ColumnSource::Probe((i - build_columns) as usize),
        i < build_columns + probe_columns,
        i != j ==> a != b,
{
}

/// The build side of a join, by key. The output has the columns of the build
/// side, then those of the probe side.
pub struct LookupJoinExec {
    /// The key of each build row.
    pub build_keys: Vec<ScalarValue>,
    /// The keys that are not null.
    pub keys: KeyTable,
    /// The rows that have each of them.
    pub rows: Vec<Vec<u32>>,
    pub build_columns: usize,
    pub probe_columns: usize,
}

pub open spec fn key_count_message(keys: nat, rows: nat) -> Seq<char> {
    "LookupJoinExec build_keys length ("@ + decimal(keys) + ") does not match build rows ("@
        + decimal(rows) + ")"@
}

impl LookupJoinExec {
    /// The keys of the build rows.
    pub open spec fn build(self) -> Seq<ScalarView> {
        views(self.build_keys@)
    }

    /// Exactly the keys that are not null can be looked up, each with the rows
    /// that have it.
    pub open spec fn well_formed(self) -> bool {
        &&& self.build_keys@.len() <= 0x1_0000_0000
        &&& self.build_columns + self.probe_columns <= usize::MAX
        &&& indexes(self.keys, self.rows@, self.build(), self.build_keys@.len() as int)
    }

    /// Takes the build side: `build_keys` has the key of each of its rows.
    pub fn try_new(
        build_keys: Vec<ScalarValue>,
        build_rows: usize,
        build_columns: usize,
        probe_columns: usize,
        output_columns: usize,
    ) -> (r: Result<LookupJoinExec>)
        requires
            build_keys@.len() <= 0x1_0000_0000,
        ensures
            match r {
                Ok(join) => {
                    &&& build_keys@.len() == build_rows
                    &&& build_columns + probe_columns == output_columns
                    &&& join.well_formed()
                    &&& join.build() == views(build_keys@)
                    &&& join.build_columns == build_columns
                    &&& join.probe_columns == probe_columns
                },
                Err(e) => if build_keys@.len() != build_rows {
                    e.says(key_count_message(build_keys@.len(), build_rows as nat))
                } else {
                    build_columns + probe_columns != output_columns && e.says(
                        "LookupJoinExec output schema does not match build + probe columns"@,
                    )
                },
            },
    {
        if build_keys.len() != build_rows {
            let mut message: String = "LookupJoinExec build_keys length (".to_owned();
            let keys = decimal_text(build_keys.len() as u64);
            message.append(keys.as_str());
            message.append(") does not match build rows (");
            let rows = decimal_text(build_rows as u64);
            message.append(rows.as_str());
            message.append(")");
            return Err(other(message.as_str()));
        }
        if build_columns > usize::MAX - probe_columns || build_columns + probe_columns
            != output_columns {
            return Err(
                other("LookupJoinExec output schema does not match build + probe columns"),
            );
        }
        let ghost all = views(build_keys@);
        let mut keys = KeyTable::new();
        let mut rows: Vec<Vec<u32>> = Vec::new();
        let mut i: usize = 0;
        while i < build_keys.len()
            invariant
                i <= build_keys@.len() <= 0x1_0000_0000,
                all == views(build_keys@),
                indexes(keys, rows@, all, i as int),
            decreases build_keys@.len() - i,
        {
            assert(all[i as int] == build_keys@[i as int]@);
            let ghost old_keys = keys@;
            let ghost old_rows = rows@;
            if !build_keys[i].is_null() {
                match keys.slot_of(&build_keys[i]) {
                    Some(slot) => {
                        let mut list: Vec<u32> = Vec::new();
                        std::mem::swap(&mut list, &mut rows[slot]);
                        list.push(i as u32);
                        rows.set(slot, list);
                        proof {
                            one_more_row(keys, old_rows, rows@, all, i as int, slot as int);
                        }
                    },
                    None => {
                        keys.insert(build_keys[i].copied());
                        let mut list: Vec<u32> = Vec::new();
                        list.push(i as u32);
                        rows.push(list);
                        proof {
                            one_more_key(old_keys, keys, old_rows, rows@, all, i as int);
                        }
                    },
                }
            } else {
                assert(all[i as int].null());
                proof {
                    null_row(keys, rows@, all, i as int);
                }
            }
            i = i + 1;
        }
        Ok(LookupJoinExec { build_keys, keys, rows, build_columns, probe_columns })
    }

    /// Whether no key can match, so that the probe side need not be read.
    pub fn is_empty(&self) -> (r: bool)
        requires
            self.well_formed(),
        ensures
            r == forall|i: int| 0 <= i < self.build().len() ==> (#[trigger] self.build()[i]).null(),
    {
        let empty = self.keys.len() == 0;
        proof {
            let build = self.build();
            if empty {
                assert forall|i: int| 0 <= i < build.len() implies (#[trigger] build[i]).null() by {
                    if !build[i].null() {
                        assert(self.keys@.contains(build[i]));
                    }
                }
            } else {
                let key = self.keys@[0];
                assert(self.keys@.contains(key));
                let i = choose|i: int| 0 <= i < build.len() && build[i] == key;
                assert(!build[i].null());
            }
        }
        empty
    }

    /// The pairs of probe row and build row that match, for the rows of a probe
    /// batch with these keys.
    pub fn matching_rows(&self, probe_keys: &Vec<ScalarValue>) -> (r: Vec<(u32, u32)>)
        requires
            self.well_formed(),
            probe_keys@.len() <= 0x1_0000_0000,
        ensures
            r@ == join_pairs(self.build(), views(probe_keys@), probe_keys@.len() as int),
    {
        let ghost build = self.build();
        let ghost probe = views(probe_keys@);
        let mut out: Vec<(u32, u32)> = Vec::new();
        let mut p: usize = 0;
        while p < probe_keys.len()
            invariant
                self.well_formed(),
                p <= probe_keys@.len() <= 0x1_0000_0000,
                build == self.build(),
                probe == views(probe_keys@),
                out@ == join_pairs(build, probe, p as int),
            decreases probe_keys@.len() - p,
        {
            assert(probe[p as int] == probe_keys@[p as int]@);
            let ghost before = out@;
            let ghost key = probe[p as int];
            let ghost pairs = matches_of(build, key).map_values(|b: u32| (p as u32, b));
            if !probe_keys[p].is_null() {
                assert(!key.null());
                match self.keys.slot_of(&probe_keys[p]) {
                    Some(slot) => {
                        let rows = &self.rows[slot];
                        assert(self.keys@[slot as int] == key);
                        assert(rows@ == rows_with(build, key, build.len() as int));
                        let mut k: usize = 0;
                        assert(out@ =~= before + pairs.take(0));
                        while k < rows.len()
                            invariant
                                k <= rows@.len(),
                                p < probe_keys@.len() <= 0x1_0000_0000,
                                rows@.len() == pairs.len(),
                                forall|x: int|
                                    0 <= x < rows@.len() ==> pairs[x] == (p as u32, rows@[x]),
                                out@ == before + pairs.take(k as int),
                            decreases rows@.len() - k,
                        {
                            out.push((p as u32, rows[k]));
                            k = k + 1;
                            assert(out@ =~= before + pairs.take(k as int));
                        }
                        assert(pairs.take(k as int) =~= pairs);
                    },
                    None => {
                        proof {
                            no_rows(build, key, build.len() as int);
                        }
                        assert(out@ =~= before + pairs);
                    },
                }
            } else {
                assert(key.null());
                assert(out@ =~= before + pairs);
            }
            p = p + 1;
        }
        out
    }

    /// Where column `out_idx` of the output comes from.
    pub fn column_source(&self, out_idx: usize) -> (r: ColumnSource)
        requires
            self.well_formed(),
            out_idx < self.build_columns + self.probe_columns,
        ensures
            comes_from(self.build_columns, self.probe_columns, out_idx, r),
    {
        if out_idx < self.build_columns {
            ColumnSource::Build(out_idx)
        } else {
            ColumnSource::Probe(out_idx - self.build_columns)
        }
    }
}

/// Whether `keys` are the keys of the first `n` build rows that are not null,
/// and `rows` the rows that have each of them.
pub open spec fn indexes(
    keys: KeyTable,
    rows: Seq<Vec<u32>>,
    build: Seq<ScalarView>,
    n: int,
) -> bool {
    &&& keys.well_formed()
    &&& keys@.len() == rows.len()
    &&& forall|s: int|
        0 <= s < rows.len() ==> (#[trigger] rows[s])@ == rows_with(build, keys@[s], n)
    &&& forall|i: int| 0 <= i < n && !(#[trigger] build[i]).null() ==> keys@.contains(build[i])
    &&& forall|s: int|
        0 <= s < keys@.len() ==> !(#[trigger] keys@[s]).null() && exists|i: int|
            0 <= i < n && build[i] == keys@[s]
}

proof fn no_rows(build: Seq<ScalarView>, key: ScalarView, n: int)
    requires
        0 <= n <= build.len(),
        forall|i: int| 0 <= i < n ==> build[i] != key,
    ensures
        rows_with(build, key, n).len() == 0,
    decreases n,
{
    if n > 0 {
        no_rows(build, key, n - 1);
    }
}

proof fn null_row(keys: KeyTable, rows: Seq<Vec<u32>>, build: Seq<ScalarView>, n: int)
    requires
        indexes(keys, rows, build, n),
        0 <= n < build.len(),
        build[n].null(),
    ensures
        indexes(keys, rows, build, n + 1),
{
    assert forall|s: int| 0 <= s < rows.len() implies (#[trigger] rows[s])@ == rows_with(
        build,
        keys@[s],
        n + 1,
    ) by {
        assert(!keys@[s].null());
    }
    assert forall|s: int| 0 <= s < keys@.len() implies !(#[trigger] keys@[s]).null() && exists|
        i: int,
    |
        0 <= i < n + 1 && build[i] == keys@[s] by {
        let i = choose|i: int| 0 <= i < n && build[i] == keys@[s];
        assert(build[i] == keys@[s]);
    }
}

proof fn one_more_row(
    keys: KeyTable,
    before: Seq<Vec<u32>>,
    after: Seq<Vec<u32>>,
    build: Seq<ScalarView>,
    n: int,
    slot: int,
)
    requires
        indexes(keys, before, build, n),
        0 <= n < build.len(),
        n < 0x1_0000_0000,
        !build[n].null(),
        0 <= slot < keys@.len(),
        keys@[slot] == build[n],
        after.len() == before.len(),
        after[slot]@ == before[slot]@.push(n as u32),
        forall|s: int| 0 <= s < before.len() && s != slot ==> after[s] == before[s],
    ensures
        indexes(keys, after, build, n + 1),
{
    keys.no_repeats();
    assert forall|s: int| 0 <= s < after.len() implies (#[trigger] after[s])@ == rows_with(
        build,
        keys@[s],
        n + 1,
    ) by {
        assert(before[s]@ == rows_with(build, keys@[s], n));
        if s != slot {
            assert(keys@[s] != keys@[slot]);
        }
    }
    assert forall|i: int| 0 <= i < n + 1 && !(#[trigger] build[i]).null() implies keys@.contains(
        build[i],
    ) by {
        if i == n {
            assert(keys@[slot] == build[i]);
        }
    }
    assert forall|s: int| 0 <= s < keys@.len() implies !(#[trigger] keys@[s]).null() && exists|
        i: int,
    |
        0 <= i < n + 1 && build[i] == keys@[s] by {
        let i = choose|i: int| 0 <= i < n && build[i] == keys@[s];
        assert(build[i] == keys@[s]);
    }
}

proof fn one_more_key(
    old_keys: Seq<ScalarView>,
    keys: KeyTable,
    before: Seq<Vec<u32>>,
    after: Seq<Vec<u32>>,
    build: Seq<ScalarView>,
    n: int,
)
    requires
        keys.well_formed(),
        keys@ == old_keys.push(build[n]),
        old_keys.len() == before.len(),
        forall|s: int|
            0 <= s < before.len() ==> (#[trigger] before[s])@ == rows_with(build, old_keys[s], n),
        forall|i: int|
            0 <= i < n && !(#[trigger] build[i]).null() ==> old_keys.contains(build[i]),
        forall|s: int|
            0 <= s < old_keys.len() ==> !(#[trigger] old_keys[s]).null() && exists|i: int|
                0 <= i < n && build[i] == old_keys[s],
        !old_keys.contains(build[n]),
        0 <= n < build.len(),
        n < 0x1_0000_0000,
        !build[n].null(),
        after.len() == before.len() + 1,
        forall|s: int| 0 <= s < before.len() ==> after[s] == before[s],
        after[before.len() as int]@ == seq![n as u32],
    ensures
        indexes(keys, after, build, n + 1),
{
    let key = build[n];
    assert forall|i: int| 0 <= i < n implies build[i] != key by {
        if build[i] == key {
            assert(!build[i].null());
            assert(old_keys.contains(build[i]));
        }
    }
    no_rows(build, key, n);
    assert forall|s: int| 0 <= s < after.len() implies (#[trigger] after[s])@ == rows_with(
        build,
        keys@[s],
        n + 1,
    ) by {
        if s < before.len() {
            assert(before[s]@ == rows_with(build, old_keys[s], n));
            assert(keys@[s] == old_keys[s]);
            assert(old_keys.contains(old_keys[s]));
        } else {
            assert(rows_with(build, key, n + 1) =~= seq![n as u32]);
        }
    }
    assert forall|i: int| 0 <= i < n + 1 && !(#[trigger] build[i]).null() implies keys@.contains(
        build[i],
    ) by {
        if i == n {
            assert(keys@[old_keys.len() as int] == key);
        } else {
            let s = old_keys.index_of(build[i]);
            assert(keys@[s] == build[i]);
        }
    }
    assert forall|s: int| 0 <= s < keys@.len() implies !(#[trigger] keys@[s]).null() && exists|
        i: int,
    |
        0 <= i < n + 1 && build[i] == keys@[s] by {
        if s < old_keys.len() {
            assert(keys@[s] == old_keys[s]);
            assert(!old_keys[s].null());
            let i = choose|i: int| 0 <= i < n && build[i] == old_keys[s];
            assert(build[i] == keys@[s]);
        } else {
            assert(build[n] == keys@[s]);
        }
    }
}

/// The message names the number of keys first, then that of the rows.
pub proof fn messages_name_the_keys_and_the_rows(keys: nat, rows: nat)
    ensures
        exists|a: Seq<char>, b: Seq<char>|
            {
                &&& is_numeral(a) && numeral(a) == keys
                &&& is_numeral(b) && numeral(b) == rows
                &&& key_count_message(keys, rows) == #[trigger] (
                "LookupJoinExec build_keys length ("@ + a + ") does not match build rows ("@ + b
                    + ")"@)
            },
{
    decimal_writes_the_number(keys);
    decimal_writes_the_number(rows);
    let a = decimal(keys);
    let b = decimal(rows);
    assert(key_count_message(keys, rows) == "LookupJoinExec build_keys length ("@ + a
        + ") does not match build rows ("@ + b + ")"@);
}

} // verus!
