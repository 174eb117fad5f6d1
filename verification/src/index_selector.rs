//! Candidate rows from secondary indexes.
use std::collections::HashSet;
use std::sync::Arc;

use vstd::hash_map::StringHashMap;
use vstd::prelude::*;
use vstd::std_specs::iter::IteratorSpec;
use vstd::string::*;

use crate::expr::{Expr, Operator};
use crate::scalar::{text_view, Scalar, ScalarView};
use crate::text::laws::{
    decimal_writes_the_number, is_numeral, numeral, signed_decimal_writes_the_number,
};
use crate::text::{decimal, same_text, signed_decimal, signed_decimal_text, texts};

verus! {

/// A secondary index: the column that it is on, and the rows that may carry a
/// value.
pub trait IndexLookup {
    /// The name of the indexed column.
    spec fn indexed_column(&self) -> Seq<char>;

    /// The ids of the rows that may carry a value; `None` where the index
    /// cannot answer.
    spec fn candidates(&self, value: Seq<char>) -> Option<Seq<u64>>;

    /// Name of the indexed column.
    fn column(&self) -> (r: &str)
        ensures
            r@ == self.indexed_column(),
    ;

    /// Row ids that may carry `value`, empty if it is absent.
    ///
    /// `None` when a derived index is malformed and the caller has to scan.
    fn lookup_ids(&self, value: &str) -> (r: Option<Vec<u64>>)
        ensures
            match self.candidates(value@) {
                Some(ids) => r matches Some(v) && v@ == ids,
                None => r is None,
            },
    ;
}

/// What an index is on.
#[derive(Debug, PartialEq, Eq)]
pub struct IndexDefinition {
    pub name: String,
    pub table: String,
    pub column: String,
    pub unique: bool,
}

/// A fully loaded index: for each value the ids of its rows.
pub struct BTreeIndex {
    pub definition: IndexDefinition,
    /// The snapshot that the index was built for.
    pub snapshot_sequence: u64,
    pub entries: StringHashMap<Vec<u64>>,
}

/// The ids that a list of entries gives for a value: those of the last entry
/// for it.
pub open spec fn listed(entries: Seq<(String, Vec<u64>)>, value: Seq<char>) -> Option<Seq<u64>>
    decreases entries.len(),
{
    if entries.len() == 0 {
        None
    } else if entries.last().0@ == value {
        Some(entries.last().1@)
    } else {
        listed(entries.drop_last(), value)
    }
}

impl BTreeIndex {
    /// The ids of the rows with a value.
    pub open spec fn postings(self, value: Seq<char>) -> Seq<u64> {
        if self.entries@.contains_key(value) {
            self.entries@[value]@
        } else {
            seq![]
        }
    }

    /// An index with these entries.
    pub fn new(
        definition: IndexDefinition,
        snapshot_sequence: u64,
        mut entries: Vec<(String, Vec<u64>)>,
    ) -> (r: BTreeIndex)
        ensures
            r.definition == definition,
            r.snapshot_sequence == snapshot_sequence,
            forall|value: Seq<char>| #[trigger]
                r.postings(value) == match listed(entries@, value) {
                    Some(ids) => ids,
                    None => seq![],
                },
    {
        let ghost all = entries@;
        let mut map: StringHashMap<Vec<u64>> = StringHashMap::new();
        while entries.len() > 0
            invariant
                entries@.len() <= all.len(),
                entries@ == all.take(entries@.len() as int),
                forall|value: Seq<char>|
                    listed(all, value) == if #[trigger] map@.contains_key(value) {
                        Some(map@[value]@)
                    } else {
                        listed(entries@, value)
                    },
            decreases entries@.len(),
        {
            let ghost before = entries@;
            let ghost earlier = map@;
            match entries.pop() {
                Some((value, ids)) => {
                    assert(entries@ =~= before.drop_last());
                    assert(entries@ =~= all.take(entries@.len() as int));
                    let ghost v = value@;
                    if !map.contains_key(value.as_str()) {
                        map.insert(value, ids);
                    }
                    assert forall|x: Seq<char>|
                        listed(all, x) == if #[trigger] map@.contains_key(x) {
                            Some(map@[x]@)
                        } else {
                            listed(entries@, x)
                        } by {
                        assert(earlier.contains_key(x) ==> map@.contains_key(x));
                    }
                },
                None => {},
            }
        }
        let r = BTreeIndex { definition, snapshot_sequence, entries: map };
        assert forall|value: Seq<char>| #[trigger]
            r.postings(value) == match listed(all, value) {
                Some(ids) => ids,
                None => seq![],
            } by {
            assert(r.entries@.contains_key(value) == map@.contains_key(value));
        }
        r
    }

    /// The ids of the rows with `value`.
    pub fn lookup(&self, value: &str) -> (r: Vec<u64>)
        ensures
            r@ == self.postings(value@),
    {
        match self.entries.get(value) {
            Some(ids) => {
                let copy = ids.clone();
                assert(copy@ =~= ids@);
                copy
            },
            None => Vec::new(),
        }
    }
}

impl IndexLookup for BTreeIndex {
    open spec fn indexed_column(&self) -> Seq<char> {
        self.definition.column@
    }

    open spec fn candidates(&self, value: Seq<char>) -> Option<Seq<u64>> {
        Some(self.postings(value))
    }

    fn column(&self) -> (r: &str) {
        self.definition.column.as_str()
    }

    fn lookup_ids(&self, value: &str) -> (r: Option<Vec<u64>>) {
        Some(self.lookup(value))
    }
}

/// The answer that is recorded first for a value.
pub open spec fn recorded(answers: Seq<(String, Option<Vec<u64>>)>, value: Seq<char>) -> Option<
    Seq<u64>,
>
    decreases answers.len(),
{
    if answers.len() == 0 {
        None
    } else if answers[0].0@ == value {
        match answers[0].1 {
            Some(ids) => Some(ids@),
            None => None,
        }
    } else {
        recorded(answers.skip(1), value)
    }
}

/// An index that is not loaded, by what it answered. It answers for no value
/// that it was not asked for.
#[derive(Debug, PartialEq, Eq)]
pub struct ProbedIndex {
    pub definition: IndexDefinition,
    pub answers: Vec<(String, Option<Vec<u64>>)>,
}

impl IndexLookup for ProbedIndex {
    open spec fn indexed_column(&self) -> Seq<char> {
        self.definition.column@
    }

    open spec fn candidates(&self, value: Seq<char>) -> Option<Seq<u64>> {
        recorded(self.answers@, value)
    }

    fn column(&self) -> (r: &str) {
        self.definition.column.as_str()
    }

    fn lookup_ids(&self, value: &str) -> (r: Option<Vec<u64>>) {
        let mut i: usize = 0;
        assert(self.answers@.skip(0) =~= self.answers@);
        while i < self.answers.len()
            invariant
                i <= self.answers@.len(),
                recorded(self.answers@, value@) == recorded(self.answers@.skip(i as int), value@),
            decreases self.answers@.len() - i,
        {
            assert(self.answers@.skip(i as int).skip(1) =~= self.answers@.skip(i as int + 1));
            assert(self.answers@.skip(i as int)[0] == self.answers@[i as int]);
            if same_text(self.answers[i].0.as_str(), value) {
                return match &self.answers[i].1 {
                    Some(ids) => {
                        let copy = ids.clone();
                        assert(copy@ =~= ids@);
                        Some(copy)
                    },
                    None => None,
                };
            }
            i = i + 1;
        }
        None
    }
}

/// An index of a snapshot.
pub enum SnapshotIndex {
    Loaded(Arc<BTreeIndex>),
    Probed(ProbedIndex),
}

impl IndexLookup for SnapshotIndex {
    open spec fn indexed_column(&self) -> Seq<char> {
        match self {
            SnapshotIndex::Loaded(index) => index.indexed_column(),
            SnapshotIndex::Probed(index) => index.indexed_column(),
        }
    }

    open spec fn candidates(&self, value: Seq<char>) -> Option<Seq<u64>> {
        match self {
            SnapshotIndex::Loaded(index) => index.candidates(value),
            SnapshotIndex::Probed(index) => index.candidates(value),
        }
    }

    fn column(&self) -> (r: &str) {
        match self {
            SnapshotIndex::Loaded(index) => index.column(),
            SnapshotIndex::Probed(index) => index.column(),
        }
    }

    fn lookup_ids(&self, value: &str) -> (r: Option<Vec<u64>>) {
        match self {
            SnapshotIndex::Loaded(index) => index.lookup_ids(value),
            SnapshotIndex::Probed(index) => index.lookup_ids(value),
        }
    }
}

/// The text under which an index keeps a constant.
pub open spec fn index_key(value: Expr) -> Option<Seq<char>> {
    match value {
        Expr::Literal(Scalar::Int64(Some(v))) => Some(signed_decimal(v as int)),
        Expr::Literal(Scalar::Utf8(Some(s))) => Some(s@),
        Expr::Literal(Scalar::LargeUtf8(Some(s))) => Some(s@),
        _ => None,
    }
}

fn scalar_to_string(value: &Expr) -> (r: Option<String>)
    ensures
        text_view(r) == index_key(*value),
{
    match value {
        Expr::Literal(Scalar::Int64(Some(v))) => Some(signed_decimal_text(*v)),
        Expr::Literal(Scalar::Utf8(Some(s))) => Some(s.clone()),
        Expr::Literal(Scalar::LargeUtf8(Some(s))) => Some(s.clone()),
        _ => None,
    }
}

/// The ids that an index gives for a constant.
pub open spec fn ids_for<I: IndexLookup + ?Sized>(index: &I, value: Expr) -> Option<Seq<u64>> {
    match index_key(value) {
        Some(key) => index.candidates(key),
        None => None,
    }
}

/// The ids that an index gives for any of a list of constants; `None` where it
/// cannot answer for one of them.
pub open spec fn ids_for_any<I: IndexLookup + ?Sized>(index: &I, list: Seq<Expr>) -> Option<
    Set<u64>,
>
    decreases list.len(),
{
    if list.len() == 0 {
        Some(Set::empty())
    } else {
        match (ids_for_any(index, list.drop_last()), ids_for(index, list.last())) {
            (Some(front), Some(ids)) => Some(front.union(ids.to_set())),
            _ => None,
        }
    }
}

proof fn ids_for_any_fault<I: IndexLookup + ?Sized>(index: &I, list: Seq<Expr>, k: int)
    requires
        0 <= k < list.len(),
        ids_for(index, list[k]) is None,
    ensures
        ids_for_any(index, list) is None,
    decreases list.len(),
{
    if k < list.len() - 1 {
        ids_for_any_fault(index, list.drop_last(), k);
    }
}

/// Whether an expression is the column of the index.
pub open spec fn is_indexed<I: IndexLookup + ?Sized>(index: &I, e: Expr) -> bool {
    e matches Expr::Column(c) && c@ == index.indexed_column()
}

fn on_indexed_column<I: IndexLookup + ?Sized>(index: &I, e: &Expr) -> (r: bool)
    ensures
        r == is_indexed(index, *e),
{
    match e {
        Expr::Column(c) => same_text(c.as_str(), index.column()),
        _ => false,
    }
}

/// What an index answers for a predicate: the ids of the rows that may satisfy
/// `column = constant` or `column IN (constants)` on its column.
pub open spec fn index_answer<I: IndexLookup + ?Sized>(index: &I, e: Expr) -> Option<Set<u64>> {
    match e {
        Expr::BinaryExpr { left, op: Operator::Eq, right } => if is_indexed(index, *left) {
            match ids_for(index, *right) {
                Some(ids) => Some(ids.to_set()),
                None => None,
            }
        } else {
            None
        },
        Expr::InList { expr, list, negated: false } => if is_indexed(index, *expr) {
            ids_for_any(index, list@)
        } else {
            None
        },
        _ => None,
    }
}

/// The view of an optional set.
pub open spec fn set_view(s: Option<HashSet<u64>>) -> Option<Set<u64>> {
    match s {
        Some(ids) => Some(ids@),
        None => None,
    }
}

fn add_all(set: &mut HashSet<u64>, ids: &Vec<u64>)
    ensures
        final(set)@ == old(set)@.union(ids@.to_set()),
{
    let ghost before = set@;
    let mut i: usize = 0;
    assert(set@ =~= before.union(ids@.take(0).to_set()));
    while i < ids.len()
        invariant
            i <= ids@.len(),
            set@ == before.union(ids@.take(i as int).to_set()),
        decreases ids@.len() - i,
    {
        set.insert(ids[i]);
        assert(ids@.take(i as int + 1) =~= ids@.take(i as int).push(ids@[i as int]));
        assert forall|x: u64|
            ids@.take(i as int + 1).to_set().contains(x) <==> ids@.take(i as int).to_set().contains(
                x,
            ) || x == ids@[i as int] by {
            let shorter = ids@.take(i as int);
            let longer = ids@.take(i as int + 1);
            if shorter.contains(x) {
                assert(longer[shorter.index_of(x)] == x);
            }
            assert(longer[i as int] == ids@[i as int]);
            if longer.contains(x) && x != ids@[i as int] {
                assert(shorter[longer.index_of(x)] == x);
            }
        }
        i = i + 1;
        assert(set@ =~= before.union(ids@.take(i as int).to_set()));
    }
    assert(ids@.take(i as int) =~= ids@);
}

/// If `expr` is `column = constant` or `column IN (constants)` and the column
/// is that of the index, the set of row ids that may satisfy it.
pub fn index_equality_lookup<I: IndexLookup + ?Sized>(index: &I, expr: &Expr) -> (r: Option<
    HashSet<u64>,
>)
    ensures
        set_view(r) == index_answer(index, *expr),
{
    match expr {
        Expr::BinaryExpr { left, op, right } => {
            if *op != Operator::Eq || !on_indexed_column(index, left) {
                return None;
            }
            match scalar_to_string(right) {
                Some(key) => match index.lookup_ids(key.as_str()) {
                    Some(ids) => {
                        let mut out: HashSet<u64> = HashSet::new();
                        add_all(&mut out, &ids);
                        assert(out@ =~= ids@.to_set());
                        Some(out)
                    },
                    None => None,
                },
                None => None,
            }
        },
        Expr::InList { expr: inner, list, negated } => {
            if *negated || !on_indexed_column(index, inner) {
                return None;
            }
            let mut out: HashSet<u64> = HashSet::new();
            let mut i: usize = 0;
            assert(list@.take(0) =~= seq![]);
            while i < list.len()
                invariant
                    i <= list@.len(),
                    *expr matches Expr::InList { expr: x, list: l, negated: n } && l == *list
                        && x == *inner && !n,
                    is_indexed(index, **inner),
                    ids_for_any(index, list@.take(i as int)) == Some(out@),
                decreases list@.len() - i,
            {
                let ghost more = list@.take(i as int + 1);
                assert(more.drop_last() =~= list@.take(i as int));
                assert(more.last() == list@[i as int]);
                let key = match scalar_to_string(&list[i]) {
                    Some(key) => key,
                    None => {
                        proof {
                            ids_for_any_fault(index, list@, i as int);
                        }
                        return None;
                    },
                };
                match index.lookup_ids(key.as_str()) {
                    Some(ids) => add_all(&mut out, &ids),
                    None => {
                        proof {
                            ids_for_any_fault(index, list@, i as int);
                        }
                        return None;
                    },
                }
                i = i + 1;
            }
            assert(list@.take(i as int) =~= list@);
            Some(out)
        },
        _ => None,
    }
}

/// The keys of the constants in a list.
pub open spec fn keys_of(list: Seq<Expr>) -> Seq<Seq<char>>
    decreases list.len(),
{
    if list.len() == 0 {
        seq![]
    } else {
        match index_key(list.last()) {
            Some(key) => keys_of(list.drop_last()).push(key),
            None => keys_of(list.drop_last()),
        }
    }
}

/// Whether an expression is a column.
pub open spec fn is_column(e: Expr, name: Seq<char>) -> bool {
    e matches Expr::Column(c) && c@ == name
}

/// The values that an index on a column is asked for, to answer for a
/// predicate.
pub open spec fn asked_values(column: Seq<char>, e: Expr) -> Seq<Seq<char>> {
    match e {
        Expr::BinaryExpr { left, op: Operator::Eq, right } => if is_column(*left, column) {
            keys_of(seq![*right])
        } else {
            seq![]
        },
        Expr::InList { expr, list, negated: false } => if is_column(*expr, column) {
            keys_of(list@)
        } else {
            seq![]
        },
        _ => seq![],
    }
}

/// The values to ask an index on `column` for, so that its answers tell what
/// it makes of `expr`.
pub fn values_to_ask(column: &str, expr: &Expr) -> (r: Vec<String>)
    ensures
        texts(r@) == asked_values(column@, *expr),
{
    let mut out: Vec<String> = Vec::new();
    assert(texts(out@) =~= seq![]);
    match expr {
        Expr::BinaryExpr { left, op, right } => {
            let on_column = match &**left {
                Expr::Column(c) => same_text(c.as_str(), column),
                _ => false,
            };
            if *op == Operator::Eq && on_column {
                reveal_with_fuel(keys_of, 2);
                assert(seq![**right].drop_last() =~= seq![]);
                match scalar_to_string(right) {
                    Some(key) => {
                        let ghost k = key@;
                        out.push(key);
                        assert(texts(out@) =~= seq![k]);
                        assert(keys_of(seq![**right]) =~= seq![k]);
                    },
                    None => {},
                }
            }
        },
        Expr::InList { expr: inner, list, negated } => {
            let on_column = match &**inner {
                Expr::Column(c) => same_text(c.as_str(), column),
                _ => false,
            };
            if !*negated && on_column {
                let mut i: usize = 0;
                assert(list@.take(0) =~= seq![]);
                while i < list.len()
                    invariant
                        i <= list@.len(),
                        texts(out@) == keys_of(list@.take(i as int)),
                    decreases list@.len() - i,
                {
                    let ghost more = list@.take(i as int + 1);
                    assert(more.drop_last() =~= list@.take(i as int));
                    assert(more.last() == list@[i as int]);
                    let ghost before = texts(out@);
                    match scalar_to_string(&list[i]) {
                        Some(key) => {
                            let ghost k = key@;
                            out.push(key);
                            assert(texts(out@) =~= before.push(k));
                        },
                        None => {},
                    }
                    i = i + 1;
                }
                assert(list@.take(i as int) =~= list@);
            }
        },
        _ => {},
    }
    out
}

proof fn same_ids_for_any<I: IndexLookup, J: IndexLookup>(a: &I, b: &J, list: Seq<Expr>)
    requires
        forall|v: Seq<char>| #[trigger]
            keys_of(list).contains(v) ==> a.candidates(v) == b.candidates(v),
    ensures
        ids_for_any(a, list) == ids_for_any(b, list),
    decreases list.len(),
{
    if list.len() > 0 {
        let front = keys_of(list.drop_last());
        assert forall|v: Seq<char>| #[trigger] front.contains(v) implies a.candidates(v)
            == b.candidates(v) by {
            let k = front.index_of(v);
            assert(keys_of(list)[k] == v);
            assert(keys_of(list).contains(v));
        }
        same_ids_for_any(a, b, list.drop_last());
        match index_key(list.last()) {
            Some(key) => {
                assert(keys_of(list).last() == key);
                assert(keys_of(list).contains(key));
            },
            None => {},
        }
    }
}

/// An index is asked for everything that its answer rests on: two indexes on
/// one column that agree on the values asked for make the same of a
/// predicate.
pub proof fn asked_values_decide<I: IndexLookup, J: IndexLookup>(a: &I, b: &J, e: Expr)
    requires
        a.indexed_column() == b.indexed_column(),
        forall|v: Seq<char>| #[trigger]
            asked_values(a.indexed_column(), e).contains(v) ==> a.candidates(v) == b.candidates(v),
    ensures
        index_answer(a, e) == index_answer(b, e),
{
    match e {
        Expr::BinaryExpr { left, op: Operator::Eq, right } => {
            if is_column(*left, a.indexed_column()) {
                assert(asked_values(a.indexed_column(), e) == keys_of(seq![*right]));
                same_ids_for_any(a, b, seq![*right]);
                match index_key(*right) {
                    Some(key) => {
                        reveal_with_fuel(keys_of, 2);
                        assert(keys_of(seq![*right]).last() == key);
                        assert(keys_of(seq![*right]).contains(key));
                    },
                    None => {},
                }
            }
        },
        Expr::InList { expr, list, negated: false } => {
            if is_column(*expr, a.indexed_column()) {
                assert(asked_values(a.indexed_column(), e) == keys_of(list@));
                same_ids_for_any(a, b, list@);
            }
        },
        _ => {},
    }
}

/// What `first` and `second` have in common; `None` puts no bound.
pub open spec fn narrowed(first: Option<Set<u64>>, second: Option<Set<u64>>) -> Option<Set<u64>> {
    match (first, second) {
        (Some(a), Some(b)) => Some(a.intersect(b)),
        (Some(a), None) => Some(a),
        (None, b) => b,
    }
}

fn narrow(first: Option<HashSet<u64>>, second: Option<HashSet<u64>>) -> (r: Option<HashSet<u64>>)
    ensures
        set_view(r) == narrowed(set_view(first), set_view(second)),
{
    match (first, second) {
        (Some(a), Some(b)) => {
            let mut out: HashSet<u64> = HashSet::new();
            let members = a.iter();
            let ghost all = members.remaining();
            assert forall|y: u64| #[trigger] a@.contains(y) <==> exists|k: int|
                0 <= k < all.len() && *#[trigger] all[k] == y by {
                assert(all.unref().to_set() == a@);
                if a@.contains(y) {
                    let k = all.unref().index_of(y);
                    assert(*all[k] == y);
                }
                if exists|k: int| 0 <= k < all.len() && *#[trigger] all[k] == y {
                    let k = choose|k: int| 0 <= k < all.len() && *#[trigger] all[k] == y;
                    assert(all.unref()[k] == y);
                }
            }
            for x in it: members
                invariant
                    it.seq() == all,
                    forall|y: u64| #[trigger]
                        a@.contains(y) <==> exists|k: int|
                            0 <= k < all.len() && *#[trigger] all[k] == y,
                    forall|y: u64| #[trigger]
                        out@.contains(y) <==> b@.contains(y) && exists|k: int|
                            0 <= k < it.index() && *#[trigger] all[k] == y,
            {
                assert(*all[it.index() as int] == *x);
                if b.contains(x) {
                    out.insert(*x);
                }
            }
            assert(out@ =~= a@.intersect(b@));
            Some(out)
        },
        (Some(a), None) => Some(a),
        (None, b) => b,
    }
}

/// Whether `r` holds the row ids that every index lists for every filter that
/// it answers, and is `None` where no index answers any.
pub open spec fn lists_common<I: IndexLookup>(
    r: Option<HashSet<u64>>,
    indexes: Seq<I>,
    filters: Seq<Expr>,
) -> bool {
    match r {
        None => forall|i: int, j: int|
            0 <= i < indexes.len() && 0 <= j < filters.len() ==> #[trigger] index_answer(
                &indexes[i],
                filters[j],
            ) is None,
        Some(ids) => {
            &&& exists|i: int, j: int|
                0 <= i < indexes.len() && 0 <= j < filters.len() && #[trigger] index_answer(
                    &indexes[i],
                    filters[j],
                ) is Some
            &&& forall|id: u64| #[trigger]
                ids@.contains(id) <==> in_every_answer(
                    indexes,
                    filters,
                    indexes.len() as int,
                    0,
                    id,
                )
        },
    }
}

/// The row ids that a scan can be limited to: those that every index lists
/// for every filter that it answers. `None` where no index answers any.
pub fn candidate_row_ids<I: IndexLookup>(indexes: &Vec<I>, filters: &Vec<Expr>) -> (r: Option<
    HashSet<u64>,
>)
    ensures
        lists_common(r, indexes@, filters@),
{
    let mut out: Option<HashSet<u64>> = None;
    let mut i: usize = 0;
    while i < indexes.len()
        invariant
            i <= indexes@.len(),
            narrowed_to(out, indexes@, filters@, i as int, 0),
        decreases indexes@.len() - i,
    {
        let mut j: usize = 0;
        while j < filters.len()
            invariant
                i < indexes@.len(),
                j <= filters@.len(),
                narrowed_to(out, indexes@, filters@, i as int, j as int),
            decreases filters@.len() - j,
        {
            let ghost before = out;
            let answer = index_equality_lookup(&indexes[i], &filters[j]);
            out = narrow(out, answer);
            proof {
                let a = index_answer(&indexes@[i as int], filters@[j as int]);
                assert forall|id: u64| #[trigger]
                    in_every_answer(indexes@, filters@, i as int, j as int + 1, id) == (
                    in_every_answer(indexes@, filters@, i as int, j as int, id) && (a matches Some(
                        ids,
                    ) ==> ids.contains(id))) by {
                    one_more_answer(indexes@, filters@, i as int, j as int, id);
                }
                one_more_considered(indexes@, filters@, i as int, j as int);
                if before is None && a is Some {
                    assert forall|id: u64| #[trigger]
                        in_every_answer(indexes@, filters@, i as int, j as int, id) by {}
                }
                if a is Some {
                    assert(considered(
                        indexes@,
                        filters@,
                        i as int,
                        j as int + 1,
                        i as int,
                        j as int,
                    ));
                }
                assert(narrowed_to(out, indexes@, filters@, i as int, j as int + 1));
            }
            j = j + 1;
        }
        proof {
            next_index_considered(indexes@, filters@, i as int);
            assert(narrowed_to(out, indexes@, filters@, i as int + 1, 0));
        }
        i = i + 1;
    }
    proof {
        assert forall|p: int, q: int|
            0 <= p < indexes@.len() && 0 <= q < filters@.len() implies #[trigger] considered(
            indexes@,
            filters@,
            i as int,
            0,
            p,
            q,
        ) by {}
        if out is None {
            assert forall|p: int, q: int|
                0 <= p < indexes@.len() && 0 <= q < filters@.len() implies #[trigger] index_answer(
                &indexes@[p],
                filters@[q],
            ) is None by {
                assert(considered(indexes@, filters@, i as int, 0, p, q));
            }
        }
    }
    out
}

/// Whether the answer of index `p` for filter `q` is among the first ones: all
/// of the first `i` indexes, and the first `j` of index `i`.
pub open spec fn considered<I: IndexLookup>(
    indexes: Seq<I>,
    filters: Seq<Expr>,
    i: int,
    j: int,
    p: int,
    q: int,
) -> bool {
    0 <= p < indexes.len() && 0 <= q < filters.len() && (p < i || (p == i && q < j))
}

/// Whether every index that answers, among the first ones, lists `id`.
pub open spec fn in_every_answer<I: IndexLookup>(
    indexes: Seq<I>,
    filters: Seq<Expr>,
    i: int,
    j: int,
    id: u64,
) -> bool {
    forall|p: int, q: int| #[trigger]
        considered(indexes, filters, i, j, p, q) ==> (index_answer(&indexes[p], filters[q])
            matches Some(ids) ==> ids.contains(id))
}

proof fn one_more_considered<I: IndexLookup>(
    indexes: Seq<I>,
    filters: Seq<Expr>,
    i: int,
    j: int,
)
    requires
        0 <= i < indexes.len(),
        0 <= j < filters.len(),
    ensures
        forall|p: int, q: int| #[trigger]
            considered(indexes, filters, i, j + 1, p, q) <==> considered(
                indexes,
                filters,
                i,
                j,
                p,
                q,
            ) || (p == i && q == j),
        forall|p: int, q: int| #[trigger]
            considered(indexes, filters, i, j, p, q) ==> considered(
                indexes,
                filters,
                i,
                j + 1,
                p,
                q,
            ),
{
}

proof fn one_more_answer<I: IndexLookup>(
    indexes: Seq<I>,
    filters: Seq<Expr>,
    i: int,
    j: int,
    id: u64,
)
    requires
        0 <= i < indexes.len(),
        0 <= j < filters.len(),
    ensures
        in_every_answer(indexes, filters, i, j + 1, id) == (in_every_answer(
            indexes,
            filters,
            i,
            j,
            id,
        ) && (index_answer(&indexes[i], filters[j]) matches Some(ids) ==> ids.contains(id))),
{
    one_more_considered(indexes, filters, i, j);
    assert(considered(indexes, filters, i, j + 1, i, j));
}

proof fn next_index_considered<I: IndexLookup>(indexes: Seq<I>, filters: Seq<Expr>, i: int)
    requires
        0 <= i < indexes.len(),
    ensures
        forall|p: int, q: int| #[trigger]
            considered(indexes, filters, i + 1, 0, p, q) <==> considered(
                indexes,
                filters,
                i,
                filters.len() as int,
                p,
                q,
            ),
        forall|p: int, q: int| #[trigger]
            considered(indexes, filters, i, filters.len() as int, p, q) ==> considered(
                indexes,
                filters,
                i + 1,
                0,
                p,
                q,
            ),
        forall|id: u64| #[trigger]
            in_every_answer(indexes, filters, i + 1, 0, id) == in_every_answer(
                indexes,
                filters,
                i,
                filters.len() as int,
                id,
            ),
{
    let n = filters.len() as int;
    assert forall|p: int, q: int| #[trigger]
        considered(indexes, filters, i + 1, 0, p, q) <==> considered(
            indexes,
            filters,
            i,
            n,
            p,
            q,
        ) by {}
    assert forall|id: u64| #[trigger]
        in_every_answer(indexes, filters, i + 1, 0, id) == in_every_answer(
            indexes,
            filters,
            i,
            n,
            id,
        ) by {
        if in_every_answer(indexes, filters, i + 1, 0, id) {
            assert forall|p: int, q: int| #[trigger]
                considered(indexes, filters, i, n, p, q) implies (index_answer(
                &indexes[p],
                filters[q],
            ) matches Some(ids) ==> ids.contains(id)) by {
                assert(considered(indexes, filters, i + 1, 0, p, q));
            }
        }
    }
}

spec fn narrowed_to<I: IndexLookup>(
    out: Option<HashSet<u64>>,
    indexes: Seq<I>,
    filters: Seq<Expr>,
    i: int,
    j: int,
) -> bool {
    match out {
        None => forall|p: int, q: int| #[trigger]
            considered(indexes, filters, i, j, p, q) ==> index_answer(&indexes[p], filters[q])
                is None,
        Some(ids) => {
            &&& exists|p: int, q: int| #[trigger]
                considered(indexes, filters, i, j, p, q) && index_answer(&indexes[p], filters[q])
                    is Some
            &&& forall|id: u64| #[trigger]
                ids@.contains(id) <==> in_every_answer(indexes, filters, i, j, id)
        },
    }
}

/// A row as indexes see it: its id, and the key of each column that has one.
pub struct IndexedRow {
    pub id: u64,
    pub keys: Map<Seq<char>, Seq<char>>,
}

impl IndexedRow {
    /// Whether the row has a key in a column, and it is that of a constant.
    pub open spec fn equals(self, column: Expr, value: Expr) -> bool {
        column matches Expr::Column(c) && self.keys.contains_key(c@) && index_key(value) == Some(
            self.keys[c@],
        )
    }

    /// Whether the row can satisfy a predicate. Of predicates other than
    /// `column = constant` and `column IN (constants)` nothing is known.
    pub open spec fn can_satisfy(self, e: Expr) -> bool {
        match e {
            Expr::BinaryExpr { left, op: Operator::Eq, right } => {
                *left is Column && index_key(*right) is Some ==> self.equals(*left, *right)
            },
            Expr::InList { expr, list, negated: false } => {
                *expr is Column && (forall|i: int|
                    0 <= i < list@.len() ==> index_key(#[trigger] list@[i]) is Some) ==> exists|
                    i: int,
                |
                    0 <= i < list@.len() && self.equals(*expr, #[trigger] list@[i])
            },
            _ => true,
        }
    }

    /// Whether an index lists the row under its key, if it answers for it.
    pub open spec fn is_listed<I: IndexLookup>(self, index: &I) -> bool {
        self.keys.contains_key(index.indexed_column()) ==> (index.candidates(
            self.keys[index.indexed_column()],
        ) matches Some(ids) ==> ids.contains(self.id))
    }
}

proof fn listed_among<I: IndexLookup>(index: &I, list: Seq<Expr>, k: int, id: u64)
    requires
        0 <= k < list.len(),
        ids_for(index, list[k]) matches Some(ids) ==> ids.contains(id),
    ensures
        ids_for_any(index, list) matches Some(ids) ==> ids.contains(id),
    decreases list.len(),
{
    if k < list.len() - 1 {
        listed_among(index, list.drop_last(), k, id);
    }
}

proof fn answered_keys<I: IndexLookup>(index: &I, list: Seq<Expr>, k: int)
    requires
        0 <= k < list.len(),
        ids_for_any(index, list) is Some,
    ensures
        index_key(list[k]) is Some,
    decreases list.len(),
{
    if k < list.len() - 1 {
        answered_keys(index, list.drop_last(), k);
    }
}

/// The answer of an index misses no row: where the index lists a row under its
/// key, the row is in the answer for every predicate that it can satisfy.
pub proof fn answers_miss_no_row<I: IndexLookup>(index: &I, row: IndexedRow, e: Expr)
    requires
        row.is_listed(index),
        row.can_satisfy(e),
    ensures
        index_answer(index, e) matches Some(ids) ==> ids.contains(row.id),
{
    match e {
        Expr::InList { expr, list, negated: false } => {
            if index_answer(index, e) is Some {
                assert forall|i: int| 0 <= i < list@.len() implies index_key(
                    #[trigger] list@[i],
                ) is Some by {
                    answered_keys(index, list@, i);
                }
                let k = choose|i: int|
                    0 <= i < list@.len() && row.equals(*expr, #[trigger] list@[i]);
                listed_among(index, list@, k, row.id);
            }
        },
        _ => {},
    }
}

/// A scan that is limited to the candidates misses no row that can satisfy all
/// filters, where every index lists that row under its key.
pub proof fn candidates_miss_no_row<I: IndexLookup>(
    candidates: Option<HashSet<u64>>,
    indexes: Seq<I>,
    filters: Seq<Expr>,
    row: IndexedRow,
)
    requires
        lists_common(candidates, indexes, filters),
        forall|i: int| 0 <= i < indexes.len() ==> row.is_listed(&#[trigger] indexes[i]),
        forall|j: int| 0 <= j < filters.len() ==> row.can_satisfy(#[trigger] filters[j]),
    ensures
        candidates matches Some(ids) ==> ids@.contains(row.id),
{
    let n = indexes.len() as int;
    assert forall|p: int, q: int| #[trigger]
        considered(indexes, filters, n, 0, p, q) implies (index_answer(&indexes[p], filters[q])
        matches Some(ids) ==> ids.contains(row.id)) by {
        answers_miss_no_row(&indexes[p], row, filters[q]);
    }
    assert(in_every_answer(indexes, filters, n, 0, row.id));
}

/// Whether a text is the one under which an index keeps an integer: its decimal
/// digits, without zeros before them, behind a minus sign where it is negative.
pub open spec fn writes_integer(text: Seq<char>, n: int) -> bool {
    if n >= 0 {
        is_numeral(text) && numeral(text) == n && (text.len() > 1 ==> text[0] != '0')
    } else {
        text.len() > 1 && text[0] == '-' && text[1] != '0' && is_numeral(text.drop_first())
            && numeral(text.drop_first()) == -n
    }
}

/// Whether an index keeps a value under a text.
pub open spec fn is_key_of(text: Seq<char>, value: ScalarView) -> bool {
    match value {
        Scalar::Int64(Some(n)) => writes_integer(text, n as int),
        Scalar::Utf8(Some(s)) => text == s,
        Scalar::LargeUtf8(Some(s)) => text == s,
        _ => false,
    }
}

/// The key by which a constant is looked up is the text of its value; 64-bit
/// integers and texts have one, and nothing else has.
pub proof fn keys_are_the_texts_of_values(e: Expr)
    ensures
        index_key(e) matches Some(key) ==> (e matches Expr::Literal(v) && is_key_of(key, v@)),
        index_key(e) is Some <==> (e matches Expr::Literal(v) && (v@ matches Scalar::Int64(Some(_))
            || v@ matches Scalar::Utf8(Some(_)) || v@ matches Scalar::LargeUtf8(Some(_)))),
{
    match e {
        Expr::Literal(Scalar::Int64(Some(v))) => {
            let n = v as int;
            signed_decimal_writes_the_number(n);
            if n < 0 {
                decimal_writes_the_number((-n) as nat);
                assert(signed_decimal(n).drop_first() =~= decimal((-n) as nat));
                assert(signed_decimal(n)[1] == decimal((-n) as nat)[0]);
            } else {
                decimal_writes_the_number(n as nat);
            }
        },
        _ => {},
    }
}

/// A row: its id, and the value of each column.
pub struct ValuedRow {
    pub id: u64,
    pub values: spec_fn(Seq<char>) -> ScalarView,
}

/// Whether two values are equal: the same, or the same text.
pub open spec fn equal_values(a: ScalarView, b: ScalarView) -> bool {
    a == b || match (a, b) {
        (Scalar::Utf8(Some(x)), Scalar::LargeUtf8(Some(y))) => x == y,
        (Scalar::LargeUtf8(Some(x)), Scalar::Utf8(Some(y))) => x == y,
        _ => false,
    }
}

impl ValuedRow {
    /// Whether the column of a row has the value of a literal.
    pub open spec fn has(self, column: Expr, value: Expr) -> bool {
        column matches Expr::Column(c) && (value matches Expr::Literal(v) && equal_values(
            (self.values)(c@),
            v@,
        ))
    }

    /// Whether a row satisfies `column = constant` or `column IN (constants)`;
    /// other predicates are taken to be satisfied.
    pub open spec fn satisfies(self, e: Expr) -> bool {
        match e {
            Expr::BinaryExpr { left, op: Operator::Eq, right } => {
                *left is Column && *right is Literal ==> self.has(*left, *right)
            },
            Expr::InList { expr, list, negated: false } => {
                *expr is Column ==> exists|i: int|
                    0 <= i < list@.len() && self.has(*expr, #[trigger] list@[i])
            },
            _ => true,
        }
    }

    /// Whether an index lists the row under the text of its value, as far as it
    /// answers for that text.
    pub open spec fn is_kept_by<I: IndexLookup>(self, index: &I) -> bool {
        forall|key: Seq<char>|
            is_key_of(key, (self.values)(index.indexed_column())) ==> (#[trigger] index.candidates(
                key,
            ) matches Some(ids) ==> ids.contains(self.id))
    }
}

/// The answer of an index holds every row that satisfies the predicate, where
/// the index lists the row under the text of its value.
pub proof fn answers_hold_every_match<I: IndexLookup>(index: &I, row: ValuedRow, e: Expr)
    requires
        row.is_kept_by(index),
        row.satisfies(e),
    ensures
        index_answer(index, e) matches Some(ids) ==> ids.contains(row.id),
{
    match e {
        Expr::BinaryExpr { left, op: Operator::Eq, right } => {
            if index_answer(index, e) is Some {
                keys_are_the_texts_of_values(*right);
                let key = index_key(*right)->0;
                assert(row.has(*left, *right));
                assert(is_key_of(key, (row.values)(index.indexed_column())));
                assert(index.candidates(key) is Some);
            }
        },
        Expr::InList { expr, list, negated: false } => {
            if index_answer(index, e) is Some {
                let k = choose|i: int|
                    0 <= i < list@.len() && row.has(*expr, #[trigger] list@[i]);
                keys_are_the_texts_of_values(list@[k]);
                answered_keys(index, list@, k);
                let key = index_key(list@[k])->0;
                assert(is_key_of(key, (row.values)(index.indexed_column())));
                assert(index.candidates(key) matches Some(ids) ==> ids.contains(row.id));
                listed_among(index, list@, k, row.id);
            }
        },
        _ => {},
    }
}

/// A scan that is limited to the candidates gives every row that satisfies all
/// filters, where every index lists that row under the text of its value.
pub proof fn candidates_hold_every_match<I: IndexLookup>(
    candidates: Option<HashSet<u64>>,
    indexes: Seq<I>,
    filters: Seq<Expr>,
    row: ValuedRow,
)
    requires
        lists_common(candidates, indexes, filters),
        forall|i: int| 0 <= i < indexes.len() ==> row.is_kept_by(&#[trigger] indexes[i]),
        forall|j: int| 0 <= j < filters.len() ==> row.satisfies(#[trigger] filters[j]),
    ensures
        candidates matches Some(ids) ==> ids@.contains(row.id),
{
    let n = indexes.len() as int;
    assert forall|p: int, q: int| #[trigger]
        considered(indexes, filters, n, 0, p, q) implies (index_answer(&indexes[p], filters[q])
        matches Some(ids) ==> ids.contains(row.id)) by {
        answers_hold_every_match(&indexes[p], row, filters[q]);
    }
    assert(in_every_answer(indexes, filters, n, 0, row.id));
}

/// The constants of `column = constant` and `column IN (constants)`.
pub open spec fn constants_of(e: Expr) -> Seq<Expr> {
    match e {
        Expr::BinaryExpr { right, .. } => seq![*right],
        Expr::InList { list, .. } => list@,
        _ => seq![],
    }
}

/// Whether an index lists an id under the text of a constant.
pub open spec fn lists_constant<I: IndexLookup>(index: &I, constant: Expr, id: u64) -> bool {
    exists|key: Seq<char>|
        (constant matches Expr::Literal(v) && is_key_of(key, v@)) && (#[trigger] index.candidates(
            key,
        ) matches Some(ids) && ids.contains(id))
}

proof fn any_is_of_one<I: IndexLookup>(index: &I, list: Seq<Expr>, id: u64)
    requires
        ids_for_any(index, list) matches Some(ids) && ids.contains(id),
    ensures
        exists|k: int|
            0 <= k < list.len() && (ids_for(index, #[trigger] list[k]) matches Some(ids)
                && ids.contains(id)),
    decreases list.len(),
{
    if list.len() > 0 {
        let front = list.drop_last();
        let n = list.len() - 1;
        if ids_for(index, list.last())->0.contains(id) {
            assert(list[n] == list.last());
        } else {
            any_is_of_one(index, front, id);
            let k = choose|k: int|
                0 <= k < front.len() && (ids_for(index, #[trigger] front[k]) matches Some(ids)
                    && ids.contains(id));
            assert(list[k] == front[k]);
        }
    }
}

/// The answer of an index holds no other row: each one is listed under the text
/// of one of the constants, and the predicate is on the column of the index.
pub proof fn answers_are_of_the_constants<I: IndexLookup>(index: &I, e: Expr, id: u64)
    requires
        index_answer(index, e) matches Some(ids) && ids.contains(id),
    ensures
        e.references(index.indexed_column()),
        exists|k: int|
            0 <= k < constants_of(e).len() && lists_constant(index, #[trigger] constants_of(e)[k], id),
{
    let list = constants_of(e);
    let k = match e {
        Expr::InList { expr, list: l, .. } => {
            any_is_of_one(index, l@, id);
            assert(expr.references(index.indexed_column()));
            choose|k: int|
                0 <= k < l@.len() && (ids_for(index, #[trigger] l@[k]) matches Some(ids)
                    && ids.contains(id))
        },
        Expr::BinaryExpr { left, .. } => {
            assert(left.references(index.indexed_column()));
            0
        },
        _ => 0,
    };
    keys_are_the_texts_of_values(list[k]);
    let key = index_key(list[k])->0;
    assert(list[k] matches Expr::Literal(v) && is_key_of(key, v@));
    assert(index.candidates(key) matches Some(ids) && ids.contains(id));
    assert(lists_constant(index, list[k], id));
}

/// The entries of an index say what it lists: for a value, the ids of the last
/// entry for it, and nothing only where there is no entry for it.
pub proof fn the_last_entry_is_listed(
    entries: Seq<(String, Vec<u64>)>,
    value: Seq<char>,
)
    ensures
        match listed(entries, value) {
            Some(ids) => exists|i: int|
                {
                    &&& 0 <= i < entries.len()
                    &&& (#[trigger] entries[i]).0@ == value
                    &&& entries[i].1@ == ids
                    &&& forall|k: int|
                        i < k < entries.len() ==> (#[trigger] entries[k]).0@ != value
                },
            None => forall|k: int| 0 <= k < entries.len() ==> (#[trigger] entries[k]).0@ != value,
        },
    decreases entries.len(),
{
    if entries.len() > 0 {
        let front = entries.drop_last();
        let n = entries.len() - 1;
        assert(entries[n] == entries.last());
        if entries.last().0@ != value {
            the_last_entry_is_listed(front, value);
            match listed(front, value) {
                Some(ids) => {
                    let i = choose|i: int|
                        {
                            &&& 0 <= i < front.len()
                            &&& (#[trigger] front[i]).0@ == value
                            &&& front[i].1@ == ids
                            &&& forall|k: int|
                                i < k < front.len() ==> (#[trigger] front[k]).0@ != value
                        };
                    assert(entries[i] == front[i]);
                    assert forall|k: int| i < k < entries.len() implies (#[trigger] entries[k]).0@
                        != value by {
                        if k < n {
                            assert(front[k] == entries[k]);
                        }
                    }
                },
                None => {
                    assert forall|k: int| 0 <= k < entries.len() implies (#[trigger] entries[k]).0@
                        != value by {
                        if k < n {
                            assert(front[k] == entries[k]);
                        }
                    }
                },
            }
        }
    }
}

/// A recorded answer is given as it was: the first one for the value, and none
/// for a value that was not asked for.
pub proof fn recorded_answers_are_given(
    answers: Seq<(String, Option<Vec<u64>>)>,
    value: Seq<char>,
    i: int,
)
    requires
        0 <= i <= answers.len(),
        forall|k: int| 0 <= k < i ==> (#[trigger] answers[k]).0@ != value,
    ensures
        i < answers.len() && answers[i].0@ == value ==> match answers[i].1 {
            Some(ids) => recorded(answers, value) == Some(ids@),
            None => recorded(answers, value) is None,
        },
        i == answers.len() ==> recorded(answers, value) is None,
    decreases answers.len(),
{
    if i > 0 {
        let rest = answers.skip(1);
        assert(answers[0].0@ != value);
        assert forall|k: int| 0 <= k < i - 1 implies (#[trigger] rest[k]).0@ != value by {
            assert(rest[k] == answers[k + 1]);
        }
        recorded_answers_are_given(rest, value, i - 1);
        if i < answers.len() {
            assert(rest[i - 1] == answers[i]);
        }
    }
}

/// The answer of the first index that answers a predicate.
pub fn first_index_answer<I: IndexLookup>(indexes: &Vec<I>, predicate: &Expr) -> (r: Option<
    HashSet<u64>,
>)
    ensures
        match r {
            None => forall|i: int|
                0 <= i < indexes@.len() ==> index_answer(&#[trigger] indexes@[i], *predicate)
                    is None,
            Some(ids) => exists|i: int|
                {
                    &&& 0 <= i < indexes@.len()
                    &&& index_answer(&#[trigger] indexes@[i], *predicate) == Some(ids@)
                    &&& forall|k: int|
                        0 <= k < i ==> index_answer(&#[trigger] indexes@[k], *predicate) is None
                },
        },
{
    let mut i: usize = 0;
    while i < indexes.len()
        invariant
            i <= indexes@.len(),
            forall|k: int|
                0 <= k < i ==> index_answer(&#[trigger] indexes@[k], *predicate) is None,
        decreases indexes@.len() - i,
    {
        match index_equality_lookup(&indexes[i], predicate) {
            Some(ids) => {
                assert(index_answer(&indexes@[i as int], *predicate) == Some(ids@));
                return Some(ids);
            },
            None => {},
        }
        i = i + 1;
    }
    None
}

/// An index answers for a predicate on its column where it answers for the text
/// of every constant, and for no other kind of predicate.
pub proof fn answers_are_owed<I: IndexLookup>(index: &I, e: Expr)
    ensures
        index_answer(index, e) is Some ==> match e {
            Expr::BinaryExpr { left, op: Operator::Eq, .. } => *left matches Expr::Column(c)
                && c@ == index.indexed_column(),
            Expr::InList { expr, negated: false, .. } => *expr matches Expr::Column(c)
                && c@ == index.indexed_column(),
            _ => false,
        },
        ({
            &&& match e {
                Expr::BinaryExpr { left, op: Operator::Eq, .. } => *left matches Expr::Column(c)
                    && c@ == index.indexed_column(),
                Expr::InList { expr, negated: false, .. } => *expr matches Expr::Column(c)
                    && c@ == index.indexed_column(),
                _ => false,
            }
            &&& forall|k: int|
                0 <= k < constants_of(e).len() ==> is_answered(index, #[trigger] constants_of(e)[k])
        }) ==> index_answer(index, e) is Some,
{
    if forall|k: int|
        0 <= k < constants_of(e).len() ==> is_answered(index, #[trigger] constants_of(e)[k]) {
        match e {
            Expr::BinaryExpr { right, .. } => {
                assert(constants_of(e)[0] == *right);
                keys_are_the_texts_of_values(*right);
            },
            Expr::InList { list, .. } => {
                any_is_owed(index, list@);
            },
            _ => {},
        }
    }
}

/// Whether an index answers for the text of a constant that has one.
pub open spec fn is_answered<I: IndexLookup>(index: &I, constant: Expr) -> bool {
    constant matches Expr::Literal(v) && (v@ matches Scalar::Int64(Some(_))
        || v@ matches Scalar::Utf8(Some(_)) || v@ matches Scalar::LargeUtf8(Some(_))) && forall|
        key: Seq<char>,
    |
        is_key_of(key, v@) ==> (#[trigger] index.candidates(key)) is Some
}

proof fn any_is_owed<I: IndexLookup>(index: &I, list: Seq<Expr>)
    requires
        forall|k: int| 0 <= k < list.len() ==> is_answered(index, #[trigger] list[k]),
    ensures
        ids_for_any(index, list) is Some,
    decreases list.len(),
{
    if list.len() > 0 {
        let front = list.drop_last();
        assert forall|k: int| 0 <= k < front.len() implies is_answered(
            index,
            #[trigger] front[k],
        ) by {
            assert(front[k] == list[k]);
        }
        any_is_owed(index, front);
        assert(is_answered(index, list[list.len() - 1]));
        keys_are_the_texts_of_values(list.last());
    }
}

/// A loaded index answers for every value, with the ids that it has for it, and an
/// index of a snapshot answers as the one that it is.
pub proof fn indexes_answer_by_their_entries(
    index: Arc<BTreeIndex>,
    probed: ProbedIndex,
    value: Seq<char>,
)
    ensures
        index.entries@.contains_key(value) ==> index.candidates(value) == Some(
            index.entries@[value]@,
        ),
        !index.entries@.contains_key(value) ==> (index.candidates(value) matches Some(ids)
            && ids.len() == 0),
        SnapshotIndex::Loaded(index).candidates(value) == index.candidates(value),
        SnapshotIndex::Loaded(index).indexed_column() == index.definition.column@,
        SnapshotIndex::Probed(probed).candidates(value) == probed.candidates(value),
        SnapshotIndex::Probed(probed).indexed_column() == probed.definition.column@,
{
}

proof fn keys_are_of_constants(list: Seq<Expr>, value: Seq<char>)
    requires
        keys_of(list).contains(value),
    ensures
        exists|k: int| 0 <= k < list.len() && index_key(#[trigger] list[k]) == Some(value),
    decreases list.len(),
{
    if list.len() > 0 {
        let front = list.drop_last();
        let n = list.len() - 1;
        assert(list[n] == list.last());
        if index_key(list.last()) != Some(value) {
            let i = keys_of(list).index_of(value);
            assert(keys_of(front)[i] == value);
            keys_are_of_constants(front, value);
            let k = choose|k: int|
                0 <= k < front.len() && index_key(#[trigger] front[k]) == Some(value);
            assert(list[k] == front[k]);
        }
    }
}

/// An index is asked only for the texts of the constants, and only by a predicate
/// on its column.
pub proof fn only_the_constants_are_asked_for(column: Seq<char>, e: Expr, value: Seq<char>)
    requires
        asked_values(column, e).contains(value),
    ensures
        e.references(column),
        exists|k: int|
            0 <= k < constants_of(e).len() && (#[trigger] constants_of(e)[k] matches Expr::Literal(v)
                && is_key_of(value, v@)),
{
    let list = constants_of(e);
    match e {
        Expr::BinaryExpr { left, .. } => {
            assert(left.references(column));
        },
        Expr::InList { expr, .. } => {
            assert(expr.references(column));
        },
        _ => {},
    }
    keys_are_of_constants(list, value);
    let k = choose|k: int| 0 <= k < list.len() && index_key(#[trigger] list[k]) == Some(value);
    keys_are_the_texts_of_values(list[k]);
}

/// A scan is limited to the ids that every index gives for every filter that it
/// answers, and is limited at all exactly where one does.
pub proof fn candidates_are_in_every_answer<I: IndexLookup>(
    candidates: Option<HashSet<u64>>,
    indexes: Seq<I>,
    filters: Seq<Expr>,
    i: int,
    j: int,
    id: u64,
)
    requires
        lists_common(candidates, indexes, filters),
        0 <= i < indexes.len(),
        0 <= j < filters.len(),
        index_answer(&indexes[i], filters[j]) is Some,
    ensures
        candidates matches Some(ids) && (ids@.contains(id) ==> index_answer(
            &indexes[i],
            filters[j],
        )->0.contains(id)),
{
    let n = indexes.len() as int;
    assert(index_answer(&indexes[i], filters[j]) is Some);
    if candidates is Some && candidates->0@.contains(id) {
        assert(in_every_answer(indexes, filters, n, 0, id));
        assert(considered(indexes, filters, n, 0, i, j));
    }
}

} // verus!
