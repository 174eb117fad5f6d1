//! A plan that followed a commit, against one that is loaded after it.
use std::sync::Arc;

use vstd::multiset::Multiset;
use vstd::prelude::*;

use super::{
    fragments, fragments_stay_distinct, group_views, groups_after, kept_groups,
    kept_groups_are_former_ones, table_path, update_of, updated_group, CommitDelta, FragmentDelta,
    RowGroupMeta, RowGroupView,
};
use crate::scalar::text_view;

verus! {

/// What a table holds of a fragment. When its plan was made is no part of it.
pub ghost struct Fragment<S> {
    pub fragment_id: u64,
    pub data_path: Seq<char>,
    pub meta: Arc<RowGroupMeta<S>>,
    pub deletes: Option<Seq<char>>,
    pub deleted_count: u64,
}

/// The fragment that a planned row group is.
pub open spec fn fragment<S>(group: RowGroupView<S>) -> Fragment<S> {
    Fragment {
        fragment_id: group.fragment_id,
        data_path: group.data_path,
        meta: group.meta,
        deletes: group.deletes,
        deleted_count: group.deleted_count,
    }
}

/// The fragments of planned row groups.
pub open spec fn fragment_list<S>(groups: Seq<RowGroupView<S>>) -> Seq<Fragment<S>> {
    groups.map_values(|g: RowGroupView<S>| fragment(g))
}

/// What is committed of a table: its fragments, by their ids.
pub type Committed<S> = Map<u64, Fragment<S>>;

/// Whether row groups are the plan of a table: they are its fragments, each of
/// them once.
pub open spec fn is_plan_of<S>(groups: Seq<RowGroupView<S>>, table: Committed<S>) -> bool {
    &&& fragments(groups).no_duplicates()
    &&& forall|f: u64| #[trigger] table.contains_key(f) <==> fragments(groups).contains(f)
    &&& forall|i: int|
        0 <= i < groups.len() ==> table[(#[trigger] groups[i]).fragment_id] == fragment(groups[i])
}

/// A fragment once its deletion vector has been changed.
pub open spec fn with_deletions<S>(
    table: Seq<char>,
    before: Fragment<S>,
    update: FragmentDelta,
) -> Fragment<S> {
    Fragment {
        deletes: match text_view(update.new_deletes) {
            Some(path) => Some(table_path(table, path)),
            None => None,
        },
        deleted_count: update.new_deleted_count,
        ..before
    }
}

/// Whether a delta is what a commit did: the fragments that it removed are
/// gone, those that it added are new and as it says, and of the others those
/// that it updated have their new deletion vector, while the rest stayed as
/// they were.
pub open spec fn is_delta_of<S>(
    table: Seq<char>,
    before: Committed<S>,
    delta: CommitDelta<S>,
    after: Committed<S>,
) -> bool {
    let removed = delta.removed_fragment_ids@;
    let added = group_views(delta.added_row_groups@);
    &&& fragments(added).no_duplicates()
    &&& forall|f: u64| #[trigger]
        fragments(added).contains(f) ==> !before.contains_key(f) || removed.contains(f)
    &&& forall|f: u64| #[trigger]
        after.contains_key(f) <==> (before.contains_key(f) && !removed.contains(f)) || fragments(
            added,
        ).contains(f)
    &&& forall|i: int|
        0 <= i < added.len() ==> after[(#[trigger] added[i]).fragment_id] == fragment(added[i])
    &&& forall|f: u64|
        #[trigger] before.contains_key(f) && !removed.contains(f) ==> after[f] == match update_of(
            delta.updated_fragments@,
            f,
        ) {
            Some(i) => with_deletions(table, before[f], delta.updated_fragments@[i]),
            None => before[f],
        }
}

proof fn plan_follows<S>(
    table: Seq<char>,
    base: Seq<RowGroupView<S>>,
    before: Committed<S>,
    delta: CommitDelta<S>,
    after: Committed<S>,
)
    requires
        is_plan_of(base, before),
        is_delta_of(table, before, delta, after),
    ensures
        is_plan_of(groups_after(table, base, delta), after),
{
    let removed = delta.removed_fragment_ids@;
    let updates = delta.updated_fragments@;
    let added = group_views(delta.added_row_groups@);
    let kept = kept_groups(table, base, removed, updates);
    let groups = groups_after(table, base, delta);
    assert forall|f: u64| #[trigger] fragments(added).contains(f) implies !fragments(
        base,
    ).contains(f) || removed.contains(f) by {
        assert(before.contains_key(f) <==> fragments(base).contains(f));
    }
    fragments_stay_distinct(table, base, delta);
    assert forall|f: u64| #[trigger] after.contains_key(f) <==> fragments(groups).contains(f) by {
        assert(before.contains_key(f) <==> fragments(base).contains(f));
    }
    assert forall|i: int| 0 <= i < groups.len() implies after[(#[trigger] groups[i]).fragment_id]
        == fragment(groups[i]) by {
        if i < kept.len() {
            assert(groups[i] == kept[i]);
            kept_groups_are_former_ones(table, base, removed, updates, i);
            let j = choose|j: int|
                0 <= j < base.len() && kept[i] == updated_group(
                    table,
                    #[trigger] base[j],
                    updates,
                );
            let f = base[j].fragment_id;
            assert(fragments(base)[j] == f);
            assert(fragments(base).contains(f));
            assert(before.contains_key(f));
            assert(before[f] == fragment(base[j]));
        } else {
            assert(groups[i] == added[i - kept.len()]);
        }
    }
}

proof fn plans_list_the_same<S>(
    a: Seq<RowGroupView<S>>,
    b: Seq<RowGroupView<S>>,
    table: Committed<S>,
)
    requires
        is_plan_of(a, table),
        is_plan_of(b, table),
    ensures
        forall|x: Fragment<S>| #[trigger]
            fragment_list(a).contains(x) ==> fragment_list(b).contains(x),
{
    assert forall|x: Fragment<S>| #[trigger] fragment_list(a).contains(x) implies fragment_list(
        b,
    ).contains(x) by {
        let i = fragment_list(a).index_of(x);
        assert(x == fragment(a[i]));
        let f = a[i].fragment_id;
        assert(fragments(a)[i] == f);
        assert(fragments(a).contains(f));
        assert(table.contains_key(f));
        assert(fragments(b).contains(f));
        let j = fragments(b).index_of(f);
        assert(b[j].fragment_id == f);
        assert(fragment_list(b)[j] == x);
    }
}

proof fn plan_lists_each_once<S>(groups: Seq<RowGroupView<S>>, table: Committed<S>)
    requires
        is_plan_of(groups, table),
    ensures
        fragment_list(groups).no_duplicates(),
{
    let list = fragment_list(groups);
    assert forall|i: int, j: int|
        0 <= i < list.len() && 0 <= j < list.len() && i != j implies list[i] != list[j] by {
        assert(fragments(groups)[i] != fragments(groups)[j]);
        assert(list[i].fragment_id == fragments(groups)[i]);
        assert(list[j].fragment_id == fragments(groups)[j]);
    }
}

/// Two plans of one table are the same fragments.
proof fn plans_agree<S>(a: Seq<RowGroupView<S>>, b: Seq<RowGroupView<S>>, table: Committed<S>)
    requires
        is_plan_of(a, table),
        is_plan_of(b, table),
    ensures
        fragment_list(a).to_multiset() == fragment_list(b).to_multiset(),
{
    broadcast use vstd::seq_lib::group_to_multiset_ensures;

    plans_list_the_same(a, b, table);
    plans_list_the_same(b, a, table);
    plan_lists_each_once(a, table);
    plan_lists_each_once(b, table);
    let x = fragment_list(a);
    let y = fragment_list(b);
    x.lemma_multiset_has_no_duplicates();
    y.lemma_multiset_has_no_duplicates();
    assert forall|v: Fragment<S>| #[trigger] x.to_multiset().count(v) == y.to_multiset().count(
        v,
    ) by {
        assert(x.contains(v) <==> y.contains(v));
        assert(x.contains(v) <==> x.to_multiset().count(v) > 0);
        assert(y.contains(v) <==> y.to_multiset().count(v) > 0);
        if x.contains(v) {
            assert(x.to_multiset().contains(v));
            assert(y.to_multiset().contains(v));
        }
    }
    assert(x.to_multiset() =~= y.to_multiset());
}

/// What a query reads of a table, where `reads` says what it reads of each
/// fragment.
pub open spec fn rows_read<S, R>(
    list: Seq<Fragment<S>>,
    reads: spec_fn(Fragment<S>) -> Multiset<R>,
) -> Multiset<R>
    decreases list.len(),
{
    if list.len() == 0 {
        Multiset::empty()
    } else {
        rows_read(list.drop_last(), reads).add(reads(list.last()))
    }
}

proof fn reading_without_one<S, R>(
    list: Seq<Fragment<S>>,
    reads: spec_fn(Fragment<S>) -> Multiset<R>,
    i: int,
)
    requires
        0 <= i < list.len(),
    ensures
        rows_read(list, reads) =~= rows_read(list.remove(i), reads).add(reads(list[i])),
    decreases list.len(),
{
    let n = list.len() - 1;
    if i == n {
        assert(list.remove(i) =~= list.drop_last());
    } else {
        let front = list.drop_last();
        reading_without_one(front, reads, i);
        assert(list.remove(i).drop_last() =~= front.remove(i));
        assert(list.remove(i).last() == list.last());
        assert(front[i] == list[i]);
    }
}

proof fn order_of_reading_does_not_matter<S, R>(
    a: Seq<Fragment<S>>,
    b: Seq<Fragment<S>>,
    reads: spec_fn(Fragment<S>) -> Multiset<R>,
)
    requires
        a.to_multiset() == b.to_multiset(),
    ensures
        rows_read(a, reads) == rows_read(b, reads),
    decreases a.len(),
{
    broadcast use vstd::seq_lib::group_to_multiset_ensures;

    assert(a.len() == b.len()) by {
        assert(a.to_multiset().len() == a.len());
        assert(b.to_multiset().len() == b.len());
    }
    if a.len() > 0 {
        let n = a.len() - 1;
        let x = a[n];
        assert(a.contains(x));
        assert(a.to_multiset().count(x) > 0);
        assert(b.contains(x));
        let i = b.index_of(x);
        assert(a.remove(n) =~= a.drop_last());
        assert(a.remove(n).to_multiset() == a.to_multiset().remove(x));
        assert(b.remove(i).to_multiset() == b.to_multiset().remove(x));
        order_of_reading_does_not_matter(a.drop_last(), b.remove(i), reads);
        reading_without_one(b, reads, i);
    }
}

/// A plan that followed a commit is the one that opening the table anew would
/// load: where the plan before was that of the table, and the delta is what
/// the commit did, the plan after is that of the table after the commit. It
/// has the same fragments as any other plan of it, so every query reads the
/// same rows.
pub proof fn following_a_commit_is_reloading<S, R>(
    table: Seq<char>,
    base: Seq<RowGroupView<S>>,
    before: Committed<S>,
    delta: CommitDelta<S>,
    after: Committed<S>,
    reloaded: Seq<RowGroupView<S>>,
    reads: spec_fn(Fragment<S>) -> Multiset<R>,
)
    requires
        is_plan_of(base, before),
        is_delta_of(table, before, delta, after),
        is_plan_of(reloaded, after),
    ensures
        is_plan_of(groups_after(table, base, delta), after),
        fragment_list(groups_after(table, base, delta)).to_multiset() == fragment_list(
            reloaded,
        ).to_multiset(),
        rows_read(fragment_list(groups_after(table, base, delta)), reads) == rows_read(
            fragment_list(reloaded),
            reads,
        ),
{
    let followed = groups_after(table, base, delta);
    plan_follows(table, base, before, delta, after);
    plans_agree(followed, reloaded, after);
    order_of_reading_does_not_matter(fragment_list(followed), fragment_list(reloaded), reads);
}

} // verus!
