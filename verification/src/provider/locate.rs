//! Finding rows by their ids, without a scan.
use std::collections::{HashMap, HashSet};

use vstd::prelude::*;

use crate::storage::{
    addressable, offset_in, offset_of_row_id, offsets_invert_row_ids, row_ids, MatchLoc,
    RowIdSegment,
};

verus! {

/// What locating a row needs to know of a fragment.
pub struct FragLocate {
    pub fragment_id: u64,
    /// The ids of its rows.
    pub row_ids: Vec<RowIdSegment>,
    /// Where its deletion vector is, if it has one.
    pub deletes: Option<String>,
    /// How many rows the deletion vector covers.
    pub deleted_count: u64,
}

impl FragLocate {
    /// Whether the fragment holds a row, deleted or not.
    pub open spec fn holds(self, rid: u64) -> bool {
        row_ids(self.row_ids@).contains(rid)
    }

    /// Where in the fragment the row is.
    pub open spec fn offset(self, rid: u64) -> u32 {
        offset_in(self.row_ids@, rid)->0
    }

    /// Whether the deletion vector has to be read before a row of the fragment
    /// is taken to be live.
    pub open spec fn has_deletions(self) -> bool {
        self.deletes is Some && self.deleted_count > 0
    }
}

/// The deletion vectors that have been read, by fragment: the offsets of the
/// rows that are deleted.
pub type Deletions = HashMap<u64, HashSet<u32>>;

/// Whether a row of a fragment is deleted.
pub open spec fn deleted(deletions: Map<u64, HashSet<u32>>, fragment_id: u64, offset: u32) -> bool {
    deletions.contains_key(fragment_id) && deletions[fragment_id]@.contains(offset)
}

/// Whether a deletion vector is still to be read for a row.
pub open spec fn unread(frag: FragLocate, rid: u64, deletions: Map<u64, HashSet<u32>>) -> bool {
    frag.holds(rid) && frag.has_deletions() && !deletions.contains_key(frag.fragment_id)
}

/// Whether a fragment holds a row live.
pub open spec fn live_in(frag: FragLocate, rid: u64, deletions: Map<u64, HashSet<u32>>) -> bool {
    frag.holds(rid) && !deleted(deletions, frag.fragment_id, frag.offset(rid))
}

/// The location of a row in a fragment that holds it.
pub open spec fn location(frag: FragLocate, rid: u64) -> MatchLoc {
    MatchLoc { fragment_id: frag.fragment_id, offset: frag.offset(rid), row_id: rid }
}

/// The live locations of a row, one per fragment that holds it live.
pub open spec fn live_locations(
    frags: Seq<FragLocate>,
    rid: u64,
    deletions: Map<u64, HashSet<u32>>,
) -> Seq<MatchLoc>
    decreases frags.len(),
{
    if frags.len() == 0 {
        seq![]
    } else {
        let front = live_locations(frags.drop_last(), rid, deletions);
        if live_in(frags.last(), rid, deletions) {
            front.push(location(frags.last(), rid))
        } else {
            front
        }
    }
}

/// Whether some fragment holds a row.
pub open spec fn resolvable(frags: Seq<FragLocate>, rid: u64) -> bool {
    exists|f: int| 0 <= f < frags.len() && (#[trigger] frags[f]).holds(rid)
}

/// Whether every deletion vector that a row needs has been read.
pub open spec fn all_read(
    frags: Seq<FragLocate>,
    rid: u64,
    deletions: Map<u64, HashSet<u32>>,
) -> bool {
    forall|f: int| 0 <= f < frags.len() ==> !unread(#[trigger] frags[f], rid, deletions)
}

/// Whether it is settled where a row is: everything is read, some fragment
/// holds the row, and at most one holds it live.
pub open spec fn settled(
    frags: Seq<FragLocate>,
    rid: u64,
    deletions: Map<u64, HashSet<u32>>,
) -> bool {
    &&& all_read(frags, rid, deletions)
    &&& resolvable(frags, rid)
    &&& live_locations(frags, rid, deletions).len() <= 1
}

/// The live locations of a sequence of rows.
pub open spec fn located_rows(
    frags: Seq<FragLocate>,
    rids: Seq<u64>,
    deletions: Map<u64, HashSet<u32>>,
) -> Seq<MatchLoc>
    decreases rids.len(),
{
    if rids.len() == 0 {
        seq![]
    } else {
        located_rows(frags, rids.drop_last(), deletions) + live_locations(
            frags,
            rids.last(),
            deletions,
        )
    }
}

/// Whether row `i` is the first that is not settled.
pub open spec fn first_unsettled(
    frags: Seq<FragLocate>,
    rids: Seq<u64>,
    deletions: Map<u64, HashSet<u32>>,
    i: int,
) -> bool {
    &&& 0 <= i < rids.len()
    &&& !settled(frags, rids[i], deletions)
    &&& forall|k: int| 0 <= k < i ==> settled(frags, #[trigger] rids[k], deletions)
}

/// What came of locating rows.
pub enum LocateOutcome {
    /// The deletion vector of this fragment has to be read first.
    ReadDeletions(usize),
    /// Where the live rows are.
    Located(Vec<MatchLoc>),
    /// Some row is in no fragment, or live in several: scan instead.
    Scan,
}

/// Locates rows by their ids.
///
/// A row that an update moved is in two fragments, deleted in the one and live
/// in the other. A row that is deleted everywhere is no match. A row that no
/// fragment holds, or that two hold live, means that the index and the
/// fragments disagree: it is not guessed at.
pub fn locate_rows(rids: &Vec<u64>, frags: &Vec<FragLocate>, deletions: &Deletions) -> (r:
    LocateOutcome)
    requires
        forall|f: int|
            0 <= f < frags@.len() ==> addressable((#[trigger] frags@[f]).row_ids@),
    ensures
        match r {
            LocateOutcome::Located(locs) => {
                &&& forall|i: int|
                    0 <= i < rids@.len() ==> settled(frags@, #[trigger] rids@[i], deletions@)
                &&& locs@ == located_rows(frags@, rids@, deletions@)
            },
            LocateOutcome::ReadDeletions(f) => {
                &&& f < frags@.len()
                &&& exists|i: int| #[trigger]
                    first_unsettled(frags@, rids@, deletions@, i) && unread(
                        frags@[f as int],
                        rids@[i],
                        deletions@,
                    )
            },
            LocateOutcome::Scan => exists|i: int| #[trigger]
                first_unsettled(frags@, rids@, deletions@, i) && all_read(
                    frags@,
                    rids@[i],
                    deletions@,
                ),
        },
{
    let mut out: Vec<MatchLoc> = Vec::new();
    let mut i: usize = 0;
    assert(rids@.take(0) =~= seq![]);
    while i < rids.len()
        invariant
            i <= rids@.len(),
            forall|f: int|
                0 <= f < frags@.len() ==> addressable((#[trigger] frags@[f]).row_ids@),
            forall|k: int| 0 <= k < i ==> settled(frags@, #[trigger] rids@[k], deletions@),
            out@ == located_rows(frags@, rids@.take(i as int), deletions@),
        decreases rids@.len() - i,
    {
        let rid: u64 = rids[i];
        let mut found = false;
        let mut ambiguous = false;
        let mut live: Option<MatchLoc> = None;
        let mut f: usize = 0;
        assert(frags@.take(0) =~= seq![]);
        while f < frags.len()
            invariant
                f <= frags@.len(),
                i < rids@.len(),
                rid == rids@[i as int],
                forall|f: int|
                    0 <= f < frags@.len() ==> addressable((#[trigger] frags@[f]).row_ids@),
                forall|k: int| 0 <= k < i ==> settled(frags@, #[trigger] rids@[k], deletions@),
                found == exists|k: int| 0 <= k < f && (#[trigger] frags@[k]).holds(rid),
                forall|k: int| 0 <= k < f ==> !unread(#[trigger] frags@[k], rid, deletions@),
                ({
                    let seen = live_locations(frags@.take(f as int), rid, deletions@);
                    match live {
                        None => !ambiguous && seen.len() == 0,
                        Some(loc) => if ambiguous {
                            seen.len() > 1
                        } else {
                            seen == seq![loc]
                        },
                    }
                }),
            decreases frags@.len() - f,
        {
            assert(frags@.take(f as int + 1).drop_last() =~= frags@.take(f as int));
            assert(frags@.take(f as int + 1).last() == frags@[f as int]);
            let frag = &frags[f];
            assert(addressable(frags@[f as int].row_ids@));
            match offset_of_row_id(&frag.row_ids, rid) {
                Some(offset) => {
                    assert(frag.holds(rid));
                    found = true;
                    if frag.deletes.is_some() && frag.deleted_count > 0 && !deletions.contains_key(
                        &frag.fragment_id,
                    ) {
                        assert(unread(frags@[f as int], rid, deletions@));
                        assert(first_unsettled(frags@, rids@, deletions@, i as int));
                        return LocateOutcome::ReadDeletions(f);
                    }
                    let gone = match deletions.get(&frag.fragment_id) {
                        Some(offsets) => offsets.contains(&offset),
                        None => false,
                    };
                    if !gone {
                        if live.is_some() {
                            ambiguous = true;
                        }
                        live = Some(
                            MatchLoc { fragment_id: frag.fragment_id, offset, row_id: rid },
                        );
                    }
                },
                None => {},
            }
            f = f + 1;
        }
        assert(frags@.take(f as int) =~= frags@);
        assert(all_read(frags@, rid, deletions@));
        if !found || ambiguous {
            assert(!settled(frags@, rid, deletions@));
            assert(first_unsettled(frags@, rids@, deletions@, i as int));
            return LocateOutcome::Scan;
        }
        assert(settled(frags@, rid, deletions@));
        assert(rids@.take(i as int + 1).drop_last() =~= rids@.take(i as int));
        match live {
            Some(loc) => {
                out.push(loc);
            },
            None => {},
        }
        assert(out@ =~= located_rows(frags@, rids@.take(i as int + 1), deletions@));
        i = i + 1;
    }
    assert(rids@.take(i as int) =~= rids@);
    LocateOutcome::Located(out)
}

proof fn live_location_is_live(
    frags: Seq<FragLocate>,
    rid: u64,
    deletions: Map<u64, HashSet<u32>>,
    k: int,
)
    requires
        0 <= k < live_locations(frags, rid, deletions).len(),
    ensures
        exists|f: int|
            0 <= f < frags.len() && live_in(#[trigger] frags[f], rid, deletions) && live_locations(
                frags,
                rid,
                deletions,
            )[k] == location(frags[f], rid),
    decreases frags.len(),
{
    let front = frags.drop_last();
    let shorter = live_locations(front, rid, deletions);
    if k < shorter.len() {
        live_location_is_live(front, rid, deletions, k);
        let f = choose|f: int|
            0 <= f < front.len() && live_in(#[trigger] front[f], rid, deletions) && shorter[k]
                == location(front[f], rid);
        assert(frags[f] == front[f]);
    } else {
        assert(frags[frags.len() - 1] == frags.last());
    }
}

/// Every location that is reported is that of a live row with one of the ids:
/// reading the id at the offset of the fragment gives the row id back, and the
/// fragment does not list the offset as deleted.
pub proof fn located_rows_are_live(
    frags: Seq<FragLocate>,
    rids: Seq<u64>,
    deletions: Map<u64, HashSet<u32>>,
    k: int,
)
    requires
        0 <= k < located_rows(frags, rids, deletions).len(),
        forall|f: int|
            0 <= f < frags.len() ==> row_ids((#[trigger] frags[f]).row_ids@).len()
                <= 0x1_0000_0000,
    ensures
        ({
            let loc = located_rows(frags, rids, deletions)[k];
            &&& rids.contains(loc.row_id)
            &&& !deleted(deletions, loc.fragment_id, loc.offset)
            &&& exists|f: int|
                {
                    &&& 0 <= f < frags.len()
                    &&& (#[trigger] frags[f]).fragment_id == loc.fragment_id
                    &&& loc.offset < row_ids(frags[f].row_ids@).len()
                    &&& row_ids(frags[f].row_ids@)[loc.offset as int] == loc.row_id
                }
        }),
    decreases rids.len(),
{
    let front = located_rows(frags, rids.drop_last(), deletions);
    let loc = located_rows(frags, rids, deletions)[k];
    if k < front.len() {
        located_rows_are_live(frags, rids.drop_last(), deletions, k);
        assert(loc == front[k]);
        let i = rids.drop_last().index_of(loc.row_id);
        assert(rids[i] == loc.row_id);
    } else {
        let rid = rids.last();
        live_location_is_live(frags, rid, deletions, k - front.len());
        let f = choose|f: int|
            0 <= f < frags.len() && live_in(#[trigger] frags[f], rid, deletions) && live_locations(
                frags,
                rid,
                deletions,
            )[k - front.len()] == location(frags[f], rid);
        assert(loc == location(frags[f], rid));
        assert(rids[rids.len() - 1] == rid);
        offsets_invert_row_ids(frags[f].row_ids@, rid, loc.offset);
        assert(frags[f].fragment_id == loc.fragment_id);
    }
}

/// No live row is missed: the location of a row that a fragment holds live is
/// among those that are reported.
pub proof fn live_rows_are_located(
    frags: Seq<FragLocate>,
    rids: Seq<u64>,
    deletions: Map<u64, HashSet<u32>>,
    i: int,
    f: int,
)
    requires
        0 <= i < rids.len(),
        0 <= f < frags.len(),
        live_in(frags[f], rids[i], deletions),
    ensures
        located_rows(frags, rids, deletions).contains(location(frags[f], rids[i])),
    decreases rids.len(),
{
    let front = located_rows(frags, rids.drop_last(), deletions);
    let last = live_locations(frags, rids.last(), deletions);
    let loc = location(frags[f], rids[i]);
    if i < rids.len() - 1 {
        live_rows_are_located(frags, rids.drop_last(), deletions, i, f);
        let k = front.index_of(loc);
        assert((front + last)[k] == loc);
    } else {
        live_location_is_listed(frags, rids[i], deletions, f);
        let k = last.index_of(loc);
        assert((front + last)[front.len() + k] == loc);
    }
}

proof fn live_location_is_listed(
    frags: Seq<FragLocate>,
    rid: u64,
    deletions: Map<u64, HashSet<u32>>,
    f: int,
)
    requires
        0 <= f < frags.len(),
        live_in(frags[f], rid, deletions),
    ensures
        live_locations(frags, rid, deletions).contains(location(frags[f], rid)),
    decreases frags.len(),
{
    let front = live_locations(frags.drop_last(), rid, deletions);
    let loc = location(frags[f], rid);
    if f < frags.len() - 1 {
        assert(frags.drop_last()[f] == frags[f]);
        live_location_is_listed(frags.drop_last(), rid, deletions, f);
        let k = front.index_of(loc);
        assert(live_locations(frags, rid, deletions)[k] == loc);
    } else {
        assert(live_locations(frags, rid, deletions)[front.len() as int] == loc);
    }
}

/// The locations come in the order of the ids.
pub proof fn locations_follow_the_ids(
    frags: Seq<FragLocate>,
    a: Seq<u64>,
    b: Seq<u64>,
    deletions: Map<u64, HashSet<u32>>,
)
    ensures
        located_rows(frags, a + b, deletions) == located_rows(frags, a, deletions) + located_rows(
            frags,
            b,
            deletions,
        ),
    decreases b.len(),
{
    if b.len() == 0 {
        assert(a + b =~= a);
        assert(located_rows(frags, a, deletions) + located_rows(frags, b, deletions)
            =~= located_rows(frags, a, deletions));
    } else {
        assert((a + b).drop_last() =~= a + b.drop_last());
        locations_follow_the_ids(frags, a, b.drop_last(), deletions);
        assert(located_rows(frags, a + b, deletions) =~= located_rows(frags, a, deletions)
            + located_rows(frags, b, deletions));
    }
}

/// Whether a row stands at an offset of a fragment and is not deleted there.
pub open spec fn stands_at(
    frag: FragLocate,
    offset: u32,
    rid: u64,
    deletions: Map<u64, HashSet<u32>>,
) -> bool {
    &&& offset < row_ids(frag.row_ids@).len()
    &&& row_ids(frag.row_ids@)[offset as int] == rid
    &&& !(deletions.contains_key(frag.fragment_id) && deletions[frag.fragment_id]@.contains(offset))
}

proof fn standing_rows_are_live(
    frag: FragLocate,
    offset: u32,
    rid: u64,
    deletions: Map<u64, HashSet<u32>>,
)
    requires
        row_ids(frag.row_ids@).no_duplicates(),
        row_ids(frag.row_ids@).len() <= 0x1_0000_0000,
    ensures
        stands_at(frag, offset, rid, deletions) ==> live_in(frag, rid, deletions) && frag.offset(rid)
            == offset,
        live_in(frag, rid, deletions) ==> stands_at(frag, frag.offset(rid), rid, deletions),
{
    let ids = row_ids(frag.row_ids@);
    offsets_invert_row_ids(frag.row_ids@, rid, offset);
    if live_in(frag, rid, deletions) {
        offsets_invert_row_ids(frag.row_ids@, rid, frag.offset(rid));
        let i = ids.index_of(rid);
        offsets_invert_row_ids(frag.row_ids@, rid, i as u32);
    }
}

/// A row that stands in a fragment and is not deleted there is located just there.
pub proof fn rows_are_located_where_they_stand(
    frags: Seq<FragLocate>,
    rids: Seq<u64>,
    deletions: Map<u64, HashSet<u32>>,
    i: int,
    f: int,
    offset: u32,
)
    requires
        0 <= i < rids.len(),
        0 <= f < frags.len(),
        row_ids(frags[f].row_ids@).no_duplicates(),
        row_ids(frags[f].row_ids@).len() <= 0x1_0000_0000,
        stands_at(frags[f], offset, rids[i], deletions),
    ensures
        located_rows(frags, rids, deletions).contains(
            MatchLoc { fragment_id: frags[f].fragment_id, offset, row_id: rids[i] },
        ),
{
    standing_rows_are_live(frags[f], offset, rids[i], deletions);
    live_rows_are_located(frags, rids, deletions, i, f);
}

proof fn live_locations_count(
    frags: Seq<FragLocate>,
    rid: u64,
    deletions: Map<u64, HashSet<u32>>,
)
    ensures
        live_locations(frags, rid, deletions).len() > 0 <==> exists|f: int|
            0 <= f < frags.len() && live_in(#[trigger] frags[f], rid, deletions),
        live_locations(frags, rid, deletions).len() > 1 <==> exists|f: int, g: int|
            0 <= f < g < frags.len() && live_in(#[trigger] frags[f], rid, deletions) && live_in(
                #[trigger] frags[g],
                rid,
                deletions,
            ),
    decreases frags.len(),
{
    if frags.len() > 0 {
        let front = frags.drop_last();
        let n = frags.len() - 1;
        live_locations_count(front, rid, deletions);
        assert(frags[n] == frags.last());
        assert forall|f: int| 0 <= f < n implies #[trigger] frags[f] == front[f] by {}
        assert forall|f: int| 0 <= f < n implies frags[f] == #[trigger] front[f] by {}
        if live_locations(front, rid, deletions).len() > 0 {
            let f = choose|f: int|
                0 <= f < front.len() && live_in(#[trigger] front[f], rid, deletions);
            assert(live_in(frags[f], rid, deletions));
            if live_in(frags[n], rid, deletions) {
                assert(live_in(frags[f], rid, deletions) && live_in(frags[n], rid, deletions));
            }
        }
        if live_locations(front, rid, deletions).len() > 1 {
            let (f, g) = choose|f: int, g: int|
                0 <= f < g < front.len() && live_in(#[trigger] front[f], rid, deletions) && live_in(
                    #[trigger] front[g],
                    rid,
                    deletions,
                );
            assert(live_in(frags[f], rid, deletions) && live_in(frags[g], rid, deletions));
        }
        if exists|f: int| 0 <= f < frags.len() && live_in(#[trigger] frags[f], rid, deletions) {
            let f = choose|f: int|
                0 <= f < frags.len() && live_in(#[trigger] frags[f], rid, deletions);
            if f < n {
                assert(live_in(front[f], rid, deletions));
            }
        }
        if exists|f: int, g: int|
            0 <= f < g < frags.len() && live_in(#[trigger] frags[f], rid, deletions) && live_in(
                #[trigger] frags[g],
                rid,
                deletions,
            ) {
            let (f, g) = choose|f: int, g: int|
                0 <= f < g < frags.len() && live_in(#[trigger] frags[f], rid, deletions) && live_in(
                    #[trigger] frags[g],
                    rid,
                    deletions,
                );
            assert(live_in(front[f], rid, deletions));
            if g < n {
                assert(live_in(front[g], rid, deletions));
            }
        }
    }
}

/// Where a row is, is not settled where no fragment holds it, where two hold it
/// live, or where a fragment that holds it has a deletion vector that was not
/// read; it is settled everywhere else.
pub proof fn rows_are_settled_by_their_fragments(
    frags: Seq<FragLocate>,
    rid: u64,
    deletions: Map<u64, HashSet<u32>>,
    f: int,
    g: int,
)
    requires
        forall|k: int|
            0 <= k < frags.len() ==> row_ids((#[trigger] frags[k]).row_ids@).no_duplicates()
                && row_ids(frags[k].row_ids@).len() <= 0x1_0000_0000,
    ensures
        (forall|k: int|
            0 <= k < frags.len() ==> !row_ids((#[trigger] frags[k]).row_ids@).contains(rid))
            ==> !settled(frags, rid, deletions),
        0 <= f < frags.len() && row_ids(frags[f].row_ids@).contains(rid) && frags[f].deletes is Some
            && frags[f].deleted_count > 0 && !deletions.contains_key(frags[f].fragment_id)
            ==> !settled(frags, rid, deletions),
        0 <= f < g < frags.len() && (exists|a: u32, b: u32| #[trigger]
            stands_at(frags[f], a, rid, deletions) && #[trigger] stands_at(
                frags[g],
                b,
                rid,
                deletions,
            )) ==> !settled(frags, rid, deletions),
        settled(frags, rid, deletions) || !(exists|k: int|
            0 <= k < frags.len() && row_ids((#[trigger] frags[k]).row_ids@).contains(rid)) || (
        exists|k: int|
            0 <= k < frags.len() && row_ids((#[trigger] frags[k]).row_ids@).contains(rid)
                && frags[k].deletes is Some && frags[k].deleted_count > 0
                && !deletions.contains_key(frags[k].fragment_id)) || (exists|x: int, y: int|
            0 <= x < y < frags.len() && live_in(#[trigger] frags[x], rid, deletions) && live_in(
                #[trigger] frags[y],
                rid,
                deletions,
            )),
{
    live_locations_count(frags, rid, deletions);
    if 0 <= f < g < frags.len() && (exists|a: u32, b: u32| #[trigger]
        stands_at(frags[f], a, rid, deletions) && #[trigger] stands_at(
            frags[g],
            b,
            rid,
            deletions,
        )) {
        let (a, b) = choose|a: u32, b: u32| #[trigger]
            stands_at(frags[f], a, rid, deletions) && #[trigger] stands_at(
                frags[g],
                b,
                rid,
                deletions,
            );
        standing_rows_are_live(frags[f], a, rid, deletions);
        standing_rows_are_live(frags[g], b, rid, deletions);
        assert(live_in(frags[f], rid, deletions) && live_in(frags[g], rid, deletions));
    }
    if 0 <= f < frags.len() && row_ids(frags[f].row_ids@).contains(rid) && frags[f].deletes is Some
        && frags[f].deleted_count > 0 && !deletions.contains_key(frags[f].fragment_id) {
        assert(unread(frags[f], rid, deletions));
    }
    if forall|k: int|
        0 <= k < frags.len() ==> !row_ids((#[trigger] frags[k]).row_ids@).contains(rid) {
        assert(!resolvable(frags, rid));
    }
    if !all_read(frags, rid, deletions) {
        let k = choose|k: int| 0 <= k < frags.len() && unread(#[trigger] frags[k], rid, deletions);
        assert(row_ids(frags[k].row_ids@).contains(rid));
    }
    if exists|k: int|
        0 <= k < frags.len() && row_ids((#[trigger] frags[k]).row_ids@).contains(rid) {
        let k = choose|k: int|
            0 <= k < frags.len() && row_ids((#[trigger] frags[k]).row_ids@).contains(rid);
        assert(frags[k].holds(rid));
    }
}

} // verus!
