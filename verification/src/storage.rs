//! What the engine knows of tables on disk.
use vstd::prelude::*;

use crate::text::{find, find_bounds, find_is};

verus! {

/// Where a live row is: the fragment that holds it, its place in the fragment,
/// and its stable id.
#[derive(Debug, Clone, Copy, PartialEq, Eq, Structural)]
pub struct MatchLoc {
    pub fragment_id: u64,
    pub offset: u32,
    pub row_id: u64,
}

/// The address of a row: the fragment in the high half, the offset in the low
/// half.
pub open spec fn row_addr(fragment_id: u64, offset: u32) -> int {
    fragment_id * 0x1_0000_0000 + offset
}

/// The location that an address and a row id stand for.
pub open spec fn located(row_id: u64, addr: u64) -> MatchLoc {
    MatchLoc {
        fragment_id: (addr / 0x1_0000_0000) as u64,
        offset: (addr % 0x1_0000_0000) as u32,
        row_id,
    }
}

pub fn match_loc(row_id: u64, addr: u64) -> (r: MatchLoc)
    ensures
        r == located(row_id, addr),
{
    assert(addr >> 32 == addr / 0x1_0000_0000) by (bit_vector);
    assert(addr & 0xFFFF_FFFF == addr % 0x1_0000_0000) by (bit_vector);
    MatchLoc { fragment_id: addr >> 32, offset: (addr & 0xFFFF_FFFF) as u32, row_id }
}

/// Reading an address gives back the fragment and the offset that it was made
/// of.
pub proof fn row_addr_round_trip(fragment_id: u64, offset: u32, row_id: u64)
    requires
        fragment_id < 0x1_0000_0000,
    ensures
        row_addr(fragment_id, offset) <= u64::MAX,
        located(row_id, row_addr(fragment_id, offset) as u64) == (MatchLoc {
            fragment_id,
            offset,
            row_id,
        }),
{
}

/// The locations of a sequence of rows, read from their ids and addresses.
pub open spec fn located_all(row_ids: Seq<u64>, addrs: Seq<u64>) -> Seq<MatchLoc> {
    Seq::new(row_ids.len(), |i: int| located(row_ids[i], addrs[i]))
}

pub fn match_locs(row_ids: &Vec<u64>, addrs: &Vec<u64>) -> (r: Vec<MatchLoc>)
    requires
        row_ids@.len() == addrs@.len(),
    ensures
        r@ == located_all(row_ids@, addrs@),
{
    let mut out: Vec<MatchLoc> = Vec::new();
    let mut i: usize = 0;
    while i < row_ids.len()
        invariant
            i <= row_ids@.len() == addrs@.len(),
            out@.len() == i,
            forall|k: int| 0 <= k < i ==> out@[k] == located(row_ids@[k], addrs@[k]),
        decreases row_ids@.len() - i,
    {
        out.push(match_loc(row_ids[i], addrs[i]));
        i = i + 1;
    }
    assert(out@ =~= located_all(row_ids@, addrs@));
    out
}

/// A run of the row ids of a fragment, in the order of its rows.
#[derive(Debug, PartialEq, Eq)]
pub enum RowIdSegment {
    /// `count` consecutive ids from `start`.
    Range { start: u64, count: u64 },
    /// The ids one by one.
    Sorted { ids: Vec<u64> },
}

impl RowIdSegment {
    /// The ids of the segment.
    pub open spec fn ids(self) -> Seq<u64> {
        match self {
            RowIdSegment::Range { start, count } => Seq::new(
                count as nat,
                |i: int| (start + i) as u64,
            ),
            RowIdSegment::Sorted { ids } => ids@,
        }
    }

    /// The ids of the segment fit in 64 bits.
    pub open spec fn well_formed(self) -> bool {
        self matches RowIdSegment::Range { start, count } ==> start + count <= u64::MAX
    }

    pub fn copied(&self) -> (r: RowIdSegment)
        ensures
            r.ids() == self.ids(),
            r.well_formed() == self.well_formed(),
    {
        match self {
            RowIdSegment::Range { start, count } => RowIdSegment::Range {
                start: *start,
                count: *count,
            },
            RowIdSegment::Sorted { ids } => {
                let copy = ids.clone();
                assert(copy@ =~= ids@);
                RowIdSegment::Sorted { ids: copy }
            },
        }
    }
}

/// The row ids of a fragment: those of its segments, one after the other. The
/// id at place `i` is that of the row at offset `i`.
pub open spec fn row_ids(segments: Seq<RowIdSegment>) -> Seq<u64>
    decreases segments.len(),
{
    if segments.len() == 0 {
        seq![]
    } else {
        row_ids(segments.drop_last()) + segments.last().ids()
    }
}

/// The segments of a fragment can be addressed: their ids fit in 64 bits, and
/// so does their number.
pub open spec fn addressable(segments: Seq<RowIdSegment>) -> bool {
    &&& forall|i: int| 0 <= i < segments.len() ==> (#[trigger] segments[i]).well_formed()
    &&& row_ids(segments).len() <= u64::MAX
}

proof fn row_ids_grow(segments: Seq<RowIdSegment>, k: int)
    requires
        0 <= k <= segments.len(),
    ensures
        row_ids(segments.take(k)).len() <= row_ids(segments).len(),
        forall|i: int|
            0 <= i < row_ids(segments.take(k)).len() ==> row_ids(segments.take(k))[i] == row_ids(
                segments,
            )[i],
    decreases segments.len(),
{
    if k < segments.len() {
        assert(segments.drop_last().take(k) =~= segments.take(k));
        row_ids_grow(segments.drop_last(), k);
    } else {
        assert(segments.take(k) =~= segments);
    }
}

/// The offset of row `rid` within a fragment, or `None` if the fragment does
/// not hold it.
///
/// The offset is the number of rows in the segments before the one that holds
/// the row, plus its place there.
pub fn offset_of_row_id(segs: &Vec<RowIdSegment>, rid: u64) -> (r: Option<u32>)
    requires
        addressable(segs@),
    ensures
        r == offset_in(segs@, rid),
{
    let ghost all = row_ids(segs@);
    let mut base: u64 = 0;
    let mut i: usize = 0;
    assert(segs@.take(0) =~= seq![]);
    while i < segs.len()
        invariant
            i <= segs@.len(),
            addressable(segs@),
            all == row_ids(segs@),
            base == row_ids(segs@.take(i as int)).len(),
            !row_ids(segs@.take(i as int)).contains(rid),
        decreases segs@.len() - i,
    {
        let ghost before = row_ids(segs@.take(i as int));
        let ghost ids = segs@[i as int].ids();
        let ghost after = row_ids(segs@.take(i as int + 1));
        proof {
            assert(segs@.take(i as int + 1).drop_last() =~= segs@.take(i as int));
            assert(after == before + ids);
            row_ids_grow(segs@, i as int + 1);
            assert(segs@[i as int].well_formed());
        }
        match &segs[i] {
            RowIdSegment::Range { start, count } => {
                if rid >= *start && rid < *start + *count {
                    let at: u64 = rid - *start;
                    proof {
                        found_at(all, before, ids, rid, at as int);
                    }
                    return Some((base + at) as u32);
                }
                assert(!ids.contains(rid));
                base = base + *count;
            },
            RowIdSegment::Sorted { ids: list } => {
                let mut j: usize = 0;
                while j < list.len()
                    invariant
                        j <= list@.len(),
                        ids == list@,
                        all == row_ids(segs@),
                        base == before.len(),
                        after == before + ids,
                        after.len() <= all.len() <= u64::MAX,
                        forall|k: int| 0 <= k < after.len() ==> after[k] == all[k],
                        !before.contains(rid),
                        forall|k: int| 0 <= k < j ==> list@[k] != rid,
                    decreases list@.len() - j,
                {
                    if list[j] == rid {
                        proof {
                            found_at(all, before, ids, rid, j as int);
                        }
                        return Some((base + j as u64) as u32);
                    }
                    j = j + 1;
                }
                assert(!ids.contains(rid));
                base = base + list.len() as u64;
            },
        }
        assert(!after.contains(rid)) by {
            if after.contains(rid) {
                let k = after.index_of(rid);
                if k < before.len() {
                    assert(before[k] == rid);
                } else {
                    assert(ids[k - before.len()] == rid);
                }
            }
        }
        i = i + 1;
    }
    assert(segs@.take(i as int) =~= segs@);
    None
}

/// The offset of a row within a fragment. Offsets have 32 bits.
pub open spec fn offset_in(segments: Seq<RowIdSegment>, rid: u64) -> Option<u32> {
    if row_ids(segments).contains(rid) {
        Some(find(row_ids(segments), rid) as u32)
    } else {
        None
    }
}

proof fn found_at(all: Seq<u64>, before: Seq<u64>, ids: Seq<u64>, rid: u64, at: int)
    requires
        before.len() + ids.len() <= all.len(),
        forall|k: int| 0 <= k < (before + ids).len() ==> (before + ids)[k] == all[k],
        !before.contains(rid),
        0 <= at < ids.len(),
        ids[at] == rid,
        forall|k: int| 0 <= k < at ==> ids[k] != rid,
    ensures
        all.contains(rid),
        find(all, rid) == before.len() + at,
{
    let i = before.len() + at;
    assert(all[i] == (before + ids)[i]);
    assert forall|k: int| 0 <= k < i implies all[k] != rid by {
        assert(all[k] == (before + ids)[k]);
        if k < before.len() {
            assert(before.contains(before[k]));
        }
    }
    find_is(all, rid, i);
}

/// Finding the offset of a row and reading the id at an offset undo each
/// other, in a fragment whose offsets fit in 32 bits.
pub proof fn offsets_invert_row_ids(segments: Seq<RowIdSegment>, rid: u64, offset: u32)
    requires
        row_ids(segments).len() <= 0x1_0000_0000,
    ensures
        offset_in(segments, rid) == Some(offset) ==> offset < row_ids(segments).len() && row_ids(
            segments,
        )[offset as int] == rid,
        row_ids(segments).no_duplicates() && offset < row_ids(segments).len() ==> offset_in(
            segments,
            row_ids(segments)[offset as int],
        ) == Some(offset),
{
    let ids = row_ids(segments);
    find_bounds(ids, rid);
    if ids.contains(rid) {
        let i = ids.index_of(rid);
        assert(ids[i] == rid);
    }
    if ids.no_duplicates() && offset < ids.len() {
        let id = ids[offset as int];
        assert(ids.contains(id));
        find_is(ids, id, offset as int);
    }
}

/// The ids of a range are consecutive: each one from its start on, in order, and
/// no other.
pub proof fn ranges_are_consecutive(start: u64, count: u64, id: u64)
    requires
        start + count <= u64::MAX,
    ensures
        ({
            let ids = (RowIdSegment::Range { start, count }).ids();
            &&& ids.len() == count
            &&& ids.contains(id) <==> start <= id < start + count
            &&& start <= id < start + count ==> ids[id - start] == id
        }),
{
    let ids = (RowIdSegment::Range { start, count }).ids();
    if start <= id < start + count {
        assert(ids[id - start] == id);
    }
}

/// The rows of a fragment are those of its segments, one segment behind the
/// other.
pub proof fn row_ids_follow_the_segments(
    front: Seq<RowIdSegment>,
    segment: RowIdSegment,
    back: Seq<RowIdSegment>,
)
    ensures
        row_ids(front.push(segment) + back) == row_ids(front) + segment.ids() + row_ids(back),
        row_ids(Seq::<RowIdSegment>::empty()).len() == 0,
    decreases back.len(),
{
    let all = front.push(segment) + back;
    if back.len() == 0 {
        assert(all.drop_last() =~= front);
        assert(row_ids(all) =~= row_ids(front) + segment.ids() + row_ids(back));
    } else {
        assert(all.drop_last() =~= front.push(segment) + back.drop_last());
        row_ids_follow_the_segments(front, segment, back.drop_last());
        assert(row_ids(all) =~= row_ids(front) + segment.ids() + row_ids(back));
    }
}

/// The locations of rows keep the ids and the addresses, row by row.
pub proof fn locations_keep_the_addresses(ids: Seq<u64>, addrs: Seq<u64>, i: int)
    requires
        ids.len() == addrs.len(),
        0 <= i < ids.len(),
    ensures
        located_all(ids, addrs).len() == ids.len(),
        located_all(ids, addrs)[i].row_id == ids[i],
        row_addr(
            located_all(ids, addrs)[i].fragment_id,
            located_all(ids, addrs)[i].offset,
        ) == addrs[i],
{
}

} // verus!
