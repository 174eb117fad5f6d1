//! Dividing the files of a scan into groups that are read in parallel.
use vstd::prelude::*;

use crate::sort::{
    is_permutation, smaller_keys_come_first, sort_places, stable_order, stable_order_is_sorted,
};

verus! {

/// From how many bytes on a file is split along its row groups.
pub const MIN_PARTITION_BYTES: u64 = 4_194_304;

/// A file of a scan: its size, and the byte range of each of its row groups.
pub struct Candidate {
    pub path: String,
    pub size: u64,
    pub ranges: Vec<(u64, u64)>,
}

/// A file of a scan, or a byte range of it.
#[derive(Debug, Clone, Copy, PartialEq, Eq)]
pub struct FileSlice {
    /// The place of the file among the candidates.
    pub file: usize,
    pub range: Option<(i64, i64)>,
}

/// Whether a file is read range by range: it has several row groups, and is
/// large enough.
pub open spec fn splits(candidate: Candidate) -> bool {
    candidate.ranges@.len() > 1 && candidate.size >= MIN_PARTITION_BYTES
}

/// The group of one range of a file.
pub open spec fn range_group(file: int, range: (u64, u64)) -> Seq<FileSlice> {
    seq![FileSlice { file: file as usize, range: Some((range.0 as i64, range.1 as i64)) }]
}

/// The groups of the first `n` files that are split: one per range.
pub open spec fn split_groups(candidates: Seq<Candidate>, n: int) -> Seq<Seq<FileSlice>>
    decreases n,
{
    if n <= 0 {
        seq![]
    } else {
        let front = split_groups(candidates, n - 1);
        let last = candidates[n - 1];
        if splits(last) {
            front + last.ranges@.map_values(|r: (u64, u64)| range_group(n - 1, r))
        } else {
            front
        }
    }
}

/// The first `n` files that are not split.
pub open spec fn small_files(candidates: Seq<Candidate>, n: int) -> Seq<usize>
    decreases n,
{
    if n <= 0 {
        seq![]
    } else {
        let front = small_files(candidates, n - 1);
        if splits(candidates[n - 1]) {
            front
        } else {
            front.push((n - 1) as usize)
        }
    }
}

/// The sort key of a file: the larger the file, the smaller the key.
pub open spec fn size_key(size: u64) -> u64 {
    (u64::MAX - size) as u64
}

/// Files from the largest to the smallest; those of the same size keep their
/// order.
pub open spec fn by_size(candidates: Seq<Candidate>, files: Seq<usize>) -> Seq<usize> {
    let keys = files.map_values(|f: usize| size_key(candidates[f as int].size));
    let order = stable_order(keys, files.len() as int);
    Seq::new(files.len(), |i: int| files[order[i] as int])
}

/// Into how many groups `n` files go: four per partition, at least one, and no
/// more than there are files.
pub open spec fn group_count(target_partitions: usize, n: int) -> int {
    if 4 * target_partitions < 1 {
        1
    } else if 4 * target_partitions > n {
        n
    } else {
        4 * target_partitions
    }
}

/// The place of the smallest number, the first where there are several.
pub open spec fn smallest(sizes: Seq<int>) -> int
    decreases sizes.len(),
{
    if sizes.len() <= 1 {
        0
    } else {
        let front = smallest(sizes.drop_last());
        if sizes.last() < sizes[front] {
            sizes.len() - 1
        } else {
            front
        }
    }
}

/// Files in groups, with the bytes of each group.
pub struct Packing {
    pub groups: Seq<Seq<usize>>,
    pub sizes: Seq<int>,
}

/// Files put, one after the other, each into the group with the fewest bytes.
pub open spec fn packed(candidates: Seq<Candidate>, files: Seq<usize>, count: int) -> Packing
    decreases files.len(),
{
    if files.len() == 0 {
        Packing {
            groups: Seq::new(count as nat, |i: int| Seq::<usize>::empty()),
            sizes: Seq::new(count as nat, |i: int| 0),
        }
    } else {
        let before = packed(candidates, files.drop_last(), count);
        let file = files.last();
        let k = smallest(before.sizes);
        Packing {
            groups: before.groups.update(k, before.groups[k].push(file)),
            sizes: before.sizes.update(k, before.sizes[k] + candidates[file as int].size),
        }
    }
}

/// The group of whole files.
pub open spec fn whole_files(files: Seq<usize>) -> Seq<FileSlice> {
    files.map_values(|f: usize| FileSlice { file: f, range: None })
}

/// The groups that hold a file, as groups of whole files.
pub open spec fn file_groups(groups: Seq<Seq<usize>>) -> Seq<Seq<FileSlice>>
    decreases groups.len(),
{
    if groups.len() == 0 {
        seq![]
    } else {
        let front = file_groups(groups.drop_last());
        if groups.last().len() == 0 {
            front
        } else {
            front.push(whole_files(groups.last()))
        }
    }
}

/// The groups of the files that are not split.
pub open spec fn small_groups(candidates: Seq<Candidate>, target_partitions: usize) -> Seq<
    Seq<usize>,
> {
    let small = small_files(candidates, candidates.len() as int);
    if small.len() == 0 {
        seq![]
    } else {
        packed(
            candidates,
            by_size(candidates, small),
            group_count(target_partitions, small.len() as int),
        ).groups
    }
}

/// The groups of a scan.
pub open spec fn scan_groups(candidates: Seq<Candidate>, target_partitions: usize) -> Seq<
    Seq<FileSlice>,
> {
    split_groups(candidates, candidates.len() as int) + file_groups(
        small_groups(candidates, target_partitions),
    )
}

proof fn smallest_is_smallest(sizes: Seq<int>)
    requires
        sizes.len() > 0,
    ensures
        0 <= smallest(sizes) < sizes.len(),
        forall|i: int| 0 <= i < sizes.len() ==> sizes[smallest(sizes)] <= #[trigger] sizes[i],
        forall|i: int| 0 <= i < smallest(sizes) ==> sizes[smallest(sizes)] < #[trigger] sizes[i],
    decreases sizes.len(),
{
    if sizes.len() > 1 {
        let front = sizes.drop_last();
        smallest_is_smallest(front);
        assert forall|i: int| 0 <= i < sizes.len() implies sizes[smallest(sizes)]
            <= #[trigger] sizes[i] by {
            if i < front.len() {
                assert(front[smallest(front)] <= front[i]);
            }
        }
        assert forall|i: int| 0 <= i < smallest(sizes) implies sizes[smallest(sizes)]
            < #[trigger] sizes[i] by {
            assert(front[smallest(front)] <= front[i]);
            if i < smallest(front) {
                assert(front[smallest(front)] < front[i]);
            }
        }
    }
}

proof fn smallest_is(sizes: Seq<int>, k: int)
    requires
        0 <= k < sizes.len(),
        forall|i: int| 0 <= i < sizes.len() ==> sizes[k] <= #[trigger] sizes[i],
        forall|i: int| 0 <= i < k ==> sizes[k] < #[trigger] sizes[i],
    ensures
        smallest(sizes) == k,
{
    smallest_is_smallest(sizes);
    let s = smallest(sizes);
    if s < k {
        assert(sizes[k] < sizes[s]);
        assert(sizes[s] <= sizes[k]);
    }
    if k < s {
        assert(sizes[s] < sizes[k]);
        assert(sizes[k] <= sizes[s]);
    }
}

proof fn packed_shape(candidates: Seq<Candidate>, files: Seq<usize>, count: int)
    requires
        count > 0,
    ensures
        packed(candidates, files, count).groups.len() == count,
        packed(candidates, files, count).sizes.len() == count,
        forall|i: int|
            0 <= i < count ==> 0 <= #[trigger] packed(candidates, files, count).sizes[i]
                <= files.len() * u64::MAX,
    decreases files.len(),
{
    if files.len() > 0 {
        packed_shape(candidates, files.drop_last(), count);
        let before = packed(candidates, files.drop_last(), count);
        smallest_is_smallest(before.sizes);
        let after = packed(candidates, files, count);
        assert forall|i: int| 0 <= i < count implies 0 <= #[trigger] after.sizes[i] <= files.len()
            * u64::MAX by {
            assert(0 <= before.sizes[i] <= (files.len() - 1) * u64::MAX);
            assert(files.len() * u64::MAX == (files.len() - 1) * u64::MAX + u64::MAX)
                by (nonlinear_arith)
                requires
                    files.len() > 0,
            ;
        }
    }
}

proof fn small_files_are_candidates(candidates: Seq<Candidate>, n: int)
    requires
        0 <= n <= candidates.len(),
        n <= usize::MAX,
    ensures
        forall|i: int|
            0 <= i < small_files(candidates, n).len() ==> (#[trigger] small_files(candidates, n)[i])
                < n,
        small_files(candidates, n).len() <= n,
    decreases n,
{
    if n > 0 {
        small_files_are_candidates(candidates, n - 1);
    }
}

fn find_smallest(sizes: &Vec<u128>, view: Ghost<Seq<int>>) -> (r: usize)
    requires
        sizes@.len() > 0,
        view@.len() == sizes@.len(),
        forall|i: int| 0 <= i < sizes@.len() ==> sizes@[i] == view@[i],
    ensures
        r == smallest(view@),
        r < sizes@.len(),
{
    let mut k: usize = 0;
    let mut i: usize = 1;
    while i < sizes.len()
        invariant
            k < i <= sizes@.len(),
            view@.len() == sizes@.len(),
            forall|j: int| 0 <= j < sizes@.len() ==> sizes@[j] == view@[j],
            forall|j: int| 0 <= j < i ==> view@[k as int] <= #[trigger] view@[j],
            forall|j: int| 0 <= j < k ==> view@[k as int] < #[trigger] view@[j],
        decreases sizes@.len() - i,
    {
        if sizes[i] < sizes[k] {
            assert(sizes@[i as int] == view@[i as int] && sizes@[k as int] == view@[k as int]);
            k = i;
        }
        i = i + 1;
    }
    proof {
        smallest_is(view@, k as int);
    }
    k
}

/// The views of a sequence of groups.
pub open spec fn group_seqs<A>(groups: Seq<Vec<A>>) -> Seq<Seq<A>> {
    groups.map_values(|g: Vec<A>| g@)
}

/// Sorts files from the largest to the smallest.
fn sort_by_size(candidates: &Vec<Candidate>, files: &Vec<usize>) -> (r: Vec<usize>)
    requires
        forall|i: int| 0 <= i < files@.len() ==> #[trigger] files@[i] < candidates@.len(),
    ensures
        r@ == by_size(candidates@, files@),
        forall|i: int| 0 <= i < r@.len() ==> #[trigger] r@[i] < candidates@.len(),
{
    let mut keys: Vec<u64> = Vec::new();
    let mut i: usize = 0;
    while i < files.len()
        invariant
            i <= files@.len(),
            forall|i: int| 0 <= i < files@.len() ==> #[trigger] files@[i] < candidates@.len(),
            keys@.len() == i,
            forall|k: int|
                0 <= k < i ==> keys@[k] == size_key(candidates@[files@[k] as int].size),
        decreases files@.len() - i,
    {
        assert(files@[i as int] < candidates@.len());
        keys.push(u64::MAX - candidates[files[i]].size);
        i = i + 1;
    }
    assert(keys@ =~= files@.map_values(|f: usize| size_key(candidates@[f as int].size)));
    let order = sort_places(&keys);
    let mut out: Vec<usize> = Vec::new();
    let mut n: usize = 0;
    while n < order.len()
        invariant
            n <= order@.len() == files@.len(),
            is_permutation(order@, files@.len() as int),
            forall|i: int| 0 <= i < files@.len() ==> #[trigger] files@[i] < candidates@.len(),
            out@.len() == n,
            forall|k: int| 0 <= k < n ==> out@[k] == files@[order@[k] as int],
            forall|k: int| 0 <= k < n ==> #[trigger] out@[k] < candidates@.len(),
        decreases order@.len() - n,
    {
        assert(order@.contains(order@[n as int]));
        out.push(files[order[n]]);
        n = n + 1;
    }
    assert(out@ =~= by_size(candidates@, files@));
    out
}

/// Puts files into balanced groups.
fn pack(candidates: &Vec<Candidate>, files: &Vec<usize>, count: usize) -> (r: Vec<Vec<usize>>)
    requires
        count > 0,
        forall|i: int| 0 <= i < files@.len() ==> #[trigger] files@[i] < candidates@.len(),
    ensures
        group_seqs(r@) == packed(candidates@, files@, count as int).groups,
{
    let mut groups: Vec<Vec<usize>> = Vec::new();
    let mut sizes: Vec<u128> = Vec::new();
    let mut i: usize = 0;
    while i < count
        invariant
            i <= count,
            groups@.len() == i,
            sizes@.len() == i,
            forall|k: int| 0 <= k < i ==> (#[trigger] groups@[k])@.len() == 0,
            forall|k: int| 0 <= k < i ==> #[trigger] sizes@[k] == 0,
        decreases count - i,
    {
        groups.push(Vec::new());
        sizes.push(0);
        i = i + 1;
    }
    let mut n: usize = 0;
    assert(files@.take(0) =~= seq![]);
    assert(group_seqs(groups@) =~= packed(candidates@, files@.take(0), count as int).groups) by {
        assert forall|k: int| 0 <= k < count implies (#[trigger] groups@[k])@
            =~= Seq::<usize>::empty() by {}
    }
    while n < files.len()
        invariant
            n <= files@.len(),
            count > 0,
            groups@.len() == count,
            sizes@.len() == count,
            forall|i: int| 0 <= i < files@.len() ==> #[trigger] files@[i] < candidates@.len(),
            group_seqs(groups@) == packed(
                candidates@,
                files@.take(n as int),
                count as int,
            ).groups,
            packed(candidates@, files@.take(n as int), count as int).sizes.len() == count,
            forall|k: int|
                0 <= k < count ==> #[trigger] sizes@[k] == packed(
                    candidates@,
                    files@.take(n as int),
                    count as int,
                ).sizes[k],
        decreases files@.len() - n,
    {
        let ghost before = packed(candidates@, files@.take(n as int), count as int);
        let ghost old_groups = groups@;
        assert(files@.take(n as int + 1).drop_last() =~= files@.take(n as int));
        assert(files@.take(n as int + 1).last() == files@[n as int]);
        proof {
            packed_shape(candidates@, files@.take(n as int), count as int);
            packed_shape(candidates@, files@.take(n as int + 1), count as int);
        }
        let file: usize = files[n];
        let k = find_smallest(&sizes, Ghost(before.sizes));
        assert(sizes@[k as int] == before.sizes[k as int]);
        assert(sizes@[k as int] + u64::MAX <= u128::MAX) by {
            assert(before.sizes[k as int] <= n * u64::MAX);
            assert(n * u64::MAX + u64::MAX <= u128::MAX) by (nonlinear_arith)
                requires
                    n <= usize::MAX,
                    usize::MAX <= u64::MAX,
            ;
        }
        let grown: u128 = sizes[k] + candidates[file].size as u128;
        sizes.set(k, grown);
        let mut group: Vec<usize> = Vec::new();
        std::mem::swap(&mut group, &mut groups[k]);
        group.push(file);
        groups.set(k, group);
        assert(group_seqs(groups@) =~= before.groups.update(
            k as int,
            before.groups[k as int].push(file),
        )) by {
            assert(old_groups[k as int]@ == group_seqs(old_groups)[k as int]);
            assert forall|j: int| 0 <= j < count implies group_seqs(groups@)[j]
                == before.groups.update(k as int, before.groups[k as int].push(file))[j] by {
                assert(group_seqs(old_groups)[j] == before.groups[j]);
            }
        }
        n = n + 1;
    }
    assert(files@.take(n as int) =~= files@);
    groups
}

/// Divides the files of a scan into groups that are read in parallel.
///
/// A large file with several row groups is read range by range, so that each
/// row group can be skipped by itself. The other files are put into balanced
/// groups: enough to keep all partitions busy, without one task per file.
pub fn build_file_groups(candidates: &Vec<Candidate>, target_partitions: usize) -> (r: Vec<
    Vec<FileSlice>,
>)
    ensures
        group_seqs(r@) == scan_groups(candidates@, target_partitions),
{
    let mut groups: Vec<Vec<FileSlice>> = Vec::new();
    let mut small: Vec<usize> = Vec::new();
    let mut i: usize = 0;
    assert(group_seqs(groups@) =~= seq![]);
    while i < candidates.len()
        invariant
            i <= candidates@.len(),
            group_seqs(groups@) == split_groups(candidates@, i as int),
            small@ == small_files(candidates@, i as int),
        decreases candidates@.len() - i,
    {
        let candidate = &candidates[i];
        if candidate.ranges.len() > 1 && candidate.size >= MIN_PARTITION_BYTES {
            let ghost before = group_seqs(groups@);
            let mut j: usize = 0;
            let ghost ranges = candidate.ranges@.map_values(
                |r: (u64, u64)| range_group(i as int, r),
            );
            assert(group_seqs(groups@) =~= before + ranges.take(0));
            while j < candidate.ranges.len()
                invariant
                    j <= candidate.ranges@.len(),
                    ranges == candidate.ranges@.map_values(
                        |r: (u64, u64)| range_group(i as int, r),
                    ),
                    group_seqs(groups@) == before + ranges.take(j as int),
                decreases candidate.ranges@.len() - j,
            {
                let range = candidate.ranges[j];
                let mut group: Vec<FileSlice> = Vec::new();
                group.push(
                    FileSlice { file: i, range: Some((range.0 as i64, range.1 as i64)) },
                );
                assert(group@ =~= range_group(i as int, candidate.ranges@[j as int]));
                let ghost done = group_seqs(groups@);
                groups.push(group);
                assert(group_seqs(groups@) =~= done.push(group@));
                assert(ranges.take(j as int + 1) =~= ranges.take(j as int).push(ranges[j as int]));
                j = j + 1;
                assert(group_seqs(groups@) =~= before + ranges.take(j as int));
            }
            assert(ranges.take(j as int) =~= ranges);
        } else {
            small.push(i);
        }
        i = i + 1;
    }
    proof {
        small_files_are_candidates(candidates@, candidates@.len() as int);
    }
    let n: usize = small.len();
    if n > 0 {
        let count: usize = if target_partitions < 1 {
            1
        } else if target_partitions > n / 4 {
            n
        } else {
            target_partitions * 4
        };
        assert(count == group_count(target_partitions, n as int));
        let sorted = sort_by_size(candidates, &small);
        let packing = pack(candidates, &sorted, count);
        let ghost split = group_seqs(groups@);
        let ghost all = group_seqs(packing@);
        let mut k: usize = 0;
        assert(all.take(0) =~= seq![]);
        assert(group_seqs(groups@) =~= split + file_groups(all.take(0)));
        while k < packing.len()
            invariant
                k <= packing@.len(),
                all == group_seqs(packing@),
                all.len() == packing@.len(),
                group_seqs(groups@) == split + file_groups(all.take(k as int)),
            decreases packing@.len() - k,
        {
            assert(all.take(k as int + 1).drop_last() =~= all.take(k as int));
            assert(all.take(k as int + 1).last() == packing@[k as int]@);
            let files = &packing[k];
            if files.len() > 0 {
                let mut group: Vec<FileSlice> = Vec::new();
                let mut j: usize = 0;
                while j < files.len()
                    invariant
                        j <= files@.len(),
                        group@.len() == j,
                        forall|x: int|
                            0 <= x < j ==> group@[x] == (FileSlice { file: files@[x], range: None }),
                    decreases files@.len() - j,
                {
                    group.push(FileSlice { file: files[j], range: None });
                    j = j + 1;
                }
                assert(group@ =~= whole_files(files@));
                let ghost done = group_seqs(groups@);
                groups.push(group);
                assert(group_seqs(groups@) =~= done.push(group@));
                assert(group_seqs(groups@) =~= split + file_groups(all.take(k as int + 1)));
            }
            k = k + 1;
        }
        assert(all.take(k as int) =~= all);
    } else {
        assert(group_seqs(groups@) =~= scan_groups(candidates@, target_partitions));
    }
    groups
}

// ---------------------------------------------------------------------------
// What the groups guarantee
// ---------------------------------------------------------------------------
/// How often `f` occurs in a sequence.
pub open spec fn times(files: Seq<usize>, f: usize) -> nat
    decreases files.len(),
{
    if files.len() == 0 {
        0
    } else {
        times(files.drop_last(), f) + if files.last() == f {
            1nat
        } else {
            0nat
        }
    }
}

/// How often `f` occurs in the groups.
pub open spec fn times_in(groups: Seq<Seq<usize>>, f: usize) -> nat
    decreases groups.len(),
{
    if groups.len() == 0 {
        0
    } else {
        times_in(groups.drop_last(), f) + times(groups.last(), f)
    }
}

proof fn times_in_grows(groups: Seq<Seq<usize>>, k: int, x: usize, f: usize)
    requires
        0 <= k < groups.len(),
    ensures
        times_in(groups.update(k, groups[k].push(x)), f) == times_in(groups, f) + if x == f {
            1nat
        } else {
            0nat
        },
    decreases groups.len(),
{
    let grown = groups.update(k, groups[k].push(x));
    if k == groups.len() - 1 {
        assert(grown.drop_last() =~= groups.drop_last());
        assert(groups[k].push(x).drop_last() =~= groups[k]);
    } else {
        assert(grown.drop_last() =~= groups.drop_last().update(k, groups[k].push(x)));
        times_in_grows(groups.drop_last(), k, x, f);
    }
}

proof fn times_in_empty(groups: Seq<Seq<usize>>, f: usize)
    requires
        forall|i: int| 0 <= i < groups.len() ==> (#[trigger] groups[i]).len() == 0,
    ensures
        times_in(groups, f) == 0,
    decreases groups.len(),
{
    if groups.len() > 0 {
        assert(groups[groups.len() - 1].len() == 0);
        assert forall|i: int| 0 <= i < groups.drop_last().len() implies (
        #[trigger] groups.drop_last()[i]).len() == 0 by {
            assert(groups[i].len() == 0);
        }
        times_in_empty(groups.drop_last(), f);
    }
}

/// Packing loses no file and repeats none: each is in the groups as often as
/// it was to be packed.
pub proof fn packing_keeps_every_file(
    candidates: Seq<Candidate>,
    files: Seq<usize>,
    count: int,
    f: usize,
)
    requires
        count > 0,
    ensures
        times_in(packed(candidates, files, count).groups, f) == times(files, f),
    decreases files.len(),
{
    if files.len() == 0 {
        times_in_empty(packed(candidates, files, count).groups, f);
    } else {
        let before = packed(candidates, files.drop_last(), count);
        packed_shape(candidates, files.drop_last(), count);
        smallest_is_smallest(before.sizes);
        packing_keeps_every_file(candidates, files.drop_last(), count, f);
        times_in_grows(before.groups, smallest(before.sizes), files.last(), f);
    }
}

/// The bytes of a group.
pub open spec fn group_bytes(candidates: Seq<Candidate>, files: Seq<usize>) -> int
    decreases files.len(),
{
    if files.len() == 0 {
        0
    } else {
        group_bytes(candidates, files.drop_last()) + candidates[files.last() as int].size
    }
}

/// The groups stay balanced: no group has more bytes than another by more than
/// the size of the largest file.
pub proof fn groups_are_balanced(
    candidates: Seq<Candidate>,
    files: Seq<usize>,
    count: int,
    largest: int,
    i: int,
    j: int,
)
    requires
        count > 0,
        0 <= largest,
        forall|k: int|
            0 <= k < files.len() ==> candidates[#[trigger] files[k] as int].size <= largest,
        0 <= i < count,
        0 <= j < count,
    ensures
        group_bytes(candidates, packed(candidates, files, count).groups[i]) <= group_bytes(
            candidates,
            packed(candidates, files, count).groups[j],
        ) + largest,
{
    sizes_are_balanced(candidates, files, count, largest);
    let p = packed(candidates, files, count);
    assert(p.sizes[i] == group_bytes(candidates, p.groups[i]));
    assert(p.sizes[j] == group_bytes(candidates, p.groups[j]));
}

proof fn sizes_are_balanced(
    candidates: Seq<Candidate>,
    files: Seq<usize>,
    count: int,
    largest: int,
)
    requires
        count > 0,
        0 <= largest,
        forall|k: int|
            0 <= k < files.len() ==> candidates[#[trigger] files[k] as int].size <= largest,
    ensures
        ({
            let p = packed(candidates, files, count);
            &&& forall|i: int, j: int|
                0 <= i < count && 0 <= j < count ==> #[trigger] p.sizes[i] <= #[trigger] p.sizes[j]
                    + largest
            &&& forall|i: int|
                0 <= i < count ==> #[trigger] p.sizes[i] == group_bytes(candidates, p.groups[i])
        }),
    decreases files.len(),
{
    let p = packed(candidates, files, count);
    packed_shape(candidates, files, count);
    if files.len() > 0 {
        let front = files.drop_last();
        let before = packed(candidates, front, count);
        packed_shape(candidates, front, count);
        assert forall|k: int| 0 <= k < front.len() implies candidates[#[trigger] front[k] as int].size
            <= largest by {
            assert(files[k] == front[k]);
        }
        sizes_are_balanced(candidates, front, count, largest);
        smallest_is_smallest(before.sizes);
        let k = smallest(before.sizes);
        assert(candidates[files[files.len() - 1] as int].size <= largest);
        assert forall|i: int, j: int|
            0 <= i < count && 0 <= j < count implies #[trigger] p.sizes[i] <= #[trigger] p.sizes[j]
            + largest by {
            assert(before.sizes[i] <= before.sizes[j] + largest);
            assert(before.sizes[k] <= before.sizes[j]);
        }
        assert forall|i: int| 0 <= i < count implies #[trigger] p.sizes[i] == group_bytes(
            candidates,
            p.groups[i],
        ) by {
            assert(before.sizes[i] == group_bytes(candidates, before.groups[i]));
            if i == k {
                assert(p.groups[i].drop_last() =~= before.groups[i]);
            }
        }
    }
}

proof fn times_without_repeats(files: Seq<usize>, f: usize)
    requires
        files.no_duplicates(),
    ensures
        times(files, f) == if files.contains(f) {
            1nat
        } else {
            0nat
        },
    decreases files.len(),
{
    if files.len() > 0 {
        let front = files.drop_last();
        times_without_repeats(front, f);
        assert(files[files.len() - 1] == files.last());
        if front.contains(f) {
            let i = front.index_of(f);
            assert(files[i] == f);
        }
        if files.contains(f) && files.last() != f {
            let i = files.index_of(f);
            assert(front[i] == f);
        }
    }
}

proof fn small_files_are_the_whole_ones(candidates: Seq<Candidate>, n: int)
    requires
        0 <= n <= candidates.len(),
        n <= usize::MAX,
    ensures
        small_files(candidates, n).no_duplicates(),
        forall|f: usize| #[trigger]
            small_files(candidates, n).contains(f) <==> f < n && !splits(candidates[f as int]),
    decreases n,
{
    if n > 0 {
        small_files_are_the_whole_ones(candidates, n - 1);
        let front = small_files(candidates, n - 1);
        let all = small_files(candidates, n);
        assert forall|f: usize| #[trigger] all.contains(f) <==> f < n && !splits(
            candidates[f as int],
        ) by {
            if front.contains(f) {
                assert(all[front.index_of(f)] == f);
            }
            if !splits(candidates[n - 1]) {
                assert(all[front.len() as int] == n - 1);
                if all.contains(f) && f != n - 1 {
                    assert(front[all.index_of(f)] == f);
                }
            }
        }
        assert forall|i: int, j: int|
            0 <= i < all.len() && 0 <= j < all.len() && i != j implies all[i] != all[j] by {
            if i < front.len() {
                assert(front.contains(front[i]));
            }
            if j < front.len() {
                assert(front.contains(front[j]));
            }
        }
    }
}

/// Every file is scanned once: a file that is not split is in exactly one
/// group, and each range of one that is split is a group of its own.
pub proof fn every_file_is_scanned_once(
    candidates: Seq<Candidate>,
    target_partitions: usize,
    f: usize,
)
    requires
        f < candidates.len() <= usize::MAX,
    ensures
        times_in(small_groups(candidates, target_partitions), f) == if splits(
            candidates[f as int],
        ) {
            0nat
        } else {
            1nat
        },
        splits(candidates[f as int]) ==> forall|r: int|
            0 <= r < candidates[f as int].ranges@.len() ==> split_groups(
                candidates,
                candidates.len() as int,
            ).contains(range_group(f as int, #[trigger] candidates[f as int].ranges@[r])),
{
    let n = candidates.len() as int;
    let small = small_files(candidates, n);
    small_files_are_the_whole_ones(candidates, n);
    small_files_are_candidates(candidates, n);
    if small.len() > 0 {
        let keys = small.map_values(|x: usize| size_key(candidates[x as int].size));
        let order = stable_order(keys, small.len() as int);
        stable_order_is_sorted(keys, small.len() as int);
        let sorted = by_size(candidates, small);
        assert(sorted.no_duplicates()) by {
            assert forall|i: int, j: int|
                0 <= i < sorted.len() && 0 <= j < sorted.len() && i != j implies sorted[i]
                != sorted[j] by {
                assert(order.contains(order[i]));
                assert(order.contains(order[j]));
                assert(order[i] != order[j]);
            }
        }
        assert(sorted.contains(f) <==> small.contains(f)) by {
            if small.contains(f) {
                let i = small.index_of(f);
                assert(order.contains(i as usize));
                let k = order.index_of(i as usize);
                assert(sorted[k] == f);
            }
            if sorted.contains(f) {
                let k = sorted.index_of(f);
                assert(order.contains(order[k]));
                assert(small[order[k] as int] == f);
            }
        }
        let count = group_count(target_partitions, small.len() as int);
        packing_keeps_every_file(candidates, sorted, count, f);
        times_without_repeats(sorted, f);
    } else {
        assert(!small.contains(f));
    }
    if splits(candidates[f as int]) {
        assert forall|r: int| 0 <= r < candidates[f as int].ranges@.len() implies split_groups(
            candidates,
            n,
        ).contains(range_group(f as int, #[trigger] candidates[f as int].ranges@[r])) by {
            range_is_a_group(candidates, n, f as int, r);
        }
    }
}

proof fn range_is_a_group(candidates: Seq<Candidate>, n: int, f: int, r: int)
    requires
        0 <= f < n <= candidates.len(),
        splits(candidates[f]),
        0 <= r < candidates[f].ranges@.len(),
    ensures
        split_groups(candidates, n).contains(range_group(f, candidates[f].ranges@[r])),
    decreases n,
{
    let group = range_group(f, candidates[f].ranges@[r]);
    let front = split_groups(candidates, n - 1);
    let all = split_groups(candidates, n);
    if f == n - 1 {
        assert(all[front.len() + r] == group);
    } else {
        range_is_a_group(candidates, n - 1, f, r);
        let k = front.index_of(group);
        assert(all[k] == group);
    }
}

/// The whole files are packed from the largest to the smallest; those of the same
/// size keep their order.
pub proof fn larger_files_come_first(
    candidates: Seq<Candidate>,
    files: Seq<usize>,
    i: int,
    j: int,
    f: usize,
)
    requires
        files.len() <= usize::MAX,
        0 <= i < j < files.len(),
        forall|k: int| 0 <= k < files.len() ==> #[trigger] files[k] < candidates.len(),
    ensures
        ({
            let sorted = by_size(candidates, files);
            &&& sorted.len() == files.len()
            &&& candidates[sorted[i] as int].size >= candidates[sorted[j] as int].size
            &&& files.contains(f) ==> sorted.contains(f)
            &&& candidates[sorted[i] as int].size == candidates[sorted[j] as int].size ==> exists|
                p: int,
                q: int,
            |
                0 <= p < q < files.len() && #[trigger] files[p] == sorted[i] && #[trigger] files[q]
                    == sorted[j]
        }),
{
    let keys = files.map_values(|x: usize| size_key(candidates[x as int].size));
    let order = stable_order(keys, files.len() as int);
    let sorted = by_size(candidates, files);
    let place = if files.contains(f) {
        files.index_of(f)
    } else {
        0
    };
    smaller_keys_come_first(keys, i, j, place as usize);
    assert(sorted[i] == files[order[i] as int]);
    assert(sorted[j] == files[order[j] as int]);
    assert(keys[order[i] as int] == size_key(candidates[sorted[i] as int].size));
    assert(keys[order[j] as int] == size_key(candidates[sorted[j] as int].size));
    if files.contains(f) {
        let k = order.index_of(place as usize);
        assert(sorted[k] == f);
    }
}

/// Files go into four groups per partition: fewer only where there are fewer
/// files, and into one at least.
pub proof fn groups_are_four_per_partition(target_partitions: usize, n: int)
    requires
        n > 0,
    ensures
        1 <= group_count(target_partitions, n) <= n,
        target_partitions > 0 ==> group_count(target_partitions, n) <= 4 * target_partitions,
        group_count(target_partitions, n) < n ==> group_count(target_partitions, n) == 4
            * target_partitions || target_partitions == 0,
{
}

/// How often a slice occurs in a group.
pub open spec fn slice_times(group: Seq<FileSlice>, slice: FileSlice) -> nat
    decreases group.len(),
{
    if group.len() == 0 {
        0
    } else {
        slice_times(group.drop_last(), slice) + if group.last() == slice {
            1nat
        } else {
            0nat
        }
    }
}

/// How often a slice occurs in the groups of a scan.
pub open spec fn slice_times_in(groups: Seq<Seq<FileSlice>>, slice: FileSlice) -> nat
    decreases groups.len(),
{
    if groups.len() == 0 {
        0
    } else {
        slice_times_in(groups.drop_last(), slice) + slice_times(groups.last(), slice)
    }
}

/// How often a range occurs in a sequence of ranges.
pub open spec fn range_times(ranges: Seq<(u64, u64)>, range: (i64, i64)) -> nat
    decreases ranges.len(),
{
    if ranges.len() == 0 {
        0
    } else {
        range_times(ranges.drop_last(), range) + if ranges.last().0 as i64 == range.0
            && ranges.last().1 as i64 == range.1 {
            1nat
        } else {
            0nat
        }
    }
}

proof fn slices_add_up(a: Seq<Seq<FileSlice>>, b: Seq<Seq<FileSlice>>, slice: FileSlice)
    ensures
        slice_times_in(a + b, slice) == slice_times_in(a, slice) + slice_times_in(b, slice),
    decreases b.len(),
{
    if b.len() == 0 {
        assert(a + b =~= a);
    } else {
        assert((a + b).drop_last() =~= a + b.drop_last());
        slices_add_up(a, b.drop_last(), slice);
    }
}

proof fn whole_slices(files: Seq<usize>, slice: FileSlice)
    ensures
        slice.range is None ==> slice_times(whole_files(files), slice) == times(files, slice.file),
        slice.range is Some ==> slice_times(whole_files(files), slice) == 0,
    decreases files.len(),
{
    if files.len() > 0 {
        whole_slices(files.drop_last(), slice);
        assert(whole_files(files).drop_last() =~= whole_files(files.drop_last()));
        let last = FileSlice { file: files.last(), range: None };
        assert(whole_files(files).last() == last);
        assert(last == slice <==> slice.range is None && slice.file == files.last());
    }
}

proof fn file_slices(groups: Seq<Seq<usize>>, slice: FileSlice)
    ensures
        slice.range is None ==> slice_times_in(file_groups(groups), slice) == times_in(
            groups,
            slice.file,
        ),
        slice.range is Some ==> slice_times_in(file_groups(groups), slice) == 0,
    decreases groups.len(),
{
    if groups.len() > 0 {
        let front = groups.drop_last();
        file_slices(front, slice);
        if groups.last().len() > 0 {
            whole_slices(groups.last(), slice);
            let all = file_groups(groups);
            assert(all.drop_last() =~= file_groups(front));
        }
    }
}

proof fn range_slices(ranges: Seq<(u64, u64)>, file: int, slice: FileSlice)
    requires
        0 <= file <= usize::MAX,
    ensures
        slice_times_in(
            ranges.map_values(|r: (u64, u64)| range_group(file, r)),
            slice,
        ) == match slice.range {
            Some(range) => if slice.file == file {
                range_times(ranges, range)
            } else {
                0
            },
            None => 0,
        },
    decreases ranges.len(),
{
    let group = |r: (u64, u64)| range_group(file, r);
    if ranges.len() > 0 {
        range_slices(ranges.drop_last(), file, slice);
        assert(ranges.map_values(group).drop_last() =~= ranges.drop_last().map_values(group));
        let last = range_group(file, ranges.last());
        assert(ranges.map_values(group).last() == last);
        assert(last.drop_last() =~= seq![]);
        assert(slice_times(last.drop_last(), slice) == 0);
        let only = last.last();
        assert(slice_times(last, slice) == if only == slice {
            1nat
        } else {
            0nat
        });
        match slice.range {
            Some(range) => {
                if slice.file == file && ranges.last().0 as i64 == range.0 && ranges.last().1 as i64
                    == range.1 {
                    assert(only == slice);
                }
            },
            None => {},
        }
    }
}

proof fn split_slices(candidates: Seq<Candidate>, n: int, slice: FileSlice)
    requires
        0 <= n <= candidates.len(),
        n <= usize::MAX,
    ensures
        slice_times_in(split_groups(candidates, n), slice) == match slice.range {
            Some(range) => if slice.file < n && splits(candidates[slice.file as int]) {
                range_times(candidates[slice.file as int].ranges@, range)
            } else {
                0
            },
            None => 0,
        },
    decreases n,
{
    if n > 0 {
        split_slices(candidates, n - 1, slice);
        let last = candidates[n - 1];
        if splits(last) {
            let ranges = last.ranges@.map_values(|r: (u64, u64)| range_group(n - 1, r));
            slices_add_up(split_groups(candidates, n - 1), ranges, slice);
            range_slices(last.ranges@, n - 1, slice);
        }
    }
}

/// A scan reads every file once and nothing else. A file of 4 MiB or more with
/// several row groups is read by their ranges, each as often as it is listed; any
/// other is read whole, once.
pub proof fn scans_read_every_file_once(
    candidates: Seq<Candidate>,
    target_partitions: usize,
    slice: FileSlice,
)
    requires
        slice.file < candidates.len() <= usize::MAX,
    ensures
        ({
            let file = candidates[slice.file as int];
            let split = file.ranges@.len() > 1 && file.size >= 4_194_304;
            slice_times_in(scan_groups(candidates, target_partitions), slice) == match slice.range {
                Some(range) => if split {
                    range_times(file.ranges@, range)
                } else {
                    0
                },
                None => if split {
                    0
                } else {
                    1
                },
            }
        }),
{
    let n = candidates.len() as int;
    let small = small_groups(candidates, target_partitions);
    slices_add_up(split_groups(candidates, n), file_groups(small), slice);
    split_slices(candidates, n, slice);
    file_slices(small, slice);
    every_file_is_scanned_once(candidates, target_partitions, slice.file);
}

/// No group of a scan is empty.
pub proof fn no_group_is_empty(candidates: Seq<Candidate>, target_partitions: usize, g: int)
    requires
        0 <= g < scan_groups(candidates, target_partitions).len(),
    ensures
        scan_groups(candidates, target_partitions)[g].len() > 0,
{
    let n = candidates.len() as int;
    let split = split_groups(candidates, n);
    let small = small_groups(candidates, target_partitions);
    if g < split.len() {
        split_groups_are_full(candidates, n, g);
    } else {
        file_groups_are_full(small, g - split.len());
    }
}

proof fn split_groups_are_full(candidates: Seq<Candidate>, n: int, g: int)
    requires
        0 <= g < split_groups(candidates, n).len(),
    ensures
        split_groups(candidates, n)[g].len() == 1,
    decreases n,
{
    if n > 0 && g < split_groups(candidates, n - 1).len() {
        split_groups_are_full(candidates, n - 1, g);
    }
}

proof fn file_groups_are_full(groups: Seq<Seq<usize>>, g: int)
    requires
        0 <= g < file_groups(groups).len(),
    ensures
        file_groups(groups)[g].len() > 0,
    decreases groups.len(),
{
    if groups.len() > 0 && g < file_groups(groups.drop_last()).len() {
        file_groups_are_full(groups.drop_last(), g);
    }
}

/// The groups are seen as they are, in their order.
pub proof fn groups_are_seen_in_order<A>(groups: Seq<Vec<A>>, i: int)
    ensures
        group_seqs(groups).len() == groups.len(),
        0 <= i < groups.len() ==> group_seqs(groups)[i] == groups[i]@,
{
}

} // verus!
