//! Decoded Parquet footers, kept by recent use.
//!
//! A file is known by its path and the checksum of its contents. A file that
//! is replaced gets another checksum, so what was kept of the old one is never
//! taken for the new one.
use std::sync::Arc;

use vstd::prelude::*;
use vstd::string::*;

use crate::text::{find, find_bounds, find_is};

verus! {

/// How many footers are kept, unless configured otherwise.
pub const DEFAULT_CACHE_CAPACITY: usize = 256;

/// A file: its path and its checksum.
#[derive(Debug, PartialEq, Eq)]
pub struct CacheKey {
    pub path: String,
    pub checksum: String,
}

pub type KeyView = (Seq<char>, Seq<char>);

impl View for CacheKey {
    type V = KeyView;

    open spec fn view(&self) -> KeyView {
        (self.path@, self.checksum@)
    }
}

impl CacheKey {
    pub fn new(path: &str, checksum: &str) -> (r: CacheKey)
        ensures
            r@ == (path@, checksum@),
    {
        CacheKey { path: path.to_owned(), checksum: checksum.to_owned() }
    }

    fn same(&self, other: &CacheKey) -> (r: bool)
        ensures
            r == (self@ == other@),
    {
        self.path == other.path && self.checksum == other.checksum
    }
}

/// A decoded footer, with its encoded length.
pub struct CachedEntry<M> {
    pub metadata: Arc<M>,
    pub metadata_len: u64,
}

/// One file of the cache.
pub type Slot<M> = (KeyView, (Arc<M>, u64));

/// The files of a sequence of slots.
pub open spec fn slot_keys<M>(slots: Seq<Slot<M>>) -> Seq<KeyView> {
    slots.map_values(|s: Slot<M>| s.0)
}

/// What a sequence of slots holds for a file.
pub open spec fn held<M>(slots: Seq<Slot<M>>, key: KeyView) -> Option<(Arc<M>, u64)> {
    let i = find(slot_keys(slots), key);
    if i < slots.len() {
        Some(slots[i].1)
    } else {
        None
    }
}

/// The slots after a file was used: it comes last.
pub open spec fn promoted<M>(slots: Seq<Slot<M>>, key: KeyView) -> Seq<Slot<M>> {
    let i = find(slot_keys(slots), key);
    if i < slots.len() {
        slots.remove(i).push(slots[i])
    } else {
        slots
    }
}

/// The slots after a file was put. A file that is there is replaced and comes
/// last. Where a new one makes them too many, the first is dropped, which was
/// used the longest ago.
pub open spec fn with_slot<M>(
    slots: Seq<Slot<M>>,
    capacity: usize,
    key: KeyView,
    entry: (Arc<M>, u64),
) -> Seq<Slot<M>> {
    let i = find(slot_keys(slots), key);
    if capacity == 0 {
        slots
    } else if i < slots.len() {
        slots.remove(i).push((key, entry))
    } else if slots.len() + 1 > capacity {
        slots.push((key, entry)).drop_first()
    } else {
        slots.push((key, entry))
    }
}

/// A bounded cache of decoded footers. Of the files that it holds, the first
/// was used the longest ago.
pub struct ParquetMetadataCache<M> {
    pub capacity: usize,
    pub entries: Vec<(CacheKey, CachedEntry<M>)>,
}

impl<M> View for ParquetMetadataCache<M> {
    type V = Seq<Slot<M>>;

    open spec fn view(&self) -> Seq<Slot<M>> {
        self.entries@.map_values(
            |e: (CacheKey, CachedEntry<M>)| (e.0@, (e.1.metadata, e.1.metadata_len)),
        )
    }
}

impl<M> ParquetMetadataCache<M> {
    /// No file is held twice, and no more are held than the capacity admits.
    pub open spec fn well_formed(self) -> bool {
        slot_keys(self@).no_duplicates() && self@.len() <= self.capacity
    }

    /// A cache of this capacity; with 0 it holds nothing.
    pub fn new(capacity: usize) -> (r: ParquetMetadataCache<M>)
        ensures
            r.well_formed(),
            r.capacity == capacity,
            r@.len() == 0,
    {
        ParquetMetadataCache { capacity, entries: Vec::new() }
    }

    fn position(&self, key: &CacheKey) -> (r: Option<usize>)
        ensures
            match r {
                Some(i) => i < self@.len() && i == find(slot_keys(self@), key@),
                None => find(slot_keys(self@), key@) == self@.len(),
            },
    {
        let ghost keys = slot_keys(self@);
        assert(keys.len() == self.entries@.len());
        let mut i: usize = 0;
        while i < self.entries.len()
            invariant
                i <= self.entries@.len(),
                keys == slot_keys(self@),
                keys.len() == self.entries@.len(),
                forall|k: int| 0 <= k < i ==> keys[k] != key@,
            decreases self.entries@.len() - i,
        {
            assert(keys[i as int] == self.entries@[i as int].0@);
            if self.entries[i].0.same(key) {
                proof {
                    find_is(keys, key@, i as int);
                }
                return Some(i);
            }
            i = i + 1;
        }
        proof {
            find_is(keys, key@, i as int);
        }
        None
    }

    /// What is held for a file. The file then counts as the last one used.
    pub fn get(&mut self, path: &str, checksum: &str) -> (r: Option<Arc<M>>)
        requires
            old(self).well_formed(),
        ensures
            final(self).well_formed(),
            final(self).capacity == old(self).capacity,
            final(self)@ == promoted(old(self)@, (path@, checksum@)),
            r == match held(old(self)@, (path@, checksum@)) {
                Some(entry) => Some(entry.0),
                None => None,
            },
    {
        match self.get_with_footer(path, checksum) {
            Some((metadata, _)) => Some(metadata),
            None => None,
        }
    }

    /// What is held for a file, with its encoded length. The file then counts
    /// as the last one used.
    pub fn get_with_footer(&mut self, path: &str, checksum: &str) -> (r: Option<(Arc<M>, u64)>)
        requires
            old(self).well_formed(),
        ensures
            final(self).well_formed(),
            final(self).capacity == old(self).capacity,
            final(self)@ == promoted(old(self)@, (path@, checksum@)),
            r == held(old(self)@, (path@, checksum@)),
    {
        let key = CacheKey::new(path, checksum);
        let ghost before = self@;
        match self.position(&key) {
            Some(i) => {
                let entry = self.entries.remove(i);
                let metadata = Arc::clone(&entry.1.metadata);
                let metadata_len: u64 = entry.1.metadata_len;
                self.entries.push(entry);
                assert(self@ =~= before.remove(i as int).push(before[i as int]));
                proof {
                    moving_keeps_keys_apart(before, i as int, before[i as int]);
                }
                Some((metadata, metadata_len))
            },
            None => None,
        }
    }

    /// Keeps the footer of a file. A file that is there is replaced. Where
    /// there are too many, the one that was used the longest ago is dropped.
    pub fn put(&mut self, path: &str, checksum: &str, metadata: Arc<M>, metadata_len: u64)
        requires
            old(self).well_formed(),
        ensures
            final(self).well_formed(),
            final(self).capacity == old(self).capacity,
            final(self)@ == with_slot(
                old(self)@,
                old(self).capacity,
                (path@, checksum@),
                (metadata, metadata_len),
            ),
    {
        if self.capacity == 0 {
            return;
        }
        let key = CacheKey::new(path, checksum);
        let ghost before = self@;
        let ghost slot = (key@, (metadata, metadata_len));
        proof {
            find_bounds(slot_keys(before), slot.0);
        }
        match self.position(&key) {
            Some(i) => {
                self.entries.remove(i);
                self.entries.push((key, CachedEntry { metadata, metadata_len }));
                assert(self@ =~= before.remove(i as int).push(slot));
                proof {
                    moving_keeps_keys_apart(before, i as int, slot);
                }
            },
            None => {
                proof {
                    adding_keeps_keys_apart(before, slot);
                }
                if self.entries.len() >= self.capacity {
                    self.entries.remove(0);
                    self.entries.push((key, CachedEntry { metadata, metadata_len }));
                    assert(self@ =~= before.push(slot).drop_first());
                    proof {
                        dropping_keeps_keys_apart(before.push(slot));
                    }
                } else {
                    self.entries.push((key, CachedEntry { metadata, metadata_len }));
                    assert(self@ =~= before.push(slot));
                }
            },
        }
    }

    /// Forgets everything.
    pub fn clear(&mut self)
        ensures
            final(self).well_formed(),
            final(self).capacity == old(self).capacity,
            final(self)@.len() == 0,
    {
        self.entries.clear();
    }

    /// How many files are held.
    pub fn len(&self) -> (r: usize)
        ensures
            r == self@.len(),
    {
        self.entries.len()
    }

    pub fn capacity(&self) -> (r: usize)
        ensures
            r == self.capacity,
    {
        self.capacity
    }
}

proof fn moving_keeps_keys_apart<M>(slots: Seq<Slot<M>>, i: int, slot: Slot<M>)
    requires
        slot_keys(slots).no_duplicates(),
        0 <= i < slots.len(),
        slot.0 == slots[i].0,
    ensures
        slot_keys(slots.remove(i).push(slot)).no_duplicates(),
{
    let keys = slot_keys(slots);
    let after = slot_keys(slots.remove(i).push(slot));
    let n = slots.len() - 1;
    assert forall|a: int, b: int| 0 <= a < after.len() && 0 <= b < after.len() && a
        != b implies after[a] != after[b] by {
        let x = if a == n {
            i
        } else if a < i {
            a
        } else {
            a + 1
        };
        let y = if b == n {
            i
        } else if b < i {
            b
        } else {
            b + 1
        };
        assert(after[a] == keys[x]);
        assert(after[b] == keys[y]);
        assert(x != y);
    }
}

proof fn adding_keeps_keys_apart<M>(slots: Seq<Slot<M>>, slot: Slot<M>)
    requires
        slot_keys(slots).no_duplicates(),
        find(slot_keys(slots), slot.0) == slots.len(),
    ensures
        slot_keys(slots.push(slot)).no_duplicates(),
{
    let keys = slot_keys(slots);
    let after = slot_keys(slots.push(slot));
    find_bounds(keys, slot.0);
    assert forall|a: int, b: int| 0 <= a < after.len() && 0 <= b < after.len() && a
        != b implies after[a] != after[b] by {
        if a < slots.len() {
            assert(after[a] == keys[a]);
        }
        if b < slots.len() {
            assert(after[b] == keys[b]);
        }
    }
}

proof fn dropping_keeps_keys_apart<M>(slots: Seq<Slot<M>>)
    requires
        slot_keys(slots).no_duplicates(),
        slots.len() > 0,
    ensures
        slot_keys(slots.drop_first()).no_duplicates(),
{
    let keys = slot_keys(slots);
    let after = slot_keys(slots.drop_first());
    assert forall|a: int, b: int| 0 <= a < after.len() && 0 <= b < after.len() && a
        != b implies after[a] != after[b] by {
        assert(after[a] == keys[a + 1]);
        assert(after[b] == keys[b + 1]);
    }
}

proof fn held_is<M>(slots: Seq<Slot<M>>, i: int)
    requires
        slot_keys(slots).no_duplicates(),
        0 <= i < slots.len(),
    ensures
        held(slots, slots[i].0) == Some(slots[i].1),
{
    let keys = slot_keys(slots);
    assert(keys[i] == slots[i].0);
    find_is(keys, slots[i].0, i);
}

proof fn not_held<M>(slots: Seq<Slot<M>>, key: KeyView)
    ensures
        held(slots, key) is None <==> !slot_keys(slots).contains(key),
{
    let keys = slot_keys(slots);
    find_bounds(keys, key);
    if keys.contains(key) {
        let i = keys.index_of(key);
        assert(keys[i] == key);
    }
}

/// What was put is there: the next use of the file gives it back, unless the
/// cache is disabled.
pub proof fn put_then_get<M>(
    slots: Seq<Slot<M>>,
    capacity: usize,
    key: KeyView,
    entry: (Arc<M>, u64),
)
    requires
        slot_keys(slots).no_duplicates(),
        slots.len() <= capacity,
    ensures
        held(with_slot(slots, capacity, key, entry), key) == if capacity > 0 {
            Some(entry)
        } else {
            None
        },
{
    let i = find(slot_keys(slots), key);
    let after = with_slot(slots, capacity, key, entry);
    find_bounds(slot_keys(slots), key);
    if capacity > 0 {
        if i < slots.len() {
            moving_keeps_keys_apart(slots, i, (key, entry));
        } else {
            adding_keeps_keys_apart(slots, (key, entry));
            if slots.len() + 1 > capacity {
                dropping_keeps_keys_apart(slots.push((key, entry)));
            }
        }
        assert(after[after.len() - 1] == (key, entry));
        held_is(after, after.len() - 1);
    }
}

/// Using a file changes what is held for no file.
pub proof fn get_changes_no_contents<M>(slots: Seq<Slot<M>>, used: KeyView, key: KeyView)
    requires
        slot_keys(slots).no_duplicates(),
    ensures
        held(promoted(slots, used), key) == held(slots, key),
{
    let i = find(slot_keys(slots), used);
    find_bounds(slot_keys(slots), used);
    if i < slots.len() {
        let after = slots.remove(i).push(slots[i]);
        moving_keeps_keys_apart(slots, i, slots[i]);
        moved_holds_the_same(slots, i, slots[i], key);
    }
}

proof fn moved_holds_the_same<M>(slots: Seq<Slot<M>>, i: int, slot: Slot<M>, key: KeyView)
    requires
        slot_keys(slots).no_duplicates(),
        0 <= i < slots.len(),
        slot.0 == slots[i].0,
    ensures
        key != slot.0 ==> held(slots.remove(i).push(slot), key) == held(slots, key),
        key == slot.0 ==> held(slots.remove(i).push(slot), key) == Some(slot.1),
        held(slots, slot.0) == Some(slots[i].1),
{
    let after = slots.remove(i).push(slot);
    moving_keeps_keys_apart(slots, i, slot);
    held_is(slots, i);
    assert(after[after.len() - 1] == slot);
    held_is(after, after.len() - 1);
    let keys = slot_keys(slots);
    if key != slot.0 {
        not_held(slots, key);
        not_held(after, key);
        if keys.contains(key) {
            let k = keys.index_of(key);
            let m = if k < i {
                k
            } else {
                k - 1
            };
            assert(k != i);
            assert(after[m] == slots[k]);
            held_is(slots, k);
            held_is(after, m);
        } else if slot_keys(after).contains(key) {
            let m = slot_keys(after).index_of(key);
            let k = if m < i {
                m
            } else {
                m + 1
            };
            assert(keys[k] == key);
        }
    }
}

/// Putting a file changes nothing of the others, except that where the cache
/// is full the one that was used the longest ago is dropped: only that one, and
/// only for a file that was not there.
pub proof fn put_drops_only_the_oldest<M>(
    slots: Seq<Slot<M>>,
    capacity: usize,
    key: KeyView,
    entry: (Arc<M>, u64),
    other: KeyView,
)
    requires
        slot_keys(slots).no_duplicates(),
        slots.len() <= capacity,
        other != key,
    ensures
        held(with_slot(slots, capacity, key, entry), other) == if held(slots, key) is None
            && slots.len() == capacity && slots.len() > 0 && other == slots[0].0 {
            None
        } else {
            held(slots, other)
        },
{
    let i = find(slot_keys(slots), key);
    let after = with_slot(slots, capacity, key, entry);
    let keys = slot_keys(slots);
    find_bounds(keys, key);
    if capacity > 0 {
        if i < slots.len() {
            moved_holds_the_same(slots, i, (key, entry), other);
        } else {
            adding_keeps_keys_apart(slots, (key, entry));
            let dropped = if slots.len() + 1 > capacity {
                1int
            } else {
                0int
            };
            if dropped == 1 {
                dropping_keeps_keys_apart(slots.push((key, entry)));
            }
            not_held(slots, other);
            not_held(after, other);
            if keys.contains(other) {
                let k = keys.index_of(other);
                held_is(slots, k);
                if k >= dropped {
                    assert(after[k - dropped] == slots[k]);
                    held_is(after, k - dropped);
                } else {
                    assert(k == 0);
                    if slot_keys(after).contains(other) {
                        let m = slot_keys(after).index_of(other);
                        if m + 1 < slots.len() {
                            assert(keys[m + 1] == other);
                        }
                    }
                }
                if other == slots[0].0 {
                    assert(keys[0] == other);
                }
            } else {
                if slot_keys(after).contains(other) {
                    let m = slot_keys(after).index_of(other);
                    if m + dropped < slots.len() {
                        assert(keys[m + dropped] == other);
                    }
                }
                if slots.len() > 0 && other == slots[0].0 {
                    assert(keys[0] == other);
                }
            }
        }
    }
}

/// What is held for a file is what one of its slots holds, and nothing only
/// where no slot is for the file.
pub proof fn files_hold_what_their_slot_holds<M>(slots: Seq<Slot<M>>, key: KeyView)
    ensures
        match held(slots, key) {
            Some(entry) => slots.contains((key, entry)),
            None => forall|i: int| 0 <= i < slots.len() ==> (#[trigger] slots[i]).0 != key,
        },
{
    let keys = slot_keys(slots);
    let i = find(keys, key);
    find_bounds(keys, key);
    if i < slots.len() {
        assert(keys[i] == slots[i].0);
        assert(slots[i] == (key, slots[i].1));
    } else {
        assert forall|k: int| 0 <= k < slots.len() implies (#[trigger] slots[k]).0 != key by {
            assert(keys[k] == slots[k].0);
        }
    }
}

/// Whether the file `a` was last used before the file `b`.
pub open spec fn used_before<M>(slots: Seq<Slot<M>>, a: KeyView, b: KeyView) -> bool {
    exists|i: int, j: int|
        0 <= i < j < slots.len() && (#[trigger] slots[i]).0 == a && (#[trigger] slots[j]).0 == b
}

proof fn moving_keeps_the_order<M>(
    slots: Seq<Slot<M>>,
    i: int,
    slot: Slot<M>,
    a: KeyView,
    b: KeyView,
)
    requires
        0 <= i < slots.len(),
        slot.0 == slots[i].0,
        a != slot.0,
        b != slot.0,
    ensures
        used_before(slots.remove(i).push(slot), a, b) <==> used_before(slots, a, b),
{
    let after = slots.remove(i).push(slot);
    if used_before(slots, a, b) {
        let (x, y) = choose|x: int, y: int|
            0 <= x < y < slots.len() && (#[trigger] slots[x]).0 == a && (#[trigger] slots[y]).0
                == b;
        let p = if x < i {
            x
        } else {
            x - 1
        };
        let q = if y < i {
            y
        } else {
            y - 1
        };
        assert(after[p] == slots[x]);
        assert(after[q] == slots[y]);
    }
    if used_before(after, a, b) {
        let (p, q) = choose|p: int, q: int|
            0 <= p < q < after.len() && (#[trigger] after[p]).0 == a && (#[trigger] after[q]).0
                == b;
        let x = if p < i {
            p
        } else {
            p + 1
        };
        let y = if q < i {
            q
        } else {
            q + 1
        };
        assert(after[p] == slots[x]);
        assert(after[q] == slots[y]);
    }
}

/// A file that is used becomes the last one used, and the others keep their
/// order.
pub proof fn used_files_come_last<M>(slots: Seq<Slot<M>>, used: KeyView, a: KeyView, b: KeyView)
    requires
        a != used,
        b != used,
    ensures
        held(slots, used) is Some ==> promoted(slots, used).len() > 0 && promoted(
            slots,
            used,
        ).last().0 == used,
        used_before(promoted(slots, used), a, b) <==> used_before(slots, a, b),
{
    let keys = slot_keys(slots);
    let i = find(keys, used);
    find_bounds(keys, used);
    if i < slots.len() {
        assert(keys[i] == slots[i].0);
        moving_keeps_the_order(slots, i, slots[i], a, b);
    }
}

/// A file that is put becomes the last one used, the others keep their order,
/// and there are never more than the capacity admits.
pub proof fn put_files_come_last<M>(
    slots: Seq<Slot<M>>,
    capacity: usize,
    key: KeyView,
    entry: (Arc<M>, u64),
    a: KeyView,
    b: KeyView,
)
    requires
        slots.len() <= capacity,
        a != key,
        b != key,
    ensures
        with_slot(slots, capacity, key, entry).len() <= capacity,
        capacity > 0 ==> with_slot(slots, capacity, key, entry).last() == (key, entry),
        used_before(with_slot(slots, capacity, key, entry), a, b) ==> used_before(slots, a, b),
{
    let keys = slot_keys(slots);
    let i = find(keys, key);
    find_bounds(keys, key);
    let after = with_slot(slots, capacity, key, entry);
    if capacity > 0 {
        if i < slots.len() {
            assert(keys[i] == slots[i].0);
            moving_keeps_the_order(slots, i, (key, entry), a, b);
        } else if used_before(after, a, b) {
            let dropped = if slots.len() + 1 > capacity {
                1int
            } else {
                0int
            };
            let (p, q) = choose|p: int, q: int|
                0 <= p < q < after.len() && (#[trigger] after[p]).0 == a && (#[trigger] after[q]).0
                    == b;
            assert(after[p] == slots[p + dropped]);
            assert(after[q] == slots[q + dropped]);
        }
    }
}

} // verus!
