//! Distinct keys in the order in which they were first seen.
//!
//! A [`KeyTable`] numbers the keys that are added to it and finds the number
//! of a key again. Keys are spread over buckets by a digest, so that finding
//! one looks at few others.
use std::collections::HashMap;

use vstd::prelude::*;

use crate::scalar::{views, Scalar, ScalarValue, ScalarView};
use crate::text::{find, find_is};

verus! {

/// The modulus of the digest: a prime below 2^32.
const MODULUS: u64 = 4294967291;

/// One step of the digest.
pub open spec fn mixed(h: u64, v: u64) -> u64 {
    ((h as int * 31 + v as int % 4294967291) % 4294967291) as u64
}

fn mix(h: u64, v: u64) -> (r: u64)
    requires
        h < 4294967291,
    ensures
        r == mixed(h, v),
        r < 4294967291,
{
    (h * 31 + v % MODULUS) % MODULUS
}

/// The digest of a text.
pub open spec fn text_digest(s: Seq<char>) -> u64
    decreases s.len(),
{
    if s.len() == 0 {
        17
    } else {
        mixed(text_digest(s.drop_last()), s.last() as u64)
    }
}

fn digest_text(s: &str) -> (r: u64)
    ensures
        r == text_digest(s@),
{
    let mut h: u64 = 17;
    assert(s@.take(0) =~= Seq::<char>::empty());
    for c in it: s.chars()
        invariant
            it.seq() == s@,
            h < 4294967291,
            h == text_digest(s@.take(it.index() as int)),
    {
        let ghost n = it.index() as int;
        assert(s@.take(n + 1).drop_last() =~= s@.take(n));
        h = mix(h, c as u64);
    }
    assert(s@.take(s@.len() as int) =~= s@);
    h
}

/// The bucket of a key.
pub open spec fn digest(key: ScalarView) -> u64 {
    match key {
        Scalar::Int64(Some(v)) => v as u64,
        Scalar::Int32(Some(v)) => v as u64,
        Scalar::Int16(Some(v)) => v as u64,
        Scalar::Int8(Some(v)) => v as u64,
        Scalar::UInt64(Some(v)) => v,
        Scalar::UInt32(Some(v)) => v as u64,
        Scalar::UInt16(Some(v)) => v as u64,
        Scalar::UInt8(Some(v)) => v as u64,
        Scalar::Float32(Some(v)) => v.widened,
        Scalar::Float64(Some(v)) => v,
        Scalar::Utf8(Some(s)) => text_digest(s),
        Scalar::LargeUtf8(Some(s)) => text_digest(s),
        Scalar::Utf8View(Some(s)) => text_digest(s),
        Scalar::Other { text: Some(s), .. } => text_digest(s),
        _ => 0,
    }
}

fn digest_of(key: &ScalarValue) -> (r: u64)
    ensures
        r == digest(key@),
{
    match key {
        Scalar::Int64(Some(v)) => *v as u64,
        Scalar::Int32(Some(v)) => *v as u64,
        Scalar::Int16(Some(v)) => *v as u64,
        Scalar::Int8(Some(v)) => *v as u64,
        Scalar::UInt64(Some(v)) => *v,
        Scalar::UInt32(Some(v)) => *v as u64,
        Scalar::UInt16(Some(v)) => *v as u64,
        Scalar::UInt8(Some(v)) => *v as u64,
        Scalar::Float32(Some(v)) => v.widened,
        Scalar::Float64(Some(v)) => *v,
        Scalar::Utf8(Some(s)) => digest_text(s.as_str()),
        Scalar::LargeUtf8(Some(s)) => digest_text(s.as_str()),
        Scalar::Utf8View(Some(s)) => digest_text(s.as_str()),
        Scalar::Other { text: Some(s), .. } => digest_text(s.as_str()),
        _ => 0,
    }
}

/// Distinct keys, numbered from 0 in the order in which they were added.
pub struct KeyTable {
    keys: Vec<ScalarValue>,
    buckets: HashMap<u64, Vec<usize>>,
}

impl View for KeyTable {
    type V = Seq<ScalarView>;

    closed spec fn view(&self) -> Seq<ScalarView> {
        views(self.keys@)
    }
}

impl KeyTable {
    /// No key occurs twice, and each stands in the bucket of its digest.
    pub closed spec fn well_formed(self) -> bool {
        &&& self@.no_duplicates()
        &&& forall|i: int|
            0 <= i < self@.len() ==> self.buckets@.contains_key(digest(#[trigger] self@[i]))
                && self.buckets@[digest(self@[i])]@.contains(i as usize)
        &&& forall|d: u64, j: int|
            self.buckets@.contains_key(d) && 0 <= j < self.buckets@[d]@.len() ==> (
            #[trigger] self.buckets@[d]@[j]) < self@.len()
    }

    pub proof fn no_repeats(self)
        requires
            self.well_formed(),
        ensures
            self@.no_duplicates(),
    {
    }

    pub fn new() -> (r: KeyTable)
        ensures
            r.well_formed(),
            r@ == Seq::<ScalarView>::empty(),
    {
        let r = KeyTable { keys: Vec::new(), buckets: HashMap::new() };
        assert(r@ =~= Seq::<ScalarView>::empty());
        r
    }

    pub fn len(&self) -> (r: usize)
        ensures
            r == self@.len(),
    {
        self.keys.len()
    }

    /// The number of a key, if it was added.
    pub fn slot_of(&self, key: &ScalarValue) -> (r: Option<usize>)
        requires
            self.well_formed(),
        ensures
            r is Some <==> self@.contains(key@),
            r matches Some(i) ==> i < self@.len() && self@[i as int] == key@ && i == find(
                self@,
                key@,
            ),
    {
        let d: u64 = digest_of(key);
        match self.buckets.get(&d) {
            None => None,
            Some(bucket) => {
                let mut j: usize = 0;
                while j < bucket.len()
                    invariant
                        j <= bucket@.len(),
                        self.well_formed(),
                        d == digest(key@),
                        self.buckets@.contains_key(d),
                        *bucket == self.buckets@[d],
                        forall|k: int| 0 <= k < j ==> self@[(#[trigger] bucket@[k]) as int] != key@,
                    decreases bucket@.len() - j,
                {
                    let i: usize = bucket[j];
                    assert(self.buckets@[d]@[j as int] < self@.len());
                    if self.keys[i].same(key) {
                        proof {
                            assert(self@[i as int] == key@);
                            assert forall|k: int| 0 <= k < i implies self@[k] != key@ by {
                                assert(self@.no_duplicates());
                            }
                            find_is(self@, key@, i as int);
                        }
                        return Some(i);
                    }
                    j = j + 1;
                }
                assert(!self@.contains(key@)) by {
                    if self@.contains(key@) {
                        assert(self@.len() == self.keys.len());
                        let i = choose|i: int| 0 <= i < self@.len() && self@[i] == key@;
                        assert(self.buckets@[digest(self@[i])]@.contains(i as usize));
                        let k = choose|k: int|
                            0 <= k < bucket@.len() && bucket@[k] == i as usize;
                        assert(self@[bucket@[k] as int] != key@);
                    }
                }
                None
            },
        }
    }

    /// Adds a key that is not there yet; its number is the former length.
    pub fn insert(&mut self, key: ScalarValue)
        requires
            old(self).well_formed(),
            !old(self)@.contains(key@),
        ensures
            final(self).well_formed(),
            final(self)@ == old(self)@.push(key@),
    {
        let ghost before = *self;
        let d: u64 = digest_of(&key);
        let slot: usize = self.keys.len();
        let mut bucket: Vec<usize> = match self.buckets.remove(&d) {
            Some(b) => b,
            None => Vec::new(),
        };
        let ghost old_bucket = bucket@;
        bucket.push(slot);
        self.buckets.insert(d, bucket);
        self.keys.push(key);
        assert(self@ =~= before@.push(key@));
        assert forall|i: int| 0 <= i < self@.len() implies self.buckets@.contains_key(
            digest(#[trigger] self@[i]),
        ) && self.buckets@[digest(self@[i])]@.contains(i as usize) by {
            if i == slot {
                assert(bucket@[old_bucket.len() as int] == slot);
            } else {
                assert(self@[i] == before@[i]);
                let e = digest(before@[i]);
                assert(before.buckets@.contains_key(e) && before.buckets@[e]@.contains(i as usize));
                if e == d {
                    let k = choose|k: int|
                        0 <= k < old_bucket.len() && old_bucket[k] == i as usize;
                    assert(bucket@[k] == i as usize);
                }
            }
        }
        assert forall|e: u64, j: int|
            self.buckets@.contains_key(e) && 0 <= j < self.buckets@[e]@.len() implies (
        #[trigger] self.buckets@[e]@[j]) < self@.len() by {
            if e == d {
                if j < old_bucket.len() {
                    assert(before.buckets@.contains_key(d));
                    assert(before.buckets@[d]@[j] < before@.len());
                }
            } else {
                assert(before.buckets@[e]@[j] < before@.len());
            }
        }
    }
}

} // verus!
