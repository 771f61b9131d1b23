//! The paths that a walk has met, with a quick test for membership.

use crate::text::texts;
use std::collections::HashMap;
use vstd::prelude::*;

verus! {

broadcast use vstd::std_specs::hash::group_hash_axioms;

/// The number `i` stands in a bucket.
spec fn holds(bucket: Seq<usize>, i: int) -> bool {
    exists|k: int| 0 <= k < bucket.len() && #[trigger] bucket[k] == i
}

/// The hash of the first `upto` characters of a text.
spec fn hash_from(s: Seq<char>, upto: int) -> u64
    decreases upto,
{
    if upto <= 0 || upto > s.len() {
        14695981039346656037u64
    } else {
        (((hash_from(s, upto - 1) ^ (s[upto - 1] as u64)) as int * 1099511628211)
            % 0x1_0000_0000_0000_0000) as u64
    }
}

/// The hash of a text: equal texts have equal hashes.
spec fn hash_of(s: Seq<char>) -> u64 {
    hash_from(s, s.len() as int)
}

/// Computes the hash of a text.
fn hash(s: &str) -> (h: u64)
    ensures
        h == hash_of(s@),
{
    let mut h: u64 = 14695981039346656037u64;
    for c in it: s.chars()
        invariant
            it.seq() == s@,
            h == hash_from(s@, it.index() as int),
    {
        h = (h ^ (c as u64)).wrapping_mul(1099511628211u64);
    }
    h
}

/// A list of paths with an index that finds a path by its hash. The list
/// keeps the order in which the paths were added.
pub struct PathSet {
    items: Vec<String>,
    index: HashMap<u64, Vec<usize>>,
}

impl View for PathSet {
    type V = Seq<Seq<char>>;

    closed spec fn view(&self) -> Seq<Seq<char>> {
        texts(self.items@)
    }
}

impl PathSet {
    /// The index is in order: it leads to every path of the list, and to
    /// nothing else. Every list that this module hands out is in order, and
    /// stays so.
    pub closed spec fn wf(&self) -> bool {
        &&& forall|i: int|
            0 <= i < self.items@.len() ==> self.index@.dom().contains(
                hash_of(#[trigger] self.items@[i]@),
            ) && holds(self.index@[hash_of(self.items@[i]@)]@, i)
        &&& forall|h: u64, k: int|
            self.index@.dom().contains(h) && 0 <= k < self.index@[h]@.len() ==> (#[trigger] self.index@[h]@[k]) < self.items@.len()
    }

    /// An empty list.
    pub fn new() -> (set: PathSet)
        ensures
            set.wf(),
            set@ == Seq::<Seq<char>>::empty(),
    {
        let set = PathSet { items: Vec::new(), index: HashMap::new() };
        set
    }

    /// Tests whether a path stands in the list.
    pub fn contains(&self, path: &String) -> (b: bool)
        requires
            self.wf(),
        ensures
            b == self@.contains(path@),
    {
        let h = hash(path.as_str());
        match self.index.get(&h) {
            Some(bucket) => {
                let mut k: usize = 0;
                while k < bucket.len()
                    invariant
                        self.wf(),
                        k <= bucket@.len(),
                        self.index@.dom().contains(h),
                        bucket@ == self.index@[h]@,
                        forall|j: int| 0 <= j < k ==> self.items@[bucket@[j] as int]@ != path@,
                    decreases bucket@.len() - k,
                {
                    let i = bucket[k];
                    if self.items[i] == *path {
                        assert(texts(self.items@)[i as int] == path@);
                        return true;
                    }
                    k += 1;
                }
                false
            },
            None => {
                false
            },
        }
    }

    /// The paths, in the order in which they were added.
    pub fn items(&self) -> (items: &Vec<String>)
        ensures
            texts(items@) == self@,
    {
        &self.items
    }

    /// Adds a path at the end of the list.
    pub fn push(&mut self, path: String)
        requires
            old(self).wf(),
        ensures
            final(self).wf(),
            final(self)@ == old(self)@.push(path@),
    {
        let h = hash(path.as_str());
        let at = self.items.len();
        let mut bucket: Vec<usize> = match self.index.remove(&h) {
            Some(bucket) => bucket,
            None => Vec::new(),
        };
        let ghost before = bucket@;
        bucket.push(at);
        self.index.insert(h, bucket);
        self.items.push(path);
        proof {
            assert forall|i: int| 0 <= i < self.items@.len() implies self.index@.dom().contains(
                hash_of(#[trigger] self.items@[i]@),
            ) && holds(self.index@[hash_of(self.items@[i]@)]@, i) by {
                let g = hash_of(self.items@[i]@);
                if i < at {
                    if g == h {
                        let k = choose|k: int| 0 <= k < before.len() && #[trigger] before[k] == i;
                        assert(self.index@[h]@[k] == i);
                    }
                } else {
                    assert(self.index@[h]@[before.len() as int] == i);
                }
            }
        }
    }
}

} // verus!
