//! A table of names that finds a name's number without comparing it to
//! every other name.

use std::collections::HashMap;
use vstd::prelude::*;

verus! {

broadcast use vstd::std_specs::hash::group_hash_axioms;

/// The number under which a name is filed.
pub open spec fn hash_of(name: Seq<u8>) -> u64
    decreases name.len(),
{
    if name.len() == 0 {
        7
    } else {
        ((hash_of(name.drop_last()) * 31 + name.last()) % 1_000_000_007) as u64
    }
}

/// The last of the first `k` entries of `names` that equals `name`.
pub open spec fn find_last(names: Seq<Seq<u8>>, name: Seq<u8>, k: int) -> Option<int>
    decreases k,
{
    if k <= 0 {
        None
    } else if names[k - 1] == name {
        Some(k - 1)
    } else {
        find_last(names, name, k - 1)
    }
}

/// What [`find_last`] finds is the highest position that holds the name.
pub proof fn lemma_find_last(names: Seq<Seq<u8>>, name: Seq<u8>, k: int)
    requires
        0 <= k <= names.len(),
    ensures
        match find_last(names, name, k) {
            Some(i) => 0 <= i < k && names[i] == name && forall|j: int|
                i < j < k ==> names[j] != name,
            None => forall|j: int| 0 <= j < k ==> names[j] != name,
        },
    decreases k,
{
    if k > 0 {
        lemma_find_last(names, name, k - 1);
    }
}

/// Whether two byte strings are equal.
pub fn bytes_eq(a: &[u8], b: &[u8]) -> (r: bool)
    ensures
        r == (a@ == b@),
{
    if a.len() != b.len() {
        return false;
    }
    let mut i: usize = 0;
    while i < a.len()
        invariant
            i <= a@.len() == b@.len(),
            forall|j: int| 0 <= j < i ==> a@[j] == b@[j],
        decreases a@.len() - i,
    {
        if a[i] != b[i] {
            return false;
        }
        i = i + 1;
    }
    assert(a@ =~= b@);
    true
}

/// Computes [`hash_of`].
fn hash(name: &[u8]) -> (h: u64)
    ensures
        h == hash_of(name@),
{
    let mut h: u64 = 7;
    let mut i: usize = 0;
    assert(name@.take(0) =~= Seq::<u8>::empty());
    while i < name.len()
        invariant
            i <= name@.len(),
            h == hash_of(name@.take(i as int)),
            h < 1_000_000_007,
        decreases name@.len() - i,
    {
        assert(name@.take(i + 1).drop_last() =~= name@.take(i as int));
        h = (h * 31 + name[i] as u64) % 1_000_000_007;
        i = i + 1;
    }
    assert(name@.take(name@.len() as int) =~= name@);
    h
}

/// A list of names, numbered from 0 in the order in which they were added.
/// A name may be added again; it is then found under its latest number.
#[derive(Debug)]
pub struct NameTable {
    names: Vec<Vec<u8>>,
    buckets: HashMap<u64, Vec<usize>>,
}

impl View for NameTable {
    type V = Seq<Seq<u8>>;

    closed spec fn view(&self) -> Seq<Seq<u8>> {
        self.names@.map_values(|n: Vec<u8>| n@)
    }
}

impl NameTable {
    /// Every name is filed where it is looked for. This holds of every
    /// table made by [`NameTable::new`] and changed by the methods below.
    pub closed spec fn wf(&self) -> bool {
        &&& forall|i: int|
            0 <= i < self.names@.len() ==> self.buckets@.contains_key(
                #[trigger] hash_of(self.names@[i]@),
            ) && self.buckets@[hash_of(self.names@[i]@)]@.contains(i as usize)
        &&& forall|h: u64, j: int|
            self.buckets@.contains_key(h) && 0 <= j < self.buckets@[h]@.len() ==> (
            #[trigger] self.buckets@[h]@[j]) < self.names@.len() && hash_of(
                self.names@[self.buckets@[h]@[j] as int]@,
            ) == h
        &&& forall|h: u64, j: int, k: int|
            self.buckets@.contains_key(h) && 0 <= j < k < self.buckets@[h]@.len()
                ==> #[trigger] self.buckets@[h]@[j] < #[trigger] self.buckets@[h]@[k]
    }

    /// A table without names.
    pub fn new() -> (r: NameTable)
        ensures
            r.wf(),
            r@ == Seq::<Seq<u8>>::empty(),
    {
        let r = NameTable { names: Vec::new(), buckets: HashMap::new() };
        assert(r@ =~= Seq::<Seq<u8>>::empty());
        r
    }

    /// How many names were added.
    pub fn len(&self) -> (n: usize)
        ensures
            n == self@.len(),
    {
        self.names.len()
    }

    /// Adds `name` under the next number.
    pub fn push(&mut self, name: Vec<u8>)
        requires
            old(self).wf(),
        ensures
            final(self).wf(),
            final(self)@ == old(self)@.push(name@),
    {
        let ghost names0 = self.names@;
        let ghost buckets0 = self.buckets@;
        let h = hash(name.as_slice());
        let i = self.names.len();
        let mut bucket: Vec<usize> = match self.buckets.remove(&h) {
            Some(b) => b,
            None => Vec::new(),
        };
        let ghost bucket0 = bucket@;
        bucket.push(i);
        self.buckets.insert(h, bucket);
        self.names.push(name);
        proof {
            assert(self@ =~= old(self)@.push(name@));
            assert(bucket0.push(i)[bucket0.len() as int] == i);
            assert forall|k: int| 0 <= k < self.names@.len() implies self.buckets@.contains_key(
                #[trigger] hash_of(self.names@[k]@),
            ) && self.buckets@[hash_of(self.names@[k]@)]@.contains(k as usize) by {
                if k < i {
                    let hk = hash_of(names0[k]@);
                    assert(buckets0.contains_key(hk) && buckets0[hk]@.contains(k as usize));
                    if hk == h {
                        let j = choose|j: int| 0 <= j < bucket0.len() && bucket0[j] == k as usize;
                        assert(bucket0.push(i)[j] == k as usize);
                    }
                }
            }
            assert forall|g: u64, j: int|
                self.buckets@.contains_key(g) && 0 <= j < self.buckets@[g]@.len() implies (
            #[trigger] self.buckets@[g]@[j]) < self.names@.len() && hash_of(
                self.names@[self.buckets@[g]@[j] as int]@,
            ) == g by {
                if g == h {
                    if j < bucket0.len() {
                        assert(buckets0.contains_key(h));
                        assert(buckets0[h]@[j] < names0.len());
                    }
                } else {
                    assert(buckets0.contains_key(g));
                    assert(buckets0[g]@[j] < names0.len());
                }
            }
            assert forall|g: u64, j: int, k: int|
                self.buckets@.contains_key(g) && 0 <= j < k < self.buckets@[g]@.len()
                    implies #[trigger] self.buckets@[g]@[j] < #[trigger] self.buckets@[g]@[k] by {
                if g == h {
                    if k < bucket0.len() {
                        assert(buckets0[h]@[j] < buckets0[h]@[k]);
                    } else {
                        assert(buckets0.contains_key(h));
                        assert(buckets0[h]@[j] < names0.len());
                    }
                } else {
                    assert(buckets0[g]@[j] < buckets0[g]@[k]);
                }
            }
        }
    }

    /// The latest number under which `name` was added, if it was.
    pub fn find(&self, name: &[u8]) -> (r: Option<usize>)
        requires
            self.wf(),
        ensures
            match r {
                Some(i) => find_last(self@, name@, self@.len() as int) == Some(i as int),
                None => find_last(self@, name@, self@.len() as int) is None,
            },
    {
        let h = hash(name);
        let n = self.names.len();
        match self.buckets.get(&h) {
            None => {
                proof {
                    let all = self@;
                    lemma_find_last(all, name@, all.len() as int);
                    let last = find_last(all, name@, all.len() as int);
                    if last is Some {
                        let found = last->0;
                        assert(0 <= found < all.len());
                        assert(all[found] == self.names@[found]@);
                        assert(self.buckets@.contains_key(hash_of(self.names@[found]@)));
                        assert(false);
                    }
                }
                None
            },
            Some(bucket) => {
                let mut j: usize = bucket.len();
                while j > 0
                    invariant
                        j <= bucket@.len(),
                        n == self.names@.len(),
                        self.buckets@.contains_key(h),
                        *bucket == self.buckets@[h],
                        h == hash_of(name@),
                        self.wf(),
                        forall|k: int|
                            j <= k < bucket@.len() ==> self.names@[bucket@[k] as int]@ != name@,
                    decreases j,
                {
                    j = j - 1;
                    let i = bucket[j];
                    assert(bucket@[j as int] < self.names@.len());
                    if bytes_eq(self.names[i].as_slice(), name) {
                        proof {
                            let all = self@;
                            lemma_find_last(all, name@, all.len() as int);
                            assert(all[i as int] == self.names@[i as int]@);
                            assert(all[i as int] == name@);
                            let last = find_last(all, name@, all.len() as int);
                            assert(last is Some);
                            let found = last->0;
                            assert(0 <= found < all.len());
                            assert(found >= i);
                            if found > i {
                                assert(all[found] == self.names@[found]@);
                                assert(hash_of(self.names@[found]@) == h);
                                assert(bucket@.contains(found as usize));
                                let k = choose|k: int|
                                    0 <= k < bucket@.len() && bucket@[k] == found as usize;
                                if k < j {
                                    assert(bucket@[k] < bucket@[j as int]);
                                } else if k > j {
                                    assert(self.names@[bucket@[k] as int]@ != name@);
                                }
                                assert(false);
                            }
                        }
                        return Some(i);
                    }
                }
                proof {
                    let all = self@;
                    lemma_find_last(all, name@, all.len() as int);
                    let last = find_last(all, name@, all.len() as int);
                    if last is Some {
                        let found = last->0;
                        assert(0 <= found < all.len());
                        assert(all[found] == self.names@[found]@);
                        assert(hash_of(self.names@[found]@) == h);
                        assert(bucket@.contains(found as usize));
                        let k = choose|k: int|
                            0 <= k < bucket@.len() && bucket@[k] == found as usize;
                        assert(self.names@[bucket@[k] as int]@ != name@);
                        assert(false);
                    }
                }
                None
            },
        }
    }

    /// The number of `name`, which is added under the next number if it is
    /// not in the table yet.
    pub fn intern(&mut self, name: Vec<u8>) -> (r: usize)
        requires
            old(self).wf(),
        ensures
            final(self).wf(),
            match find_last(old(self)@, name@, old(self)@.len() as int) {
                Some(i) => r == i && final(self)@ == old(self)@,
                None => r == old(self)@.len() && final(self)@ == old(self)@.push(name@),
            },
    {
        match self.find(name.as_slice()) {
            Some(i) => i,
            None => {
                let i = self.names.len();
                self.push(name);
                i
            },
        }
    }
}

} // verus!
