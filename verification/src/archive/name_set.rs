//! A set of byte strings, spread over a fixed table of buckets.

use vstd::prelude::*;

verus! {

pub const BUCKETS: usize = 4096;

/// The bucket a name belongs to.
pub open spec fn bucket(name: Seq<u8>) -> int
    decreases name.len(),
{
    if name.len() == 0 {
        0
    } else {
        (bucket(name.drop_last()) * 31 + name.last()) % 4096
    }
}

fn bucket_of(name: &[u8]) -> (out: usize)
    ensures
        out == bucket(name@),
        out < BUCKETS,
{
    let mut out: usize = 0;
    let mut i: usize = 0;
    while i < name.len()
        invariant
            i <= name.len(),
            out < 4096,
            out == bucket(name@.subrange(0, i as int)),
        decreases name.len() - i,
    {
        out = (out * 31 + name[i] as usize) % 4096;
        i += 1;
        proof {
            assert(name@.subrange(0, i as int).drop_last() == name@.subrange(0, i - 1));
        }
    }
    proof {
        assert(name@.subrange(0, name@.len() as int) == name@);
    }
    out
}

/// Whether two byte strings are the same.
pub fn same_bytes(a: &[u8], b: &[u8]) -> (out: bool)
    ensures
        out == (a@ == b@),
{
    if a.len() != b.len() {
        return false;
    }
    let mut i: usize = 0;
    while i < a.len()
        invariant
            i <= a.len(),
            a.len() == b.len(),
            forall|j: int| 0 <= j < i ==> a@[j] == b@[j],
        decreases a.len() - i,
    {
        if a[i] != b[i] {
            return false;
        }
        i += 1;
    }
    proof {
        assert(a@ == b@);
    }
    true
}

/// A copy of a byte string.
pub fn copy_bytes(a: &[u8]) -> (out: Vec<u8>)
    ensures
        out@ == a@,
{
    let mut out: Vec<u8> = Vec::with_capacity(a.len());
    let mut i: usize = 0;
    while i < a.len()
        invariant
            i <= a.len(),
            out@ == a@.subrange(0, i as int),
        decreases a.len() - i,
    {
        out.push(a[i]);
        i += 1;
        proof {
            assert(a@.subrange(0, i as int) == a@.subrange(0, i - 1).push(a@[i - 1]));
        }
    }
    proof {
        assert(a@.subrange(0, a@.len() as int) == a@);
    }
    out
}

pub struct NameSet {
    buckets: Vec<Vec<Vec<u8>>>,
    count: usize,
}

impl NameSet {
    closed spec fn holds(self, name: Seq<u8>) -> bool {
        exists|j: int| 0 <= j < self.buckets@[bucket(name)].len() && #[trigger] self.buckets@[bucket(name)]@[j]@ == name
    }

    /// The names in the set.
    pub closed spec fn view(&self) -> Set<Seq<u8>> {
        Set::new(|name: Seq<u8>| self.holds(name))
    }

    pub closed spec fn wf(&self) -> bool {
        &&& self.buckets@.len() == BUCKETS
        &&& self@.finite()
        &&& self.count == self@.len()
    }

    pub fn new() -> (out: NameSet)
        ensures
            out.wf(),
            out@ == Set::<Seq<u8>>::empty(),
    {
        let mut buckets: Vec<Vec<Vec<u8>>> = Vec::with_capacity(BUCKETS);
        let mut i: usize = 0;
        while i < BUCKETS
            invariant
                i <= BUCKETS,
                buckets@.len() == i,
                forall|k: int| 0 <= k < i ==> (#[trigger] buckets@[k])@.len() == 0,
            decreases BUCKETS - i,
        {
            buckets.push(Vec::new());
            i += 1;
        }
        let out = NameSet { buckets, count: 0 };
        proof {
            assert forall|name: Seq<u8>| !out.holds(name) by {
                lemma_bucket_bounds(name);
            }
            assert(out@ =~= Set::<Seq<u8>>::empty());
        }
        out
    }

    pub fn contains(&self, name: &[u8]) -> (out: bool)
        requires
            self.wf(),
        ensures
            out == self@.contains(name@),
    {
        let b = bucket_of(name);
        let mut j: usize = 0;
        while j < self.buckets[b].len()
            invariant
                self.wf(),
                b == bucket(name@),
                b < BUCKETS,
                j <= self.buckets@[b as int].len(),
                forall|k: int| 0 <= k < j ==> (#[trigger] self.buckets@[b as int]@[k])@ != name@,
            decreases self.buckets@[b as int].len() - j,
        {
            if same_bytes(self.buckets[b][j].as_slice(), name) {
                proof {
                    assert(self.buckets@[bucket(name@)]@[j as int]@ == name@);
                }
                return true;
            }
            j += 1;
        }
        false
    }

    pub fn len(&self) -> (out: usize)
        requires
            self.wf(),
        ensures
            out == self@.len(),
    {
        self.count
    }

    /// Adds a name and says whether it was new.
    pub fn insert(&mut self, name: &[u8]) -> (out: bool)
        requires
            old(self).wf(),
            old(self)@.len() < usize::MAX,
        ensures
            final(self).wf(),
            final(self)@ == old(self)@.insert(name@),
            final(self)@.len() == old(self)@.len() + (if out { 1int } else { 0int }),
            out == !old(self)@.contains(name@),
    {
        let ghost before = *self;
        if self.contains(name) {
            proof {
                assert(self@.insert(name@) =~= self@);
            }
            return false;
        }
        let b = bucket_of(name);
        let copy = copy_bytes(name);
        self.buckets[b].push(copy);
        self.count = self.count + 1;
        proof {
            let after = *self;
            assert forall|other: Seq<u8>| #[trigger] after.holds(other) == (before.holds(other) || other == name@) by {
                lemma_bucket_bounds(other);
                if before.holds(other) {
                    let j = choose|j: int| 0 <= j < before.buckets@[bucket(other)].len() && #[trigger] before.buckets@[bucket(other)]@[j]@ == other;
                    assert(after.buckets@[bucket(other)]@[j]@ == other);
                }
                if other == name@ {
                    let j = before.buckets@[b as int].len() as int;
                    assert(after.buckets@[bucket(other)]@[j]@ == other);
                }
                if after.holds(other) && other != name@ {
                    let j = choose|j: int| 0 <= j < after.buckets@[bucket(other)].len() && #[trigger] after.buckets@[bucket(other)]@[j]@ == other;
                    assert(before.buckets@[bucket(other)]@[j]@ == other);
                }
            }
            assert(self@ =~= before@.insert(name@));
        }
        true
    }
}

proof fn lemma_bucket_bounds(name: Seq<u8>)
    ensures
        0 <= bucket(name) < BUCKETS,
    decreases name.len(),
{
    if name.len() > 0 {
        lemma_bucket_bounds(name.drop_last());
    }
}

} // verus!
