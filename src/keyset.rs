//! A set of paths, hashed into buckets by their last component.

use vstd::prelude::*;

use crate::union::{key_view, Key};

verus! {

/// The number of buckets.
pub const BUCKETS: usize = 4096;

/// The sum of the code points of a name.
pub open spec fn name_sum(s: Seq<char>) -> int
    decreases s.len(),
{
    if s.len() == 0 {
        0
    } else {
        name_sum(s.drop_last()) + (s.last() as u32) as int
    }
}

/// The bucket a path belongs in.
pub open spec fn bucket_of(k: Key) -> int {
    (k.len() + if k.len() == 0 {
        0
    } else {
        name_sum(k.last())
    }) % (BUCKETS as int)
}

fn bucket_index(k: &Vec<Vec<char>>) -> (r: usize)
    ensures
        r == bucket_of(key_view(*k)),
        r < BUCKETS,
{
    let m = BUCKETS as u64;
    let n = k.len();
    let mut acc: u64 = (n as u64) % m;
    if n == 0 {
        return acc as usize;
    }
    let last = &k[n - 1];
    let ghost s = last@;
    assert(key_view(*k).last() == s);
    let mut i: usize = 0;
    while i < last.len()
        invariant
            i <= s.len(),
            s == last@,
            m == BUCKETS,
            acc < m,
            acc == (n + name_sum(s.subrange(0, i as int))) % (m as int),
        decreases s.len() - i,
    {
        let c = last[i] as u32;
        let ghost x = n + name_sum(s.subrange(0, i as int));
        assert(s.subrange(0, i + 1).drop_last() == s.subrange(0, i as int));
        proof {
            vstd::arithmetic::div_mod::lemma_add_mod_noop_right(c as int, x, m as int);
            vstd::arithmetic::div_mod::lemma_mod_bound(acc + c, m as int);
        }
        acc = (acc + c as u64) % m;
        i = i + 1;
    }
    assert(s.subrange(0, i as int) == s);
    acc as usize
}

/// Whether two paths have the same components.
pub fn same_key(a: &Vec<Vec<char>>, b: &Vec<Vec<char>>) -> (r: bool)
    ensures
        r == (key_view(*a) == key_view(*b)),
{
    if a.len() != b.len() {
        assert(key_view(*a).len() != key_view(*b).len());
        return false;
    }
    let mut i: usize = 0;
    while i < a.len()
        invariant
            i <= a@.len() == b@.len(),
            forall|j: int| 0 <= j < i ==> a@[j]@ == b@[j]@,
        decreases a@.len() - i,
    {
        if !crate::text::same_chars(a[i].as_slice(), b[i].as_slice()) {
            assert(key_view(*a)[i as int] != key_view(*b)[i as int]);
            return false;
        }
        i = i + 1;
    }
    assert(key_view(*a) =~= key_view(*b));
    true
}

/// A set of paths.
pub struct KeySet {
    buckets: Vec<Vec<Vec<Vec<char>>>>,
}

impl KeySet {
    /// The paths in the set.
    pub closed spec fn view(&self) -> Set<Key> {
        Set::new(
            |p: Key|
                exists|i: int, j: int|
                    0 <= i < self.buckets@.len() && 0 <= j < self.buckets@[i]@.len() && key_view(
                        #[trigger] self.buckets@[i]@[j],
                    ) == p,
        )
    }

    /// Every bucket holds only the paths that hash to it; an empty set may
    /// have no buckets yet.
    pub closed spec fn wf(&self) -> bool {
        &&& (self.buckets@.len() == BUCKETS || self.buckets@.len() == 0)
        &&& forall|i: int, j: int|
            0 <= i < self.buckets@.len() && 0 <= j < self.buckets@[i]@.len() ==> bucket_of(
                key_view(#[trigger] self.buckets@[i]@[j]),
            ) == i
    }

    /// The empty set.
    pub fn new() -> (r: KeySet)
        ensures
            r.wf(),
            r.view() == Set::<Key>::empty(),
    {
        let r = KeySet { buckets: Vec::new() };
        assert(r.view() =~= Set::<Key>::empty());
        r
    }

    fn allocate(&mut self)
        requires
            old(self).wf(),
        ensures
            final(self).wf(),
            final(self).buckets@.len() == BUCKETS,
            final(self).view() == old(self).view(),
    {
        if self.buckets.len() != 0 {
            return;
        }
        let mut buckets: Vec<Vec<Vec<Vec<char>>>> = Vec::new();
        let mut i: usize = 0;
        while i < BUCKETS
            invariant
                i <= BUCKETS,
                buckets@.len() == i,
                forall|b: int| 0 <= b < i ==> (#[trigger] buckets@[b])@.len() == 0,
            decreases BUCKETS - i,
        {
            buckets.push(Vec::new());
            i = i + 1;
        }
        self.buckets = buckets;
        assert(self.view() =~= old(self).view());
    }

    /// Whether `k` is in the set.
    pub fn contains(&self, k: &Vec<Vec<char>>) -> (r: bool)
        requires
            self.wf(),
        ensures
            r == self.view().contains(key_view(*k)),
    {
        if self.buckets.len() == 0 {
            assert(self.view() =~= Set::<Key>::empty());
            return false;
        }
        let b = bucket_index(k);
        let bucket = &self.buckets[b];
        let mut j: usize = 0;
        while j < bucket.len()
            invariant
                j <= bucket@.len(),
                b < self.buckets@.len(),
                bucket == self.buckets@[b as int],
                forall|t: int| 0 <= t < j ==> key_view(#[trigger] bucket@[t]) != key_view(*k),
            decreases bucket@.len() - j,
        {
            if same_key(&bucket[j], k) {
                assert(key_view(self.buckets@[b as int]@[j as int]) == key_view(*k));
                assert(self.view().contains(key_view(*k)));
                return true;
            }
            j = j + 1;
        }
        assert(!self.view().contains(key_view(*k))) by {
            if self.view().contains(key_view(*k)) {
                let (i, t) = choose|i: int, t: int|
                    0 <= i < self.buckets@.len() && 0 <= t < self.buckets@[i]@.len() && key_view(
                        #[trigger] self.buckets@[i]@[t],
                    ) == key_view(*k);
                assert(i == b);
            }
        }
        false
    }

    /// Adds `k` to the set.
    pub fn insert(&mut self, k: Vec<Vec<char>>)
        requires
            old(self).wf(),
        ensures
            final(self).wf(),
            final(self).view() == old(self).view().insert(key_view(k)),
    {
        self.allocate();
        let ghost mid = *self;
        let b = bucket_index(&k);
        let ghost kv = key_view(k);
        let mut bucket: Vec<Vec<Vec<char>>> = Vec::new();
        std::mem::swap(&mut bucket, &mut self.buckets[b]);
        bucket.push(k);
        std::mem::swap(&mut bucket, &mut self.buckets[b]);
        assert(self.buckets@[b as int]@ == mid.buckets@[b as int]@.push(k));
        assert forall|i: int, j: int|
            0 <= i < self.buckets@.len() && 0 <= j < self.buckets@[i]@.len() implies bucket_of(
            key_view(#[trigger] self.buckets@[i]@[j]),
        ) == i by {
            if i != b {
                assert(self.buckets@[i] == mid.buckets@[i]);
            } else if j < mid.buckets@[i]@.len() {
                assert(self.buckets@[i]@[j] == mid.buckets@[i]@[j]);
            }
        }
        assert(self.view() =~= mid.view().insert(kv)) by {
            assert forall|p: Key| #[trigger] self.view().contains(p) implies old(
                self,
            ).view().insert(kv).contains(p) by {
                let (i, j) = choose|i: int, j: int|
                    0 <= i < self.buckets@.len() && 0 <= j < self.buckets@[i]@.len() && key_view(
                        #[trigger] self.buckets@[i]@[j],
                    ) == p;
                if i != b {
                    assert(self.buckets@[i] == mid.buckets@[i]);
                } else if j < mid.buckets@[i]@.len() {
                    assert(self.buckets@[i]@[j] == mid.buckets@[i]@[j]);
                }
            }
            assert forall|p: Key| #[trigger] mid.view().insert(kv).contains(p) implies self.view().contains(
                p,
            ) by {
                if p == kv {
                    let j = self.buckets@[b as int]@.len() - 1;
                    assert(key_view(self.buckets@[b as int]@[j]) == p);
                } else {
                    let (i, j) = choose|i: int, j: int|
                        0 <= i < mid.buckets@.len() && 0 <= j < mid.buckets@[i]@.len()
                            && key_view(#[trigger] mid.buckets@[i]@[j]) == p;
                    if i != b {
                        assert(self.buckets@[i] == mid.buckets@[i]);
                    }
                    assert(self.buckets@[i]@[j] == mid.buckets@[i]@[j]);
                }
            }
        }
    }

    /// Moves every path of `other` into this set, leaving `other` empty.
    pub fn absorb(&mut self, other: &mut KeySet)
        requires
            old(self).wf(),
            old(other).wf(),
        ensures
            final(self).wf(),
            final(other).wf(),
            final(self).view() == old(self).view().union(old(other).view()),
            final(other).view() == Set::<Key>::empty(),
    {
        let count = other.buckets.len();
        let mut i: usize = 0;
        while i < count
            invariant
                i <= count,
                count == old(other).buckets@.len(),
                other.buckets@.len() == count,
                self.wf(),
                other.wf(),
                self.view() == old(self).view().union(
                    Set::new(
                        |p: Key|
                            exists|b: int, j: int|
                                0 <= b < i && 0 <= j < old(other).buckets@[b]@.len() && key_view(
                                    #[trigger] old(other).buckets@[b]@[j],
                                ) == p,
                    ),
                ),
                forall|b: int| 0 <= b < i ==> (#[trigger] other.buckets@[b])@.len() == 0,
                forall|b: int| i <= b < count ==> #[trigger] other.buckets@[b] == old(other).buckets@[b],
            decreases count - i,
        {
            let mut moved: Vec<Vec<Vec<char>>> = Vec::new();
            std::mem::swap(&mut moved, &mut other.buckets[i]);
            let ghost before = self.view();
            let ghost tail = moved@;
            let mut j: usize = 0;
            while j < moved.len()
                invariant
                    j <= moved@.len(),
                    moved@ == tail,
                    tail == old(other).buckets@[i as int]@,
                    self.wf(),
                    self.view() == before.union(
                        Set::new(|p: Key| exists|t: int| 0 <= t < j && key_view(#[trigger] tail[t]) == p),
                    ),
                decreases moved@.len() - j,
            {
                self.insert(clone_key(&moved[j]));
                assert(Set::new(|p: Key| exists|t: int| 0 <= t < j + 1 && key_view(#[trigger] tail[t]) == p)
                    =~= Set::new(|p: Key| exists|t: int| 0 <= t < j && key_view(#[trigger] tail[t]) == p).insert(
                    key_view(tail[j as int]),
                ));
                j = j + 1;
            }
            assert(Set::new(
                |p: Key|
                    exists|b: int, t: int|
                        0 <= b < i + 1 && 0 <= t < old(other).buckets@[b]@.len() && key_view(
                            #[trigger] old(other).buckets@[b]@[t],
                        ) == p,
            ) =~= Set::new(
                |p: Key|
                    exists|b: int, t: int|
                        0 <= b < i && 0 <= t < old(other).buckets@[b]@.len() && key_view(
                            #[trigger] old(other).buckets@[b]@[t],
                        ) == p,
            ).union(Set::new(|p: Key| exists|t: int| 0 <= t < j && key_view(#[trigger] tail[t]) == p)));
            i = i + 1;
        }
        assert(self.view() =~= old(self).view().union(old(other).view()));
        assert(other.view() =~= Set::<Key>::empty());
    }
}

fn clone_key(k: &Vec<Vec<char>>) -> (r: Vec<Vec<char>>)
    ensures
        key_view(r) == key_view(*k),
{
    let mut out: Vec<Vec<char>> = Vec::new();
    let mut i: usize = 0;
    while i < k.len()
        invariant
            i <= k@.len(),
            out@.len() == i,
            forall|j: int| 0 <= j < i ==> (#[trigger] out@[j])@ == k@[j]@,
        decreases k@.len() - i,
    {
        let part = crate::text::slice_of(k[i].as_slice(), 0, k[i].len());
        proof { assert(k@[i as int]@.subrange(0, k@[i as int]@.len() as int) == k@[i as int]@); }
        out.push(part);
        i = i + 1;
    }
    assert(key_view(out) =~= key_view(*k));
    out
}

} // verus!
