//! The image-scale registry: for each image's base file name, the scale at
//! which the page shows it, in percent. The last write for a name wins.

use vstd::prelude::*;

verus! {

pub struct ImageScales {
    entries: Vec<(String, u64)>,
    map: Ghost<Map<Seq<char>, u64>>,
}

impl View for ImageScales {
    type V = Map<Seq<char>, u64>;

    closed spec fn view(&self) -> Map<Seq<char>, u64> {
        self.map@
    }
}

impl ImageScales {
    /// Each name stands in one entry, and the entries are exactly the map.
    pub closed spec fn wf(&self) -> bool {
        &&& forall|i: int|
            0 <= i < self.entries@.len() ==> #[trigger] self.map@.contains_key(
                self.entries@[i].0@,
            ) && self.map@[self.entries@[i].0@] == self.entries@[i].1
        &&& forall|k: Seq<char>|
            #[trigger] self.map@.contains_key(k) ==> exists|i: int|
                0 <= i < self.entries@.len() && #[trigger] self.entries@[i].0@ == k
        &&& forall|i: int, j: int|
            0 <= i < j < self.entries@.len() ==> self.entries@[i].0@ != self.entries@[j].0@
    }

    pub fn new() -> (r: ImageScales)
        ensures
            r.wf(),
            r@ == Map::<Seq<char>, u64>::empty(),
    {
        ImageScales { entries: Vec::new(), map: Ghost(Map::empty()) }
    }

    /// Records `percent` as the scale of the image named `name`, replacing
    /// any earlier scale for that name.
    pub fn insert(&mut self, name: String, percent: u64)
        requires
            old(self).wf(),
        ensures
            final(self).wf(),
            final(self)@ == old(self)@.insert(name@, percent),
    {
        let n = self.entries.len();
        let mut i: usize = 0;
        while i < n
            invariant
                n == self.entries@.len(),
                i <= n,
                old(self).wf(),
                self.entries@ == old(self).entries@,
                self.map@ == old(self).map@,
                forall|j: int| 0 <= j < i ==> self.entries@[j].0@ != name@,
            decreases n - i,
        {
            if self.entries[i].0 == name {
                let ghost k = name@;
                self.entries.set(i, (name, percent));
                self.map = Ghost(self.map@.insert(k, percent));
                proof {
                    assert forall|kk: Seq<char>| #[trigger]
                        self.map@.contains_key(kk) implies exists|j: int|
                        0 <= j < self.entries@.len() && #[trigger] self.entries@[j].0@ == kk by {
                        if kk != k {
                            let j = choose|j: int|
                                0 <= j < old(self).entries@.len() && #[trigger] old(
                                    self,
                                ).entries@[j].0@ == kk;
                            assert(self.entries@[j].0@ == kk);
                        } else {
                            assert(self.entries@[i as int].0@ == kk);
                        }
                    }
                }
                assert(self.map@ =~= old(self)@.insert(k, percent));
                return;
            }
            i = i + 1;
        }
        let ghost k = name@;
        self.entries.push((name, percent));
        self.map = Ghost(self.map@.insert(k, percent));
        proof {
            assert forall|kk: Seq<char>| #[trigger]
                self.map@.contains_key(kk) implies exists|j: int|
                0 <= j < self.entries@.len() && #[trigger] self.entries@[j].0@ == kk by {
                if kk != k {
                    let j = choose|j: int|
                        0 <= j < old(self).entries@.len() && #[trigger] old(self).entries@[j].0@
                            == kk;
                    assert(self.entries@[j].0@ == kk);
                } else {
                    assert(self.entries@[n as int].0@ == kk);
                }
            }
        }
        assert(self.map@ =~= old(self)@.insert(k, percent));
    }

    /// The scale recorded for `name`, if any.
    pub fn get(&self, name: &String) -> (r: Option<u64>)
        requires
            self.wf(),
        ensures
            r == (if self@.contains_key(name@) {
                Some(self@[name@])
            } else {
                None
            }),
    {
        let n = self.entries.len();
        let mut i: usize = 0;
        while i < n
            invariant
                n == self.entries@.len(),
                i <= n,
                self.wf(),
                forall|j: int| 0 <= j < i ==> self.entries@[j].0@ != name@,
            decreases n - i,
        {
            if self.entries[i].0 == *name {
                assert(self.map@.contains_key(self.entries@[i as int].0@));
                return Some(self.entries[i].1);
            }
            i = i + 1;
        }
        proof {
            if self@.contains_key(name@) {
                let j = choose|j: int|
                    0 <= j < self.entries@.len() && #[trigger] self.entries@[j].0@ == name@;
                assert(self.entries@[j].0@ == name@);
            }
        }
        None
    }

    /// The names and their scales, one pair per name.
    pub fn to_vec(&self) -> (r: Vec<(String, u64)>)
        requires
            self.wf(),
        ensures
            forall|i: int, j: int| 0 <= i < j < r@.len() ==> r@[i].0@ != r@[j].0@,
            forall|i: int|
                0 <= i < r@.len() ==> #[trigger] self@.contains_key(r@[i].0@) && self@[r@[i].0@]
                    == r@[i].1,
            forall|k: Seq<char>|
                #[trigger] self@.contains_key(k) ==> exists|i: int|
                    0 <= i < r@.len() && #[trigger] r@[i].0@ == k,
    {
        let mut r: Vec<(String, u64)> = Vec::new();
        let n = self.entries.len();
        let mut i: usize = 0;
        while i < n
            invariant
                self.wf(),
                n == self.entries@.len(),
                i <= n,
                r@.len() == i,
                forall|j: int| 0 <= j < i ==> (#[trigger] r@[j]).0@ == self.entries@[j].0@
                    && r@[j].1 == self.entries@[j].1,
            decreases n - i,
        {
            let name = self.entries[i].0.clone();
            r.push((name, self.entries[i].1));
            i = i + 1;
        }
        proof {
            assert forall|k: Seq<char>| #[trigger]
                self@.contains_key(k) implies exists|j: int|
                0 <= j < r@.len() && #[trigger] r@[j].0@ == k by {
                let j = choose|j: int|
                    0 <= j < self.entries@.len() && #[trigger] self.entries@[j].0@ == k;
                assert(r@[j].0@ == k);
            }
        }
        r
    }
}

} // verus!
