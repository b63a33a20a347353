//! Reverse lookup from a truncated display line to the original full line.

use vstd::prelude::*;

verus! {

/// Map of truncated line to original line.
///
/// Keys are unique; inserting an existing key overwrites its value (last
/// writer wins).  The contents are modeled as a `Map` from the truncated
/// text to the original text.
pub struct LinesTruncatedMap {
    keys: Vec<String>,
    vals: Vec<String>,
}

impl View for LinesTruncatedMap {
    type V = Map<Seq<char>, Seq<char>>;

    closed spec fn view(&self) -> Map<Seq<char>, Seq<char>> {
        Map::new(
            |k: Seq<char>| self.has_key(k),
            |k: Seq<char>| self.vals@[self.key_slot(k)]@,
        )
    }
}

impl LinesTruncatedMap {
    /// Every key has exactly one slot and one value.
    pub closed spec fn wf(self) -> bool {
        &&& self.keys@.len() == self.vals@.len()
        &&& forall|i: int, j: int|
            0 <= i < j < self.keys@.len() ==> self.keys@[i]@ != self.keys@[j]@
    }

    /// How many truncated lines are recorded.
    pub closed spec fn num_keys(self) -> nat {
        self.keys@.len()
    }

    spec fn has_key(self, k: Seq<char>) -> bool {
        exists|i: int| 0 <= i < self.keys@.len() && self.keys@[i]@ == k
    }

    spec fn key_slot(self, k: Seq<char>) -> int {
        choose|i: int| 0 <= i < self.keys@.len() && self.keys@[i]@ == k
    }

    /// An empty map.
    pub fn new() -> (r: LinesTruncatedMap)
        ensures
            r.wf(),
            r@ == Map::<Seq<char>, Seq<char>>::empty(),
    {
        let r = LinesTruncatedMap { keys: Vec::new(), vals: Vec::new() };
        proof {
            assert(r@ =~= Map::<Seq<char>, Seq<char>>::empty());
        }
        r
    }

    fn find_slot(&self, k: &String) -> (r: Option<usize>)
        ensures
            match r {
                Some(i) => i < self.keys@.len() && self.keys@[i as int]@ == k@,
                None => !self.has_key(k@),
            },
    {
        let n = self.keys.len();
        let mut i: usize = 0;
        while i < n
            invariant
                n == self.keys@.len(),
                i <= n,
                forall|j: int| 0 <= j < i ==> self.keys@[j]@ != k@,
            decreases n - i,
        {
            if self.keys[i].eq(k) {
                return Some(i);
            }
            i = i + 1;
        }
        None
    }

    /// Records `v` as the original text of the truncated line `k`,
    /// overwriting any previous entry for `k`.
    pub fn insert(&mut self, k: String, v: String)
        requires
            old(self).wf(),
        ensures
            final(self).wf(),
            final(self)@ == old(self)@.insert(k@, v@),
            final(self).num_keys() >= old(self).num_keys(),
    {
        match self.find_slot(&k) {
            Some(i) => {
                self.vals[i] = v;
                proof {
                    assert forall|x: Seq<char>| #[trigger] self.has_key(x) implies old(
                        self,
                    ).has_key(x) by {}
                    assert forall|x: Seq<char>|
                        self.has_key(x) && x != k@ implies self.vals@[self.key_slot(x)]@ == old(
                        self,
                    ).vals@[old(self).key_slot(x)]@ by {
                        let s = self.key_slot(x);
                        assert(0 <= s < self.keys@.len() && self.keys@[s]@ == x);
                        assert(s != i);
                    }
                    assert(self.has_key(k@));
                    let s = self.key_slot(k@);
                    assert(0 <= s < self.keys@.len() && self.keys@[s]@ == k@);
                    assert(s == i);
                    assert(self@ =~= old(self)@.insert(k@, v@));
                }
            },
            None => {
                let ghost oldm = *self;
                self.keys.push(k);
                self.vals.push(v);
                proof {
                    let n = oldm.keys@.len() as int;
                    assert forall|x: Seq<char>| #[trigger] self.has_key(x) implies (oldm.has_key(x)
                        || x == k@) by {
                        let s = choose|s: int|
                            0 <= s < self.keys@.len() && self.keys@[s]@ == x;
                        if s < n {
                            assert(oldm.keys@[s]@ == x);
                        }
                    }
                    assert(self.keys@[n]@ == k@);
                    assert(self.has_key(k@));
                    assert forall|x: Seq<char>| #[trigger] oldm.has_key(x) implies self.has_key(
                        x,
                    ) by {
                        let t = oldm.key_slot(x);
                        assert(0 <= t < oldm.keys@.len() && oldm.keys@[t]@ == x);
                        assert(self.keys@[t]@ == x);
                    }
                    assert forall|x: Seq<char>|
                        self.has_key(x) && x != k@ implies self.vals@[self.key_slot(x)]@
                        == oldm.vals@[oldm.key_slot(x)]@ && oldm.has_key(x) by {
                        let s = self.key_slot(x);
                        assert(0 <= s < self.keys@.len() && self.keys@[s]@ == x);
                        assert(s < n);
                        assert(oldm.keys@[s]@ == x);
                        let t = oldm.key_slot(x);
                        assert(0 <= t < oldm.keys@.len() && oldm.keys@[t]@ == x);
                        assert(t == s);
                    }
                    let s = self.key_slot(k@);
                    assert(0 <= s < self.keys@.len() && self.keys@[s]@ == k@);
                    if s < n {
                        assert(oldm.keys@[s]@ == k@);
                        assert(oldm.has_key(k@));
                    }
                    assert(s == n);
                    assert(self.vals@[n]@ == v@);
                    assert(self@ =~= old(self)@.insert(k@, v@));
                }
            },
        }
    }

    /// Looks the truncated line `k` up, recovering the recorded original.
    pub fn get(&self, k: &String) -> (r: Option<&String>)
        requires
            self.wf(),
        ensures
            match r {
                Some(v) => self@.dom().contains(k@) && v@ == self@[k@],
                None => !self@.dom().contains(k@),
            },
    {
        match self.find_slot(k) {
            Some(i) => {
                proof {
                    assert(self.has_key(k@));
                    let s = self.key_slot(k@);
                    assert(0 <= s < self.keys@.len() && self.keys@[s]@ == k@);
                    assert(s == i);
                }
                Some(&self.vals[i])
            },
            None => None,
        }
    }

    /// Whether no line was truncated.
    pub fn is_empty(&self) -> (r: bool)
        requires
            self.wf(),
        ensures
            r <==> self@ == Map::<Seq<char>, Seq<char>>::empty(),
    {
        let r = self.keys.len() == 0;
        proof {
            if self.keys@.len() == 0 {
                assert(self@ =~= Map::<Seq<char>, Seq<char>>::empty());
            } else {
                assert(self.has_key(self.keys@[0]@));
                assert(self@.dom().contains(self.keys@[0]@));
                assert(!Map::<Seq<char>, Seq<char>>::empty().dom().contains(self.keys@[0]@));
            }
        }
        r
    }

    /// How many entries the map holds.
    pub fn len(&self) -> (r: usize)
        ensures
            r == self.num_keys(),
    {
        self.keys.len()
    }

    /// The key in slot `i`, for walking the entries in some order.
    pub fn key_at(&self, i: usize) -> (r: &String)
        requires
            self.wf(),
            i < self.num_keys(),
        ensures
            self@.dom().contains(r@),
    {
        proof {
            assert(self.has_key(self.keys@[i as int]@));
        }
        &self.keys[i]
    }
}

} // verus!
