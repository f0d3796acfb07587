//! Byte strings and the small keyed collections built on them.
//!
//! Offering identifiers, metadata, prices and request identifiers are byte
//! strings. They are kept in association lists whose keys are distinct, and
//! every list is given a mathematical view (`Map` or `Set` over `Seq<u8>`).

use vstd::prelude::*;

verus! {

/// Byte-wise equality of two byte strings.
pub fn bytes_eq(a: &Vec<u8>, b: &Vec<u8>) -> (r: bool)
    ensures
        r == (a@ == b@),
{
    if a.len() != b.len() {
        return false;
    }
    let mut i: usize = 0;
    while i < a.len()
        invariant
            a@.len() == b@.len(),
            0 <= i <= a@.len(),
            forall|j: int| 0 <= j < i ==> a@[j] == b@[j],
        decreases a@.len() - i,
    {
        if a[i] != b[i] {
            return false;
        }
        i = i + 1;
    }
    assert(a@ =~= b@);
    true
}

/// Position of `k` in `items`, if it occurs there.
pub fn position_of(items: &Vec<Vec<u8>>, k: &Vec<u8>) -> (r: Option<usize>)
    ensures
        match r {
            Some(i) => i < items@.len() && items@[i as int]@ == k@
                && forall|j: int| 0 <= j < i ==> items@[j]@ != k@,
            None => forall|j: int| 0 <= j < items@.len() ==> items@[j]@ != k@,
        },
{
    let mut i: usize = 0;
    while i < items.len()
        invariant
            0 <= i <= items@.len(),
            forall|j: int| 0 <= j < i ==> items@[j]@ != k@,
        decreases items@.len() - i,
    {
        if bytes_eq(&items[i], k) {
            return Some(i);
        }
        i = i + 1;
    }
    None
}

/// The byte-string views of a list of byte strings.
pub open spec fn views_of(items: Seq<Vec<u8>>) -> Seq<Seq<u8>> {
    items.map_values(|x: Vec<u8>| x@)
}

/// No byte string occurs twice in `s`.
pub open spec fn distinct_bytes(s: Seq<Vec<u8>>) -> bool {
    forall|i: int, j: int| 0 <= i < j < s.len() ==> s[i]@ != s[j]@
}

/// A set of byte strings, kept as a list without repetitions.
pub struct ByteSet {
    pub items: Vec<Vec<u8>>,
}

impl ByteSet {
    /// The list holds no byte string twice.
    pub open spec fn wf(&self) -> bool {
        distinct_bytes(self.items@)
    }

    /// The set of byte strings held.
    pub open spec fn view(&self) -> Set<Seq<u8>> {
        Set::new(|k: Seq<u8>| exists|i: int| 0 <= i < self.items@.len() && self.items@[i]@ == k)
    }

    /// The empty set.
    pub fn new() -> (r: ByteSet)
        ensures
            r.wf(),
            r.view() == Set::<Seq<u8>>::empty(),
    {
        let r = ByteSet { items: Vec::new() };
        assert(r.view() =~= Set::<Seq<u8>>::empty());
        r
    }

    /// Whether `k` is held.
    pub fn contains(&self, k: &Vec<u8>) -> (r: bool)
        ensures
            r == self.view().contains(k@),
    {
        match position_of(&self.items, k) {
            Some(i) => {
                assert(self.view().contains(k@)) by {
                    assert(self.items@[i as int]@ == k@);
                }
                true
            },
            None => false,
        }
    }

    /// Add `k`.
    pub fn insert(&mut self, k: Vec<u8>)
        requires
            old(self).wf(),
        ensures
            final(self).wf(),
            final(self).view() == old(self).view().insert(k@),
    {
        match position_of(&self.items, &k) {
            Some(i) => {
                assert(self.view() =~= old(self).view().insert(k@)) by {
                    assert(self.items@[i as int]@ == k@);
                }
            },
            None => {
                let ghost kv = k@;
                self.items.push(k);
                assert(self.view() =~= old(self).view().insert(kv)) by {
                    assert(self.items@[self.items@.len() - 1]@ == kv);
                    assert forall|x: Seq<u8>| #[trigger] self.view().contains(x) implies old(
                        self,
                    ).view().insert(kv).contains(x) by {
                        let i = choose|i: int| 0 <= i < self.items@.len() && self.items@[i]@ == x;
                        if i < old(self).items@.len() {
                            assert(old(self).items@[i]@ == x);
                        }
                    }
                    assert forall|x: Seq<u8>| #[trigger] old(self).view().insert(kv).contains(
                        x,
                    ) implies self.view().contains(x) by {
                        if x != kv {
                            let i = choose|i: int|
                                0 <= i < old(self).items@.len() && old(self).items@[i]@ == x;
                            assert(self.items@[i]@ == x);
                        }
                    }
                }
            },
        }
    }

    /// Remove `k`; reports whether it was held.
    pub fn remove(&mut self, k: &Vec<u8>) -> (r: bool)
        requires
            old(self).wf(),
        ensures
            final(self).wf(),
            r == old(self).view().contains(k@),
            final(self).view() == old(self).view().remove(k@),
    {
        match position_of(&self.items, k) {
            Some(i) => {
                let ghost old_items = self.items@;
                self.items.remove(i);
                assert(old(self).view().contains(k@)) by {
                    assert(old_items[i as int]@ == k@);
                }
                assert(self.view() =~= old(self).view().remove(k@)) by {
                    assert forall|x: Seq<u8>| #[trigger] self.view().contains(x) implies old(
                        self,
                    ).view().remove(k@).contains(x) by {
                        let j = choose|j: int| 0 <= j < self.items@.len() && self.items@[j]@ == x;
                        if j < i {
                            assert(old_items[j]@ == x);
                        } else {
                            assert(old_items[j + 1]@ == x);
                        }
                    }
                    assert forall|x: Seq<u8>| #[trigger] old(self).view().remove(k@).contains(
                        x,
                    ) implies self.view().contains(x) by {
                        let j = choose|j: int| 0 <= j < old_items.len() && old_items[j]@ == x;
                        if j < i {
                            assert(self.items@[j]@ == x);
                        } else {
                            assert(j != i);
                            assert(self.items@[j - 1]@ == x);
                        }
                    }
                }
                true
            },
            None => {
                assert(self.view() =~= old(self).view().remove(k@));
                false
            },
        }
    }
}

/// A finite map from byte strings to byte strings, kept as two parallel
/// lists whose keys are distinct.
pub struct ByteMap {
    pub keys: Vec<Vec<u8>>,
    pub vals: Vec<Vec<u8>>,
}

impl ByteMap {
    /// Parallel lists of equal length, keys without repetition.
    pub open spec fn wf(&self) -> bool {
        &&& self.keys@.len() == self.vals@.len()
        &&& distinct_bytes(self.keys@)
    }

    /// `k` is a key of the map.
    pub open spec fn has(&self, k: Seq<u8>) -> bool {
        exists|i: int| 0 <= i < self.keys@.len() && self.keys@[i]@ == k
    }

    /// The position that holds key `k`.
    pub open spec fn slot(&self, k: Seq<u8>) -> int {
        choose|i: int| 0 <= i < self.keys@.len() && self.keys@[i]@ == k
    }

    /// The map held.
    pub open spec fn view(&self) -> Map<Seq<u8>, Seq<u8>> {
        Map::new(|k: Seq<u8>| self.has(k), |k: Seq<u8>| self.vals@[self.slot(k)]@)
    }

    /// In a well-formed map, the position of a key is the only one holding it.
    pub proof fn lemma_slot(&self, i: int)
        requires
            self.wf(),
            0 <= i < self.keys@.len(),
        ensures
            self.has(self.keys@[i]@),
            self.slot(self.keys@[i]@) == i,
            self.view().contains_key(self.keys@[i]@),
            self.view()[self.keys@[i]@] == self.vals@[i]@,
    {
        let k = self.keys@[i]@;
        assert(self.has(k));
        let j = self.slot(k);
        assert(self.keys@[j]@ == k);
        if j != i {
            if j < i {
                assert(self.keys@[j]@ != self.keys@[i]@);
            } else {
                assert(self.keys@[i]@ != self.keys@[j]@);
            }
        }
    }

    /// The empty map.
    pub fn new() -> (r: ByteMap)
        ensures
            r.wf(),
            r.view() == Map::<Seq<u8>, Seq<u8>>::empty(),
    {
        let r = ByteMap { keys: Vec::new(), vals: Vec::new() };
        assert(r.view() =~= Map::<Seq<u8>, Seq<u8>>::empty());
        r
    }

    /// The value stored under `k`, if any.
    pub fn get(&self, k: &Vec<u8>) -> (r: Option<Vec<u8>>)
        requires
            self.wf(),
        ensures
            match r {
                Some(v) => self.view().contains_key(k@) && self.view()[k@] == v@,
                None => !self.view().contains_key(k@),
            },
    {
        match position_of(&self.keys, k) {
            Some(i) => {
                proof {
                    self.lemma_slot(i as int);
                }
                Some(self.vals[i].clone())
            },
            None => None,
        }
    }

    /// Store `v` under `k`, replacing any earlier value.
    pub fn insert(&mut self, k: Vec<u8>, v: Vec<u8>)
        requires
            old(self).wf(),
        ensures
            final(self).wf(),
            final(self).view() == old(self).view().insert(k@, v@),
    {
        let ghost kv = k@;
        let ghost vv = v@;
        match position_of(&self.keys, &k) {
            Some(i) => {
                self.vals.set(i, v);
                assert(self.view() =~= old(self).view().insert(kv, vv)) by {
                    self.lemma_slot(i as int);
                    assert forall|x: Seq<u8>| #[trigger] self.view().contains_key(x) && x != kv
                        implies self.view()[x] == old(self).view()[x] by {
                        let j = self.slot(x);
                        self.lemma_slot(j);
                        old(self).lemma_slot(j);
                    }
                    assert forall|x: Seq<u8>| #[trigger] old(self).view().contains_key(x)
                        implies self.view().contains_key(x) by {
                        let j = old(self).slot(x);
                        assert(self.keys@[j]@ == x);
                    }
                }
            },
            None => {
                self.keys.push(k);
                self.vals.push(v);
                let ghost n = old(self).keys@.len() as int;
                assert(self.view() =~= old(self).view().insert(kv, vv)) by {
                    self.lemma_slot(n);
                    assert forall|x: Seq<u8>| #[trigger] self.view().contains_key(x) && x != kv
                        implies old(self).view().contains_key(x) && self.view()[x] == old(
                        self,
                    ).view()[x] by {
                        let j = self.slot(x);
                        self.lemma_slot(j);
                        assert(j != n);
                        old(self).lemma_slot(j);
                    }
                    assert forall|x: Seq<u8>| #[trigger] old(self).view().contains_key(x)
                        implies self.view().contains_key(x) by {
                        let j = old(self).slot(x);
                        assert(self.keys@[j]@ == x);
                    }
                }
            },
        }
    }

    /// Remove the entry of `k`, if any; reports whether there was one.
    pub fn remove(&mut self, k: &Vec<u8>) -> (r: bool)
        requires
            old(self).wf(),
        ensures
            final(self).wf(),
            r == old(self).view().contains_key(k@),
            final(self).view() == old(self).view().remove(k@),
    {
        match position_of(&self.keys, k) {
            Some(i) => {
                let ghost ok = self.keys@;
                let ghost ov = self.vals@;
                self.keys.remove(i);
                self.vals.remove(i);
                proof {
                    old(self).lemma_slot(i as int);
                }
                assert(self.wf()) by {
                    assert forall|a: int, b: int| 0 <= a < b < self.keys@.len() implies
                        self.keys@[a]@ != self.keys@[b]@ by {
                        let oa = if a < i { a } else { a + 1 };
                        let ob = if b < i { b } else { b + 1 };
                        assert(self.keys@[a] == ok[oa]);
                        assert(self.keys@[b] == ok[ob]);
                    }
                }
                assert(self.view() =~= old(self).view().remove(k@)) by {
                    assert forall|x: Seq<u8>| #[trigger] self.view().contains_key(x) implies x
                        != k@ && old(self).view().contains_key(x) && self.view()[x] == old(
                        self,
                    ).view()[x] by {
                        let j = self.slot(x);
                        self.lemma_slot(j);
                        let oj = if j < i { j } else { j + 1 };
                        assert(self.keys@[j] == ok[oj]);
                        assert(self.vals@[j] == ov[oj]);
                        old(self).lemma_slot(oj);
                    }
                    assert forall|x: Seq<u8>| #[trigger] old(self).view().contains_key(x) && x
                        != k@ implies self.view().contains_key(x) by {
                        let j = old(self).slot(x);
                        assert(ok[j]@ == x);
                        assert(j != i);
                        if j < i {
                            assert(self.keys@[j]@ == x);
                        } else {
                            assert(self.keys@[j - 1]@ == x);
                        }
                    }
                }
                true
            },
            None => {
                assert(self.view() =~= old(self).view().remove(k@)) by {
                    assert(!old(self).view().contains_key(k@));
                }
                false
            },
        }
    }
}

} // verus!
