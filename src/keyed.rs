use vstd::prelude::*;

verus! {

/// A map from string keys to values, held as a list of entries in insertion
/// order. Removing a key moves the last entry into the freed slot, so the
/// order of the remaining entries is that of an insertion-ordered set with
/// swap removal.
pub struct StrMap<V> {
    pub entries: Vec<(String, V)>,
}

impl<V> StrMap<V> {
    pub open spec fn key_at(&self, i: int) -> Seq<char> {
        self.entries@[i].0@
    }

    /// No key occurs twice.
    pub open spec fn wf(&self) -> bool {
        forall|i: int, j: int|
            0 <= i < self.entries@.len() && 0 <= j < self.entries@.len() && i != j
                ==> #[trigger] self.key_at(i) != #[trigger] self.key_at(j)
    }

    pub open spec fn has(&self, k: Seq<char>) -> bool {
        exists|i: int| 0 <= i < self.entries@.len() && #[trigger] self.key_at(i) == k
    }

    pub open spec fn index_of(&self, k: Seq<char>) -> int {
        choose|i: int| 0 <= i < self.entries@.len() && #[trigger] self.key_at(i) == k
    }

    pub open spec fn view(&self) -> Map<Seq<char>, V> {
        Map::new(|k: Seq<char>| self.has(k), |k: Seq<char>| self.entries@[self.index_of(k)].1)
    }

    pub proof fn lemma_index(&self, i: int)
        requires
            self.wf(),
            0 <= i < self.entries@.len(),
        ensures
            self@.contains_key(self.key_at(i)),
            self@[self.key_at(i)] == self.entries@[i].1,
            self.index_of(self.key_at(i)) == i,
    {
        let k = self.key_at(i);
        assert(self.has(k));
        let j = self.index_of(k);
        assert(self.key_at(j) == k);
    }

    pub fn new() -> (r: Self)
        ensures
            r.wf(),
            r.entries@.len() == 0,
            r@ == Map::<Seq<char>, V>::empty(),
    {
        let r = StrMap { entries: Vec::new() };
        assert(r@ =~= Map::<Seq<char>, V>::empty());
        r
    }

    pub fn len(&self) -> (r: usize)
        ensures
            r == self.entries@.len(),
    {
        self.entries.len()
    }

    /// Position of `k` in the entry list, if present.
    pub fn find(&self, k: &String) -> (r: Option<usize>)
        ensures
            match r {
                Some(i) => i < self.entries@.len() && self.key_at(i as int) == k@,
                None => !self.has(k@),
            },
    {
        let mut i: usize = 0;
        while i < self.entries.len()
            invariant
                i <= self.entries@.len(),
                forall|j: int| 0 <= j < i ==> #[trigger] self.key_at(j) != k@,
            decreases self.entries@.len() - i,
        {
            if self.entries[i].0 == *k {
                return Some(i);
            }
            i += 1;
        }
        None
    }

    pub fn contains(&self, k: &String) -> (r: bool)
        ensures
            r == self@.contains_key(k@),
    {
        self.find(k).is_some()
    }

    pub fn get(&self, k: &String) -> (r: Option<&V>)
        requires
            self.wf(),
        ensures
            r is Some == self@.contains_key(k@),
            r matches Some(v) ==> *v == self@[k@],
    {
        match self.find(k) {
            Some(i) => {
                proof {
                    self.lemma_index(i as int);
                }
                Some(&self.entries[i].1)
            },
            None => None,
        }
    }

    /// Sets the value of `k`, in place when present and appended otherwise.
    pub fn insert(&mut self, k: String, v: V)
        requires
            old(self).wf(),
        ensures
            final(self).wf(),
            final(self)@ == old(self)@.insert(k@, v),
            old(self)@.contains_key(k@) ==> final(self).entries@ == old(self).entries@.update(
                old(self).index_of(k@),
                (k, v),
            ),
            !old(self)@.contains_key(k@) ==> final(self).entries@ == old(self).entries@.push((k, v)),
    {
        let ghost old_self = *self;
        let ghost kv = k@;
        match self.find(&k) {
            Some(i) => {
                proof {
                    old_self.lemma_index(i as int);
                }
                self.entries.set(i, (k, v));
                proof {
                    assert forall|a: int, b: int|
                        0 <= a < self.entries@.len() && 0 <= b < self.entries@.len() && a != b
                            implies #[trigger] self.key_at(a) != #[trigger] self.key_at(b) by {
                        assert(old_self.key_at(a) != old_self.key_at(b));
                    }
                    assert forall|q: Seq<char>| #[trigger] self.has(q) == old_self@.insert(kv, v).contains_key(q) by {
                        if self.has(q) {
                            let a = self.index_of(q);
                            assert(old_self.key_at(a) == q);
                        }
                        if old_self.has(q) {
                            let a = old_self.index_of(q);
                            assert(self.key_at(a) == q);
                        }
                        if q == kv {
                            assert(self.key_at(i as int) == q);
                        }
                    }
                    assert forall|q: Seq<char>| #[trigger] self.has(q) implies self@[q] == old_self@.insert(kv, v)[q] by {
                        let a = self.index_of(q);
                        self.lemma_index(a);
                        if q != kv {
                            assert(old_self.key_at(a) == q);
                            old_self.lemma_index(a);
                        }
                    }
                    assert(self@ =~= old_self@.insert(kv, v));
                }
            },
            None => {
                self.entries.push((k, v));
                proof {
                    let n = old_self.entries@.len() as int;
                    assert(self.key_at(n) == kv);
                    assert forall|a: int, b: int|
                        0 <= a < self.entries@.len() && 0 <= b < self.entries@.len() && a != b
                            implies #[trigger] self.key_at(a) != #[trigger] self.key_at(b) by {
                        if a < n && b < n {
                            assert(old_self.key_at(a) != old_self.key_at(b));
                        } else if a < n {
                            assert(old_self.key_at(a) == self.key_at(a));
                        } else {
                            assert(old_self.key_at(b) == self.key_at(b));
                        }
                    }
                    assert forall|q: Seq<char>| #[trigger] self.has(q) == old_self@.insert(kv, v).contains_key(q) by {
                        if self.has(q) {
                            let a = self.index_of(q);
                            if a < n {
                                assert(old_self.key_at(a) == q);
                            }
                        }
                        if old_self.has(q) {
                            let a = old_self.index_of(q);
                            assert(self.key_at(a) == q);
                        }
                    }
                    assert forall|q: Seq<char>| #[trigger] self.has(q) implies self@[q] == old_self@.insert(kv, v)[q] by {
                        let a = self.index_of(q);
                        self.lemma_index(a);
                        if q != kv {
                            assert(a < n);
                            assert(old_self.key_at(a) == q);
                            old_self.lemma_index(a);
                        }
                    }
                    assert(self@ =~= old_self@.insert(kv, v));
                }
            },
        }
    }

    /// Removes `k` if present; the last entry takes its place.
    pub fn remove(&mut self, k: &String)
        requires
            old(self).wf(),
        ensures
            final(self).wf(),
            final(self)@ == old(self)@.remove(k@),
            old(self)@.contains_key(k@) ==> final(self).entries@ == old(self).entries@.update(
                old(self).index_of(k@),
                old(self).entries@.last(),
            ).drop_last(),
            !old(self)@.contains_key(k@) ==> final(self).entries@ == old(self).entries@,
    {
        let ghost old_self = *self;
        match self.find(k) {
            Some(i) => {
                proof {
                    old_self.lemma_index(i as int);
                }
                self.entries.swap_remove(i);
                proof {
                    let n = old_self.entries@.len() as int;
                    // position in the old list of the entry now at `a`
                    assert forall|a: int| 0 <= a < self.entries@.len() implies #[trigger] self.key_at(a)
                        == old_self.key_at(if a == i { n - 1 } else { a }) by {}
                    assert forall|a: int, b: int|
                        0 <= a < self.entries@.len() && 0 <= b < self.entries@.len() && a != b
                            implies #[trigger] self.key_at(a) != #[trigger] self.key_at(b) by {
                        let oa = if a == i { n - 1 } else { a };
                        let ob = if b == i { n - 1 } else { b };
                        assert(old_self.key_at(oa) != old_self.key_at(ob));
                    }
                    assert forall|q: Seq<char>| #[trigger] self.has(q) == old_self@.remove(k@).contains_key(q) by {
                        if self.has(q) {
                            let a = self.index_of(q);
                            let oa = if a == i { n - 1 } else { a };
                            assert(old_self.key_at(oa) == q);
                            assert(oa != i);
                        }
                        if old_self.has(q) && q != k@ {
                            let a = old_self.index_of(q);
                            assert(a != i);
                            if a == n - 1 {
                                assert(self.key_at(i as int) == q);
                            } else {
                                assert(self.key_at(a) == q);
                            }
                        }
                    }
                    assert forall|q: Seq<char>| #[trigger] self.has(q) implies self@[q] == old_self@.remove(k@)[q] by {
                        let a = self.index_of(q);
                        self.lemma_index(a);
                        let oa = if a == i { n - 1 } else { a };
                        assert(old_self.key_at(oa) == q);
                        old_self.lemma_index(oa);
                    }
                    assert(self@ =~= old_self@.remove(k@));
                }
            },
            None => {
                assert(self@ =~= old_self@.remove(k@));
            },
        }
    }
}

/// A set of strings in insertion order, with swap removal.
pub struct StrSet {
    pub items: Vec<String>,
}

impl StrSet {
    pub open spec fn item_at(&self, i: int) -> Seq<char> {
        self.items@[i]@
    }

    pub open spec fn wf(&self) -> bool {
        forall|i: int, j: int|
            0 <= i < self.items@.len() && 0 <= j < self.items@.len() && i != j
                ==> #[trigger] self.item_at(i) != #[trigger] self.item_at(j)
    }

    pub open spec fn view(&self) -> Set<Seq<char>> {
        Set::new(|k: Seq<char>| exists|i: int| 0 <= i < self.items@.len() && #[trigger] self.item_at(i) == k)
    }

    pub fn new() -> (r: Self)
        ensures
            r.wf(),
            r@ == Set::<Seq<char>>::empty(),
    {
        let r = StrSet { items: Vec::new() };
        assert(r@ =~= Set::<Seq<char>>::empty());
        r
    }

    /// Builds a set from a list, keeping the first occurrence of each item.
    pub fn from_vec(v: Vec<String>) -> (r: Self)
        ensures
            r.wf(),
            r@ == v@.map_values(|s: String| s@).to_set(),
    {
        let mut r = StrSet::new();
        let mut i: usize = 0;
        while i < v.len()
            invariant
                i <= v@.len(),
                r.wf(),
                r@ == v@.subrange(0, i as int).map_values(|s: String| s@).to_set(),
            decreases v@.len() - i,
        {
            let ghost before = r@;
            r.insert(v[i].clone());
            proof {
                let s0 = v@.subrange(0, i as int).map_values(|s: String| s@);
                let s1 = v@.subrange(0, i + 1).map_values(|s: String| s@);
                assert(s1 =~= s0.push(v@[i as int]@));
                assert(s1.to_set() =~= s0.to_set().insert(v@[i as int]@)) by {
                    assert forall|q: Seq<char>| s1.to_set().contains(q) <==> s0.to_set().insert(v@[i as int]@).contains(q) by {
                        if s1.contains(q) {
                            let j = choose|j: int| 0 <= j < s1.len() && s1[j] == q;
                            if j < s0.len() {
                                assert(s0[j] == q);
                            }
                        }
                        if s0.contains(q) {
                            let j = choose|j: int| 0 <= j < s0.len() && s0[j] == q;
                            assert(s1[j] == q);
                        }
                        if q == v@[i as int]@ {
                            assert(s1[i as int] == q);
                        }
                    }
                }
            }
            i += 1;
        }
        assert(v@.subrange(0, v@.len() as int) =~= v@);
        r
    }

    fn find(&self, k: &String) -> (r: Option<usize>)
        ensures
            match r {
                Some(i) => i < self.items@.len() && self.item_at(i as int) == k@,
                None => !self@.contains(k@),
            },
    {
        let mut i: usize = 0;
        while i < self.items.len()
            invariant
                i <= self.items@.len(),
                forall|j: int| 0 <= j < i ==> #[trigger] self.item_at(j) != k@,
            decreases self.items@.len() - i,
        {
            if self.items[i] == *k {
                return Some(i);
            }
            i += 1;
        }
        None
    }

    pub fn contains(&self, k: &String) -> (r: bool)
        ensures
            r == self@.contains(k@),
    {
        match self.find(k) {
            Some(i) => {
                assert(self.item_at(i as int) == k@);
                true
            },
            None => false,
        }
    }

    /// Adds `k`; a set that holds it already is left as it is.
    pub fn insert(&mut self, k: String)
        requires
            old(self).wf(),
        ensures
            final(self).wf(),
            final(self)@ == old(self)@.insert(k@),
            old(self)@.contains(k@) ==> *final(self) == *old(self),
            !old(self)@.contains(k@) ==> final(self).items@ == old(self).items@.push(k),
    {
        let ghost old_self = *self;
        match self.find(&k) {
            Some(i) => {
                assert(old_self.item_at(i as int) == k@);
                assert(self@ =~= old_self@.insert(k@));
            },
            None => {
                self.items.push(k);
                proof {
                    let n = old_self.items@.len() as int;
                    assert(self.item_at(n) == k@);
                    assert forall|a: int, b: int|
                        0 <= a < self.items@.len() && 0 <= b < self.items@.len() && a != b
                            implies #[trigger] self.item_at(a) != #[trigger] self.item_at(b) by {
                        if a < n && b < n {
                            assert(old_self.item_at(a) != old_self.item_at(b));
                        } else if a < n {
                            assert(old_self.item_at(a) == self.item_at(a));
                        } else {
                            assert(old_self.item_at(b) == self.item_at(b));
                        }
                    }
                    assert forall|q: Seq<char>| self@.contains(q) <==> old_self@.insert(k@).contains(q) by {
                        if self@.contains(q) {
                            let a = choose|a: int| 0 <= a < self.items@.len() && #[trigger] self.item_at(a) == q;
                            if a < n {
                                assert(old_self.item_at(a) == q);
                            }
                        }
                        if old_self@.contains(q) {
                            let a = choose|a: int| 0 <= a < old_self.items@.len() && #[trigger] old_self.item_at(a) == q;
                            assert(self.item_at(a) == q);
                        }
                    }
                    assert(self@ =~= old_self@.insert(k@));
                }
            },
        }
    }

    /// Removes `k` if present; the last item takes its place.
    pub fn remove(&mut self, k: &String)
        requires
            old(self).wf(),
        ensures
            final(self).wf(),
            final(self)@ == old(self)@.remove(k@),
    {
        let ghost old_self = *self;
        match self.find(k) {
            Some(i) => {
                self.items.swap_remove(i);
                proof {
                    let n = old_self.items@.len() as int;
                    assert forall|a: int| 0 <= a < self.items@.len() implies #[trigger] self.item_at(a)
                        == old_self.item_at(if a == i { n - 1 } else { a }) by {}
                    assert forall|a: int, b: int|
                        0 <= a < self.items@.len() && 0 <= b < self.items@.len() && a != b
                            implies #[trigger] self.item_at(a) != #[trigger] self.item_at(b) by {
                        let oa = if a == i { n - 1 } else { a };
                        let ob = if b == i { n - 1 } else { b };
                        assert(old_self.item_at(oa) != old_self.item_at(ob));
                    }
                    assert forall|q: Seq<char>| self@.contains(q) <==> old_self@.remove(k@).contains(q) by {
                        if self@.contains(q) {
                            let a = choose|a: int| 0 <= a < self.items@.len() && #[trigger] self.item_at(a) == q;
                            let oa = if a == i { n - 1 } else { a };
                            assert(old_self.item_at(oa) == q);
                            assert(oa != i);
                        }
                        if old_self@.contains(q) && q != k@ {
                            let a = choose|a: int| 0 <= a < old_self.items@.len() && #[trigger] old_self.item_at(a) == q;
                            assert(a != i);
                            if a == n - 1 {
                                assert(self.item_at(i as int) == q);
                            } else {
                                assert(self.item_at(a) == q);
                            }
                        }
                    }
                    assert(self@ =~= old_self@.remove(k@));
                }
            },
            None => {
                assert(self@ =~= old_self@.remove(k@));
            },
        }
    }

    pub fn copy(&self) -> (r: StrSet)
        requires
            self.wf(),
        ensures
            r.wf(),
            r.items@ == self.items@,
            r@ == self@,
    {
        let r = StrSet { items: self.to_vec() };
        assert forall|i: int| 0 <= i < r.items@.len() implies #[trigger] r.item_at(i) == self.item_at(i) by {}
        assert forall|i: int, j: int|
            0 <= i < r.items@.len() && 0 <= j < r.items@.len() && i != j
                implies #[trigger] r.item_at(i) != #[trigger] r.item_at(j) by {
            assert(self.item_at(i) != self.item_at(j));
        }
        assert forall|q: Seq<char>| r@.contains(q) <==> self@.contains(q) by {
            if r@.contains(q) {
                let a = choose|a: int| 0 <= a < r.items@.len() && #[trigger] r.item_at(a) == q;
                assert(self.item_at(a) == q);
            }
            if self@.contains(q) {
                let a = choose|a: int| 0 <= a < self.items@.len() && #[trigger] self.item_at(a) == q;
                assert(r.item_at(a) == q);
            }
        }
        assert(r@ =~= self@);
        r
    }

    /// The items, in their stored order.
    pub fn to_vec(&self) -> (r: Vec<String>)
        ensures
            r@ == self.items@,
    {
        let mut r: Vec<String> = Vec::new();
        let mut i: usize = 0;
        while i < self.items.len()
            invariant
                i <= self.items@.len(),
                r@ == self.items@.subrange(0, i as int),
            decreases self.items@.len() - i,
        {
            r.push(self.items[i].clone());
            assert(r@ =~= self.items@.subrange(0, i + 1));
            i += 1;
        }
        assert(r@ =~= self.items@);
        r
    }
}

} // verus!
