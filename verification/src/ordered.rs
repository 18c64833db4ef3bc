//! A map that keeps its entries in the order of their keys.
use vstd::prelude::*;

verus! {

/// A key that is ordered by a number.
pub trait Key: Copy {
    /// The number that orders the key among the keys of its type.
    spec fn rank(self) -> int;

    /// Distinct keys have distinct ranks.
    proof fn rank_is_injective(a: Self, b: Self)
        requires
            a.rank() == b.rank(),
        ensures
            a == b,
    ;

    fn rank_of(self) -> (r: u64)
        ensures
            r == self.rank(),
    ;
}

/// The keys stand in strictly rising order.
pub open spec fn rising<K: Key>(keys: Seq<K>) -> bool {
    forall|i: int, j: int| 0 <= i < j < keys.len() ==> (#[trigger] keys[i]).rank() < (#[trigger] keys[j]).rank()
}

/// The members of a finite set of keys, in rising order.
pub open spec fn in_order<K: Key>(keys: Set<K>) -> Seq<K> {
    choose|s: Seq<K>| rising(s) && s.to_set() == keys
}

/// There is only one rising sequence with given members.
pub proof fn lemma_rising_is_unique<K: Key>(a: Seq<K>, b: Seq<K>)
    requires
        rising(a),
        rising(b),
        a.to_set() == b.to_set(),
    ensures
        a == b,
    decreases a.len(),
{
    if a.len() == 0 {
        if b.len() > 0 {
            assert(b.to_set().contains(b[0]));
            assert(a.to_set().contains(b[0]));
        }
        assert(a =~= b);
    } else {
        assert(a.to_set().contains(a[0]));
        assert(b.to_set().contains(a[0]));
        assert(b.len() > 0);
        // The last members are equal: each is a member of the other sequence.
        let x = a.last();
        let y = b.last();
        assert(a.to_set().contains(x) && b.to_set().contains(y));
        assert(b.to_set().contains(x) && a.to_set().contains(y));
        let i = choose|i: int| 0 <= i < b.len() && b[i] == x;
        let j = choose|j: int| 0 <= j < a.len() && a[j] == y;
        assert(i < b.len() - 1 ==> x.rank() < y.rank());
        assert(j < a.len() - 1 ==> y.rank() < x.rank());
        assert(x.rank() == y.rank());
        K::rank_is_injective(x, y);
        let a1 = a.drop_last();
        let b1 = b.drop_last();
        assert forall|k: K| a1.to_set().contains(k) == b1.to_set().contains(k) by {
            if a1.to_set().contains(k) {
                let n = choose|n: int| 0 <= n < a1.len() && a1[n] == k;
                assert(a[n] == k);
                assert(a.to_set().contains(k));
                assert(b.to_set().contains(k));
                let m = choose|m: int| 0 <= m < b.len() && b[m] == k;
                assert(k.rank() < x.rank());
                assert(b1[m] == k);
            }
            if b1.to_set().contains(k) {
                let n = choose|n: int| 0 <= n < b1.len() && b1[n] == k;
                assert(b[n] == k);
                assert(b.to_set().contains(k));
                assert(a.to_set().contains(k));
                let m = choose|m: int| 0 <= m < a.len() && a[m] == k;
                assert(k.rank() < y.rank());
                assert(a1[m] == k);
            }
        }
        assert(a1.to_set() =~= b1.to_set());
        lemma_rising_is_unique(a1, b1);
        assert(a =~= a1.push(x));
        assert(b =~= b1.push(y));
    }
}

/// A rising sequence is the ordering of its members.
pub proof fn lemma_in_order<K: Key>(keys: Seq<K>)
    requires
        rising(keys),
    ensures
        in_order(keys.to_set()) == keys,
{
    let s = in_order(keys.to_set());
    assert(rising(keys) && keys.to_set() == keys.to_set());
    lemma_rising_is_unique(s, keys);
}

/// A finite set of keys can be put in order.
pub proof fn lemma_can_be_ordered<K: Key>(keys: Set<K>)
    requires
        keys.finite(),
    ensures
        rising(in_order(keys)),
        in_order(keys).to_set() == keys,
    decreases keys.len(),
{
    let s = lemma_some_order(keys);
    assert(rising(s) && s.to_set() == keys);
}

proof fn lemma_some_order<K: Key>(keys: Set<K>) -> (s: Seq<K>)
    requires
        keys.finite(),
    ensures
        rising(s),
        s.to_set() == keys,
    decreases keys.len(),
{
    if keys.len() == 0 {
        let s = Seq::<K>::empty();
        assert(s.to_set() =~= keys);
        s
    } else {
        let k = keys.choose();
        let rest = keys.remove(k);
        let t = lemma_some_order(rest);
        let p = lemma_place(t, k, t.len() as int);
        let s = t.insert(p, k);
        assert(!rest.contains(k));
        assert forall|i: int, j: int| 0 <= i < j < s.len() implies (#[trigger] s[i]).rank() < (
        #[trigger] s[j]).rank() by {
            let i0 = if i < p { i } else { i - 1 };
            let j0 = if j < p { j } else { j - 1 };
            assert(i != p ==> s[i] == t[i0]);
            assert(j != p ==> s[j] == t[j0]);
            if i == p {
                assert(t[j0].rank() >= k.rank());
                if t[j0].rank() == k.rank() {
                    K::rank_is_injective(t[j0], k);
                    assert(t.to_set().contains(t[j0]));
                }
            } else if j == p {
                assert(t[i0].rank() < k.rank());
            }
        }
        assert forall|x: K| s.to_set().contains(x) == keys.contains(x) by {
            if s.to_set().contains(x) {
                let i = choose|i: int| 0 <= i < s.len() && s[i] == x;
                if i != p {
                    let i0 = if i < p { i } else { i - 1 };
                    assert(t[i0] == x);
                    assert(t.to_set().contains(x));
                }
            }
            if keys.contains(x) {
                if x == k {
                    assert(s[p] == x);
                } else {
                    assert(t.to_set().contains(x));
                    let i = choose|i: int| 0 <= i < t.len() && t[i] == x;
                    let i1 = if i < p { i } else { i + 1 };
                    assert(s[i1] == x);
                }
            }
        }
        assert(s.to_set() =~= keys);
        s
    }
}

/// The place of a key among the first `n` keys of a rising sequence.
proof fn lemma_place<K: Key>(t: Seq<K>, k: K, n: int) -> (p: int)
    requires
        rising(t),
        0 <= n <= t.len(),
    ensures
        0 <= p <= n,
        forall|i: int| 0 <= i < p ==> (#[trigger] t[i]).rank() < k.rank(),
        forall|i: int| p <= i < n ==> (#[trigger] t[i]).rank() >= k.rank(),
    decreases n,
{
    if n == 0 {
        0
    } else if t[n - 1].rank() < k.rank() {
        assert forall|i: int| 0 <= i < n implies (#[trigger] t[i]).rank() < k.rank() by {
            if i < n - 1 {
                assert(t[i].rank() < t[n - 1].rank());
            }
        }
        n
    } else {
        lemma_place(t, k, n - 1)
    }
}

/// A rising sequence is as long as its set of members.
pub proof fn lemma_rising_len<K: Key>(keys: Seq<K>, set: Set<K>)
    requires
        rising(keys),
        keys.to_set() == set,
    ensures
        keys.len() == set.len(),
        set.finite(),
{
    assert(keys.no_duplicates()) by {
        assert forall|i: int, j: int| 0 <= i < keys.len() && 0 <= j < keys.len() && i != j implies keys[i] != keys[j] by {
            if i < j {
                assert(keys[i].rank() < keys[j].rank());
            } else {
                assert(keys[j].rank() < keys[i].rank());
            }
        }
    }
    keys.unique_seq_to_set();
}

/// A map from keys to values whose entries stand in the order of the keys.
pub struct OrdMap<K: Key, V> {
    entries: Vec<(K, V)>,
}

impl<K: Key, V> View for OrdMap<K, V> {
    type V = Map<K, V>;

    closed spec fn view(&self) -> Map<K, V> {
        Map::new(
            |k: K| exists|i: int| 0 <= i < self.entries.len() && (#[trigger] self.entries[i]).0 == k,
            |k: K| self.entries[choose|i: int| 0 <= i < self.entries.len() && (#[trigger] self.entries[i]).0 == k].1,
        )
    }
}

impl<K: Key, V> OrdMap<K, V> {
    /// The keys, in the order of the entries.
    pub closed spec fn key_seq(&self) -> Seq<K> {
        self.entries@.map_values(|e: (K, V)| e.0)
    }

    /// The entries stand in rising order of their keys.
    pub closed spec fn wf(&self) -> bool {
        rising(self.key_seq())
    }

    proof fn lemma_entry(&self, i: int)
        requires
            self.wf(),
            0 <= i < self.entries.len(),
        ensures
            self@.dom().contains(self.entries[i].0),
            self@[self.entries[i].0] == self.entries[i].1,
    {
        let k = self.entries[i].0;
        let j = choose|j: int| 0 <= j < self.entries.len() && (#[trigger] self.entries[j]).0 == k;
        assert(self.key_seq()[i] == k && self.key_seq()[j] == k);
        assert(i == j);
    }

    /// The keys of a map are the members of its domain, in rising order.
    pub proof fn lemma_keys(&self)
        requires
            self.wf(),
        ensures
            rising(self.key_seq()),
            self.key_seq().to_set() == self@.dom(),
            in_order(self@.dom()) == self.key_seq(),
            self@.dom().finite(),
    {
        assert forall|k: K| self.key_seq().to_set().contains(k) == self@.dom().contains(k) by {
            if self.key_seq().to_set().contains(k) {
                let i = choose|i: int| 0 <= i < self.key_seq().len() && self.key_seq()[i] == k;
                assert(self.entries[i].0 == k);
            }
            if self@.dom().contains(k) {
                let i = choose|i: int| 0 <= i < self.entries.len() && (#[trigger] self.entries[i]).0 == k;
                assert(self.key_seq()[i] == k);
            }
        }
        assert(self.key_seq().to_set() =~= self@.dom());
        lemma_in_order(self.key_seq());
    }

    pub fn new() -> (m: Self)
        ensures
            m.wf(),
            m@ == Map::<K, V>::empty(),
    {
        let m = OrdMap { entries: Vec::new() };
        assert(m@ =~= Map::<K, V>::empty());
        m
    }

    pub fn len(&self) -> (n: usize)
        requires
            self.wf(),
        ensures
            n == self.key_seq().len(),
    {
        self.entries.len()
    }

    pub fn is_empty(&self) -> (b: bool)
        requires
            self.wf(),
        ensures
            b == (self@ == Map::<K, V>::empty()),
    {
        let b = self.entries.len() == 0;
        proof {
            if b {
                assert(self@ =~= Map::<K, V>::empty());
            } else {
                self.lemma_entry(0);
            }
        }
        b
    }

    /// The number of entries whose key comes before `k`.
    fn position(&self, k: K) -> (p: usize)
        requires
            self.wf(),
        ensures
            p <= self.entries.len(),
            forall|i: int| 0 <= i < p ==> (#[trigger] self.entries[i]).0.rank() < k.rank(),
            forall|i: int| p <= i < self.entries.len() ==> (#[trigger] self.entries[i]).0.rank() >= k.rank(),
            self@.dom().contains(k) <==> p < self.entries.len() && self.entries[p as int].0 == k,
            self@.dom().contains(k) ==> self@[k] == self.entries[p as int].1,
    {
        let rank = k.rank_of();
        let mut p: usize = 0;
        while p < self.entries.len() && self.entries[p].0.rank_of() < rank
            invariant
                p <= self.entries.len(),
                rank == k.rank(),
                forall|i: int| 0 <= i < p ==> (#[trigger] self.entries[i]).0.rank() < k.rank(),
            decreases self.entries.len() - p,
        {
            p += 1;
        }
        proof {
            assert forall|i: int| p <= i < self.entries.len() implies (#[trigger] self.entries[i]).0.rank()
                >= k.rank() by {
                assert(self.key_seq()[p as int] == self.entries[p as int].0);
                assert(self.key_seq()[i] == self.entries[i].0);
            }
            if self@.dom().contains(k) {
                let i = choose|i: int| 0 <= i < self.entries.len() && (#[trigger] self.entries[i]).0 == k;
                assert(i >= p);
                assert(self.key_seq()[p as int] == self.entries[p as int].0);
                assert(self.key_seq()[i] == self.entries[i].0);
                assert(i == p);
            }
            if p < self.entries.len() && self.entries[p as int].0 == k {
                self.lemma_entry(p as int);
            }
        }
        p
    }

    pub fn contains(&self, k: K) -> (b: bool)
        requires
            self.wf(),
        ensures
            b == self@.dom().contains(k),
    {
        let p = self.position(k);
        if p < self.entries.len() && self.entries[p].0.rank_of() == k.rank_of() {
            proof {
                K::rank_is_injective(self.entries[p as int].0, k);
            }
            true
        } else {
            false
        }
    }

    pub fn get(&self, k: K) -> (v: Option<&V>)
        requires
            self.wf(),
        ensures
            v == (if self@.dom().contains(k) { Some(&self@[k]) } else { None }),
    {
        let p = self.position(k);
        if p < self.entries.len() && self.entries[p].0.rank_of() == k.rank_of() {
            proof {
                K::rank_is_injective(self.entries[p as int].0, k);
            }
            Some(&self.entries[p].1)
        } else {
            None
        }
    }

    proof fn lemma_same_keys(a: Self, b: Self, p: int)
        requires
            a.wf(),
            0 <= p < a.entries.len(),
            b.entries.len() == a.entries.len(),
            b.entries[p].0 == a.entries[p].0,
            forall|i: int| 0 <= i < a.entries.len() && i != p ==> b.entries[i] == a.entries[i],
        ensures
            b.wf(),
            b@ == a@.insert(a.entries[p].0, b.entries[p].1),
    {
        assert(b.key_seq() =~= a.key_seq());
        let m = a@.insert(a.entries[p].0, b.entries[p].1);
        a.lemma_entry(p);
        a.lemma_keys();
        b.lemma_keys();
        assert(m.dom() =~= b@.dom());
        assert forall|k: K| m.dom().contains(k) implies m[k] == b@[k] by {
            let i = choose|i: int| 0 <= i < b.entries.len() && (#[trigger] b.entries[i]).0 == k;
            b.lemma_entry(i);
            a.lemma_entry(i);
            if i != p {
                assert(a.key_seq()[i] == a.entries[i].0 && a.key_seq()[p] == a.entries[p].0);
                assert(i < p || p < i);
            }
        }
        assert(m =~= b@);
    }

    pub fn get_mut(&mut self, k: K) -> (v: Option<&mut V>)
        requires
            old(self).wf(),
        ensures
            final(self).wf(),
            v is Some <==> old(self)@.dom().contains(k),
            v matches Some(v) ==> *v == old(self)@[k],
            v matches Some(v) ==> final(self)@ == old(self)@.insert(k, *final(v)),
            v is None ==> final(self)@ == old(self)@,
    {
        let p = self.position(k);
        if p < self.entries.len() && self.entries[p].0.rank_of() == k.rank_of() {
            proof {
                K::rank_is_injective(self.entries[p as int].0, k);
            }
            proof {
                let a = *self;
                assert forall|b: Self|
                    #![trigger b.wf()]
                    #![trigger b@]
                    b.entries.len() == a.entries.len() && b.entries[p as int].0 == k && (forall|i: int|
                        0 <= i < a.entries.len() && i != p ==> b.entries[i] == a.entries[i]) implies b.wf()
                    && b@ == a@.insert(k, b.entries[p as int].1) by {
                    Self::lemma_same_keys(a, b, p as int);
                }
            }
            Some(&mut self.entries[p].1)
        } else {
            None
        }
    }

    /// Sets the value of a key and returns the value it had.
    pub fn insert(&mut self, k: K, v: V) -> (prev: Option<V>)
        requires
            old(self).wf(),
        ensures
            final(self).wf(),
            final(self)@ == old(self)@.insert(k, v),
            prev == (if old(self)@.dom().contains(k) { Some(old(self)@[k]) } else { None }),
    {
        let p = self.position(k);
        if p < self.entries.len() && self.entries[p].0.rank_of() == k.rank_of() {
            proof {
                K::rank_is_injective(self.entries[p as int].0, k);
            }
            let mut v = v;
            let e = &mut self.entries[p].1;
            std::mem::swap(e, &mut v);
            proof {
                Self::lemma_same_keys(*old(self), *self, p as int);
            }
            Some(v)
        } else {
            self.entries.insert(p, (k, v));
            proof {
                let a = *old(self);
                let b = *self;
                assert(b.entries@ == a.entries@.insert(p as int, (k, v)));
                assert forall|i: int, j: int| 0 <= i < j < b.key_seq().len() implies (#[trigger] b.key_seq()[i]).rank()
                    < (#[trigger] b.key_seq()[j]).rank() by {
                    let i0 = if i < p { i } else { i - 1 };
                    let j0 = if j < p { j } else { j - 1 };
                    assert(i != p ==> b.entries[i] == a.entries[i0] && a.key_seq()[i0] == a.entries[i0].0);
                    assert(j != p ==> b.entries[j] == a.entries[j0] && a.key_seq()[j0] == a.entries[j0].0);
                    if j == p {
                        assert(a.entries[i].0.rank() < k.rank());
                    } else if i == p {
                        assert(a.entries[j0].0.rank() >= k.rank());
                        if a.entries[j0].0.rank() == k.rank() {
                            K::rank_is_injective(a.entries[j0].0, k);
                            a.lemma_entry(j0);
                        }
                    }
                }
                assert(b.wf());
                let m = a@.insert(k, v);
                assert forall|x: K|
                    #![trigger m.dom().contains(x)]
                    #![trigger b@.dom().contains(x)]
                    m.dom().contains(x) == b@.dom().contains(x) && (m.dom().contains(x) ==> m[x] == b@[x]) by {
                    if m.dom().contains(x) {
                        if x == k {
                            assert(b.entries[p as int].0 == k);
                            b.lemma_entry(p as int);
                        } else {
                            let i = choose|i: int| 0 <= i < a.entries.len() && (#[trigger] a.entries[i]).0 == x;
                            a.lemma_entry(i);
                            let i1 = if i < p { i } else { i + 1 };
                            assert(b.entries[i1] == a.entries[i]);
                            b.lemma_entry(i1);
                        }
                    }
                    if b@.dom().contains(x) && x != k {
                        let i = choose|i: int| 0 <= i < b.entries.len() && (#[trigger] b.entries[i]).0 == x;
                        let i0 = if i < p { i } else { i - 1 };
                        assert(i != p);
                        assert(b.entries[i] == a.entries[i0]);
                        a.lemma_entry(i0);
                    }
                }
                assert(m =~= b@);
            }
            None
        }
    }

    /// Removes a key and returns the value it had.
    pub fn remove(&mut self, k: K) -> (prev: Option<V>)
        requires
            old(self).wf(),
        ensures
            final(self).wf(),
            final(self)@ == old(self)@.remove(k),
            prev == (if old(self)@.dom().contains(k) { Some(old(self)@[k]) } else { None }),
    {
        let p = self.position(k);
        if p < self.entries.len() && self.entries[p].0.rank_of() == k.rank_of() {
            proof {
                K::rank_is_injective(self.entries[p as int].0, k);
            }
            let e = self.entries.remove(p);
            proof {
                let a = *old(self);
                let b = *self;
                assert(b.entries@ == a.entries@.remove(p as int));
                assert forall|i: int, j: int| 0 <= i < j < b.key_seq().len() implies (#[trigger] b.key_seq()[i]).rank()
                    < (#[trigger] b.key_seq()[j]).rank() by {
                    let i0 = if i < p { i } else { i + 1 };
                    let j0 = if j < p { j } else { j + 1 };
                    assert(b.entries[i] == a.entries[i0] && a.key_seq()[i0] == a.entries[i0].0);
                    assert(b.entries[j] == a.entries[j0] && a.key_seq()[j0] == a.entries[j0].0);
                }
                assert(b.wf());
                let m = a@.remove(k);
                assert forall|x: K|
                    #![trigger m.dom().contains(x)]
                    #![trigger b@.dom().contains(x)]
                    m.dom().contains(x) == b@.dom().contains(x) && (m.dom().contains(x) ==> m[x] == b@[x]) by {
                    if m.dom().contains(x) {
                        let i = choose|i: int| 0 <= i < a.entries.len() && (#[trigger] a.entries[i]).0 == x;
                        a.lemma_entry(i);
                        assert(i != p);
                        let i1 = if i < p { i } else { i - 1 };
                        assert(b.entries[i1] == a.entries[i]);
                        b.lemma_entry(i1);
                    }
                    if b@.dom().contains(x) {
                        let i = choose|i: int| 0 <= i < b.entries.len() && (#[trigger] b.entries[i]).0 == x;
                        let i0 = if i < p { i } else { i + 1 };
                        assert(b.entries[i] == a.entries[i0]);
                        a.lemma_entry(i0);
                        assert(a.key_seq()[i0] == a.entries[i0].0 && a.key_seq()[p as int] == a.entries[p as int].0);
                        assert(x != k);
                    }
                }
                assert(m =~= b@);
            }
            Some(e.1)
        } else {
            proof {
                assert(self@.remove(k) =~= self@);
            }
            None
        }
    }

    /// The keys, in order.
    pub fn keys(&self) -> (keys: Vec<K>)
        requires
            self.wf(),
        ensures
            keys@ == self.key_seq(),
            keys@ == in_order(self@.dom()),
            rising(keys@),
            keys@.to_set() == self@.dom(),
    {
        let mut keys: Vec<K> = Vec::new();
        let mut i: usize = 0;
        while i < self.entries.len()
            invariant
                i <= self.entries.len(),
                keys@ == self.key_seq().take(i as int),
            decreases self.entries.len() - i,
        {
            keys.push(self.entries[i].0);
            i += 1;
        }
        proof {
            assert(self.key_seq().take(i as int) =~= self.key_seq());
            self.lemma_keys();
        }
        keys
    }
}

} // verus!
