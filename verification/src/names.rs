//! A map from names to values.
use vstd::prelude::*;

use crate::text::same_text;

verus! {

/// The test may answer so about the name.
pub open spec fn answers<F: Fn(&str) -> bool>(test: F, name: Seq<char>, answer: bool) -> bool {
    exists|s: &str| s@ == name && #[trigger] call_ensures(test, (s,), answer)
}

/// A map is what is left of another after a test of its names.
pub open spec fn tested<V, F: Fn(&str) -> bool>(
    before: Map<Seq<char>, V>,
    after: Map<Seq<char>, V>,
    test: F,
) -> bool {
    &&& forall|n: Seq<char>| #[trigger]
        after.dom().contains(n) ==> before.dom().contains(n) && after[n] == before[n] && answers(test, n, true)
    &&& forall|n: Seq<char>| #[trigger]
        before.dom().contains(n) ==> after.dom().contains(n) || answers(test, n, false)
}

/// A map from names to values. No name occurs twice.
pub struct NameMap<V> {
    entries: Vec<(String, V)>,
}

impl<V> View for NameMap<V> {
    type V = Map<Seq<char>, V>;

    closed spec fn view(&self) -> Map<Seq<char>, V> {
        Map::new(
            |k: Seq<char>| exists|i: int| 0 <= i < self.entries.len() && (#[trigger] self.entries[i]).0@ == k,
            |k: Seq<char>|
                self.entries[choose|i: int| 0 <= i < self.entries.len() && (#[trigger] self.entries[i]).0@ == k].1,
        )
    }
}

impl<V> NameMap<V> {
    /// No name occurs twice.
    pub closed spec fn wf(&self) -> bool {
        forall|i: int, j: int|
            0 <= i < j < self.entries.len() ==> (#[trigger] self.entries[i]).0@ != (#[trigger] self.entries[j]).0@
    }

    /// The part of a map whose entries pass the test.
    pub open spec fn passing(m: Map<Seq<char>, V>, test: spec_fn(Seq<char>, V) -> bool) -> Map<Seq<char>, V> {
        Map::new(|k: Seq<char>| m.dom().contains(k) && test(k, m[k]), |k: Seq<char>| m[k])
    }

    proof fn lemma_entry(&self, i: int)
        requires
            self.wf(),
            0 <= i < self.entries.len(),
        ensures
            self@.dom().contains(self.entries[i].0@),
            self@[self.entries[i].0@] == self.entries[i].1,
    {
        let k = self.entries[i].0@;
        let j = choose|j: int| 0 <= j < self.entries.len() && (#[trigger] self.entries[j]).0@ == k;
        assert(i == j);
    }

    pub fn new() -> (m: Self)
        ensures
            m.wf(),
            m@ == Map::<Seq<char>, V>::empty(),
    {
        let m = NameMap { entries: Vec::new() };
        assert(m@ =~= Map::<Seq<char>, V>::empty());
        m
    }

    fn position(&self, name: &str) -> (p: Option<usize>)
        requires
            self.wf(),
        ensures
            p is Some <==> self@.dom().contains(name@),
            p matches Some(i) ==> i < self.entries.len() && self.entries[i as int].0@ == name@ && self@[name@]
                == self.entries[i as int].1,
    {
        let mut i: usize = 0;
        while i < self.entries.len()
            invariant
                self.wf(),
                i <= self.entries.len(),
                forall|j: int| 0 <= j < i ==> (#[trigger] self.entries[j]).0@ != name@,
            decreases self.entries.len() - i,
        {
            if same_text(self.entries[i].0.as_str(), name) {
                proof {
                    self.lemma_entry(i as int);
                }
                return Some(i);
            }
            i += 1;
        }
        None
    }

    pub fn contains(&self, name: &str) -> (b: bool)
        requires
            self.wf(),
        ensures
            b == self@.dom().contains(name@),
    {
        self.position(name).is_some()
    }

    pub fn get(&self, name: &str) -> (v: Option<&V>)
        requires
            self.wf(),
        ensures
            v == (if self@.dom().contains(name@) { Some(&self@[name@]) } else { None }),
    {
        match self.position(name) {
            Some(i) => Some(&self.entries[i].1),
            None => None,
        }
    }

    /// The first entry that passes the test, with its name.
    pub(crate) fn find(
        &self,
        test: impl Fn(&V) -> bool,
        Ghost(t): Ghost<spec_fn(V) -> bool>,
    ) -> (found: Option<&String>)
        requires
            self.wf(),
            forall|v: &V| call_requires(test, (v,)),
            forall|v: &V, b: bool| call_ensures(test, (v,), b) ==> b == t(*v),
        ensures
            found matches Some(n) ==> self@.dom().contains(n@) && t(self@[n@]),
            found is None ==> forall|k: Seq<char>| #[trigger] self@.dom().contains(k) ==> !t(self@[k]),
    {
        let mut i: usize = 0;
        while i < self.entries.len()
            invariant
                self.wf(),
                i <= self.entries.len(),
                forall|v: &V| call_requires(test, (v,)),
                forall|v: &V, b: bool| call_ensures(test, (v,), b) ==> b == t(*v),
                forall|j: int| 0 <= j < i ==> !t((#[trigger] self.entries[j]).1),
            decreases self.entries.len() - i,
        {
            if test(&self.entries[i].1) {
                proof {
                    self.lemma_entry(i as int);
                }
                return Some(&self.entries[i].0);
            }
            i += 1;
        }
        proof {
            assert forall|k: Seq<char>| #[trigger] self@.dom().contains(k) implies !t(self@[k]) by {
                let j = choose|j: int| 0 <= j < self.entries.len() && (#[trigger] self.entries[j]).0@ == k;
                self.lemma_entry(j);
            }
        }
        None
    }

    proof fn lemma_set(a: Self, b: Self, p: int)
        requires
            a.wf(),
            0 <= p < a.entries.len(),
            b.entries.len() == a.entries.len(),
            b.entries[p].0 == a.entries[p].0,
            forall|i: int| 0 <= i < a.entries.len() && i != p ==> b.entries[i] == a.entries[i],
        ensures
            b.wf(),
            b@ == a@.insert(a.entries[p].0@, b.entries[p].1),
    {
        assert(b.wf()) by {
            assert forall|i: int, j: int| 0 <= i < j < b.entries.len() implies (#[trigger] b.entries[i]).0@ != (
            #[trigger] b.entries[j]).0@ by {
                assert(a.entries[i].0@ != a.entries[j].0@);
            }
        }
        let m = a@.insert(a.entries[p].0@, b.entries[p].1);
        assert forall|x: Seq<char>|
            #![trigger m.dom().contains(x)]
            #![trigger b@.dom().contains(x)]
            m.dom().contains(x) == b@.dom().contains(x) && (m.dom().contains(x) ==> m[x] == b@[x]) by {
            a.lemma_entry(p);
            b.lemma_entry(p);
            if m.dom().contains(x) {
                let i = choose|i: int| 0 <= i < a.entries.len() && (#[trigger] a.entries[i]).0@ == x;
                a.lemma_entry(i);
                assert(b.entries[i].0@ == x);
                b.lemma_entry(i);
            }
            if b@.dom().contains(x) {
                let i = choose|i: int| 0 <= i < b.entries.len() && (#[trigger] b.entries[i]).0@ == x;
                assert(a.entries[i].0@ == x);
                a.lemma_entry(i);
            }
        }
        assert(m =~= b@);
    }

    /// Sets the value of a name and returns the value it had.
    pub fn insert(&mut self, name: &str, v: V) -> (prev: Option<V>)
        requires
            old(self).wf(),
        ensures
            final(self).wf(),
            final(self)@ == old(self)@.insert(name@, v),
            prev == (if old(self)@.dom().contains(name@) { Some(old(self)@[name@]) } else { None }),
    {
        match self.position(name) {
            Some(p) => {
                let mut v = v;
                let e = &mut self.entries[p].1;
                std::mem::swap(e, &mut v);
                proof {
                    Self::lemma_set(*old(self), *self, p as int);
                }
                Some(v)
            },
            None => {
                self.entries.push((name.to_owned(), v));
                proof {
                    let a = *old(self);
                    let b = *self;
                    let n = a.entries.len() as int;
                    assert forall|i: int, j: int| 0 <= i < j < b.entries.len() implies (#[trigger] b.entries[i]).0@
                        != (#[trigger] b.entries[j]).0@ by {
                        a.lemma_entry(i);
                        if j < n {
                            assert(a.entries[i].0@ != a.entries[j].0@);
                        }
                    }
                    let m = a@.insert(name@, v);
                    assert forall|x: Seq<char>|
                        #![trigger m.dom().contains(x)]
                        #![trigger b@.dom().contains(x)]
                        m.dom().contains(x) == b@.dom().contains(x) && (m.dom().contains(x) ==> m[x] == b@[x]) by {
                        b.lemma_entry(n);
                        if m.dom().contains(x) && x != name@ {
                            let i = choose|i: int| 0 <= i < a.entries.len() && (#[trigger] a.entries[i]).0@ == x;
                            a.lemma_entry(i);
                            assert(b.entries[i] == a.entries[i]);
                            b.lemma_entry(i);
                        }
                        if b@.dom().contains(x) && x != name@ {
                            let i = choose|i: int| 0 <= i < b.entries.len() && (#[trigger] b.entries[i]).0@ == x;
                            assert(i < n);
                            assert(b.entries[i] == a.entries[i]);
                            a.lemma_entry(i);
                        }
                    }
                    assert(m =~= b@);
                }
                None
            },
        }
    }

    /// Takes out the last entry.
    fn pop(&mut self) -> (last: Option<(String, V)>)
        requires
            old(self).wf(),
        ensures
            final(self).wf(),
            last is None <==> old(self)@ == Map::<Seq<char>, V>::empty(),
            last is None ==> final(self)@ == old(self)@,
            last matches Some(e) ==> {
                &&& old(self)@.dom().contains(e.0@)
                &&& old(self)@[e.0@] == e.1
                &&& final(self)@ == old(self)@.remove(e.0@)
                &&& final(self).entries.len() + 1 == old(self).entries.len()
            },
    {
        let n: usize = self.entries.len();
        if n == 0 {
            proof {
                assert(self@ =~= Map::<Seq<char>, V>::empty());
            }
            return None;
        }
        let e = self.take_at(n - 1);
        Some(e)
    }

    fn take_at(&mut self, p: usize) -> (e: (String, V))
        requires
            old(self).wf(),
            p < old(self).entries.len(),
        ensures
            final(self).wf(),
            e == old(self).entries[p as int],
            old(self)@.dom().contains(e.0@),
            old(self)@[e.0@] == e.1,
            final(self)@ == old(self)@.remove(e.0@),
            final(self).entries.len() + 1 == old(self).entries.len(),
    {
        let e = self.entries.remove(p);
        proof {
            let a = *old(self);
            let b = *self;
            a.lemma_entry(p as int);
            assert forall|i: int, j: int| 0 <= i < j < b.entries.len() implies (#[trigger] b.entries[i]).0@ != (
            #[trigger] b.entries[j]).0@ by {
                let i0 = if i < p { i } else { i + 1 };
                let j0 = if j < p { j } else { j + 1 };
                assert(b.entries[i] == a.entries[i0]);
                assert(b.entries[j] == a.entries[j0]);
            }
            let m = a@.remove(e.0@);
            assert forall|x: Seq<char>|
                #![trigger m.dom().contains(x)]
                #![trigger b@.dom().contains(x)]
                m.dom().contains(x) == b@.dom().contains(x) && (m.dom().contains(x) ==> m[x] == b@[x]) by {
                if m.dom().contains(x) {
                    let i = choose|i: int| 0 <= i < a.entries.len() && (#[trigger] a.entries[i]).0@ == x;
                    a.lemma_entry(i);
                    assert(i != p);
                    let i1 = if i < p { i } else { i - 1 };
                    assert(b.entries[i1] == a.entries[i]);
                    b.lemma_entry(i1);
                }
                if b@.dom().contains(x) {
                    let i = choose|i: int| 0 <= i < b.entries.len() && (#[trigger] b.entries[i]).0@ == x;
                    let i0 = if i < p { i } else { i + 1 };
                    assert(b.entries[i] == a.entries[i0]);
                    a.lemma_entry(i0);
                    assert(a.entries[i0].0@ != a.entries[p as int].0@);
                }
            }
            assert(m =~= b@);
        }
        e
    }

    /// Removes a name and returns the value it had.
    pub fn remove(&mut self, name: &str) -> (prev: Option<V>)
        requires
            old(self).wf(),
        ensures
            final(self).wf(),
            final(self)@ == old(self)@.remove(name@),
            prev == (if old(self)@.dom().contains(name@) { Some(old(self)@[name@]) } else { None }),
    {
        match self.position(name) {
            Some(p) => {
                let e = self.take_at(p);
                Some(e.1)
            },
            None => {
                proof {
                    assert(self@.remove(name@) =~= self@);
                }
                None
            },
        }
    }

    /// Keeps the entries whose name passes the test.
    pub(crate) fn retain_tested<F: Fn(&str) -> bool>(&mut self, keep: &F)
        requires
            old(self).wf(),
            forall|s: &str| call_requires(*keep, (s,)),
        ensures
            final(self).wf(),
            tested(old(self)@, final(self)@, *keep),
    {
        let ghost all = self@;
        let mut kept: NameMap<V> = NameMap::new();
        loop
            invariant
                self.wf(),
                kept.wf(),
                forall|s: &str| call_requires(*keep, (s,)),
                forall|k: Seq<char>| #[trigger]
                    self@.dom().contains(k) ==> all.dom().contains(k) && self@[k] == all[k],
                forall|k: Seq<char>| #[trigger]
                    kept@.dom().contains(k) ==> all.dom().contains(k) && kept@[k] == all[k]
                        && answers(*keep, k, true),
                forall|k: Seq<char>| #[trigger]
                    all.dom().contains(k) ==> self@.dom().contains(k) || kept@.dom().contains(k)
                        || answers(*keep, k, false),
            ensures
                kept.wf(),
                tested(all, kept@, *keep),
            decreases self.entries.len(),
        {
            match self.pop() {
                Some(e) => {
                    let (name, v) = e;
                    let text = name.as_str();
                    let stays = keep(text);
                    proof {
                        assert(call_ensures(*keep, (text,), stays));
                        assert(answers(*keep, name@, stays));
                    }
                    if stays {
                        kept.insert(name.as_str(), v);
                    }
                },
                None => {
                    break ;
                },
            }
        }
        *self = kept;
    }

    /// Keeps the entries that pass the test.
    pub(crate) fn retain(
        &mut self,
        keep: impl Fn(&String, &V) -> bool,
        Ghost(t): Ghost<spec_fn(Seq<char>, V) -> bool>,
    )
        requires
            old(self).wf(),
            forall|n: &String, v: &V| call_requires(keep, (n, v)),
            forall|n: &String, v: &V, b: bool| call_ensures(keep, (n, v), b) ==> b == t(n@, *v),
        ensures
            final(self).wf(),
            final(self)@ == Self::passing(old(self)@, t),
    {
        let ghost all = self@;
        let mut kept: NameMap<V> = NameMap::new();
        let ghost mut seen: Set<Seq<char>> = Set::empty();
        proof {
            assert(kept@ =~= Map::new(|k: Seq<char>| seen.contains(k) && t(k, all[k]), |k: Seq<char>| all[k]));
        }
        loop
            invariant
                self.wf(),
                kept.wf(),
                forall|n: &String, v: &V| call_requires(keep, (n, v)),
                forall|n: &String, v: &V, b: bool| call_ensures(keep, (n, v), b) ==> b == t(n@, *v),
                forall|k: Seq<char>| #[trigger] all.dom().contains(k) <==> self@.dom().contains(k) || seen.contains(k),
                forall|k: Seq<char>| #[trigger] self@.dom().contains(k) ==> self@[k] == all[k],
                forall|k: Seq<char>| #[trigger] self@.dom().contains(k) ==> !seen.contains(k),
                kept@ == Map::new(|k: Seq<char>| seen.contains(k) && t(k, all[k]), |k: Seq<char>| all[k]),
            ensures
                kept.wf(),
                kept@ == Self::passing(all, t),
            decreases self.entries.len(),
        {
            let ghost rest = self@;
            match self.pop() {
                Some(e) => {
                    let (name, v) = e;
                    proof {
                        assert(all.dom().contains(name@));
                        assert(rest.dom().contains(name@));
                    }
                    let ghost before = kept@;
                    let stays = keep(&name, &v);
                    if stays {
                        kept.insert(name.as_str(), v);
                    }
                    proof {
                        seen = seen.insert(name@);
                        assert(kept@ =~= Map::new(
                            |k: Seq<char>| seen.contains(k) && t(k, all[k]),
                            |k: Seq<char>| all[k],
                        ));
                    }
                },
                None => {
                    proof {
                        assert(kept@ =~= Self::passing(all, t));
                    }
                    break ;
                },
            }
        }
        *self = kept;
    }
}

} // verus!
