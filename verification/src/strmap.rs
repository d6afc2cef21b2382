//! A small verified association map with `String` keys, unique, viewed as a
//! `Map<Seq<char>, V::V>`. It backs both the attribute buckets and the
//! per-service overlay table of a profile.

use vstd::prelude::*;

verus! {

pub struct StrMap<V> {
    entries: Vec<(String, V)>,
}

spec fn map_of<V: View>(s: Seq<(String, V)>) -> Map<Seq<char>, V::V>
    decreases s.len(),
{
    if s.len() == 0 {
        Map::empty()
    } else {
        map_of(s.drop_last()).insert(s.last().0@, s.last().1@)
    }
}

spec fn unique_keys<V>(s: Seq<(String, V)>) -> bool {
    forall|i: int, j: int| 0 <= i < j < s.len() ==> s[i].0@ != s[j].0@
}

proof fn lemma_map_of<V: View>(s: Seq<(String, V)>)
    requires
        unique_keys(s),
    ensures
        forall|k: Seq<char>| #[trigger] map_of(s).contains_key(k)
            ==> exists|i: int| 0 <= i < s.len() && s[i].0@ == k,
        forall|i: int| 0 <= i < s.len()
            ==> map_of(s).contains_key(#[trigger] s[i].0@) && map_of(s)[s[i].0@] == s[i].1@,
    decreases s.len(),
{
    if s.len() == 0 {
    } else {
        let t = s.drop_last();
        assert(forall|i: int| 0 <= i < t.len() ==> t[i] == s[i]);
        lemma_map_of(t);
        assert forall|k: Seq<char>| #[trigger] map_of(s).contains_key(k)
            implies exists|i: int| 0 <= i < s.len() && s[i].0@ == k by {
            if k == s.last().0@ {
                assert(s[s.len() - 1].0@ == k);
            } else {
                assert(map_of(t).contains_key(k));
                let i = choose|i: int| 0 <= i < t.len() && t[i].0@ == k;
                assert(s[i].0@ == k);
            }
        }
        assert forall|i: int| 0 <= i < s.len()
            implies map_of(s).contains_key(#[trigger] s[i].0@) && map_of(s)[s[i].0@]
                == s[i].1@ by {
            if i < s.len() - 1 {
                assert(t[i] == s[i]);
                assert(map_of(t).contains_key(s[i].0@) && map_of(t)[s[i].0@] == s[i].1@);
                assert(s[i].0@ != s.last().0@);
            }
        }
    }
}

proof fn lemma_map_of_remove<V: View>(s: Seq<(String, V)>, i: int)
    requires
        unique_keys(s),
        0 <= i < s.len(),
    ensures
        map_of(s.remove(i)) == map_of(s).remove(s[i].0@),
    decreases s.len(),
{
    let k = s[i].0@;
    if i == s.len() - 1 {
        assert(s.remove(i) =~= s.drop_last());
        lemma_map_of(s.drop_last());
        assert(!map_of(s.drop_last()).contains_key(k)) by {
            if map_of(s.drop_last()).contains_key(k) {
                let j = choose|j: int|
                    0 <= j < s.drop_last().len() && s.drop_last()[j].0@ == k;
                assert(s[j].0@ == s[i].0@);
            }
        }
        assert(map_of(s.drop_last()).insert(k, s.last().1@).remove(k) =~= map_of(
            s.drop_last(),
        ));
    } else {
        let t = s.remove(i);
        assert(forall|j: int| 0 <= j < t.len() ==> t[j] == (if j < i {
            s[j]
        } else {
            s[j + 1]
        }));
        assert(t.drop_last() =~= s.drop_last().remove(i));
        assert(t.last() == s.last());
        assert(forall|j1: int, j2: int|
            0 <= j1 < j2 < s.drop_last().len() ==> s.drop_last()[j1].0@ != s.drop_last()[j2].0@);
        lemma_map_of_remove(s.drop_last(), i);
        let lastk = s.last().0@;
        let lastv = s.last().1@;
        assert(k != lastk);
        assert(map_of(s.drop_last()).remove(k).insert(lastk, lastv) =~= map_of(
            s.drop_last(),
        ).insert(lastk, lastv).remove(k));
        assert(map_of(t) == map_of(t.drop_last()).insert(lastk, lastv));
    }
}

impl<V: View> View for StrMap<V> {
    type V = Map<Seq<char>, V::V>;

    closed spec fn view(&self) -> Map<Seq<char>, V::V> {
        map_of(self.entries@)
    }
}

impl<V: View> StrMap<V> {
    /// Well-formed: the stored keys are pairwise distinct.
    pub closed spec fn wf(&self) -> bool {
        unique_keys(self.entries@)
    }

    /// The pair `(k, v)` is one of the stored entries, `v` the exact stored
    /// value (not merely one with an equal view).
    pub closed spec fn has_entry(&self, k: Seq<char>, v: V) -> bool {
        exists|i: int|
            0 <= i < self.entries@.len() && self.entries@[i].0@ == k && self.entries@[i].1 == v
    }

    pub fn new() -> (r: Self)
        ensures
            r@ == Map::<Seq<char>, V::V>::empty(),
            r.wf(),
            forall|k: Seq<char>, v: V| !r.has_entry(k, v),
    {
        StrMap { entries: Vec::new() }
    }

    pub fn get<'a>(&'a self, k: &String) -> (r: Option<&'a V>)
        requires
            self.wf(),
        ensures
            match r {
                Some(v) => self@.contains_key(k@) && v@ == self@[k@] && self.has_entry(k@, *v),
                None => !self@.contains_key(k@),
            },
    {
        let n = self.entries.len();
        let mut i: usize = 0;
        while i < n
            invariant
                n == self.entries@.len(),
                i <= n,
                self.wf(),
                forall|j: int| 0 <= j < i ==> self.entries@[j].0@ != k@,
            decreases n - i,
        {
            if self.entries[i].0 == *k {
                proof {
                    lemma_map_of(self.entries@);
                }
                return Some(&self.entries[i].1);
            }
            i = i + 1;
        }
        proof {
            lemma_map_of(self.entries@);
            if self@.contains_key(k@) {
                let j = choose|j: int|
                    0 <= j < self.entries@.len() && self.entries@[j].0@ == k@;
                assert(false);
            }
        }
        None
    }

    pub fn contains_key(&self, k: &String) -> (r: bool)
        requires
            self.wf(),
        ensures
            r == self@.contains_key(k@),
    {
        match self.get(k) {
            Some(_) => true,
            None => false,
        }
    }

    pub fn remove(&mut self, k: &String) -> (r: Option<V>)
        requires
            old(self).wf(),
        ensures
            final(self).wf(),
            match r {
                Some(v) => old(self)@.contains_key(k@) && v@ == old(self)@[k@] && old(
                    self,
                ).has_entry(k@, v) && final(self)@ == old(self)@.remove(k@),
                None => !old(self)@.contains_key(k@) && final(self)@ == old(self)@ && *final(self)
                    == *old(self),
            },
            forall|k2: Seq<char>, v2: V| #[trigger] final(self).has_entry(k2, v2) ==> old(
                self,
            ).has_entry(k2, v2),
            forall|v2: V| !final(self).has_entry(k@, v2),
    {
        let n = self.entries.len();
        let mut i: usize = 0;
        while i < n
            invariant
                *self == *old(self),
                n == self.entries@.len(),
                i <= n,
                self.wf(),
                forall|j: int| 0 <= j < i ==> self.entries@[j].0@ != k@,
            decreases n - i,
        {
            if self.entries[i].0 == *k {
                proof {
                    lemma_map_of(self.entries@);
                    lemma_map_of_remove(self.entries@, i as int);
                }
                let ghost pre = self.entries@;
                let pair = self.entries.remove(i);
                proof {
                    assert forall|j1: int, j2: int|
                        0 <= j1 < j2 < self.entries@.len() implies self.entries@[j1].0@
                        != self.entries@[j2].0@ by {
                        assert(self.entries@[j1] == (if j1 < i {
                            pre[j1]
                        } else {
                            pre[j1 + 1]
                        }));
                        assert(self.entries@[j2] == (if j2 < i {
                            pre[j2]
                        } else {
                            pre[j2 + 1]
                        }));
                    }
                    assert forall|k2: Seq<char>, v2: V| #[trigger] self.has_entry(k2, v2)
                        implies old(self).has_entry(k2, v2) by {
                        let j = choose|j: int|
                            0 <= j < self.entries@.len() && self.entries@[j].0@ == k2
                                && self.entries@[j].1 == v2;
                        assert(self.entries@[j] == (if j < i {
                            pre[j]
                        } else {
                            pre[j + 1]
                        }));
                    }
                    assert forall|v2: V| !self.has_entry(k@, v2) by {
                        if self.has_entry(k@, v2) {
                            let j = choose|j: int|
                                0 <= j < self.entries@.len() && self.entries@[j].0@ == k@
                                    && self.entries@[j].1 == v2;
                            assert(self.entries@[j] == (if j < i {
                                pre[j]
                            } else {
                                pre[j + 1]
                            }));
                        }
                    }
                }
                return Some(pair.1);
            }
            i = i + 1;
        }
        proof {
            lemma_map_of(self.entries@);
            if self@.contains_key(k@) {
                let j = choose|j: int|
                    0 <= j < self.entries@.len() && self.entries@[j].0@ == k@;
                assert(false);
            }
            assert forall|v2: V| !self.has_entry(k@, v2) by {
                if self.has_entry(k@, v2) {
                    let j = choose|j: int|
                        0 <= j < self.entries@.len() && self.entries@[j].0@ == k@
                            && self.entries@[j].1 == v2;
                    assert(false);
                }
            }
        }
        None
    }

    pub fn insert(&mut self, k: String, v: V)
        requires
            old(self).wf(),
        ensures
            final(self).wf(),
            final(self)@ == old(self)@.insert(k@, v@),
            forall|k2: Seq<char>, v2: V| #[trigger] final(self).has_entry(k2, v2) ==> old(
                self,
            ).has_entry(k2, v2) || v2 == v,
    {
        let ghost gk = k@;
        let ghost gv = v;
        let _ = self.remove(&k);
        let ghost mid = *self;
        self.entries.push((k, v));
        proof {
            lemma_map_of(mid.entries@);
            assert forall|j: int| 0 <= j < mid.entries@.len() implies mid.entries@[j].0@
                != gk by {
                if mid.entries@[j].0@ == gk {
                    assert(mid@.contains_key(gk));
                }
            }
            assert(self.entries@.drop_last() =~= mid.entries@);
            assert(self.entries@.last().0@ == gk && self.entries@.last().1 == gv);
            assert(self@ == map_of(mid.entries@).insert(gk, gv@));
            if old(self)@.contains_key(gk) {
                assert(old(self)@.remove(gk).insert(gk, gv@) =~= old(self)@.insert(gk, gv@));
            }
            assert forall|j1: int, j2: int|
                0 <= j1 < j2 < self.entries@.len() implies self.entries@[j1].0@
                != self.entries@[j2].0@ by {
                if j2 < self.entries@.len() - 1 {
                    assert(self.entries@[j1] == mid.entries@[j1]);
                    assert(self.entries@[j2] == mid.entries@[j2]);
                } else {
                    assert(self.entries@[j1] == mid.entries@[j1]);
                }
            }
            assert forall|k2: Seq<char>, v2: V| #[trigger] self.has_entry(k2, v2) implies old(
                self,
            ).has_entry(k2, v2) || v2 == gv by {
                let j = choose|j: int|
                    0 <= j < self.entries@.len() && self.entries@[j].0@ == k2
                        && self.entries@[j].1 == v2;
                if j < self.entries@.len() - 1 {
                    assert(self.entries@[j] == mid.entries@[j]);
                    assert(mid.has_entry(k2, v2));
                }
            }
        }
    }

    /// The stored entries, for callers that marshal a map outward. Each pair
    /// is an entry of the map, and every key of the map occurs exactly once.
    pub fn entries(&self) -> (r: &Vec<(String, V)>)
        requires
            self.wf(),
        ensures
            forall|i: int| 0 <= i < r@.len() ==> self@.contains_key(#[trigger] r@[i].0@)
                && self@[r@[i].0@] == r@[i].1@,
            forall|k: Seq<char>| #[trigger] self@.contains_key(k) ==> exists|i: int|
                0 <= i < r@.len() && r@[i].0@ == k,
    {
        proof {
            lemma_map_of(self.entries@);
        }
        &self.entries
    }
}

} // verus!
