//! A small string-keyed map used for the directory cache and the
//! per-address abuse state: an association list holding each key at most
//! once, abstracted as a finite `Map` from key contents to values.

use vstd::prelude::*;

verus! {

/// The map described by an association list: later pairs win, though a
/// well-formed list never holds a key twice.
pub open spec fn assoc_view<V>(s: Seq<(String, V)>) -> Map<Seq<char>, V>
    decreases s.len(),
{
    if s.len() == 0 {
        Map::empty()
    } else {
        assoc_view(s.drop_last()).insert(s.last().0@, s.last().1)
    }
}

/// No two pairs of the list share a key.
pub open spec fn distinct_keys<V>(s: Seq<(String, V)>) -> bool {
    forall|i: int, j: int| 0 <= i < j < s.len() ==> s[i].0@ != s[j].0@
}

/// String-keyed map backed by an association list with pairwise distinct
/// keys; viewed as the `Map` from key contents (`Seq<char>`) to values.
pub struct StrMap<V> {
    pairs: Vec<(String, V)>,
}

proof fn lemma_view_has_key<V>(s: Seq<(String, V)>, k: Seq<char>)
    ensures
        assoc_view(s).contains_key(k) <==> (exists|i: int|
            0 <= i < s.len() && #[trigger] s[i].0@ == k),
    decreases s.len(),
{
    if s.len() > 0 {
        lemma_view_has_key(s.drop_last(), k);
        if s.last().0@ == k {
            assert(s[s.len() - 1].0@ == k);
        } else if assoc_view(s).contains_key(k) {
            let i = choose|i: int| 0 <= i < s.drop_last().len() && #[trigger] s.drop_last()[i].0@
                == k;
            assert(s[i].0@ == k);
        } else if exists|i: int| 0 <= i < s.len() && #[trigger] s[i].0@ == k {
            let i = choose|i: int| 0 <= i < s.len() && #[trigger] s[i].0@ == k;
            assert(i < s.len() - 1);
            assert(s.drop_last()[i].0@ == k);
        }
    }
}

proof fn lemma_view_value_at<V>(s: Seq<(String, V)>, i: int)
    requires
        distinct_keys(s),
        0 <= i < s.len(),
    ensures
        assoc_view(s).contains_key(s[i].0@),
        assoc_view(s)[s[i].0@] == s[i].1,
    decreases s.len(),
{
    if i == s.len() - 1 {
        assert(s.last() == s[i]);
    } else {
        lemma_view_value_at(s.drop_last(), i);
        assert(s.drop_last()[i] == s[i]);
        assert(s.last().0@ != s[i].0@);
    }
}

proof fn lemma_view_dom_len<V>(s: Seq<(String, V)>)
    requires
        distinct_keys(s),
    ensures
        assoc_view(s).dom().finite(),
        assoc_view(s).dom().len() == s.len(),
    decreases s.len(),
{
    if s.len() > 0 {
        lemma_view_dom_len(s.drop_last());
        lemma_view_has_key(s.drop_last(), s.last().0@);
        assert(forall|i: int| 0 <= i < s.len() - 1 ==> #[trigger] s.drop_last()[i].0@ == s[i].0@);
        assert(!assoc_view(s.drop_last()).contains_key(s.last().0@));
    }
}

proof fn lemma_view_remove_at<V>(s: Seq<(String, V)>, i: int)
    requires
        distinct_keys(s),
        0 <= i < s.len(),
    ensures
        distinct_keys(s.remove(i)),
        assoc_view(s.remove(i)) == assoc_view(s).remove(s[i].0@),
    decreases s.len(),
{
    let k = s[i].0@;
    if i == s.len() - 1 {
        assert(s.remove(i) =~= s.drop_last());
        lemma_view_has_key(s.drop_last(), k);
        assert(forall|j: int| 0 <= j < s.len() - 1 ==> #[trigger] s.drop_last()[j].0@ == s[j].0@);
        assert(!assoc_view(s.drop_last()).contains_key(k));
        assert(assoc_view(s.drop_last()).remove(k) =~= assoc_view(s.drop_last()));
        assert(assoc_view(s).remove(k) =~= assoc_view(s.drop_last()));
    } else {
        let t = s.drop_last();
        lemma_view_remove_at(t, i);
        assert(s.remove(i) =~= t.remove(i).push(s.last()));
        assert(s.remove(i).drop_last() =~= t.remove(i));
        assert(s.remove(i).last() == s.last());
        assert(assoc_view(s.remove(i)) == assoc_view(t.remove(i)).insert(s.last().0@, s.last().1));
        assert(s.last().0@ != k);
        assert(assoc_view(t).remove(k).insert(s.last().0@, s.last().1) =~= assoc_view(t).insert(
            s.last().0@,
            s.last().1,
        ).remove(k));
        assert(distinct_keys(s.remove(i))) by {
            assert(forall|a: int, b: int|
                0 <= a < b < s.remove(i).len() ==> s.remove(i)[a].0@ != s.remove(i)[b].0@) by {
                assert(forall|a: int| 0 <= a < s.remove(i).len() - 1 ==> s.remove(i)[a]
                    == t.remove(i)[a]);
            }
        }
    }
}

impl<V> StrMap<V> {
    /// The finite map this container stands for.
    pub closed spec fn view(&self) -> Map<Seq<char>, V> {
        assoc_view(self.pairs@)
    }

    /// Internal shape invariant: every key occurs at most once.
    pub closed spec fn wf(&self) -> bool {
        distinct_keys(self.pairs@)
    }

    pub fn new() -> (r: Self)
        ensures
            r.wf(),
            r@ == Map::<Seq<char>, V>::empty(),
    {
        StrMap { pairs: Vec::new() }
    }

    fn index_of(&self, k: &String) -> (r: Option<usize>)
        ensures
            match r {
                Some(i) => i < self.pairs@.len() && self.pairs@[i as int].0@ == k@,
                None => forall|i: int|
                    0 <= i < self.pairs@.len() ==> #[trigger] self.pairs@[i].0@ != k@,
            },
    {
        let mut i: usize = 0;
        while i < self.pairs.len()
            invariant
                i <= self.pairs@.len(),
                forall|j: int| 0 <= j < i ==> #[trigger] self.pairs@[j].0@ != k@,
            decreases self.pairs@.len() - i,
        {
            if self.pairs[i].0 == *k {
                return Some(i);
            }
            i += 1;
        }
        None
    }

    pub fn contains_key(&self, k: &String) -> (r: bool)
        requires
            self.wf(),
        ensures
            r == self@.contains_key(k@),
    {
        proof {
            lemma_view_has_key(self.pairs@, k@);
        }
        self.index_of(k).is_some()
    }

    pub fn get(&self, k: &String) -> (r: Option<&V>)
        requires
            self.wf(),
        ensures
            match r {
                Some(v) => self@.contains_key(k@) && *v == self@[k@],
                None => !self@.contains_key(k@),
            },
    {
        proof {
            lemma_view_has_key(self.pairs@, k@);
        }
        match self.index_of(k) {
            Some(i) => {
                proof {
                    lemma_view_value_at(self.pairs@, i as int);
                }
                Some(&self.pairs[i].1)
            },
            None => None,
        }
    }

    /// Takes the value held under `k` out of the map, if any.
    pub fn remove(&mut self, k: &String) -> (r: Option<V>)
        requires
            old(self).wf(),
        ensures
            final(self).wf(),
            final(self)@ == old(self)@.remove(k@),
            match r {
                Some(v) => old(self)@.contains_key(k@) && v == old(self)@[k@],
                None => !old(self)@.contains_key(k@) && final(self)@ == old(self)@,
            },
    {
        proof {
            lemma_view_has_key(self.pairs@, k@);
        }
        match self.index_of(k) {
            Some(i) => {
                proof {
                    lemma_view_value_at(self.pairs@, i as int);
                    lemma_view_remove_at(self.pairs@, i as int);
                }
                let pair = self.pairs.remove(i);
                Some(pair.1)
            },
            None => {
                proof {
                    assert(self@.remove(k@) =~= self@);
                }
                None
            },
        }
    }

    /// Binds `k` to `v`, replacing any earlier binding.
    pub fn insert(&mut self, k: &String, v: V)
        requires
            old(self).wf(),
        ensures
            final(self).wf(),
            final(self)@ == old(self)@.insert(k@, v),
    {
        let ghost m0 = self@;
        let _ = self.remove(k);
        let ghost mid = self.pairs@;
        proof {
            lemma_view_has_key(mid, k@);
        }
        self.pairs.push((k.clone(), v));
        proof {
            assert(self.pairs@.drop_last() =~= mid);
            assert(self.pairs@.last().0@ == k@);
            assert(self@ == assoc_view(mid).insert(k@, v));
            assert(m0.remove(k@).insert(k@, v) =~= m0.insert(k@, v));
            assert(forall|a: int, b: int|
                0 <= a < b < self.pairs@.len() ==> self.pairs@[a].0@ != self.pairs@[b].0@) by {
                assert(forall|a: int|
                    0 <= a < self.pairs@.len() - 1 ==> self.pairs@[a] == mid[a]);
            }
        }
    }

    /// Number of keys held.
    pub fn len(&self) -> (n: usize)
        requires
            self.wf(),
        ensures
            self@.dom().finite(),
            n == self@.dom().len(),
    {
        proof {
            lemma_view_dom_len(self.pairs@);
        }
        self.pairs.len()
    }

    /// Drops every binding.
    pub fn clear(&mut self)
        ensures
            final(self).wf(),
            final(self)@ == Map::<Seq<char>, V>::empty(),
    {
        self.pairs.clear();
    }
}

/// The domain of a well-formed map is always finite.
pub proof fn lemma_strmap_dom_finite<V>(m: StrMap<V>)
    requires
        m.wf(),
    ensures
        m@.dom().finite(),
{
    lemma_view_dom_len(m.pairs@);
}

} // verus!
