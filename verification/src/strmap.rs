//! A map from strings to strings, kept as an association list with unique
//! keys. It stands in for a hash map keyed by strings, which the verifier
//! has no usable model for.
use vstd::prelude::*;
use crate::text::str_eq;

verus! {

pub struct StrMap {
    entries: Vec<(String, String)>,
}

impl View for StrMap {
    type V = Seq<(Seq<char>, Seq<char>)>;

    closed spec fn view(&self) -> Seq<(Seq<char>, Seq<char>)> {
        self.entries.deep_view()
    }
}

/// The mapping an entry list denotes: a later entry for a key wins.
pub open spec fn map_of(s: Seq<(Seq<char>, Seq<char>)>) -> Map<Seq<char>, Seq<char>>
    decreases s.len(),
{
    if s.len() == 0 {
        Map::empty()
    } else {
        map_of(s.drop_last()).insert(s.last().0, s.last().1)
    }
}

pub open spec fn unique_keys(s: Seq<(Seq<char>, Seq<char>)>) -> bool {
    forall|i: int, j: int| 0 <= i < j < s.len() ==> s[i].0 != s[j].0
}

proof fn lemma_map_of_contains(s: Seq<(Seq<char>, Seq<char>)>, k: Seq<char>)
    ensures
        map_of(s).contains_key(k) <==> exists|i: int| 0 <= i < s.len() && s[i].0 == k,
    decreases s.len(),
{
    if s.len() > 0 {
        lemma_map_of_contains(s.drop_last(), k);
        if s.last().0 == k {
            assert(s[s.len() - 1].0 == k);
        } else if map_of(s).contains_key(k) {
            let i = choose|i: int| 0 <= i < s.drop_last().len() && s.drop_last()[i].0 == k;
            assert(s[i].0 == k);
        } else if exists|i: int| 0 <= i < s.len() && s[i].0 == k {
            let i = choose|i: int| 0 <= i < s.len() && s[i].0 == k;
            assert(s.drop_last()[i].0 == k);
        }
    }
}

proof fn lemma_map_of_index(s: Seq<(Seq<char>, Seq<char>)>, i: int)
    requires
        unique_keys(s),
        0 <= i < s.len(),
    ensures
        map_of(s).contains_key(s[i].0),
        map_of(s)[s[i].0] == s[i].1,
    decreases s.len(),
{
    if i == s.len() - 1 {
    } else {
        lemma_map_of_index(s.drop_last(), i);
        assert(s.drop_last()[i] == s[i]);
        assert(s[i].0 != s.last().0);
    }
}

proof fn lemma_map_of_remove(s: Seq<(Seq<char>, Seq<char>)>, i: int)
    requires
        unique_keys(s),
        0 <= i < s.len(),
    ensures
        map_of(s.remove(i)) == map_of(s).remove(s[i].0),
    decreases s.len(),
{
    let k = s[i].0;
    if i == s.len() - 1 {
        assert(s.remove(i) =~= s.drop_last());
        lemma_map_of_contains(s.drop_last(), k);
        assert(forall|j: int|
            0 <= j < s.drop_last().len() ==> #[trigger] s.drop_last()[j].0 != k);
        assert(map_of(s.drop_last()) =~= map_of(s).remove(k));
    } else {
        assert(s.remove(i).drop_last() =~= s.drop_last().remove(i));
        assert(s.remove(i).last() == s.last());
        lemma_map_of_remove(s.drop_last(), i);
        assert(s.drop_last()[i] == s[i]);
        assert(k != s.last().0);
        assert(map_of(s.drop_last()).remove(k).insert(s.last().0, s.last().1) =~= map_of(
            s.drop_last(),
        ).insert(s.last().0, s.last().1).remove(k));
    }
}

impl StrMap {
    /// Whether the entry keys are pairwise distinct; every operation keeps
    /// this.
    pub open spec fn wf(&self) -> bool {
        unique_keys(self@)
    }

    /// The mapping this value denotes.
    pub open spec fn as_map(&self) -> Map<Seq<char>, Seq<char>> {
        map_of(self@)
    }

    pub fn new() -> (r: StrMap)
        ensures
            r.wf(),
            r@ == Seq::<(Seq<char>, Seq<char>)>::empty(),
            r.as_map() == Map::<Seq<char>, Seq<char>>::empty(),
    {
        let r = StrMap { entries: Vec::new() };
        proof {
            assert(r@ =~= Seq::<(Seq<char>, Seq<char>)>::empty());
        }
        r
    }

    fn index_of(&self, k: &str) -> (r: Option<usize>)
        ensures
            match r {
                Some(i) => i < self@.len() && self@[i as int].0 == k@,
                None => forall|i: int| 0 <= i < self@.len() ==> self@[i].0 != k@,
            },
    {
        let n = self.entries.len();
        let mut i: usize = 0;
        while i < n
            invariant
                n == self@.len(),
                i <= n,
                forall|j: int| 0 <= j < i ==> self@[j].0 != k@,
            decreases n - i,
        {
            if str_eq(self.entries[i].0.as_str(), k) {
                return Some(i);
            }
            i += 1;
        }
        None
    }

    pub fn contains_key(&self, k: &str) -> (r: bool)
        ensures
            r == self.as_map().contains_key(k@),
    {
        proof {
            lemma_map_of_contains(self@, k@);
        }
        match self.index_of(k) {
            Some(_) => true,
            None => false,
        }
    }

    pub fn get(&self, k: &str) -> (r: Option<&String>)
        requires
            self.wf(),
        ensures
            match r {
                Some(v) => self.as_map().contains_key(k@) && self.as_map()[k@] == v@,
                None => !self.as_map().contains_key(k@),
            },
    {
        proof {
            lemma_map_of_contains(self@, k@);
        }
        match self.index_of(k) {
            Some(i) => {
                proof {
                    lemma_map_of_index(self@, i as int);
                }
                Some(&self.entries[i].1)
            },
            None => None,
        }
    }

    pub fn insert(&mut self, k: String, v: String)
        requires
            old(self).wf(),
        ensures
            final(self).wf(),
            final(self).as_map() == old(self).as_map().insert(k@, v@),
    {
        let ghost s0 = self@;
        match self.index_of(k.as_str()) {
            Some(i) => {
                proof {
                    lemma_map_of_remove(s0, i as int);
                }
                self.entries.remove(i);
                proof {
                    assert(self@ =~= s0.remove(i as int));
                }
                self.entries.push((k, v));
                proof {
                    assert(self@ =~= s0.remove(i as int).push((k@, v@)));
                    assert(self@.drop_last() =~= s0.remove(i as int));
                    assert(forall|a: int, b: int|
                        0 <= a < b < s0.remove(i as int).len() ==> s0.remove(i as int)[a].0 != s0.remove(
                            i as int,
                        )[b].0);
                    assert(forall|a: int|
                        0 <= a < s0.remove(i as int).len() ==> #[trigger] s0.remove(i as int)[a].0
                            != k@);
                    assert(map_of(self@) =~= map_of(s0).insert(k@, v@));
                }
            },
            None => {
                self.entries.push((k, v));
                proof {
                    assert(self@ =~= s0.push((k@, v@)));
                    assert(self@.drop_last() =~= s0);
                }
            },
        }
    }

    pub fn remove(&mut self, k: &str)
        requires
            old(self).wf(),
        ensures
            final(self).wf(),
            final(self).as_map() == old(self).as_map().remove(k@),
    {
        let ghost s0 = self@;
        match self.index_of(k) {
            Some(i) => {
                proof {
                    lemma_map_of_remove(s0, i as int);
                }
                self.entries.remove(i);
                proof {
                    assert(self@ =~= s0.remove(i as int));
                }
            },
            None => {
                proof {
                    lemma_map_of_contains(s0, k@);
                    assert(map_of(s0) =~= map_of(s0).remove(k@));
                }
            },
        }
    }

    pub fn is_empty(&self) -> (r: bool)
        ensures
            r == (self.as_map() == Map::<Seq<char>, Seq<char>>::empty()),
    {
        let r = self.entries.len() == 0;
        proof {
            if self@.len() == 0 {
                assert(map_of(self@) =~= Map::<Seq<char>, Seq<char>>::empty());
            } else {
                lemma_map_of_contains(self@, self@[0].0);
                assert(map_of(self@).contains_key(self@[0].0));
            }
        }
        r
    }

    /// The entries, for callers that render the map outward.
    pub fn entries(&self) -> (r: &Vec<(String, String)>)
        ensures
            r.deep_view() == self@,
    {
        &self.entries
    }
}

} // verus!
