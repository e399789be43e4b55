//! A small map from strings to strings, kept as a list of pairs.

use vstd::prelude::*;
use crate::text::same_str;

verus! {

/// The map that a list of pairs denotes: a later pair wins over an earlier
/// one with the same key.
pub open spec fn map_of(s: Seq<(String, String)>) -> Map<Seq<char>, Seq<char>>
    decreases s.len(),
{
    if s.len() == 0 {
        Map::empty()
    } else {
        map_of(s.drop_last()).insert(s.last().0@, s.last().1@)
    }
}

/// The pairs of a list, as views.
pub open spec fn pairs_of(s: Seq<(String, String)>) -> Seq<(Seq<char>, Seq<char>)> {
    s.map_values(|e: (String, String)| (e.0@, e.1@))
}

/// The map that a list of pairs of values denotes: a later pair wins.
pub open spec fn map_of_pairs(s: Seq<(Seq<char>, Seq<char>)>) -> Map<Seq<char>, Seq<char>>
    decreases s.len(),
{
    if s.len() == 0 {
        Map::empty()
    } else {
        map_of_pairs(s.drop_last()).insert(s.last().0, s.last().1)
    }
}

proof fn lemma_map_of_pairs(s: Seq<(String, String)>)
    ensures
        map_of(s) == map_of_pairs(pairs_of(s)),
    decreases s.len(),
{
    if s.len() > 0 {
        lemma_map_of_pairs(s.drop_last());
        assert(pairs_of(s).drop_last() =~= pairs_of(s.drop_last()));
    }
}

/// A map from strings to strings whose entries keep the order in which their
/// keys were last written.
pub struct StrMap {
    entries: Vec<(String, String)>,
}

proof fn lemma_map_of_push(s: Seq<(String, String)>, e: (String, String))
    ensures
        map_of(s.push(e)) == map_of(s).insert(e.0@, e.1@),
{
    assert(s.push(e).drop_last() =~= s);
}

proof fn lemma_take_next(s: Seq<(String, String)>, i: int)
    requires
        0 <= i < s.len(),
    ensures
        s.take(i + 1) == s.take(i).push(s[i]),
{
    assert(s.take(i + 1) =~= s.take(i).push(s[i]));
}

impl View for StrMap {
    type V = Map<Seq<char>, Seq<char>>;

    closed spec fn view(&self) -> Map<Seq<char>, Seq<char>> {
        map_of(self.entries@)
    }
}

impl StrMap {
    /// The entries, in order, as views.
    pub closed spec fn pairs(&self) -> Seq<(Seq<char>, Seq<char>)> {
        pairs_of(self.entries@)
    }

    /// The map with no entries.
    pub fn new() -> (r: StrMap)
        ensures
            r@ == Map::<Seq<char>, Seq<char>>::empty(),
            r.pairs() == Seq::<(Seq<char>, Seq<char>)>::empty(),
    {
        let r = StrMap { entries: Vec::new() };
        assert(r.pairs() =~= Seq::<(Seq<char>, Seq<char>)>::empty());
        r
    }

    /// The entries, in order.
    pub fn entries(&self) -> (r: &Vec<(String, String)>)
        ensures
            pairs_of(r@) == self.pairs(),
            map_of(r@) == self@,
    {
        &self.entries
    }

    /// A copy of the map, with its entries in the same order.
    pub fn duplicate(&self) -> (r: StrMap)
        ensures
            r@ == self@,
            r.pairs() == self.pairs(),
    {
        let mut out: Vec<(String, String)> = Vec::new();
        let mut i: usize = 0;
        while i < self.entries.len()
            invariant
                i <= self.entries.len(),
                pairs_of(out@) == pairs_of(self.entries@.take(i as int)),
                map_of(out@) == map_of(self.entries@.take(i as int)),
            decreases self.entries.len() - i,
        {
            proof {
                lemma_take_next(self.entries@, i as int);
                lemma_map_of_push(self.entries@.take(i as int), self.entries@[i as int]);
            }
            let e = (self.entries[i].0.clone(), self.entries[i].1.clone());
            proof {
                lemma_map_of_push(out@, e);
            }
            let ghost prev = out@;
            out.push(e);
            assert(out@ == prev.push(e));
            assert(pairs_of(out@) =~= pairs_of(prev).push((e.0@, e.1@)));
            assert(pairs_of(self.entries@.take(i + 1)) =~= pairs_of(self.entries@.take(i as int)).push(
                (self.entries@[i as int].0@, self.entries@[i as int].1@),
            ));
            i = i + 1;
        }
        assert(self.entries@.take(i as int) =~= self.entries@);
        StrMap { entries: out }
    }

    /// Writes every entry of `other` over this map, in order.
    pub fn extend_from(&mut self, other: &StrMap)
        ensures
            final(self)@ == old(self)@.union_prefer_right(other@),
    {
        let mut i: usize = 0;
        while i < other.entries.len()
            invariant
                i <= other.entries.len(),
                self@ == old(self)@.union_prefer_right(map_of(other.entries@.take(i as int))),
            decreases other.entries.len() - i,
        {
            proof {
                lemma_take_next(other.entries@, i as int);
                lemma_map_of_push(other.entries@.take(i as int), other.entries@[i as int]);
            }
            let k = other.entries[i].0.clone();
            let v = other.entries[i].1.clone();
            self.insert(k, v);
            assert(self@ =~= old(self)@.union_prefer_right(map_of(other.entries@.take(i + 1))));
            i = i + 1;
        }
        assert(other.entries@.take(i as int) =~= other.entries@);
    }

    /// The map of a list of pairs: a later pair wins over an earlier one.
    pub fn from_pairs(v: &Vec<(String, String)>) -> (r: StrMap)
        ensures
            r@ == map_of_pairs(pairs_of(v@)),
    {
        let mut r = StrMap::new();
        let mut i: usize = 0;
        while i < v.len()
            invariant
                i <= v.len(),
                r@ == map_of(v@.take(i as int)),
            decreases v.len() - i,
        {
            proof {
                lemma_take_next(v@, i as int);
                lemma_map_of_push(v@.take(i as int), v@[i as int]);
            }
            r.insert(v[i].0.clone(), v[i].1.clone());
            i = i + 1;
        }
        proof {
            assert(v@.take(i as int) =~= v@);
            lemma_map_of_pairs(v@);
        }
        r
    }

    /// The map is the one that its entries denote.
    pub proof fn lemma_pairs(&self)
        ensures
            map_of_pairs(self.pairs()) == self@,
    {
        lemma_map_of_pairs(self.entries@);
    }

    /// The number of entries.
    pub fn len(&self) -> (r: usize)
        ensures
            r == self.pairs().len(),
    {
        self.entries.len()
    }

    /// The value stored under `key`, if any.
    pub fn get(&self, key: &str) -> (r: Option<String>)
        ensures
            r.is_some() == self@.contains_key(key@),
            r.is_some() ==> r.unwrap()@ == self@[key@],
    {
        let mut found: Option<String> = None;
        let mut i: usize = 0;
        while i < self.entries.len()
            invariant
                i <= self.entries.len(),
                found.is_some() == map_of(self.entries@.take(i as int)).contains_key(key@),
                found.is_some() ==> found.unwrap()@ == map_of(self.entries@.take(i as int))[key@],
            decreases self.entries.len() - i,
        {
            proof {
                lemma_take_next(self.entries@, i as int);
                lemma_map_of_push(self.entries@.take(i as int), self.entries@[i as int]);
            }
            if same_str(self.entries[i].0.as_str(), key) {
                found = Some(self.entries[i].1.clone());
            }
            i = i + 1;
        }
        assert(self.entries@.take(i as int) =~= self.entries@);
        found
    }

    /// Removes the entry under `key`, if any; the others keep their order.
    pub fn remove(&mut self, key: &str)
        ensures
            final(self)@ == old(self)@.remove(key@),
    {
        let ghost src = self.entries@;
        let mut kept: Vec<(String, String)> = Vec::new();
        let mut i: usize = 0;
        while i < self.entries.len()
            invariant
                i <= self.entries.len(),
                self.entries@ == src,
                map_of(kept@) == map_of(src.take(i as int)).remove(key@),
            decreases self.entries.len() - i,
        {
            proof {
                lemma_take_next(src, i as int);
                lemma_map_of_push(src.take(i as int), src[i as int]);
                lemma_map_of_push(kept@, src[i as int]);
            }
            if !same_str(self.entries[i].0.as_str(), key) {
                let e = (self.entries[i].0.clone(), self.entries[i].1.clone());
                kept.push(e);
            }
            proof {
                assert(map_of(kept@) =~= map_of(src.take(i + 1)).remove(key@));
            }
            i = i + 1;
        }
        assert(src.take(i as int) =~= src);
        self.entries = kept;
    }

    /// Sets `key` to `value`: an earlier entry under `key` goes, the new one
    /// comes last.
    pub fn insert(&mut self, key: String, value: String)
        ensures
            final(self)@ == old(self)@.insert(key@, value@),
    {
        self.remove(key.as_str());
        proof {
            lemma_map_of_push(self.entries@, (key, value));
        }
        self.entries.push((key, value));
        proof {
            assert(self@ =~= old(self)@.insert(key@, value@));
        }
    }
}

} // verus!
