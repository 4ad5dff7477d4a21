//! Keys with their values, as the metafiles of `KEY=VALUE` lines hold them.

use vstd::prelude::*;

use crate::text::text_eq;

verus! {

/// The texts of the pairs.
pub open spec fn pair_views(pairs: Seq<(String, String)>) -> Seq<(Seq<char>, Seq<char>)> {
    pairs.map_values(|p: (String, String)| (p.0@, p.1@))
}

/// The map that a row of pairs stands for: a later pair takes the place of
/// an earlier one with the same key.
pub open spec fn pairs_map(pairs: Seq<(Seq<char>, Seq<char>)>) -> Map<Seq<char>, Seq<char>>
    decreases pairs.len(),
{
    if pairs.len() == 0 {
        Map::empty()
    } else {
        pairs_map(pairs.drop_last()).insert(pairs.last().0, pairs.last().1)
    }
}

/// One pair more.
pub proof fn lemma_pairs_map_push(pairs: Seq<(Seq<char>, Seq<char>)>, key: Seq<char>, value: Seq<char>)
    ensures
        pairs_map(pairs.push((key, value))) == pairs_map(pairs).insert(key, value),
{
    assert(pairs.push((key, value)).drop_last() =~= pairs);
}

/// A map from keys to values, both texts. It keeps the pairs in the order
/// in which they came; `pairs` may hold a key more than once, and then the
/// last pair with the key is the one that counts.
#[derive(Debug)]
pub struct KeyValueMap {
    pub pairs: Vec<(String, String)>,
}

impl View for KeyValueMap {
    type V = Map<Seq<char>, Seq<char>>;

    open spec fn view(&self) -> Map<Seq<char>, Seq<char>> {
        pairs_map(pair_views(self.pairs@))
    }
}

impl KeyValueMap {
    pub fn new() -> (r: KeyValueMap)
        ensures
            r@ == Map::<Seq<char>, Seq<char>>::empty(),
            r.pairs@.len() == 0,
    {
        KeyValueMap { pairs: Vec::new() }
    }

    /// Gives `key` the value `value`.
    pub fn insert(&mut self, key: String, value: String)
        ensures
            final(self)@ == old(self)@.insert(key@, value@),
            final(self).pairs@ == old(self).pairs@.push((key, value)),
    {
        proof {
            lemma_pairs_map_push(pair_views(self.pairs@), key@, value@);
            assert(pair_views(self.pairs@.push((key, value))) =~= pair_views(self.pairs@).push(
                (key@, value@),
            ));
        }
        self.pairs.push((key, value));
    }

    /// The value of `key`, if it has one.
    pub fn get(&self, key: &str) -> (r: Option<&String>)
        ensures
            match r {
                Some(value) => self@.contains_key(key@) && self@[key@] == value@,
                None => !self@.contains_key(key@),
            },
    {
        let mut i: usize = self.pairs.len();
        proof {
            assert(self.pairs@.take(i as int) =~= self.pairs@);
        }
        while i > 0
            invariant
                i <= self.pairs.len(),
                self@.contains_key(key@) == pairs_map(
                    pair_views(self.pairs@.take(i as int)),
                ).contains_key(key@),
                self@.contains_key(key@) ==> self@[key@] == pairs_map(
                    pair_views(self.pairs@.take(i as int)),
                )[key@],
            decreases i,
        {
            proof {
                let here = pair_views(self.pairs@.take(i as int));
                assert(here.drop_last() =~= pair_views(self.pairs@.take(i - 1)));
                assert(here.last() == (self.pairs@[i - 1].0@, self.pairs@[i - 1].1@));
            }
            i -= 1;
            if text_eq(self.pairs[i].0.as_str(), key) {
                return Some(&self.pairs[i].1);
            }
        }
        None
    }

    /// Whether `key` has a value.
    pub fn contains_key(&self, key: &str) -> (r: bool)
        ensures
            r == self@.contains_key(key@),
    {
        self.get(key).is_some()
    }

    /// Takes `key` and its value away.
    pub fn remove(&mut self, key: &str)
        ensures
            final(self)@ == old(self)@.remove(key@),
    {
        let mut kept: Vec<(String, String)> = Vec::new();
        let mut i: usize = 0;
        while i < self.pairs.len()
            invariant
                i <= self.pairs.len(),
                *self == *old(self),
                pairs_map(pair_views(kept@)) == pairs_map(
                    pair_views(self.pairs@.take(i as int)),
                ).remove(key@),
            decreases self.pairs.len() - i,
        {
            proof {
                let here = pair_views(self.pairs@.take(i + 1));
                assert(here.drop_last() =~= pair_views(self.pairs@.take(i as int)));
                assert(here.last() == (self.pairs@[i as int].0@, self.pairs@[i as int].1@));
            }
            if !text_eq(self.pairs[i].0.as_str(), key) {
                let pair = (self.pairs[i].0.clone(), self.pairs[i].1.clone());
                proof {
                    lemma_pairs_map_push(pair_views(kept@), pair.0@, pair.1@);
                    assert(pair_views(kept@.push(pair)) =~= pair_views(kept@).push(
                        (pair.0@, pair.1@),
                    ));
                    let before = pairs_map(pair_views(self.pairs@.take(i as int)));
                    assert(before.insert(pair.0@, pair.1@).remove(key@) =~= before.remove(
                        key@,
                    ).insert(pair.0@, pair.1@));
                }
                kept.push(pair);
            } else {
                proof {
                    let before = pairs_map(pair_views(self.pairs@.take(i as int)));
                    let value = self.pairs@[i as int].1@;
                    assert(before.insert(key@, value).remove(key@) =~= before.remove(key@));
                }
            }
            i += 1;
        }
        proof {
            assert(self.pairs@.take(i as int) =~= self.pairs@);
        }
        self.pairs = kept;
    }
}

} // verus!
