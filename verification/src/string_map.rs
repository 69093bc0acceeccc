//! A map from text to text that can be walked.
use vstd::prelude::*;

use crate::text::same_text;

verus! {

/// The map that a list of pairs stands for: the last pair of a key decides.
pub open spec fn pairs_map(pairs: Seq<(Seq<char>, Seq<char>)>) -> Map<Seq<char>, Seq<char>>
    decreases pairs.len(),
{
    if pairs.len() == 0 {
        Map::empty()
    } else {
        pairs_map(pairs.drop_last()).insert(pairs.last().0, pairs.last().1)
    }
}

/// Whether no key occurs twice.
pub open spec fn distinct_keys(pairs: Seq<(Seq<char>, Seq<char>)>) -> bool {
    forall|i: int, j: int|
        0 <= i < j < pairs.len() ==> (#[trigger] pairs[i]).0 != (#[trigger] pairs[j]).0
}

/// The keys of the map are the first halves of the pairs.
pub proof fn lemma_pairs_map_keys(pairs: Seq<(Seq<char>, Seq<char>)>, key: Seq<char>)
    ensures
        pairs_map(pairs).dom().contains(key) <==> exists|i: int|
            0 <= i < pairs.len() && (#[trigger] pairs[i]).0 == key,
    decreases pairs.len(),
{
    if pairs.len() > 0 {
        let front = pairs.drop_last();
        lemma_pairs_map_keys(front, key);
        if exists|i: int| 0 <= i < pairs.len() && (#[trigger] pairs[i]).0 == key {
            let i = choose|i: int| 0 <= i < pairs.len() && (#[trigger] pairs[i]).0 == key;
            if i < front.len() {
                assert(front[i].0 == key);
            }
        }
        if exists|i: int| 0 <= i < front.len() && (#[trigger] front[i]).0 == key {
            let i = choose|i: int| 0 <= i < front.len() && (#[trigger] front[i]).0 == key;
            assert(pairs[i].0 == key);
        }
        if pairs.last().0 == key {
            assert(pairs[pairs.len() - 1].0 == key);
        }
    }
}

/// Where no key occurs twice, every pair is in the map.
pub proof fn lemma_pairs_map_value(pairs: Seq<(Seq<char>, Seq<char>)>, i: int)
    requires
        distinct_keys(pairs),
        0 <= i < pairs.len(),
    ensures
        pairs_map(pairs).dom().contains(pairs[i].0),
        pairs_map(pairs)[pairs[i].0] == pairs[i].1,
    decreases pairs.len(),
{
    if i < pairs.len() - 1 {
        let front = pairs.drop_last();
        assert forall|a: int, b: int| 0 <= a < b < front.len() implies (#[trigger] front[a]).0 != (
        #[trigger] front[b]).0 by {
            assert(pairs[a].0 != pairs[b].0);
        }
        lemma_pairs_map_value(front, i);
        assert(front[i] == pairs[i]);
        assert(pairs[i].0 != pairs[pairs.len() - 1].0);
    }
}

/// Replacing the value of a key that occurs once replaces it in the map.
proof fn lemma_pairs_map_update(
    pairs: Seq<(Seq<char>, Seq<char>)>,
    i: int,
    value: Seq<char>,
)
    requires
        distinct_keys(pairs),
        0 <= i < pairs.len(),
    ensures
        pairs_map(pairs.update(i, (pairs[i].0, value))) == pairs_map(pairs).insert(
            pairs[i].0,
            value,
        ),
    decreases pairs.len(),
{
    let key = pairs[i].0;
    let front = pairs.drop_last();
    let updated = pairs.update(i, (key, value));
    if i == pairs.len() - 1 {
        assert(updated.drop_last() =~= front);
        assert(pairs_map(updated) =~= pairs_map(pairs).insert(key, value));
    } else {
        assert forall|a: int, b: int| 0 <= a < b < front.len() implies (#[trigger] front[a]).0 != (
        #[trigger] front[b]).0 by {
            assert(pairs[a].0 != pairs[b].0);
        }
        lemma_pairs_map_update(front, i, value);
        assert(updated.drop_last() =~= front.update(i, (front[i].0, value)));
        assert(pairs[i].0 != pairs[pairs.len() - 1].0);
        assert(pairs_map(updated) =~= pairs_map(pairs).insert(key, value));
    }
}

/// A list of pairs without repeated keys has as many pairs as its map has keys.
proof fn lemma_pairs_map_len(pairs: Seq<(Seq<char>, Seq<char>)>)
    requires
        distinct_keys(pairs),
    ensures
        pairs_map(pairs).dom().finite(),
        pairs_map(pairs).dom().len() == pairs.len(),
    decreases pairs.len(),
{
    if pairs.len() > 0 {
        let front = pairs.drop_last();
        let key = pairs.last().0;
        assert forall|a: int, b: int| 0 <= a < b < front.len() implies (#[trigger] front[a]).0 != (
        #[trigger] front[b]).0 by {
            assert(pairs[a].0 != pairs[b].0);
        }
        lemma_pairs_map_len(front);
        lemma_pairs_map_keys(front, key);
        if pairs_map(front).dom().contains(key) {
            let i = choose|i: int| 0 <= i < front.len() && (#[trigger] front[i]).0 == key;
            assert(pairs[i].0 != pairs[pairs.len() - 1].0);
        }
        assert(pairs_map(pairs).dom() =~= pairs_map(front).dom().insert(key));
    }
}

/// A map from text to text, kept as a list of pairs in which no key occurs
/// twice. A key stays where it was first put.
pub struct StringMap {
    entries: Vec<(String, String)>,
}

/// The texts of a list of pairs.
pub open spec fn pair_texts(entries: Seq<(String, String)>) -> Seq<(Seq<char>, Seq<char>)> {
    entries.map_values(|e: (String, String)| (e.0@, e.1@))
}

impl StringMap {
    /// Whether no key occurs twice.
    #[verifier::type_invariant]
    pub closed spec fn keys_are_distinct(self) -> bool {
        distinct_keys(pair_texts(self.entries@))
    }

    /// What the invariant says of the pairs.
    pub proof fn lemma_keys_are_distinct(self)
        requires
            self.keys_are_distinct(),
        ensures
            distinct_keys(self.pairs()),
            self.pairs().len() == self@.dom().len(),
    {
        lemma_pairs_map_len(self.pairs());
    }

    /// The pairs, in the order in which they are walked.
    pub closed spec fn pairs(self) -> Seq<(Seq<char>, Seq<char>)> {
        pair_texts(self.entries@)
    }

    /// The map.
    pub open spec fn view(&self) -> Map<Seq<char>, Seq<char>> {
        pairs_map(self.pairs())
    }

    /// The empty map.
    pub fn new() -> (r: Self)
        ensures
            r.pairs() == Seq::<(Seq<char>, Seq<char>)>::empty(),
            r@ == Map::<Seq<char>, Seq<char>>::empty(),
    {
        let r = StringMap { entries: Vec::new() };
        assert(r.pairs() =~= Seq::<(Seq<char>, Seq<char>)>::empty());
        r
    }

    /// How many keys the map has.
    pub fn len(&self) -> (r: usize)
        ensures
            r == self.pairs().len(),
            distinct_keys(self.pairs()),
    {
        proof {
            use_type_invariant(self);
        }
        self.entries.len()
    }

    /// The key at a place in the walk.
    pub fn key(&self, i: usize) -> (r: &str)
        requires
            i < self.pairs().len(),
        ensures
            r@ == self.pairs()[i as int].0,
    {
        self.entries[i].0.as_str()
    }

    /// The value at a place in the walk.
    pub fn value(&self, i: usize) -> (r: &str)
        requires
            i < self.pairs().len(),
        ensures
            r@ == self.pairs()[i as int].1,
    {
        self.entries[i].1.as_str()
    }

    /// The place of a key in the walk.
    fn position(&self, key: &str) -> (r: Option<usize>)
        ensures
            match r {
                Some(i) => i < self.pairs().len() && self.pairs()[i as int].0 == key@,
                None => forall|i: int|
                    0 <= i < self.pairs().len() ==> (#[trigger] self.pairs()[i]).0 != key@,
            },
    {
        let mut i: usize = 0;
        while i < self.entries.len()
            invariant
                i <= self.entries.len(),
                forall|j: int| 0 <= j < i ==> (#[trigger] self.pairs()[j]).0 != key@,
            decreases self.entries.len() - i,
        {
            if same_text(self.entries[i].0.as_str(), key) {
                return Some(i);
            }
            i += 1;
        }
        None
    }

    /// The value of a key.
    pub fn get(&self, key: &str) -> (r: Option<&str>)
        ensures
            r is Some <==> self@.dom().contains(key@),
            r matches Some(v) ==> v@ == self@[key@],
    {
        proof {
            use_type_invariant(self);
            lemma_pairs_map_keys(self.pairs(), key@);
        }
        match self.position(key) {
            Some(i) => {
                proof {
                    lemma_pairs_map_value(self.pairs(), i as int);
                }
                Some(self.entries[i].1.as_str())
            },
            None => None,
        }
    }

    /// Sets the value of a key.
    pub fn insert(&mut self, key: String, value: String)
        ensures
            final(self)@ == old(self)@.insert(key@, value@),
    {
        proof {
            use_type_invariant(&*self);
        }
        let place = self.position(key.as_str());
        let ghost before = self.pairs();
        let mut entries: Vec<(String, String)> = Vec::new();
        std::mem::swap(&mut entries, &mut self.entries);
        match place {
            Some(i) => {
                proof {
                    lemma_pairs_map_update(before, i as int, value@);
                }
                entries.set(i, (key, value));
                assert(pair_texts(entries@) =~= before.update(i as int, (key@, value@)));
            },
            None => {
                entries.push((key, value));
                assert(pair_texts(entries@) =~= before.push((key@, value@)));
                assert(pair_texts(entries@).drop_last() =~= before);
            },
        }
        self.entries = entries;
    }

    /// Sets every key of another map to its value there.
    pub fn extend(&mut self, other: &StringMap)
        ensures
            final(self)@ == old(self)@.union_prefer_right(other@),
    {
        let ghost start = self@;
        let ghost pairs = other.pairs();
        let mut i: usize = 0;
        assert(pairs.subrange(0, 0) =~= Seq::<(Seq<char>, Seq<char>)>::empty());
        assert(self@ =~= start.union_prefer_right(pairs_map(pairs.subrange(0, 0))));
        while i < other.entries.len()
            invariant
                i <= other.entries.len(),
                pairs == other.pairs(),
                self@ == start.union_prefer_right(pairs_map(pairs.subrange(0, i as int))),
            decreases other.entries.len() - i,
        {
            let key = other.entries[i].0.clone();
            let value = other.entries[i].1.clone();
            proof {
                let next = pairs.subrange(0, i + 1);
                assert(next.drop_last() =~= pairs.subrange(0, i as int));
                assert(next.last() == (key@, value@));
                assert(self@.insert(key@, value@) =~= start.union_prefer_right(pairs_map(next)));
            }
            self.insert(key, value);
            i += 1;
        }
        assert(pairs.subrange(0, i as int) =~= pairs);
    }
}

} // verus!
