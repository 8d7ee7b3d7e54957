//! JSON objects as the protocol carries them in configuration, format
//! options and partition values.

use vstd::prelude::*;

use crate::keyed::{find_key, keyed_map, keys_unique, lemma_keyed_map, put_key};

verus! {

/// A JSON object: each key maps to the JSON text of its value (a string value
/// `v` is held as `"v"`, with its quotes). Keys are distinct; the order of
/// the entries carries no meaning.
pub struct JsonMap {
    entries: Vec<(String, String)>,
}

impl View for JsonMap {
    type V = Map<Seq<char>, Seq<char>>;

    closed spec fn view(&self) -> Map<Seq<char>, Seq<char>> {
        keyed_map(self.entries@)
    }
}

impl JsonMap {
    #[verifier::type_invariant]
    spec fn inv(&self) -> bool {
        keys_unique(self.entries@)
    }

    /// The empty object.
    pub fn new() -> (r: JsonMap)
        ensures
            r@ == Map::<Seq<char>, Seq<char>>::empty(),
    {
        JsonMap { entries: Vec::new() }
    }

    /// The object holding the given pairs; a later pair replaces an earlier
    /// one with the same key.
    pub fn from_pairs(pairs: Vec<(String, String)>) -> (r: JsonMap)
        ensures
            r@ == keyed_map(pairs@),
    {
        let mut out: Vec<(String, String)> = Vec::new();
        let mut i: usize = 0;
        while i < pairs.len()
            invariant
                i <= pairs.len(),
                keys_unique(out@),
                keyed_map(out@) == keyed_map(pairs@.subrange(0, i as int)),
            decreases pairs.len() - i,
        {
            let key = pairs[i].0.clone();
            let value = pairs[i].1.clone();
            put_key(&mut out, key, value);
            proof {
                assert(pairs@.subrange(0, i + 1).drop_last() =~= pairs@.subrange(0, i as int));
            }
            i = i + 1;
        }
        proof {
            assert(pairs@.subrange(0, pairs.len() as int) =~= pairs@);
        }
        JsonMap { entries: out }
    }

    /// The JSON text held under `key`.
    pub fn get(&self, key: &String) -> (r: Option<&String>)
        ensures
            r matches Some(v) ==> self@.contains_key(key@) && self@[key@] == v@,
            r is None ==> !self@.contains_key(key@),
    {
        proof {
            use_type_invariant(self);
            lemma_keyed_map(self.entries@);
        }
        match find_key(&self.entries, key) {
            Some(i) => Some(&self.entries[i].1),
            None => None,
        }
    }

    /// The entries, in no particular order.
    pub fn entries(&self) -> (r: &Vec<(String, String)>)
        ensures
            keys_unique(r@),
            keyed_map(r@) == self@,
    {
        proof {
            use_type_invariant(self);
        }
        &self.entries
    }

    /// Whether every entry of `self` is an entry of `other`.
    fn within(&self, other: &JsonMap) -> (r: bool)
        ensures
            r == (forall|k: Seq<char>| #[trigger]
                self@.contains_key(k) ==> other@.contains_key(k) && other@[k] == self@[k]),
    {
        proof {
            use_type_invariant(self);
            lemma_keyed_map(self.entries@);
        }
        let mut i: usize = 0;
        while i < self.entries.len()
            invariant
                i <= self.entries.len(),
                keys_unique(self.entries@),
                self@ == keyed_map(self.entries@),
                forall|j: int|
                    #![trigger self.entries@[j]]
                    0 <= j < i ==> other@.contains_key(self.entries@[j].0@) && other@[self.entries@[j].0@]
                        == self.entries@[j].1@,
            decreases self.entries.len() - i,
        {
            match other.get(&self.entries[i].0) {
                Some(v) => {
                    if *v != self.entries[i].1 {
                        proof {
                            lemma_keyed_map(self.entries@);
                            assert(self@.contains_key(self.entries@[i as int].0@));
                        }
                        return false;
                    }
                },
                None => {
                    proof {
                        lemma_keyed_map(self.entries@);
                        assert(self@.contains_key(self.entries@[i as int].0@));
                    }
                    return false;
                },
            }
            i = i + 1;
        }
        proof {
            lemma_keyed_map(self.entries@);
            assert forall|k: Seq<char>| #[trigger] self@.contains_key(k) implies other@.contains_key(k)
                && other@[k] == self@[k] by {
                let j = choose|j: int| 0 <= j < self.entries@.len() && self.entries@[j].0@ == k;
                assert(self.entries@[j].0@ == k);
            }
        }
        true
    }

    /// Equality of the two objects as maps.
    pub fn equals(&self, other: &JsonMap) -> (r: bool)
        ensures
            r == (self@ == other@),
    {
        let a = self.within(other);
        let b = other.within(self);
        proof {
            if a && b {
                assert(self@ =~= other@);
            }
        }
        a && b
    }
}

} // verus!
