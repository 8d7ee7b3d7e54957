//! Vectors of `(key, value)` pairs with distinct keys, read as finite maps.

use vstd::prelude::*;

verus! {

/// The map that a sequence of pairs denotes; a later pair overrides an
/// earlier one with the same key.
pub open spec fn keyed_map<V: View>(s: Seq<(String, V)>) -> Map<Seq<char>, V::V>
    decreases s.len(),
{
    if s.len() == 0 {
        Map::empty()
    } else {
        keyed_map(s.drop_last()).insert(s.last().0@, s.last().1@)
    }
}

/// No two pairs share a key.
pub open spec fn keys_unique<V>(s: Seq<(String, V)>) -> bool {
    forall|i: int, j: int|
        #![trigger s[i], s[j]]
        0 <= i < s.len() && 0 <= j < s.len() && i != j ==> s[i].0@ != s[j].0@
}

/// With distinct keys, the map holds exactly the pairs of the sequence.
pub proof fn lemma_keyed_map<V: View>(s: Seq<(String, V)>)
    requires
        keys_unique(s),
    ensures
        forall|i: int|
            #![trigger s[i]]
            0 <= i < s.len() ==> keyed_map(s).contains_key(s[i].0@) && keyed_map(s)[s[i].0@]
                == s[i].1@,
        forall|k: Seq<char>|
            #[trigger] keyed_map(s).contains_key(k) ==> exists|i: int|
                0 <= i < s.len() && s[i].0@ == k,
    decreases s.len(),
{
    if s.len() > 0 {
        let t = s.drop_last();
        lemma_keyed_map(t);
        assert forall|i: int| #![trigger s[i]] 0 <= i < s.len() implies keyed_map(s).contains_key(
            s[i].0@,
        ) && keyed_map(s)[s[i].0@] == s[i].1@ by {
            if i < s.len() - 1 {
                assert(t[i] == s[i]);
                assert(s[i].0@ != s[s.len() - 1].0@);
            }
        }
        assert forall|k: Seq<char>| #[trigger] keyed_map(s).contains_key(k) implies exists|i: int|
            0 <= i < s.len() && s[i].0@ == k by {
            if k != s.last().0@ {
                assert(keyed_map(t).contains_key(k));
                let i = choose|i: int| 0 <= i < t.len() && t[i].0@ == k;
                assert(s[i] == t[i]);
            } else {
                assert(s[s.len() - 1].0@ == k);
            }
        }
    }
}

/// The position of `key` among the pairs, if it is there.
pub fn find_key<V>(s: &Vec<(String, V)>, key: &String) -> (r: Option<usize>)
    ensures
        r matches Some(i) ==> i < s.len() && s@[i as int].0@ == key@,
        r is None ==> forall|i: int| 0 <= i < s.len() ==> #[trigger] s@[i].0@ != key@,
{
    let mut i: usize = 0;
    while i < s.len()
        invariant
            i <= s.len(),
            forall|j: int| 0 <= j < i ==> #[trigger] s@[j].0@ != key@,
        decreases s.len() - i,
    {
        if s[i].0 == *key {
            return Some(i);
        }
        i = i + 1;
    }
    None
}

/// Sets `key` to `value`, replacing the pair that held `key` if there is one.
pub fn put_key<V: View>(s: &mut Vec<(String, V)>, key: String, value: V)
    requires
        keys_unique(old(s)@),
    ensures
        keys_unique(final(s)@),
        keyed_map(final(s)@) == keyed_map(old(s)@).insert(key@, value@),
{
    let ghost k = key@;
    let ghost v = value@;
    let ghost before = s@;
    match find_key(s, &key) {
        Some(j) => {
            s.set(j, (key, value));
            proof {
                let after = s@;
                assert(keys_unique(after)) by {
                    assert forall|a: int, b: int|
                        #![trigger after[a], after[b]]
                        0 <= a < after.len() && 0 <= b < after.len() && a != b implies after[a].0@
                        != after[b].0@ by {
                        assert(before[a].0@ != before[b].0@);
                    }
                }
                lemma_keyed_map(before);
                lemma_keyed_map(after);
                let m = keyed_map(before).insert(k, v);
                assert forall|x: Seq<char>| #[trigger]
                    keyed_map(after).contains_key(x) <==> m.contains_key(x) by {
                    if keyed_map(after).contains_key(x) {
                        let i = choose|i: int| 0 <= i < after.len() && after[i].0@ == x;
                        if i != j as int {
                            assert(after[i] == before[i]);
                        }
                    }
                    if keyed_map(before).contains_key(x) {
                        let i = choose|i: int| 0 <= i < before.len() && before[i].0@ == x;
                        if i != j as int {
                            assert(after[i] == before[i]);
                        } else {
                            assert(after[j as int].0@ == x);
                        }
                    }
                    if x == k {
                        assert(after[j as int].0@ == x);
                    }
                }
                assert forall|x: Seq<char>| #[trigger]
                    keyed_map(after).contains_key(x) implies keyed_map(after)[x] == m[x] by {
                    let i = choose|i: int| 0 <= i < after.len() && after[i].0@ == x;
                    if i != j as int {
                        assert(after[i] == before[i]);
                    }
                }
                assert(keyed_map(after) =~= m);
            }
        },
        None => {
            s.push((key, value));
            proof {
                let after = s@;
                assert(after.drop_last() =~= before);
                assert(keys_unique(after)) by {
                    assert forall|a: int, b: int|
                        #![trigger after[a], after[b]]
                        0 <= a < after.len() && 0 <= b < after.len() && a != b implies after[a].0@
                        != after[b].0@ by {
                        if a < before.len() && b < before.len() {
                            assert(before[a] == after[a] && before[b] == after[b]);
                        } else if a < before.len() {
                            assert(before[a] == after[a]);
                        } else {
                            assert(before[b] == after[b]);
                        }
                    }
                }
            }
        },
    }
}

} // verus!
