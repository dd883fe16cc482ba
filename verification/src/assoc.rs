//! Association lists over integer keys, with a map view.
//!
//! The stores of this crate hold their records as vectors of key/value
//! pairs. `map_of` is the mathematical map such a vector denotes, with a
//! later pair overriding an earlier one of the same key; the lookup
//! functions are proved against that map.

use vstd::prelude::*;

verus! {

/// The map denoted by a sequence of key/value pairs; a later pair
/// overrides an earlier one with the same key.
pub open spec fn map_of<V>(s: Seq<(u64, V)>) -> Map<u64, V>
    decreases s.len(),
{
    if s.len() == 0 {
        Map::empty()
    } else {
        map_of(s.drop_last()).insert(s.last().0, s.last().1)
    }
}

/// Every key occurs at most once.
pub open spec fn keys_distinct<V>(s: Seq<(u64, V)>) -> bool {
    forall|i: int, j: int| 0 <= i < j < s.len() ==> s[i].0 != s[j].0
}

/// A key is in the map exactly when some pair holds it.
pub proof fn lemma_map_of_dom<V>(s: Seq<(u64, V)>, key: u64)
    ensures
        map_of(s).contains_key(key) <==> exists|i: int| 0 <= i < s.len() && s[i].0 == key,
    decreases s.len(),
{
    if s.len() > 0 {
        lemma_map_of_dom(s.drop_last(), key);
        if s.last().0 == key {
            assert(s[s.len() - 1].0 == key);
        } else {
            if map_of(s).contains_key(key) {
                let i = choose|i: int|
                    0 <= i < s.drop_last().len() && s.drop_last()[i].0 == key;
                assert(s[i].0 == key);
            }
            if exists|i: int| 0 <= i < s.len() && s[i].0 == key {
                let i = choose|i: int| 0 <= i < s.len() && s[i].0 == key;
                assert(s.drop_last()[i].0 == key);
            }
        }
    }
}

/// Appending a pair inserts it into the map.
pub proof fn lemma_map_of_push<V>(s: Seq<(u64, V)>, key: u64, value: V)
    ensures
        map_of(s.push((key, value))) == map_of(s).insert(key, value),
{
    assert(s.push((key, value)).drop_last() =~= s);
}

/// Pairs at or after position `i` that do not hold `key` do not affect
/// that key's lookup.
pub proof fn lemma_map_of_take<V>(s: Seq<(u64, V)>, i: int, key: u64)
    requires
        0 <= i <= s.len(),
        forall|j: int| i <= j < s.len() ==> s[j].0 != key,
    ensures
        map_of(s).contains_key(key) == map_of(s.take(i)).contains_key(key),
        map_of(s).contains_key(key) ==> map_of(s)[key] == map_of(s.take(i))[key],
    decreases s.len() - i,
{
    if i == s.len() {
        assert(s.take(i) =~= s);
    } else {
        lemma_map_of_take(s.drop_last(), i, key);
        assert(s.drop_last().take(i) =~= s.take(i));
    }
}

/// Looks a key up: the value of the latest pair holding it, if any.
pub fn assoc_get<'a, V>(s: &'a Vec<(u64, V)>, key: u64) -> (r: Option<&'a V>)
    ensures
        match r {
            Some(v) => map_of(s@).contains_key(key) && map_of(s@)[key] == *v,
            None => !map_of(s@).contains_key(key),
        },
{
    let mut i: usize = s.len();
    while i > 0
        invariant
            i <= s@.len(),
            forall|j: int| i <= j < s@.len() ==> s@[j].0 != key,
        decreases i,
    {
        i = i - 1;
        if s[i].0 == key {
            proof {
                lemma_map_of_take(s@, i + 1, key);
                assert(s@.take(i + 1).drop_last() =~= s@.take(i as int));
                assert(s@.take(i + 1).last() == s@[i as int]);
            }
            return Some(&s[i].1);
        }
    }
    proof {
        lemma_map_of_take(s@, 0, key);
        assert(s@.take(0) =~= Seq::<(u64, V)>::empty());
    }
    None
}

/// Whether the map holds the key.
pub fn assoc_contains_key<V>(s: &Vec<(u64, V)>, key: u64) -> (r: bool)
    ensures
        r == map_of(s@).contains_key(key),
{
    assoc_get(s, key).is_some()
}

/// Copies a vector of plain values element by element.
pub fn copy_vec<T: Copy>(s: &Vec<T>) -> (r: Vec<T>)
    ensures
        r@ == s@,
{
    let mut r: Vec<T> = Vec::new();
    let mut i: usize = 0;
    while i < s.len()
        invariant
            i <= s@.len(),
            r@ =~= s@.take(i as int),
        decreases s@.len() - i,
    {
        r.push(s[i]);
        i = i + 1;
    }
    proof {
        assert(r@ =~= s@);
    }
    r
}

/// Whether the vector holds the value.
pub fn seq_contains(s: &Vec<u64>, value: u64) -> (r: bool)
    ensures
        r == s@.contains(value),
{
    let mut i: usize = 0;
    while i < s.len()
        invariant
            i <= s@.len(),
            forall|j: int| 0 <= j < i ==> s@[j] != value,
        decreases s@.len() - i,
    {
        if s[i] == value {
            assert(s@[i as int] == value);
            return true;
        }
        i = i + 1;
    }
    assert(forall|j: int| 0 <= j < s@.len() ==> s@[j] != value);
    false
}

} // verus!
