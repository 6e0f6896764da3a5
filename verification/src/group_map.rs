//! Eager grouping of what an iterator yields into a table from keys to lists
//! of values. A producer is handed over as `pulls(p)`.

use std::collections::HashMap;
use std::hash::Hash;
use vstd::prelude::*;
use vstd::std_specs::hash::obeys_key_model;
use vstd::std_specs::iter::IteratorSpec;

verus! {

broadcast use vstd::std_specs::hash::group_hash_axioms;

/// The values that `pairs` associates with key `k`, in the order in which
/// they occur.
pub open spec fn values_of<K, V>(pairs: Seq<(K, V)>, k: K) -> Seq<V> {
    pairs.filter(|p: (K, V)| p.0 == k).map_values(|p: (K, V)| p.1)
}

/// `m` maps exactly the keys that occur in `pairs`, each to the values paired
/// with it, in the order in which they occurred.
pub open spec fn is_grouping<K, V>(m: Map<K, Vec<V>>, pairs: Seq<(K, V)>) -> bool {
    forall|k: K|
        {
            &&& #[trigger] m.contains_key(k) <==> values_of(pairs, k).len() > 0
            &&& m.contains_key(k) ==> m[k]@ == values_of(pairs, k)
        }
}

/// Pairs the `i`-th key with the `i`-th value.
pub open spec fn keyed<K, V>(keys: Seq<K>, vals: Seq<V>) -> Seq<(K, V)> {
    Seq::new(vals.len(), |i: int| (keys[i], vals[i]))
}

/// Appending a pair extends the values of its own key and of no other.
pub proof fn lemma_values_of_push<K, V>(pairs: Seq<(K, V)>, key: K, val: V, k: K)
    ensures
        values_of(pairs.push((key, val)), k) == if k == key {
            values_of(pairs, k).push(val)
        } else {
            values_of(pairs, k)
        },
{
    let pred = |p: (K, V)| p.0 == k;
    pairs.lemma_filter_push((key, val), pred);
    if k == key {
        assert(pairs.push((key, val)).filter(pred) == pairs.filter(pred).push((key, val)));
        assert(values_of(pairs.push((key, val)), k) =~= values_of(pairs, k).push(val));
    } else {
        assert(pairs.push((key, val)).filter(pred) == pairs.filter(pred));
    }
}

/// Appends `val` to the values that `lookup` holds for `key`.
fn push_grouped<K, V>(lookup: &mut HashMap<K, Vec<V>>, key: K, val: V, Ghost(seen): Ghost<
    Seq<(K, V)>,
>) where K: Hash + Eq
    requires
        obeys_key_model::<K>(),
        is_grouping(old(lookup)@, seen),
    ensures
        is_grouping(final(lookup)@, seen.push((key, val))),
{
    let ghost before = lookup@;
    lookup.entry(key).or_insert(Vec::new()).push(val);
    proof {
        let now = seen.push((key, val));
        assert forall|k: K|
            {
                &&& #[trigger] lookup@.contains_key(k) <==> values_of(now, k).len() > 0
                &&& lookup@.contains_key(k) ==> lookup@[k]@ == values_of(now, k)
            } by {
            lemma_values_of_push(seen, key, val, k);
            assert(before.contains_key(k) <==> values_of(seen, k).len() > 0);
        }
    }
}

/// Consumes `iter` entirely and returns a table from each key that occurs to
/// the list of the values paired with it, in the order in which they occurred.
pub fn into_group_map<I, K, V>(iter: I) -> (lookup: HashMap<K, Vec<V>>) where
    I: Iterator<Item = (K, V)>,
    K: Hash + Eq,

    requires
        iter.obeys_prophetic_iter_laws(),
        iter.decrease() is Some,
        obeys_key_model::<K>(),
    ensures
        is_grouping(lookup@, iter.remaining()),
{
    let mut iter = iter;
    let ghost all = iter.remaining();
    let ghost mut seen: Seq<(K, V)> = Seq::empty();
    let mut lookup = HashMap::<K, Vec<V>>::new();
    assert(forall|k: K| values_of(seen, k) =~= Seq::<V>::empty());
    loop
        invariant
            iter.obeys_prophetic_iter_laws(),
            iter.decrease() is Some,
            obeys_key_model::<K>(),
            seen + iter.remaining() == all,
            is_grouping(lookup@, seen),
        ensures
            is_grouping(lookup@, all),
        decreases iter.decrease()->0,
    {
        let ghost pending = iter.remaining();
        match iter.next() {
            None => {
                assert(seen + pending =~= seen);
                break ;
            },
            Some((key, val)) => {
                push_grouped(&mut lookup, key, val, Ghost(seen));
                proof {
                    assert(seen.push((key, val)) + iter.remaining() =~= seen + pending);
                    seen = seen.push((key, val));
                }
            },
        }
    }
    lookup
}

/// Consumes `iter` entirely and returns a table from each key that `f` gives
/// to the list of the values for which `f` gave it, in the order in which
/// they occurred.
pub fn into_group_map_by<I, K, V, F>(iter: I, mut f: F) -> (lookup: HashMap<K, Vec<V>>) where
    I: Iterator<Item = V>,
    K: Hash + Eq,
    F: FnMut(&V) -> K,

    requires
        iter.obeys_prophetic_iter_laws(),
        iter.decrease() is Some,
        obeys_key_model::<K>(),
        forall|i: int|
            0 <= i < iter.remaining().len() ==> f.requires((&#[trigger] iter.remaining()[i],)),
    ensures
        exists|keys: Seq<K>|
            {
                &&& keys.len() == iter.remaining().len()
                &&& forall|i: int|
                    0 <= i < keys.len() ==> f.ensures((&iter.remaining()[i],), #[trigger] keys[i])
                &&& is_grouping(lookup@, keyed(keys, iter.remaining()))
            },
{
    let mut iter = iter;
    let ghost decide = f;
    let ghost all = iter.remaining();
    let ghost mut keys: Seq<K> = Seq::empty();
    let ghost mut vals: Seq<V> = Seq::empty();
    let mut lookup = HashMap::<K, Vec<V>>::new();
    assert(forall|k: K| values_of(keyed(keys, vals), k) =~= Seq::<V>::empty());
    loop
        invariant
            iter.obeys_prophetic_iter_laws(),
            iter.decrease() is Some,
            obeys_key_model::<K>(),
            f == decide,
            forall|i: int| 0 <= i < all.len() ==> decide.requires((&#[trigger] all[i],)),
            vals + iter.remaining() == all,
            keys.len() == vals.len(),
            forall|i: int| 0 <= i < keys.len() ==> decide.ensures((&vals[i],), #[trigger] keys[i]),
            is_grouping(lookup@, keyed(keys, vals)),
        ensures
            vals == all,
            keys.len() == vals.len(),
            forall|i: int| 0 <= i < keys.len() ==> decide.ensures((&vals[i],), #[trigger] keys[i]),
            is_grouping(lookup@, keyed(keys, vals)),
        decreases iter.decrease()->0,
    {
        let ghost pending = iter.remaining();
        match iter.next() {
            None => {
                assert(vals + pending =~= vals);
                break ;
            },
            Some(val) => {
                assert(val == all[vals.len() as int]);
                let key = f(&val);
                proof {
                    assert(vals.push(val) + iter.remaining() =~= vals + pending);
                    assert(keyed(keys.push(key), vals.push(val)) =~= keyed(keys, vals).push(
                        (key, val),
                    ));
                }
                push_grouped(&mut lookup, key, val, Ghost(keyed(keys, vals)));
                proof {
                    keys = keys.push(key);
                    vals = vals.push(val);
                }
            },
        }
    }
    lookup
}

} // verus!
