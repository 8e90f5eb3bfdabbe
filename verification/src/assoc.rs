//! Sequences of keyed values, read as maps.
use vstd::prelude::*;

verus! {

/// Whether `key` stands somewhere in `pairs`.
pub open spec fn has_key<K, V>(pairs: Seq<(K, V)>, key: K) -> bool {
    exists|i: int| 0 <= i < pairs.len() && #[trigger] pairs[i].0 == key
}

/// Where `key` stands in `pairs`.
pub open spec fn key_index<K, V>(pairs: Seq<(K, V)>, key: K) -> int {
    choose|i: int| 0 <= i < pairs.len() && #[trigger] pairs[i].0 == key
}

/// The map that a sequence of pairs with distinct keys stands for.
pub open spec fn assoc<K, V>(pairs: Seq<(K, V)>) -> Map<K, V> {
    Map::new(|key: K| has_key(pairs, key), |key: K| pairs[key_index(pairs, key)].1)
}

/// No key stands in `pairs` twice.
pub open spec fn distinct<K, V>(pairs: Seq<(K, V)>) -> bool {
    forall|i: int, j: int|
        0 <= i < pairs.len() && 0 <= j < pairs.len() && i != j ==> #[trigger] pairs[i].0
            != #[trigger] pairs[j].0
}

/// Every pair is an entry of the map.
pub proof fn lemma_assoc_entry<K, V>(pairs: Seq<(K, V)>, i: int)
    requires
        distinct(pairs),
        0 <= i < pairs.len(),
    ensures
        assoc(pairs).contains_key(pairs[i].0),
        assoc(pairs)[pairs[i].0] == pairs[i].1,
{
    assert(has_key(pairs, pairs[i].0));
    assert(key_index(pairs, pairs[i].0) == i);
}

/// A pair with a new key adds one entry to the map.
pub proof fn lemma_assoc_insert<K, V>(pairs: Seq<(K, V)>, at: int, key: K, value: V)
    requires
        distinct(pairs),
        !has_key(pairs, key),
        0 <= at <= pairs.len(),
    ensures
        distinct(pairs.insert(at, (key, value))),
        assoc(pairs.insert(at, (key, value))) == assoc(pairs).insert(key, value),
{
    let after = pairs.insert(at, (key, value));
    assert forall|i: int, j: int|
        0 <= i < after.len() && 0 <= j < after.len() && i != j implies #[trigger] after[i].0
        != #[trigger] after[j].0 by {
        let a = if i < at {
            i
        } else {
            i - 1
        };
        let b = if j < at {
            j
        } else {
            j - 1
        };
        if i == at {
            assert(pairs[b].0 != key);
        } else if j == at {
            assert(pairs[a].0 != key);
        } else {
            assert(pairs[a].0 != pairs[b].0);
        }
    }
    assert forall|k: K| assoc(after).contains_key(k) == assoc(pairs).insert(key, value)
        .contains_key(k) by {
        if has_key(pairs, k) {
            let i = key_index(pairs, k);
            let b = if i < at {
                i
            } else {
                i + 1
            };
            assert(after[b].0 == k);
        }
        if k == key {
            assert(after[at].0 == key);
        }
        if has_key(after, k) && k != key {
            let b = key_index(after, k);
            let i = if b < at {
                b
            } else {
                b - 1
            };
            assert(pairs[i].0 == k);
        }
    }
    assert forall|k: K| assoc(after).contains_key(k) implies #[trigger] assoc(after)[k] == assoc(
        pairs,
    ).insert(key, value)[k] by {
        let b = key_index(after, k);
        lemma_assoc_entry(after, b);
        if k == key {
            assert(after[at].0 == key);
            assert(b == at);
        } else {
            let i = if b < at {
                b
            } else {
                b - 1
            };
            lemma_assoc_entry(pairs, i);
        }
    }
    assert(assoc(after) =~= assoc(pairs).insert(key, value));
}

/// A new value under a key that is there replaces that entry of the map.
pub proof fn lemma_assoc_update<K, V>(pairs: Seq<(K, V)>, at: int, value: V)
    requires
        distinct(pairs),
        0 <= at < pairs.len(),
    ensures
        distinct(pairs.update(at, (pairs[at].0, value))),
        assoc(pairs.update(at, (pairs[at].0, value))) == assoc(pairs).insert(pairs[at].0, value),
{
    let after = pairs.update(at, (pairs[at].0, value));
    assert forall|i: int| 0 <= i < pairs.len() implies #[trigger] after[i].0 == pairs[i].0 by {}
    assert forall|k: K| assoc(after).contains_key(k) == assoc(pairs).contains_key(k) by {
        if has_key(pairs, k) {
            assert(after[key_index(pairs, k)].0 == k);
        }
        if has_key(after, k) {
            assert(pairs[key_index(after, k)].0 == k);
        }
    }
    assert(assoc(pairs).contains_key(pairs[at].0)) by {
        lemma_assoc_entry(pairs, at);
    }
    assert forall|k: K| assoc(after).contains_key(k) implies #[trigger] assoc(after)[k] == assoc(
        pairs,
    ).insert(pairs[at].0, value)[k] by {
        let i = key_index(after, k);
        lemma_assoc_entry(after, i);
        lemma_assoc_entry(pairs, i);
        if k == pairs[at].0 {
            assert(i == at);
        }
    }
    assert(assoc(after) =~= assoc(pairs).insert(pairs[at].0, value));
}

/// Whether the keys of `pairs` stand in the order `before`.
pub open spec fn ascending<K, V>(pairs: Seq<(K, V)>, before: spec_fn(K, K) -> bool) -> bool {
    forall|i: int, j: int|
        0 <= i < j < pairs.len() ==> before(#[trigger] pairs[i].0, #[trigger] pairs[j].0)
}

/// Whether no two keys stand before each other.
pub open spec fn asymmetric<K>(before: spec_fn(K, K) -> bool) -> bool {
    forall|a: K, b: K| #[trigger] before(a, b) ==> !before(b, a)
}

/// Only one sequence in order stands for a map.
pub proof fn lemma_ascending_unique<K, V>(
    a: Seq<(K, V)>,
    b: Seq<(K, V)>,
    before: spec_fn(K, K) -> bool,
)
    requires
        asymmetric(before),
        ascending(a, before),
        ascending(b, before),
        assoc(a) == assoc(b),
    ensures
        a == b,
    decreases a.len(),
{
    assert(distinct(a));
    assert(distinct(b));
    if a.len() == 0 {
        if b.len() > 0 {
            lemma_assoc_entry(b, 0);
            assert(!assoc(a).contains_key(b[0].0));
        }
        assert(a =~= b);
    } else {
        let x = a.last();
        lemma_assoc_entry(a, a.len() - 1);
        assert(has_key(b, x.0));
        let y = b.last();
        lemma_assoc_entry(b, b.len() - 1);
        assert(has_key(a, y.0));
        let i = key_index(a, y.0);
        let j = key_index(b, x.0);
        if i < a.len() - 1 && j < b.len() - 1 {
            assert(before(a[i].0, a[a.len() - 1].0));
            assert(before(b[j].0, b[b.len() - 1].0));
        }
        assert(x == y);
        lemma_assoc_drop_last(a);
        lemma_assoc_drop_last(b);
        lemma_ascending_unique(a.drop_last(), b.drop_last(), before);
        assert(a =~= a.drop_last().push(x));
        assert(b =~= b.drop_last().push(y));
    }
}

proof fn lemma_assoc_drop_last<K, V>(pairs: Seq<(K, V)>)
    requires
        distinct(pairs),
        pairs.len() > 0,
    ensures
        assoc(pairs.drop_last()) == assoc(pairs).remove(pairs.last().0),
{
    let rest = pairs.drop_last();
    let (key, value) = pairs.last();
    if has_key(rest, key) {
        assert(pairs[key_index(rest, key)].0 == pairs[pairs.len() - 1].0);
    }
    lemma_assoc_insert(rest, rest.len() as int, key, value);
    assert(rest.insert(rest.len() as int, (key, value)) =~= pairs);
    assert(assoc(rest) =~= assoc(pairs).remove(key));
}

} // verus!
