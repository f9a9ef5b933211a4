//! Ordered lists of keyed entries.
//!
//! A mapping is modelled as a sequence of `(key, value)` pairs in insertion
//! order. The functions here say how such a list is searched and edited by
//! key: a search finds the first entry of a key, an insertion replaces the
//! value of that entry in place or appends a new entry at the end.

use vstd::prelude::*;

verus! {

/// The first position at or after `from` whose entry has the key `key`, or
/// the length of `e` when there is none.
pub open spec fn key_index<T>(e: Seq<(Seq<char>, T)>, key: Seq<char>, from: int) -> int
    decreases e.len() - from,
{
    if 0 <= from < e.len() {
        if e[from].0 == key {
            from
        } else {
            key_index(e, key, from + 1)
        }
    } else {
        e.len() as int
    }
}

/// The position of the first entry with the key `key`.
pub open spec fn position<T>(e: Seq<(Seq<char>, T)>, key: Seq<char>) -> Option<int> {
    let at = key_index(e, key, 0);
    if at < e.len() {
        Some(at)
    } else {
        None
    }
}

/// The value of the first entry with the key `key`.
pub open spec fn value_of<T>(e: Seq<(Seq<char>, T)>, key: Seq<char>) -> Option<T> {
    match position(e, key) {
        Some(at) => Some(e[at].1),
        None => None,
    }
}

/// `e` with `value` under `key`: the first entry of that key keeps its place
/// and gets the new value; without such an entry a new one is appended.
pub open spec fn upsert<T>(e: Seq<(Seq<char>, T)>, key: Seq<char>, value: T) -> Seq<
    (Seq<char>, T),
> {
    match position(e, key) {
        Some(at) => e.update(at, (e[at].0, value)),
        None => e.push((key, value)),
    }
}

/// `e` without the first entry of `key`; the other entries keep their order.
pub open spec fn without<T>(e: Seq<(Seq<char>, T)>, key: Seq<char>) -> Seq<(Seq<char>, T)> {
    match position(e, key) {
        Some(at) => e.remove(at),
        None => e,
    }
}

/// No key occurs twice.
pub open spec fn distinct_keys<T>(e: Seq<(Seq<char>, T)>) -> bool {
    forall|i: int, j: int| 0 <= i < j < e.len() ==> (#[trigger] e[i]).0 != (#[trigger] e[j]).0
}

/// What a search for `key` from `from` on says of the list.
pub proof fn lemma_key_index<T>(e: Seq<(Seq<char>, T)>, key: Seq<char>, from: int)
    requires
        0 <= from <= e.len(),
    ensures
        from <= key_index(e, key, from) <= e.len(),
        forall|i: int| from <= i < key_index(e, key, from) ==> (#[trigger] e[i]).0 != key,
        key_index(e, key, from) < e.len() ==> e[key_index(e, key, from)].0 == key,
    decreases e.len() - from,
{
    if from < e.len() && e[from].0 != key {
        lemma_key_index(e, key, from + 1);
    }
}

/// A position is the one a search finds when it holds the key and no
/// earlier position does.
pub proof fn lemma_position_is<T>(e: Seq<(Seq<char>, T)>, key: Seq<char>, at: int)
    requires
        0 <= at < e.len(),
        e[at].0 == key,
        forall|i: int| 0 <= i < at ==> (#[trigger] e[i]).0 != key,
    ensures
        position(e, key) == Some(at),
{
    lemma_key_index(e, key, 0);
}

/// A key that no entry has is not found.
pub proof fn lemma_position_none<T>(e: Seq<(Seq<char>, T)>, key: Seq<char>)
    requires
        forall|i: int| 0 <= i < e.len() ==> (#[trigger] e[i]).0 != key,
    ensures
        position(e, key) is None,
{
    lemma_key_index(e, key, 0);
}

/// What a search says of the list.
pub proof fn lemma_position<T>(e: Seq<(Seq<char>, T)>, key: Seq<char>)
    ensures
        match position(e, key) {
            Some(at) => 0 <= at < e.len() && e[at].0 == key && forall|i: int|
                0 <= i < at ==> (#[trigger] e[i]).0 != key,
            None => forall|i: int| 0 <= i < e.len() ==> (#[trigger] e[i]).0 != key,
        },
{
    lemma_key_index(e, key, 0);
}

/// After an insertion the key is found, with the value that was given, and
/// every other key is found as before.
pub proof fn lemma_upsert<T>(e: Seq<(Seq<char>, T)>, key: Seq<char>, value: T)
    ensures
        value_of(upsert(e, key, value), key) == Some(value),
        position(upsert(e, key, value), key) == match position(e, key) {
            Some(at) => Some(at),
            None => Some(e.len() as int),
        },
        forall|other: Seq<char>|
            other != key ==> #[trigger] position(upsert(e, key, value), other) == position(
                e,
                other,
            ),
        distinct_keys(e) ==> distinct_keys(upsert(e, key, value)),
{
    lemma_position(e, key);
    let u = upsert(e, key, value);
    match position(e, key) {
        Some(at) => {
            lemma_position_is(u, key, at);
        },
        None => {
            lemma_position_is(u, key, e.len() as int);
        },
    }
    assert forall|other: Seq<char>| other != key implies #[trigger] position(u, other)
        == position(e, other) by {
        lemma_position(e, other);
        match position(e, other) {
            Some(at) => {
                lemma_position_is(u, other, at);
            },
            None => {
                lemma_position_none(u, other);
            },
        }
    }
}

/// Replacing the value of an entry moves no key: every key is found where it
/// was found before.
pub proof fn lemma_update_value<T>(e: Seq<(Seq<char>, T)>, at: int, value: T)
    requires
        0 <= at < e.len(),
    ensures
        forall|key: Seq<char>| #[trigger]
            position(e.update(at, (e[at].0, value)), key) == position(e, key),
        distinct_keys(e) ==> distinct_keys(e.update(at, (e[at].0, value))),
{
    let u = e.update(at, (e[at].0, value));
    assert forall|key: Seq<char>| #[trigger] position(u, key) == position(e, key) by {
        lemma_position(e, key);
        match position(e, key) {
            Some(found) => {
                lemma_position_is(u, key, found);
            },
            None => {
                lemma_position_none(u, key);
            },
        }
    }
}

/// Once the first entry of a key is gone from a list without repeated keys,
/// the key is not found any more; every other key is found as before.
pub proof fn lemma_without<T>(e: Seq<(Seq<char>, T)>, key: Seq<char>)
    requires
        distinct_keys(e),
    ensures
        position(without(e, key), key) is None,
        distinct_keys(without(e, key)),
        forall|other: Seq<char>|
            other != key ==> #[trigger] value_of(without(e, key), other) == value_of(e, other),
{
    lemma_position(e, key);
    let w = without(e, key);
    lemma_position_none(w, key);
    assert forall|other: Seq<char>| other != key implies #[trigger] value_of(w, other)
        == value_of(e, other) by {
        lemma_position(e, other);
        match (position(e, key), position(e, other)) {
            (Some(gone), Some(at)) => {
                if at < gone {
                    lemma_position_is(w, other, at);
                } else {
                    lemma_position_is(w, other, at - 1);
                }
            },
            (Some(gone), None) => {
                lemma_position_none(w, other);
            },
            _ => {},
        }
    }
}

/// Taking the first entry of a key away moves no value of another key:
/// every other key is found with the value it had.
pub proof fn lemma_without_keeps<T>(e: Seq<(Seq<char>, T)>, key: Seq<char>)
    ensures
        forall|other: Seq<char>|
            other != key ==> #[trigger] value_of(without(e, key), other) == value_of(e, other),
{
    lemma_position(e, key);
    let w = without(e, key);
    assert forall|other: Seq<char>| other != key implies #[trigger] value_of(w, other)
        == value_of(e, other) by {
        lemma_position(e, other);
        match (position(e, key), position(e, other)) {
            (Some(gone), Some(at)) => {
                if at < gone {
                    lemma_position_is(w, other, at);
                } else {
                    lemma_position_is(w, other, at - 1);
                }
            },
            (Some(gone), None) => {
                lemma_position_none(w, other);
            },
            _ => {},
        }
    }
}

/// The keys of a list, in order.
pub open spec fn keys_of<T>(e: Seq<(Seq<char>, T)>) -> Seq<Seq<char>> {
    Seq::new(e.len(), |i: int| e[i].0)
}

/// Two lists of the same length without repeated keys, of which the second
/// has every key of the first, have the same keys: the first has every key
/// of the second.
pub proof fn lemma_same_keys<T, U>(x: Seq<(Seq<char>, T)>, y: Seq<(Seq<char>, U)>)
    requires
        distinct_keys(x),
        distinct_keys(y),
        x.len() == y.len(),
        forall|i: int| 0 <= i < x.len() ==> position(y, (#[trigger] x[i]).0) is Some,
    ensures
        forall|j: int| 0 <= j < y.len() ==> position(x, (#[trigger] y[j]).0) is Some,
{
    let kx = keys_of(x);
    let ky = keys_of(y);
    assert(kx.no_duplicates()) by {
        assert forall|i: int, j: int| 0 <= i < kx.len() && 0 <= j < kx.len() && i != j implies kx[i]
            != kx[j] by {
            if i < j {
                assert(x[i].0 != x[j].0);
            } else {
                assert(x[j].0 != x[i].0);
            }
        }
    }
    assert(ky.no_duplicates()) by {
        assert forall|i: int, j: int| 0 <= i < ky.len() && 0 <= j < ky.len() && i != j implies ky[i]
            != ky[j] by {
            if i < j {
                assert(y[i].0 != y[j].0);
            } else {
                assert(y[j].0 != y[i].0);
            }
        }
    }
    kx.unique_seq_to_set();
    ky.unique_seq_to_set();
    assert(kx.to_set().subset_of(ky.to_set())) by {
        assert forall|k: Seq<char>| kx.to_set().contains(k) implies ky.to_set().contains(k) by {
            let i = choose|i: int| 0 <= i < kx.len() && kx[i] == k;
            assert(x[i].0 == k);
            lemma_position(y, k);
            let at = position(y, k)->Some_0;
            assert(ky[at] == k);
        }
    }
    vstd::seq_lib::seq_to_set_is_finite(kx);
    vstd::seq_lib::seq_to_set_is_finite(ky);
    vstd::set_lib::lemma_subset_equality(kx.to_set(), ky.to_set());
    assert forall|j: int| 0 <= j < y.len() implies position(x, (#[trigger] y[j]).0) is Some by {
        assert(ky[j] == y[j].0);
        assert(ky.to_set().contains(y[j].0));
        assert(kx.to_set().contains(y[j].0));
        let i = choose|i: int| 0 <= i < kx.len() && kx[i] == y[j].0;
        assert(x[i].0 == y[j].0);
        lemma_position(x, y[j].0);
    }
}

} // verus!
