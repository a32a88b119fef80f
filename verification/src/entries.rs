//! Lists of named entries, as mathematical sequences: look-up by name and
//! the insert-or-replace rule that the attribute maps of this crate follow.

use vstd::prelude::*;

verus! {

/// Whether some entry of `entries` is named `key`.
pub open spec fn has_key<V>(entries: Seq<(Seq<char>, V)>, key: Seq<char>) -> bool {
    exists|i: int| 0 <= i < entries.len() && (#[trigger] entries[i]).0 == key
}

/// The place of the first entry named `key`.
pub open spec fn key_index<V>(entries: Seq<(Seq<char>, V)>, key: Seq<char>) -> int {
    choose|i: int|
        0 <= i < entries.len() && (#[trigger] entries[i]).0 == key && forall|j: int|
            0 <= j < i ==> (#[trigger] entries[j]).0 != key
}

/// No two entries have the same name.
pub open spec fn distinct_keys<V>(entries: Seq<(Seq<char>, V)>) -> bool {
    forall|i: int, j: int|
        0 <= i < j < entries.len() ==> (#[trigger] entries[i]).0 != (#[trigger] entries[j]).0
}

/// `entries` after `key` was set to `value`: the first entry of that name
/// gets the new value and keeps its place; if there is none, the entry is
/// appended.
pub open spec fn with_entry<V>(entries: Seq<(Seq<char>, V)>, key: Seq<char>, value: V) -> Seq<
    (Seq<char>, V),
> {
    if has_key(entries, key) {
        entries.update(key_index(entries, key), (key, value))
    } else {
        entries.push((key, value))
    }
}

proof fn lemma_first_at_or_before<V>(entries: Seq<(Seq<char>, V)>, key: Seq<char>, at: int)
    requires
        0 <= at < entries.len(),
        entries[at].0 == key,
    ensures
        exists|i: int|
            0 <= i < entries.len() && (#[trigger] entries[i]).0 == key && forall|j: int|
                0 <= j < i ==> (#[trigger] entries[j]).0 != key,
    decreases at,
{
    if exists|j: int| 0 <= j < at && (#[trigger] entries[j]).0 == key {
        let j = choose|j: int| 0 <= j < at && (#[trigger] entries[j]).0 == key;
        lemma_first_at_or_before(entries, key, j);
    } else {
        assert(forall|j: int| 0 <= j < at ==> (#[trigger] entries[j]).0 != key);
    }
}

/// Where `key` occurs at all, `key_index` is the first place at which it
/// does.
pub proof fn lemma_has_key<V>(entries: Seq<(Seq<char>, V)>, key: Seq<char>)
    requires
        has_key(entries, key),
    ensures
        0 <= key_index(entries, key) < entries.len(),
        entries[key_index(entries, key)].0 == key,
        forall|j: int| 0 <= j < key_index(entries, key) ==> (#[trigger] entries[j]).0 != key,
{
    let w = choose|i: int| 0 <= i < entries.len() && (#[trigger] entries[i]).0 == key;
    lemma_first_at_or_before(entries, key, w);
}

/// Where `key` occurs, `key_index` is its first place.
pub proof fn lemma_key_index<V>(entries: Seq<(Seq<char>, V)>, key: Seq<char>, at: int)
    requires
        0 <= at < entries.len(),
        entries[at].0 == key,
        forall|j: int| 0 <= j < at ==> (#[trigger] entries[j]).0 != key,
    ensures
        has_key(entries, key),
        key_index(entries, key) == at,
{
    assert(has_key(entries, key));
    lemma_has_key(entries, key);
    let k = key_index(entries, key);
    if k < at {
        assert(entries[k].0 != key);
    }
    if at < k {
        assert(entries[at].0 != key);
    }
}

/// Setting an entry keeps names distinct.
pub proof fn lemma_with_entry_distinct<V>(entries: Seq<(Seq<char>, V)>, key: Seq<char>, value: V)
    requires
        distinct_keys(entries),
    ensures
        distinct_keys(with_entry(entries, key, value)),
        has_key(with_entry(entries, key, value), key),
{
    let after = with_entry(entries, key, value);
    if has_key(entries, key) {
        lemma_has_key(entries, key);
        let k = key_index(entries, key);
        assert(after[k].0 == key);
        assert forall|i: int, j: int| 0 <= i < j < after.len() implies (#[trigger] after[i]).0 != (
        #[trigger] after[j]).0 by {
            assert(after[i].0 == entries[i].0);
            assert(after[j].0 == entries[j].0);
        }
    } else {
        assert(after[entries.len() as int].0 == key);
        assert forall|i: int, j: int| 0 <= i < j < after.len() implies (#[trigger] after[i]).0 != (
        #[trigger] after[j]).0 by {
            if j < entries.len() {
                assert(after[i] == entries[i]);
                assert(after[j] == entries[j]);
            } else {
                assert(after[i] == entries[i]);
            }
        }
    }
}

/// The entries with each value replaced by its view.
pub open spec fn viewed<V: View>(entries: Seq<(Seq<char>, V)>) -> Seq<(Seq<char>, V::V)> {
    Seq::new(entries.len(), |i: int| (entries[i].0, entries[i].1@))
}

/// Setting an entry and taking views can be done in either order.
pub proof fn lemma_viewed_with_entry<V: View>(
    entries: Seq<(Seq<char>, V)>,
    key: Seq<char>,
    value: V,
)
    ensures
        viewed(with_entry(entries, key, value)) == with_entry(viewed(entries), key, value@),
        has_key(viewed(entries), key) == has_key(entries, key),
        has_key(entries, key) ==> key_index(viewed(entries), key) == key_index(entries, key),
{
    let v = viewed(entries);
    if has_key(entries, key) {
        lemma_has_key(entries, key);
        let k = key_index(entries, key);
        assert(v[k].0 == key);
        assert forall|j: int| 0 <= j < k implies (#[trigger] v[j]).0 != key by {
            assert(entries[j].0 != key);
        }
        lemma_key_index(v, key, k);
        assert(viewed(with_entry(entries, key, value)) =~= with_entry(v, key, value@));
    } else {
        if has_key(v, key) {
            let k = choose|k: int| 0 <= k < v.len() && (#[trigger] v[k]).0 == key;
            assert(entries[k].0 == key);
        }
        assert(viewed(with_entry(entries, key, value)) =~= with_entry(v, key, value@));
    }
}

/// The entries of a list with each name taken as text.
pub open spec fn named<V>(list: Seq<(String, V)>) -> Seq<(Seq<char>, V)> {
    Seq::new(list.len(), |i: int| (list[i].0@, list[i].1))
}

/// The place of the first entry of `list` named `key`, if there is one.
pub fn find_entry<V>(list: &Vec<(String, V)>, key: &String) -> (at: Option<usize>)
    ensures
        at is Some == has_key(named(list@), key@),
        at matches Some(i) ==> i == key_index(named(list@), key@) && i < list@.len(),
{
    let mut i: usize = 0;
    while i < list.len()
        invariant
            i <= list@.len(),
            forall|j: int| 0 <= j < i ==> (#[trigger] named(list@)[j]).0 != key@,
        decreases list@.len() - i,
    {
        if list[i].0 == *key {
            proof {
                assert(named(list@)[i as int].0 == key@);
                lemma_key_index(named(list@), key@, i as int);
            }
            return Some(i);
        }
        i += 1;
    }
    proof {
        if has_key(named(list@), key@) {
            let k = choose|k: int| 0 <= k < named(list@).len() && (#[trigger] named(list@)[k]).0 == key@;
            assert(named(list@)[k].0 != key@);
        }
    }
    None
}

/// Sets the entry named `key` to `value`: the first entry of that name gets
/// the new value and keeps its place and its name; if there is none, the
/// entry is appended.
pub fn insert_entry<V>(list: &mut Vec<(String, V)>, key: String, value: V)
    ensures
        named(final(list)@) == with_entry(named(old(list)@), key@, value),
{
    match find_entry(list, &key) {
        Some(i) => {
            list.set(i, (key, value));
            assert(named(list@) =~= with_entry(named(old(list)@), key@, value));
        },
        None => {
            list.push((key, value));
            assert(named(list@) =~= with_entry(named(old(list)@), key@, value));
        },
    }
}

} // verus!
