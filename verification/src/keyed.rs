//! Settings stored by key: a list in which no key occurs twice.

use vstd::prelude::*;

verus! {

/// Stored entries as keys and values.
pub open spec fn keyed<V>(entries: Seq<(String, V)>) -> Seq<(Seq<char>, V)> {
    entries.map_values(|e: (String, V)| (e.0@, e.1))
}

/// Whether no key occurs twice.
pub open spec fn distinct_keys<V>(entries: Seq<(Seq<char>, V)>) -> bool {
    forall|i: int, j: int|
        0 <= i < j < entries.len() ==> (#[trigger] entries[i]).0 != (#[trigger] entries[j]).0
}

/// Position of the first entry with the key, or the length where there is
/// none.
pub open spec fn key_position<V>(entries: Seq<(Seq<char>, V)>, key: Seq<char>) -> int
    decreases entries.len(),
{
    if entries.len() == 0 {
        0
    } else if entries[0].0 == key {
        0
    } else {
        1 + key_position(entries.skip(1), key)
    }
}

/// The entries after a value is stored under a key: the entry of that
/// key has the new value, or, where the key is new, an entry is added at
/// the end.
pub open spec fn with_entry<V>(entries: Seq<(Seq<char>, V)>, key: Seq<char>, value: V) -> Seq<
    (Seq<char>, V),
> {
    let at = key_position(entries, key);
    if at < entries.len() {
        entries.update(at, (key, value))
    } else {
        entries.push((key, value))
    }
}

/// `key_position` names the first entry with the key.
pub proof fn lemma_key_position<V>(entries: Seq<(Seq<char>, V)>, key: Seq<char>)
    ensures
        0 <= key_position(entries, key) <= entries.len(),
        key_position(entries, key) < entries.len() ==> entries[key_position(entries, key)].0 == key,
        forall|j: int| 0 <= j < key_position(entries, key) ==> (#[trigger] entries[j]).0 != key,
    decreases entries.len(),
{
    if entries.len() > 0 && entries[0].0 != key {
        let rest = entries.skip(1);
        lemma_key_position(rest, key);
        assert forall|j: int| 0 <= j < key_position(entries, key) implies (#[trigger] entries[j]).0
            != key by {
            if j > 0 {
                assert(entries[j] == rest[j - 1]);
            }
        }
    }
}

/// An entry with the key before which none has it is the one that
/// `key_position` gives; so is the length where none has it.
pub proof fn lemma_key_position_is<V>(entries: Seq<(Seq<char>, V)>, key: Seq<char>, at: int)
    requires
        0 <= at <= entries.len(),
        at < entries.len() ==> entries[at].0 == key,
        forall|j: int| 0 <= j < at ==> (#[trigger] entries[j]).0 != key,
    ensures
        key_position(entries, key) == at,
{
    lemma_key_position(entries, key);
    let p = key_position(entries, key);
    if p < at {
        assert(entries[p].0 != key);
    }
}

/// Storing a value leaves every key in the list once, and afterwards the
/// key stands for the value.
pub proof fn lemma_with_entry<V>(entries: Seq<(Seq<char>, V)>, key: Seq<char>, value: V)
    requires
        distinct_keys(entries),
    ensures
        distinct_keys(with_entry(entries, key, value)),
        key_position(with_entry(entries, key, value), key) < with_entry(entries, key, value).len(),
        with_entry(entries, key, value)[key_position(with_entry(entries, key, value), key)] == (
            key,
            value,
        ),
{
    lemma_key_position(entries, key);
    let at = key_position(entries, key);
    let after = with_entry(entries, key, value);
    assert forall|i: int, j: int| 0 <= i < j < after.len() implies (#[trigger] after[i]).0 != (
    #[trigger] after[j]).0 by {
        if at < entries.len() {
            assert(after[i].0 == entries[i].0 && after[j].0 == entries[j].0);
        } else if j < entries.len() {
            assert(after[i] == entries[i] && after[j] == entries[j]);
        } else {
            assert(after[i] == entries[i]);
        }
    }
    assert forall|j: int| 0 <= j < at implies (#[trigger] after[j]).0 != key by {
        assert(after[j] == entries[j]);
    }
    lemma_key_position_is(after, key, at);
}

/// Stores a value under a key.
pub fn put_entry<V>(entries: &mut Vec<(String, V)>, key: String, value: V)
    ensures
        keyed(final(entries)@) == with_entry(keyed(old(entries)@), key@, value),
{
    let n: usize = entries.len();
    let mut i: usize = 0;
    while i < n
        invariant
            i <= n,
            n == entries@.len(),
            entries@ == old(entries)@,
            forall|j: int| 0 <= j < i ==> (#[trigger] keyed(entries@)[j]).0 != key@,
        decreases n - i,
    {
        if entries[i].0 == key {
            proof {
                lemma_key_position_is(keyed(entries@), key@, i as int);
            }
            let ghost before = entries@;
            entries.set(i, (key, value));
            assert(keyed(entries@) =~= keyed(before).update(i as int, (key@, value)));
            return ;
        }
        i += 1;
    }
    proof {
        lemma_key_position_is(keyed(entries@), key@, n as int);
    }
    let ghost before = entries@;
    entries.push((key, value));
    assert(keyed(entries@) =~= keyed(before).push((key@, value)));
}

} // verus!
