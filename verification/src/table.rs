//! A sparse table modelled as a sequence of key/value entries with pairwise
//! distinct keys. Reading an absent key yields zero, so the table denotes a
//! total function from keys to amounts.

use vstd::prelude::*;

verus! {

/// The value a table gives for `key`: the value of the first entry whose key
/// matches, or zero when no entry matches.
pub open spec fn lookup<K>(entries: Seq<(K, u128)>, key: K) -> u128
    decreases entries.len(),
{
    if entries.len() == 0 {
        0
    } else if entries[0].0 == key {
        entries[0].1
    } else {
        lookup(entries.drop_first(), key)
    }
}

/// No two entries share a key.
pub open spec fn unique_keys<K>(entries: Seq<(K, u128)>) -> bool {
    forall|i: int, j: int| #![trigger entries[i], entries[j]]
        0 <= i < entries.len() && 0 <= j < entries.len() && i != j ==> entries[i].0 != entries[j].0
}

/// The sum of all stored values, as an unbounded integer.
pub open spec fn sum_values<K>(entries: Seq<(K, u128)>) -> int
    decreases entries.len(),
{
    if entries.len() == 0 {
        0
    } else {
        entries[0].1 + sum_values(entries.drop_first())
    }
}

/// Values are unsigned, so the sum is never negative.
pub proof fn lemma_sum_nonneg<K>(entries: Seq<(K, u128)>)
    ensures
        sum_values(entries) >= 0,
    decreases entries.len(),
{
    if entries.len() > 0 {
        lemma_sum_nonneg(entries.drop_first());
    }
}

/// Every single entry's value is at most the sum of all values.
pub proof fn lemma_entry_le_sum<K>(entries: Seq<(K, u128)>, i: int)
    requires
        0 <= i < entries.len(),
    ensures
        entries[i].1 <= sum_values(entries),
    decreases entries.len(),
{
    if i == 0 {
        lemma_sum_nonneg(entries.drop_first());
    } else {
        lemma_entry_le_sum(entries.drop_first(), i - 1);
        assert(entries.drop_first()[i - 1] == entries[i]);
    }
}

/// No key's value exceeds the sum of all values.
pub proof fn lemma_lookup_le_sum<K>(entries: Seq<(K, u128)>, key: K)
    ensures
        lookup(entries, key) <= sum_values(entries),
    decreases entries.len(),
{
    if entries.len() == 0 {
    } else if entries[0].0 == key {
        lemma_sum_nonneg(entries.drop_first());
    } else {
        lemma_lookup_le_sum(entries.drop_first(), key);
    }
}

/// Replacing the entry at index `i` changes the sum by the difference of the
/// new and old values.
pub proof fn lemma_sum_update<K>(entries: Seq<(K, u128)>, i: int, entry: (K, u128))
    requires
        0 <= i < entries.len(),
    ensures
        sum_values(entries.update(i, entry)) == sum_values(entries) - entries[i].1 + entry.1,
    decreases entries.len(),
{
    let updated = entries.update(i, entry);
    if i == 0 {
        assert(updated.drop_first() =~= entries.drop_first());
    } else {
        assert(updated.drop_first() =~= entries.drop_first().update(i - 1, entry));
        lemma_sum_update(entries.drop_first(), i - 1, entry);
    }
}

/// Appending an entry adds its value to the sum.
pub proof fn lemma_sum_push<K>(entries: Seq<(K, u128)>, entry: (K, u128))
    ensures
        sum_values(entries.push(entry)) == sum_values(entries) + entry.1,
    decreases entries.len(),
{
    let pushed = entries.push(entry);
    if entries.len() == 0 {
        assert(pushed[0] == entry);
        assert(pushed.drop_first() =~= entries);
        assert(sum_values(entries) == 0);
    } else {
        assert(pushed[0] == entries[0]);
        assert(pushed.drop_first() =~= entries.drop_first().push(entry));
        lemma_sum_push(entries.drop_first(), entry);
    }
}

/// Extending a prefix by one entry adds that entry's value to the prefix sum.
pub proof fn lemma_sum_take_succ<K>(entries: Seq<(K, u128)>, i: int)
    requires
        0 <= i < entries.len(),
    ensures
        sum_values(entries.take(i + 1)) == sum_values(entries.take(i)) + entries[i].1,
{
    assert(entries.take(i + 1) =~= entries.take(i).push(entries[i]));
    lemma_sum_push(entries.take(i), entries[i]);
}

/// A prefix sum never exceeds the sum of the whole table.
pub proof fn lemma_sum_take_le<K>(entries: Seq<(K, u128)>, i: int)
    requires
        0 <= i <= entries.len(),
    ensures
        sum_values(entries.take(i)) <= sum_values(entries),
    decreases entries.len() - i,
{
    if i == entries.len() {
        assert(entries.take(i) =~= entries);
    } else {
        lemma_sum_take_succ(entries, i);
        lemma_sum_take_le(entries, i + 1);
    }
}

pub proof fn lemma_unique_drop_first<K>(entries: Seq<(K, u128)>)
    requires
        unique_keys(entries),
        entries.len() > 0,
    ensures
        unique_keys(entries.drop_first()),
{
    let rest = entries.drop_first();
    assert forall|i: int, j: int| #![trigger rest[i], rest[j]]
        0 <= i < rest.len() && 0 <= j < rest.len() && i != j implies rest[i].0 != rest[j].0 by {
        assert(rest[i] == entries[i + 1]);
        assert(rest[j] == entries[j + 1]);
    }
}

/// When keys are unique, looking up the key of the entry at index `i` yields
/// that entry's value.
pub proof fn lemma_lookup_at_index<K>(entries: Seq<(K, u128)>, i: int)
    requires
        unique_keys(entries),
        0 <= i < entries.len(),
    ensures
        lookup(entries, entries[i].0) == entries[i].1,
    decreases entries.len(),
{
    if i > 0 {
        assert(entries[0].0 != entries[i].0);
        lemma_unique_drop_first(entries);
        lemma_lookup_at_index(entries.drop_first(), i - 1);
        assert(entries.drop_first()[i - 1] == entries[i]);
    }
}

/// A key held by no entry looks up to zero.
pub proof fn lemma_lookup_absent<K>(entries: Seq<(K, u128)>, key: K)
    requires
        forall|i: int| 0 <= i < entries.len() ==> (#[trigger] entries[i]).0 != key,
    ensures
        lookup(entries, key) == 0,
    decreases entries.len(),
{
    if entries.len() > 0 {
        let rest = entries.drop_first();
        assert forall|i: int| 0 <= i < rest.len() implies (#[trigger] rest[i]).0 != key by {
            assert(rest[i] == entries[i + 1]);
        }
        lemma_lookup_absent(rest, key);
    }
}

/// Replacing the entry at index `i` by one with the same key keeps keys unique.
pub proof fn lemma_unique_update<K>(entries: Seq<(K, u128)>, i: int, entry: (K, u128))
    requires
        unique_keys(entries),
        0 <= i < entries.len(),
        entry.0 == entries[i].0,
    ensures
        unique_keys(entries.update(i, entry)),
{
    let updated = entries.update(i, entry);
    assert forall|p: int, q: int| #![trigger updated[p], updated[q]]
        0 <= p < updated.len() && 0 <= q < updated.len() && p != q implies updated[p].0 != updated[q].0 by {
        assert(updated[p].0 == entries[p].0);
        assert(updated[q].0 == entries[q].0);
    }
}

/// Replacing the entry at index `i` by one with the same key changes exactly
/// that key's lookup.
pub proof fn lemma_lookup_update<K>(entries: Seq<(K, u128)>, i: int, entry: (K, u128), key: K)
    requires
        unique_keys(entries),
        0 <= i < entries.len(),
        entry.0 == entries[i].0,
    ensures
        lookup(entries.update(i, entry), key) == if key == entry.0 {
            entry.1
        } else {
            lookup(entries, key)
        },
    decreases entries.len(),
{
    let updated = entries.update(i, entry);
    if i == 0 {
        assert(updated.drop_first() =~= entries.drop_first());
    } else {
        assert(updated[0] == entries[0]);
        assert(updated.drop_first() =~= entries.drop_first().update(i - 1, entry));
        lemma_unique_drop_first(entries);
        assert(entries.drop_first()[i - 1] == entries[i]);
        lemma_lookup_update(entries.drop_first(), i - 1, entry, key);
        if key == entry.0 {
            assert(entries[0].0 != entries[i].0);
        }
    }
}

/// Appending an entry whose key is fresh keeps keys unique.
pub proof fn lemma_unique_push<K>(entries: Seq<(K, u128)>, entry: (K, u128))
    requires
        unique_keys(entries),
        forall|i: int| 0 <= i < entries.len() ==> (#[trigger] entries[i]).0 != entry.0,
    ensures
        unique_keys(entries.push(entry)),
{
    let pushed = entries.push(entry);
    assert forall|p: int, q: int| #![trigger pushed[p], pushed[q]]
        0 <= p < pushed.len() && 0 <= q < pushed.len() && p != q implies pushed[p].0 != pushed[q].0 by {
        if p < entries.len() && q < entries.len() {
            assert(pushed[p] == entries[p]);
            assert(pushed[q] == entries[q]);
        } else if p < entries.len() {
            assert(pushed[p] == entries[p]);
            assert(pushed[q] == entry);
        } else {
            assert(pushed[p] == entry);
            assert(pushed[q] == entries[q]);
        }
    }
}

/// Appending an entry whose key is fresh changes exactly that key's lookup.
pub proof fn lemma_lookup_push<K>(entries: Seq<(K, u128)>, entry: (K, u128), key: K)
    requires
        forall|i: int| 0 <= i < entries.len() ==> (#[trigger] entries[i]).0 != entry.0,
    ensures
        lookup(entries.push(entry), key) == if key == entry.0 {
            entry.1
        } else {
            lookup(entries, key)
        },
    decreases entries.len(),
{
    let pushed = entries.push(entry);
    if entries.len() == 0 {
        assert(pushed[0] == entry);
        assert(pushed.drop_first() =~= entries);
        assert(lookup(entries, key) == 0);
    } else {
        let rest = entries.drop_first();
        assert(pushed[0] == entries[0]);
        assert(pushed.drop_first() =~= rest.push(entry));
        assert forall|i: int| 0 <= i < rest.len() implies (#[trigger] rest[i]).0 != entry.0 by {
            assert(0 <= i + 1 < entries.len());
            assert(rest[i] == entries[i + 1]);
        }
        lemma_lookup_push(rest, entry, key);
        assert(entries[0].0 != entry.0);
    }
}

} // verus!
