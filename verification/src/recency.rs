//! The mathematical model of a bounded store with least-recently-used eviction:
//! its entries as a sequence, the most recently used first.

use vstd::prelude::*;

verus! {

/// The entries of a store, keys with their bytes, the most recently used first.
pub type Entries = Seq<(u64, Seq<u8>)>;

/// Whether some entry has the key `key`.
pub open spec fn holds(entries: Entries, key: u64) -> bool {
    exists|i: int| 0 <= i < entries.len() && (#[trigger] entries[i]).0 == key
}

/// The position of an entry with the key `key`, where there is one.
pub open spec fn index_of(entries: Entries, key: u64) -> int {
    choose|i: int| 0 <= i < entries.len() && (#[trigger] entries[i]).0 == key
}

/// The bytes stored under `key`, if any.
pub open spec fn lookup(entries: Entries, key: u64) -> Option<Seq<u8>> {
    if holds(entries, key) {
        Some(entries[index_of(entries, key)].1)
    } else {
        None
    }
}

/// A store is well formed when no key occurs twice and it holds no more entries
/// than its capacity.
pub open spec fn well_formed(entries: Entries, capacity: nat) -> bool {
    &&& entries.len() <= capacity
    &&& forall|i: int, j: int|
        0 <= i < j < entries.len() ==> (#[trigger] entries[i]).0 != (#[trigger] entries[j]).0
}

/// The entries after a lookup of `key`: a hit moves the entry to the front, a
/// miss changes nothing.
pub open spec fn touched(entries: Entries, key: u64) -> Entries {
    if holds(entries, key) {
        seq![entries[index_of(entries, key)]] + entries.remove(index_of(entries, key))
    } else {
        entries
    }
}

/// The entries after `value` is stored under `key` in a store of capacity
/// `capacity`. A key that is present gets the new bytes and moves to the front.
/// A new key goes to the front; if the store is full, its last entry, the least
/// recently used, leaves first. A store of capacity zero never holds anything.
pub open spec fn inserted(entries: Entries, capacity: nat, key: u64, value: Seq<u8>) -> Entries {
    if holds(entries, key) {
        seq![(key, value)] + entries.remove(index_of(entries, key))
    } else if capacity == 0 {
        entries
    } else if entries.len() == capacity {
        seq![(key, value)] + entries.drop_last()
    } else {
        seq![(key, value)] + entries
    }
}

/// The key that leaves the store when `key` is stored, if one does.
pub open spec fn evicted(entries: Entries, capacity: nat, key: u64) -> Option<u64> {
    if !holds(entries, key) && capacity > 0 && entries.len() == capacity {
        Some(entries.last().0)
    } else {
        None
    }
}

/// The entries after each of `items` was stored in turn.
pub open spec fn filled(entries: Entries, capacity: nat, items: Entries) -> Entries
    decreases items.len(),
{
    if items.len() == 0 {
        entries
    } else {
        inserted(
            filled(entries, capacity, items.drop_last()),
            capacity,
            items.last().0,
            items.last().1,
        )
    }
}

/// The number of evictions while each of `items` was stored in turn.
pub open spec fn evictions(entries: Entries, capacity: nat, items: Entries) -> nat
    decreases items.len(),
{
    if items.len() == 0 {
        0
    } else {
        evictions(entries, capacity, items.drop_last()) + if evicted(
            filled(entries, capacity, items.drop_last()),
            capacity,
            items.last().0,
        ) is Some {
            1nat
        } else {
            0nat
        }
    }
}

/// In a well-formed store, the entry at `i` is the one that its key finds.
pub proof fn lemma_index_of(entries: Entries, capacity: nat, i: int)
    requires
        well_formed(entries, capacity),
        0 <= i < entries.len(),
    ensures
        holds(entries, entries[i].0),
        index_of(entries, entries[i].0) == i,
        lookup(entries, entries[i].0) == Some(entries[i].1),
{
    let key = entries[i].0;
    let found = index_of(entries, key);
    assert(0 <= found < entries.len() && entries[found].0 == key);
    if found < i {
        assert(entries[found].0 != entries[i].0);
    } else if i < found {
        assert(entries[i].0 != entries[found].0);
    }
}

/// A lookup keeps the store well formed, keeps what every key finds, and leaves
/// a key that it found at the front.
pub proof fn lemma_touched(entries: Entries, capacity: nat, key: u64)
    requires
        well_formed(entries, capacity),
    ensures
        well_formed(touched(entries, key), capacity),
        touched(entries, key).len() == entries.len(),
        forall|other: u64|
            lookup(touched(entries, key), other) == #[trigger] lookup(entries, other),
        forall|other: u64| holds(touched(entries, key), other) == #[trigger] holds(entries, other),
        holds(entries, key) ==> touched(entries, key)[0] == (key, lookup(entries, key)->Some_0),
{
    if holds(entries, key) {
        let at = index_of(entries, key);
        assert(0 <= at < entries.len() && entries[at].0 == key);
        lemma_moved_to_front(entries, capacity, at, entries[at].1);
    }
}

/// Where the entry at `at` moves to the front and takes the bytes `value`, the
/// store stays well formed, its key finds `value`, and every other key finds
/// what it found before.
proof fn lemma_moved_to_front(entries: Entries, capacity: nat, at: int, value: Seq<u8>)
    requires
        well_formed(entries, capacity),
        0 <= at < entries.len(),
    ensures
        ({
            let after = seq![(entries[at].0, value)] + entries.remove(at);
            &&& well_formed(after, capacity)
            &&& after.len() == entries.len()
            &&& lookup(after, entries[at].0) == Some(value)
            &&& forall|other: u64|
                other != entries[at].0 ==> lookup(after, other) == #[trigger] lookup(
                    entries,
                    other,
                )
            &&& forall|other: u64| holds(after, other) == #[trigger] holds(entries, other)
        }),
{
    let key = entries[at].0;
    let after = seq![(key, value)] + entries.remove(at);
    // Where each entry of `after` comes from.
    assert forall|i: int| 1 <= i < after.len() implies #[trigger] after[i] == entries[if i <= at {
        i - 1
    } else {
        i
    }] by {}
    assert forall|i: int, j: int| 0 <= i < j < after.len() implies (#[trigger] after[i]).0 != (
    #[trigger] after[j]).0 by {
        let from_j = if j <= at {
            j - 1
        } else {
            j
        };
        if i == 0 {
            if from_j < at {
                assert(entries[from_j].0 != entries[at].0);
            } else {
                assert(entries[at].0 != entries[from_j].0);
            }
        } else {
            let from_i = if i <= at {
                i - 1
            } else {
                i
            };
            assert(entries[from_i].0 != entries[from_j].0);
        }
    }
    assert(well_formed(after, capacity));
    lemma_index_of(after, capacity, 0);
    assert forall|other: u64| holds(after, other) == #[trigger] holds(entries, other) by {
        if holds(entries, other) {
            let e = index_of(entries, other);
            assert(0 <= e < entries.len() && entries[e].0 == other);
            let to = if e == at {
                0
            } else if e < at {
                e + 1
            } else {
                e
            };
            assert(after[to].0 == other);
        }
        if holds(after, other) {
            let a = index_of(after, other);
            assert(0 <= a < after.len() && after[a].0 == other);
            let from = if a == 0 {
                at
            } else if a <= at {
                a - 1
            } else {
                a
            };
            assert(entries[from].0 == other);
        }
    }
    assert forall|other: u64| other != key implies lookup(after, other) == #[trigger] lookup(
        entries,
        other,
    ) by {
        if holds(entries, other) {
            let e = index_of(entries, other);
            assert(0 <= e < entries.len() && entries[e].0 == other);
            let to = if e < at {
                e + 1
            } else {
                e
            };
            assert(after[to] == entries[e]);
            lemma_index_of(after, capacity, to);
            lemma_index_of(entries, capacity, e);
        }
    }
}

/// Where a new key goes in front of the first `n` entries, the store is well
/// formed, the new key finds its bytes, each key of those entries finds what it
/// found before, and no other key finds anything.
proof fn lemma_pushed_front(entries: Entries, capacity: nat, n: int, key: u64, value: Seq<u8>)
    requires
        well_formed(entries, capacity),
        !holds(entries, key),
        0 <= n <= entries.len(),
        n < capacity,
    ensures
        ({
            let after = seq![(key, value)] + entries.take(n);
            &&& well_formed(after, capacity)
            &&& lookup(after, key) == Some(value)
            &&& forall|i: int|
                0 <= i < n ==> lookup(after, (#[trigger] entries[i]).0) == Some(entries[i].1)
            &&& forall|i: int| n <= i < entries.len() ==> !holds(after, (#[trigger] entries[i]).0)
            &&& forall|other: u64|
                other != key && !holds(entries, other) ==> !#[trigger] holds(after, other)
        }),
{
    let after = seq![(key, value)] + entries.take(n);
    assert forall|i: int| 1 <= i < after.len() implies #[trigger] after[i] == entries[i - 1] by {}
    assert forall|i: int, j: int| 0 <= i < j < after.len() implies (#[trigger] after[i]).0 != (
    #[trigger] after[j]).0 by {
        if i == 0 {
            assert(entries[j - 1].0 != key);
        } else {
            assert(entries[i - 1].0 != entries[j - 1].0);
        }
    }
    assert(well_formed(after, capacity));
    lemma_index_of(after, capacity, 0);
    assert forall|i: int| 0 <= i < n implies lookup(after, (#[trigger] entries[i]).0) == Some(
        entries[i].1,
    ) by {
        assert(after[i + 1] == entries[i]);
        lemma_index_of(after, capacity, i + 1);
    }
    assert forall|i: int| n <= i < entries.len() implies !holds(
        after,
        (#[trigger] entries[i]).0,
    ) by {
        if holds(after, entries[i].0) {
            let a = index_of(after, entries[i].0);
            assert(0 <= a < after.len() && after[a].0 == entries[i].0);
            assert(entries[i].0 != key);
            assert(entries[a - 1].0 != entries[i].0);
        }
    }
    assert forall|other: u64| other != key && !holds(entries, other) implies !#[trigger] holds(
        after,
        other,
    ) by {
        if holds(after, other) {
            let a = index_of(after, other);
            assert(0 <= a < after.len() && after[a].0 == other);
            assert(entries[a - 1].0 == other);
        }
    }
}

/// Storing keeps the store well formed. In a store that can hold anything, the
/// stored key then stands at the front and finds the new bytes; the evicted key,
/// if there is one, finds nothing; every other key finds what it found before.
pub proof fn lemma_inserted(entries: Entries, capacity: nat, key: u64, value: Seq<u8>)
    requires
        well_formed(entries, capacity),
    ensures
        ({
            let after = inserted(entries, capacity, key, value);
            &&& well_formed(after, capacity)
            &&& capacity == 0 ==> after == entries
            &&& capacity > 0 ==> after[0] == (key, value) && lookup(after, key) == Some(value)
            &&& after.len() == if holds(entries, key) || capacity == 0 || entries.len()
                == capacity {
                entries.len()
            } else {
                entries.len() + 1
            }
            &&& forall|gone: u64|
                evicted(entries, capacity, key) == Some(gone) ==> holds(entries, gone) && !holds(
                    after,
                    gone,
                )
            &&& forall|other: u64|
                other != key && evicted(entries, capacity, key) != Some(other) ==> lookup(
                    after,
                    other,
                ) == #[trigger] lookup(entries, other)
        }),
{
    let after = inserted(entries, capacity, key, value);
    if holds(entries, key) {
        let at = index_of(entries, key);
        assert(0 <= at < entries.len() && entries[at].0 == key);
        lemma_moved_to_front(entries, capacity, at, value);
    } else if capacity > 0 {
        let n: int = if entries.len() == capacity {
            entries.len() - 1
        } else {
            entries.len() as int
        };
        assert(entries.len() == capacity ==> entries.take(n) =~= entries.drop_last());
        assert(entries.len() != capacity ==> entries.take(n) =~= entries);
        lemma_pushed_front(entries, capacity, n, key, value);
        if entries.len() == capacity {
            assert(holds(entries, entries.last().0));
        }
        assert forall|other: u64|
            other != key && evicted(entries, capacity, key) != Some(other) implies lookup(
            after,
            other,
        ) == #[trigger] lookup(entries, other) by {
            if holds(entries, other) {
                let e = index_of(entries, other);
                assert(0 <= e < entries.len() && entries[e].0 == other);
                lemma_index_of(entries, capacity, e);
            }
        }
    }
}

/// Storing the same bytes under the same key twice is storing them once, and of
/// two stores under one key the last one wins: requests that fetch the same
/// source at the same time may each store what they fetched.
pub proof fn repeated_store_is_harmless(
    entries: Entries,
    capacity: nat,
    key: u64,
    first: Seq<u8>,
    last: Seq<u8>,
)
    requires
        well_formed(entries, capacity),
    ensures
        inserted(inserted(entries, capacity, key, first), capacity, key, last) == inserted(
            entries,
            capacity,
            key,
            last,
        ),
{
    let once = inserted(entries, capacity, key, first);
    lemma_inserted(entries, capacity, key, first);
    if capacity > 0 {
        lemma_index_of(once, capacity, 0);
        assert(once.remove(0) =~= once.skip(1));
        if holds(entries, key) {
            assert(once.skip(1) =~= entries.remove(index_of(entries, key)));
        } else if entries.len() == capacity {
            assert(once.skip(1) =~= entries.drop_last());
        } else {
            assert(once.skip(1) =~= entries);
        }
    }
}

/// While an empty store has room, storing distinct keys evicts nothing and
/// stacks them up, the latest at the front.
proof fn lemma_filled_with_room(capacity: nat, items: Entries, n: int)
    requires
        0 <= n <= items.len(),
        n <= capacity,
        forall|i: int, j: int|
            0 <= i < j < items.len() ==> (#[trigger] items[i]).0 != (#[trigger] items[j]).0,
    ensures
        filled(Seq::empty(), capacity, items.take(n)) == Seq::new(
            n as nat,
            |i: int| items[n - 1 - i],
        ),
        evictions(Seq::empty(), capacity, items.take(n)) == 0,
        well_formed(filled(Seq::empty(), capacity, items.take(n)), capacity),
    decreases n,
{
    let stack = Seq::new(n as nat, |i: int| items[n - 1 - i]);
    if n == 0 {
        assert(items.take(0) =~= Seq::empty());
        assert(stack =~= Seq::empty());
    } else {
        lemma_filled_with_room(capacity, items, n - 1);
        let before = Seq::new((n - 1) as nat, |i: int| items[n - 2 - i]);
        assert(items.take(n).drop_last() =~= items.take(n - 1));
        assert(items.take(n).last() == items[n - 1]);
        assert(!holds(before, items[n - 1].0)) by {
            if holds(before, items[n - 1].0) {
                let at = index_of(before, items[n - 1].0);
                assert(0 <= at < before.len() && before[at].0 == items[n - 1].0);
                assert(items[n - 2 - at].0 != items[n - 1].0);
            }
        }
        lemma_inserted(before, capacity, items[n - 1].0, items[n - 1].1);
        assert(inserted(before, capacity, items[n - 1].0, items[n - 1].1) =~= stack);
    }
}

/// Storing one key more than an empty store has room for, all of them distinct,
/// evicts exactly once: the key that was stored first leaves, and every other
/// key still finds its bytes.
pub proof fn overflow_evicts_the_oldest(capacity: nat, items: Entries)
    requires
        capacity >= 1,
        items.len() == capacity + 1,
        forall|i: int, j: int|
            0 <= i < j < items.len() ==> (#[trigger] items[i]).0 != (#[trigger] items[j]).0,
    ensures
        evictions(Seq::empty(), capacity, items) == 1,
        evicted(filled(Seq::empty(), capacity, items.drop_last()), capacity, items.last().0)
            == Some(items[0].0),
        filled(Seq::empty(), capacity, items).len() == capacity,
        !holds(filled(Seq::empty(), capacity, items), items[0].0),
        forall|i: int|
            1 <= i < items.len() ==> lookup(
                filled(Seq::empty(), capacity, items),
                (#[trigger] items[i]).0,
            ) == Some(items[i].1),
{
    let n = capacity as int;
    let full = filled(Seq::empty(), capacity, items.drop_last());
    let after = filled(Seq::empty(), capacity, items);
    assert(items.take(n) =~= items.drop_last());
    lemma_filled_with_room(capacity, items, n);
    assert(full == Seq::new(capacity, |i: int| items[n - 1 - i]));
    assert(!holds(full, items[n].0)) by {
        if holds(full, items[n].0) {
            let at = index_of(full, items[n].0);
            assert(0 <= at < full.len() && full[at].0 == items[n].0);
            assert(items[n - 1 - at].0 != items[n].0);
        }
    }
    assert(full.last() == items[0]);
    lemma_inserted(full, capacity, items[n].0, items[n].1);
    assert forall|i: int| 1 <= i < items.len() implies lookup(after, (#[trigger] items[i]).0)
        == Some(items[i].1) by {
        if i < n {
            assert(full[n - 1 - i] == items[i]);
            lemma_index_of(full, capacity, n - 1 - i);
            assert(items[0].0 != items[i].0);
            assert(items[i].0 != items[n].0);
        }
    }
}

/// A lookup counts as a use: in a full store of two entries or more, the key
/// that was just looked up survives the next eviction, and the entry that leaves
/// is the least recently used of the others.
pub proof fn lookup_counts_as_use(
    entries: Entries,
    capacity: nat,
    key: u64,
    fresh: u64,
    value: Seq<u8>,
)
    requires
        well_formed(entries, capacity),
        entries.len() == capacity >= 2,
        holds(entries, key),
        !holds(entries, fresh),
    ensures
        evicted(touched(entries, key), capacity, fresh) == Some(
            if entries.last().0 == key {
                entries[entries.len() - 2].0
            } else {
                entries.last().0
            },
        ),
        lookup(inserted(touched(entries, key), capacity, fresh, value), key) == lookup(
            entries,
            key,
        ),
{
    let at = index_of(entries, key);
    assert(0 <= at < entries.len() && entries[at].0 == key);
    lemma_index_of(entries, capacity, at);
    lemma_index_of(entries, capacity, entries.len() - 1);
    let recent = touched(entries, key);
    lemma_touched(entries, capacity, key);
    assert(recent.last() == if at == entries.len() - 1 {
        entries[entries.len() - 2]
    } else {
        entries.last()
    });
    assert(recent.last().0 != key) by {
        if at == entries.len() - 1 {
            assert(entries[entries.len() - 2].0 != entries[at].0);
        }
    }
    lemma_inserted(recent, capacity, fresh, value);
}

} // verus!
