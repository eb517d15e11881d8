//! What replaying does to a store. A store is, to a migration, a finite map
//! from keys to serialized replicas; a replay request puts each of its
//! records there, a later one over an earlier one of the same key.

use vstd::prelude::*;
use crate::types::Record;

verus! {

/// The store after `records` were replayed into `store` in order: each key
/// holds the replica of the last record that names it, and every other key
/// what it held.
pub open spec fn replayed(store: Map<Seq<u8>, Seq<u8>>, records: Seq<Record>) -> Map<
    Seq<u8>,
    Seq<u8>,
>
    decreases records.len(),
{
    if records.len() == 0 {
        store
    } else {
        replayed(store, records.drop_last()).insert(records.last().key, records.last().data)
    }
}

/// The store after the batches were replayed one after another.
pub open spec fn replayed_batches(store: Map<Seq<u8>, Seq<u8>>, batches: Seq<Seq<Record>>) -> Map<
    Seq<u8>,
    Seq<u8>,
>
    decreases batches.len(),
{
    if batches.len() == 0 {
        store
    } else {
        replayed(replayed_batches(store, batches.drop_last()), batches.last())
    }
}

/// The replicas that a store gives for the keys listed, in order.
pub open spec fn extracted(store: Map<Seq<u8>, Seq<u8>>, listing: Seq<Seq<u8>>) -> Seq<Seq<u8>> {
    listing.map_values(|key: Seq<u8>| store[key])
}

/// One record for each key listed, with the replica that the store holds
/// for it.
pub open spec fn snapshot(store: Map<Seq<u8>, Seq<u8>>, listing: Seq<Seq<u8>>) -> Seq<Record> {
    listing.map_values(|key: Seq<u8>| Record { key, data: store[key] })
}

/// Whether some record names `key`.
pub open spec fn names(records: Seq<Record>, key: Seq<u8>) -> bool {
    exists|i: int| 0 <= i < records.len() && (#[trigger] records[i]).key == key
}

/// A replay touches the keys that its records name and no others; and what
/// it leaves under those keys does not depend on what the store held.
pub proof fn lemma_replayed_keys(
    store: Map<Seq<u8>, Seq<u8>>,
    other: Map<Seq<u8>, Seq<u8>>,
    records: Seq<Record>,
    key: Seq<u8>,
)
    ensures
        replayed(store, records).dom().contains(key) == (store.dom().contains(key) || names(
            records,
            key,
        )),
        !names(records, key) ==> replayed(store, records)[key] == store[key],
        names(records, key) ==> replayed(store, records)[key] == replayed(other, records)[key],
    decreases records.len(),
{
    if records.len() == 0 {
    } else {
        let front = records.drop_last();
        let last = records.last();
        lemma_replayed_keys(store, other, front, key);
        if names(front, key) {
            let i = choose|i: int| 0 <= i < front.len() && (#[trigger] front[i]).key == key;
            assert(records[i].key == key);
        }
        if last.key == key {
            assert(records[records.len() - 1].key == key);
        }
        if names(records, key) {
            let i = choose|i: int| 0 <= i < records.len() && (#[trigger] records[i]).key == key;
            if i < front.len() {
                assert(front[i].key == key);
            }
        }
    }
}

/// Replaying is idempotent: records replayed a second time into the store
/// that the first replay left change nothing.
pub proof fn lemma_replay_idempotent(store: Map<Seq<u8>, Seq<u8>>, records: Seq<Record>)
    ensures
        replayed(replayed(store, records), records) == replayed(store, records),
{
    let once = replayed(store, records);
    let twice = replayed(once, records);
    assert forall|key: Seq<u8>| twice.dom().contains(key) == once.dom().contains(key) by {
        lemma_replayed_keys(once, store, records, key);
        lemma_replayed_keys(store, store, records, key);
    }
    assert forall|key: Seq<u8>| twice.dom().contains(key) implies twice[key] == once[key] by {
        lemma_replayed_keys(once, store, records, key);
    }
    assert(twice =~= once);
}

/// Replaying two stretches of records one after the other is replaying
/// them as one.
pub proof fn lemma_replayed_concat(
    store: Map<Seq<u8>, Seq<u8>>,
    first: Seq<Record>,
    second: Seq<Record>,
)
    ensures
        replayed(store, first + second) == replayed(replayed(store, first), second),
    decreases second.len(),
{
    if second.len() == 0 {
        assert(first + second == first);
    } else {
        assert((first + second).drop_last() == first + second.drop_last());
        assert((first + second).last() == second.last());
        lemma_replayed_concat(store, first, second.drop_last());
    }
}

/// Replaying batch after batch is replaying all their records in order:
/// where the batches are cut makes no difference to the store.
pub proof fn lemma_replayed_batches(store: Map<Seq<u8>, Seq<u8>>, batches: Seq<Seq<Record>>)
    ensures
        replayed_batches(store, batches) == replayed(store, batches.flatten()),
    decreases batches.len(),
{
    batches.lemma_flatten_and_flatten_alt_are_equivalent();
    if batches.len() == 0 {
    } else {
        let front = batches.drop_last();
        lemma_replayed_batches(store, front);
        front.lemma_flatten_and_flatten_alt_are_equivalent();
        assert(batches.flatten_alt() == front.flatten_alt() + batches.last());
        lemma_replayed_concat(store, front.flatten(), batches.last());
    }
}

/// Replaying a snapshot of a store into an empty store rebuilds the store:
/// the same keys, each with the same replica, where the listing names every
/// key of the store and no other.
pub proof fn lemma_snapshot_rebuilds(store: Map<Seq<u8>, Seq<u8>>, listing: Seq<Seq<u8>>)
    requires
        forall|key: Seq<u8>| store.dom().contains(key) == listing.contains(key),
    ensures
        replayed(Map::empty(), snapshot(store, listing)) == store,
{
    let records = snapshot(store, listing);
    let rebuilt = replayed(Map::empty(), records);
    assert forall|key: Seq<u8>| rebuilt.dom().contains(key) == store.dom().contains(key) by {
        lemma_replayed_keys(Map::empty(), Map::empty(), records, key);
        if names(records, key) {
            let i = choose|i: int| 0 <= i < records.len() && (#[trigger] records[i]).key == key;
            assert(listing[i] == key);
        }
        if listing.contains(key) {
            let i = choose|i: int| 0 <= i < listing.len() && listing[i] == key;
            assert(records[i].key == key);
        }
    }
    assert forall|key: Seq<u8>| rebuilt.dom().contains(key) implies rebuilt[key] == store[key] by {
        lemma_snapshot_value(store, listing, key);
    }
    assert(rebuilt =~= store);
}

/// After a snapshot was replayed, a key that it lists holds the replica
/// that the store held for it.
pub proof fn lemma_snapshot_value(
    store: Map<Seq<u8>, Seq<u8>>,
    listing: Seq<Seq<u8>>,
    key: Seq<u8>,
)
    requires
        listing.contains(key),
    ensures
        replayed(Map::empty(), snapshot(store, listing))[key] == store[key],
    decreases listing.len(),
{
    let records = snapshot(store, listing);
    let i = choose|i: int| 0 <= i < listing.len() && listing[i] == key;
    assert(records.drop_last() == snapshot(store, listing.drop_last()));
    if listing.last() == key {
    } else {
        assert(listing.drop_last()[i] == key);
        lemma_snapshot_value(store, listing.drop_last(), key);
    }
}

} // verus!
