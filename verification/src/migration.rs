//! A migration as a whole: which endpoint a string names, how the two sides
//! are bound together, and what a run from a store into an archive and back
//! comes to.

use vstd::prelude::*;
use crate::archive::{
    archive_bytes, archive_records, fits, lemma_archive_round_trip, length_limit,
};
use crate::pipeline::{
    archive_answers, archive_consumption, archive_production, keys_of, lemma_archive_read,
    lemma_archive_written, lemma_final_flush, lemma_pagination_complete, load_answers,
    replicas_of, restore_answers, restored, sent, store_answers, store_consumption,
    store_production, written,
};
use crate::store::{
    extracted, lemma_replay_idempotent, lemma_replayed_batches, lemma_snapshot_rebuilds, replayed,
    replayed_batches, snapshot,
};
use crate::error::MigrateError;
use crate::file::FileWrapper;
use crate::redis::{FLUSH_THRESHOLD, PAGE_SIZE, RedisWrapper, names_store};
use crate::traits::{
    Consumer, Consumption, ConsumptionView, Producer, Production, ProductionView, Reply, ReplyView,
    Request, RequestView, Wrapper,
};

verus! {

/// The default capacity of the channel between the two sides, in records.
pub const CHANNEL_CAPACITY: usize = 1000;

/// An endpoint of either kind.
pub enum Endpoint {
    /// A key-value store.
    Store(RedisWrapper),
    /// An archive file.
    Archive(FileWrapper),
}

impl Producer for Endpoint {
    open spec fn produces(
        &self,
        phase: ProductionView,
        told: ReplyView,
        next: ProductionView,
        request: RequestView,
    ) -> bool {
        match self {
            Endpoint::Store(store) => store.produces(phase, told, next, request),
            Endpoint::Archive(archive) => archive.produces(phase, told, next, request),
        }
    }

    fn produce(&self, run: Production, reply: Reply) -> (step: (Production, Request)) {
        match self {
            Endpoint::Store(store) => store.produce(run, reply),
            Endpoint::Archive(archive) => archive.produce(run, reply),
        }
    }
}

impl Consumer for Endpoint {
    open spec fn consumes(
        &self,
        phase: ConsumptionView,
        told: ReplyView,
        next: ConsumptionView,
        request: RequestView,
    ) -> bool {
        match self {
            Endpoint::Store(store) => store.consumes(phase, told, next, request),
            Endpoint::Archive(archive) => archive.consumes(phase, told, next, request),
        }
    }

    fn consume(&self, run: Consumption, reply: Reply) -> (step: (Consumption, Request)) {
        match self {
            Endpoint::Store(store) => store.consume(run, reply),
            Endpoint::Archive(archive) => archive.consume(run, reply),
        }
    }
}

impl Wrapper for Endpoint {

}

/// The endpoint that `input` names: a store with the default settings
/// where the text reads as the address of one, and else the file at that
/// path.
pub fn to_wrapper(input: &str) -> (endpoint: Endpoint)
    ensures
        match endpoint {
            Endpoint::Store(store) => names_store(input@) && store.page_size_spec() == PAGE_SIZE
                && store.threshold_spec() == FLUSH_THRESHOLD,
            Endpoint::Archive(archive) => !names_store(input@) && archive.path_spec() == input@,
        },
{
    match RedisWrapper::new(input) {
        Ok(store) => Endpoint::Store(store),
        Err(_) => Endpoint::Archive(FileWrapper::new(input)),
    }
}

/// The outcome that a run reports: that of the destination's side. What
/// became of the source's side, if it is known at all by then, is not
/// reported: a source that failed leaves the channel early, which the
/// destination takes for the end of the stream.
pub fn outcome(
    source: Option<Result<(), MigrateError>>,
    destination: Result<(), MigrateError>,
) -> (reported: Result<(), MigrateError>)
    ensures
        reported == destination,
{
    destination
}

/// The replicas that a store gives for each page of keys.
pub open spec fn extracted_pages(store: Map<Seq<u8>, Seq<u8>>, pages: Seq<Seq<Seq<u8>>>) -> Seq<
    Seq<Seq<u8>>,
> {
    pages.map_values(|page: Seq<Seq<u8>>| extracted(store, page))
}

/// The archive that a migration leaves when its source is a store that
/// holds `store` and hands out its keys in `pages`, its destination a file,
/// and every request succeeds.
pub open spec fn dumped(store: Map<Seq<u8>, Seq<u8>>, pages: Seq<Seq<Seq<u8>>>) -> Seq<u8> {
    written(
        archive_consumption(
            ConsumptionView::Idle,
            archive_answers(
                sent(
                    store_production(
                        ProductionView::Idle,
                        store_answers(pages, extracted_pages(store, pages)),
                    ),
                ),
            ),
        ),
    )
}

/// The store that a migration leaves when its source is a file that holds
/// `bytes`, its destination a store that held `target` and flushes beyond
/// `threshold`, and every request succeeds.
pub open spec fn loaded(threshold: nat, target: Map<Seq<u8>, Seq<u8>>, bytes: Seq<u8>) -> Map<
    Seq<u8>,
    Seq<u8>,
> {
    replayed_batches(
        target,
        restored(
            store_consumption(
                threshold,
                ConsumptionView::Idle,
                restore_answers(
                    threshold,
                    sent(archive_production(ProductionView::Idle, load_answers(bytes))),
                ),
            ),
        ),
    )
}

/// The replicas of the pages, laid end to end, are the replicas of the
/// keys laid end to end.
pub proof fn lemma_extracted_pages(store: Map<Seq<u8>, Seq<u8>>, pages: Seq<Seq<Seq<u8>>>)
    ensures
        extracted_pages(store, pages).flatten() == extracted(store, pages.flatten()),
    decreases pages.len(),
{
    let replicas = extracted_pages(store, pages);
    if pages.len() == 0 {
        assert(replicas.flatten() =~= extracted(store, pages.flatten()));
    } else {
        lemma_extracted_pages(store, pages.drop_first());
        assert(replicas.drop_first() == extracted_pages(store, pages.drop_first()));
        assert(replicas.first() == extracted(store, pages.first()));
        assert(extracted(store, pages.first() + pages.drop_first().flatten()) =~= extracted(
            store,
            pages.first(),
        ) + extracted(store, pages.drop_first().flatten()));
    }
}

/// The pages of an enumeration that hands out `listing` in pages of `size`
/// keys, the last one with what is left.
pub open spec fn paged(listing: Seq<Seq<u8>>, size: nat) -> Seq<Seq<Seq<u8>>>
    decreases listing.len(),
{
    if listing.len() == 0 {
        Seq::empty()
    } else if size == 0 || listing.len() <= size {
        seq![listing]
    } else {
        seq![listing.take(size as int)] + paged(listing.skip(size as int), size)
    }
}

/// Pages of a given size, laid end to end, are the listing, and none is
/// longer than the size.
pub proof fn lemma_paged(listing: Seq<Seq<u8>>, size: nat)
    requires
        size >= 1,
    ensures
        paged(listing, size).flatten() == listing,
        forall|i: int|
            0 <= i < paged(listing, size).len() ==> 0 < (#[trigger] paged(listing, size)[i]).len()
                <= size,
    decreases listing.len(),
{
    let pages = paged(listing, size);
    if listing.len() == 0 {
        assert(pages.flatten() =~= listing);
    } else if listing.len() <= size {
        pages.lemma_flatten_one_element();
    } else {
        let head = listing.take(size as int);
        let rest = listing.skip(size as int);
        lemma_paged(rest, size);
        vstd::seq_lib::lemma_flatten_concat(seq![head], paged(rest, size));
        seq![head].lemma_flatten_one_element();
        assert(head + rest =~= listing);
        assert forall|i: int| 0 <= i < pages.len() implies 0 < (#[trigger] pages[i]).len()
            <= size by {
            if i > 0 {
                assert(pages[i] == paged(rest, size)[i - 1]);
            }
        }
    }
}

/// Whatever the page size, below, at or above the size of the keyspace: a
/// producing run on a store that hands out `listing` in pages of that size
/// and answers every request sends exactly one record for each key listed,
/// in the order listed, each with the replica that the store holds for it.
pub proof fn lemma_any_page_size(
    store: Map<Seq<u8>, Seq<u8>>,
    listing: Seq<Seq<u8>>,
    size: nat,
)
    requires
        size >= 1,
    ensures
        ({
            let pages = paged(listing, size);
            let records = sent(
                store_production(
                    ProductionView::Idle,
                    store_answers(pages, extracted_pages(store, pages)),
                ),
            );
            &&& records == snapshot(store, listing)
            &&& records.len() == listing.len()
            &&& keys_of(records) == listing
        }),
{
    let pages = paged(listing, size);
    let replicas = extracted_pages(store, pages);
    let records = sent(store_production(ProductionView::Idle, store_answers(pages, replicas)));
    lemma_paged(listing, size);
    lemma_pagination_complete(pages, replicas);
    lemma_extracted_pages(store, pages);
    assert(records =~= snapshot(store, listing)) by {
        assert forall|i: int| 0 <= i < records.len() implies records[i] == snapshot(
            store,
            listing,
        )[i] by {
            assert(keys_of(records)[i] == listing[i]);
            assert(replicas_of(records)[i] == extracted(store, listing)[i]);
        }
    }
}

/// A migration from a store into a file writes the archive of a snapshot
/// of the store: one record for each key that the enumeration lists, in
/// that order, however the keys are cut into pages.
pub proof fn lemma_dumped(store: Map<Seq<u8>, Seq<u8>>, pages: Seq<Seq<Seq<u8>>>)
    ensures
        dumped(store, pages) == archive_bytes(snapshot(store, pages.flatten())),
{
    let replicas = extracted_pages(store, pages);
    let records = sent(store_production(ProductionView::Idle, store_answers(pages, replicas)));
    lemma_pagination_complete(pages, replicas);
    lemma_extracted_pages(store, pages);
    let listing = pages.flatten();
    assert(records =~= snapshot(store, listing)) by {
        assert(records.len() == listing.len());
        assert forall|i: int| 0 <= i < records.len() implies records[i] == snapshot(
            store,
            listing,
        )[i] by {
            assert(keys_of(records)[i] == listing[i]);
            assert(replicas_of(records)[i] == extracted(store, listing)[i]);
        }
    }
    lemma_archive_written(records);
}

/// A migration from a file into a store replays the records of the
/// archive, in the order in which they were written, wherever the batches
/// are cut.
pub proof fn lemma_loaded(threshold: nat, target: Map<Seq<u8>, Seq<u8>>, bytes: Seq<u8>)
    ensures
        loaded(threshold, target, bytes) == replayed(target, archive_records(bytes)),
{
    lemma_archive_read(bytes);
    let records = archive_records(bytes);
    lemma_final_flush(threshold, records);
    let batches = restored(
        store_consumption(threshold, ConsumptionView::Idle, restore_answers(threshold, records)),
    );
    lemma_replayed_batches(target, batches);
}

/// Round trip: a store migrated into a file, and that file migrated into
/// an empty store, leaves the second store equal to the first, key for key
/// and byte for byte, and the file holds one record for each key listed.
/// This holds whatever the page size and the flush threshold are, where
/// the enumeration lists the keys of the store and no others, and the
/// format can hold each key and each replica.
pub proof fn lemma_round_trip(
    store: Map<Seq<u8>, Seq<u8>>,
    pages: Seq<Seq<Seq<u8>>>,
    threshold: nat,
)
    requires
        forall|key: Seq<u8>| store.dom().contains(key) == pages.flatten().contains(key),
        forall|key: Seq<u8>| #[trigger]
            store.dom().contains(key) ==> key.len() < length_limit() && store[key].len()
                < length_limit(),
    ensures
        loaded(threshold, Map::empty(), dumped(store, pages)) == store,
        archive_records(dumped(store, pages)).len() == pages.flatten().len(),
{
    let listing = pages.flatten();
    let records = snapshot(store, listing);
    lemma_dumped(store, pages);
    lemma_loaded(threshold, Map::empty(), dumped(store, pages));
    assert forall|i: int| 0 <= i < records.len() implies fits(#[trigger] records[i]) by {
        assert(listing.contains(listing[i]));
        assert(store.dom().contains(listing[i]));
    }
    lemma_archive_round_trip(records);
    lemma_snapshot_rebuilds(store, listing);
}

/// Idempotence: migrating the same file into the same store a second time
/// leaves the store as the first migration left it.
pub proof fn lemma_restore_twice(threshold: nat, target: Map<Seq<u8>, Seq<u8>>, bytes: Seq<u8>)
    ensures
        loaded(threshold, loaded(threshold, target, bytes), bytes) == loaded(
            threshold,
            target,
            bytes,
        ),
{
    lemma_loaded(threshold, target, bytes);
    lemma_loaded(threshold, loaded(threshold, target, bytes), bytes);
    lemma_replay_idempotent(target, archive_records(bytes));
}

} // verus!
