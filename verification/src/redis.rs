//! The store endpoint: a client for the key-value store, and the arithmetic
//! and pairing that its side of a migration needs.

use vstd::prelude::*;
use crate::error::MigrateError;
use crate::traits::{
    Consumer, Consumption, ConsumptionView, Producer, Production, ProductionView, Reply, ReplyView,
    Request, RequestView, Wrapper, consumption_over, production_over,
};
use crate::types::{Payload, Record, empty_batch, records_of, strings_of};

verus! {

/// `fred`'s configuration of a client.
#[verifier::external_type_specification]
#[verifier::external_body]
pub struct ExRedisConfig(fred::types::RedisConfig);

/// `fred`'s error.
#[verifier::external_type_specification]
#[verifier::external_body]
pub struct ExRedisError(fred::error::RedisError);

/// `fred`'s client.
#[verifier::external_type_specification]
#[verifier::external_body]
pub struct ExRedisClient(fred::clients::RedisClient);

/// Whether `fred::types::RedisConfig::from_url` reads `url` as the address
/// of a store.
pub uninterp spec fn names_store(url: Seq<char>) -> bool;

/// `fred::types::RedisConfig::from_url` parses an address and connects to
/// nothing. Whether it succeeds depends on the text alone.
pub assume_specification[ fred::types::RedisConfig::from_url ](url: &str) -> (config: Result<
    fred::types::RedisConfig,
    fred::error::RedisError,
>)
    ensures
        config is Ok == names_store(url@),
;

/// `fred::clients::RedisClient::new` with the default performance settings and
/// no reconnection policy. The client is not connected yet.
#[verifier::external_body]
fn client_for(config: fred::types::RedisConfig) -> fred::clients::RedisClient {
    fred::clients::RedisClient::new(config, None, None)
}

/// The default number of keys that one page of the enumeration asks for.
pub const PAGE_SIZE: u32 = 1000;

/// The default number of replay requests that a batch may hold before it is
/// sent.
pub const FLUSH_THRESHOLD: usize = 1000;

/// A store endpoint: a client that is not connected yet, and the two knobs
/// of its side of a migration.
pub struct RedisWrapper {
    client: fred::clients::RedisClient,
    page_size: u32,
    threshold: usize,
}

impl RedisWrapper {
    /// The client that this endpoint holds.
    pub closed spec fn client_spec(&self) -> fred::clients::RedisClient {
        self.client
    }

    /// The number of keys that this endpoint asks for in one page.
    pub closed spec fn page_size_spec(&self) -> u32 {
        self.page_size
    }

    /// The flush threshold of this endpoint.
    pub closed spec fn threshold_spec(&self) -> usize {
        self.threshold
    }

    /// A store endpoint for the address `url`, with the default page size
    /// and flush threshold, or `InvalidUrl` where the text is not the
    /// address of a store.
    pub fn new(url: &str) -> (wrapper: Result<Self, MigrateError>)
        ensures
            wrapper is Ok == names_store(url@),
            wrapper matches Ok(w) ==> w.page_size_spec() == PAGE_SIZE && w.threshold_spec()
                == FLUSH_THRESHOLD,
            wrapper matches Err(error) ==> error == MigrateError::InvalidUrl,
    {
        match fred::types::RedisConfig::from_url(url) {
            Ok(config) => Ok(
                RedisWrapper {
                    client: client_for(config),
                    page_size: PAGE_SIZE,
                    threshold: FLUSH_THRESHOLD,
                },
            ),
            Err(_) => Err(MigrateError::InvalidUrl),
        }
    }

    /// The same endpoint with another page size.
    pub fn with_page_size(self, page_size: u32) -> (wrapper: Self)
        ensures
            wrapper.page_size_spec() == page_size,
            wrapper.threshold_spec() == self.threshold_spec(),
            wrapper.client_spec() == self.client_spec(),
    {
        RedisWrapper { client: self.client, page_size, threshold: self.threshold }
    }

    /// The same endpoint with another flush threshold.
    pub fn with_threshold(self, threshold: usize) -> (wrapper: Self)
        ensures
            wrapper.threshold_spec() == threshold,
            wrapper.page_size_spec() == self.page_size_spec(),
            wrapper.client_spec() == self.client_spec(),
    {
        RedisWrapper { client: self.client, page_size: self.page_size, threshold }
    }

    /// The number of keys that this endpoint asks for in one page.
    pub fn page_size(&self) -> (page_size: u32)
        ensures
            page_size == self.page_size_spec(),
    {
        self.page_size
    }

    /// The flush threshold of this endpoint.
    pub fn threshold(&self) -> (threshold: usize)
        ensures
            threshold == self.threshold_spec(),
    {
        self.threshold
    }

    /// The client of this endpoint, for the driver that carries out its
    /// requests.
    pub fn client(&self) -> (client: &fred::clients::RedisClient)
        ensures
            *client == self.client_spec(),
    {
        &self.client
    }
}

/// The sum of the item counts.
pub open spec fn total(sizes: Seq<usize>) -> nat
    decreases sizes.len(),
{
    if sizes.len() == 0 {
        0
    } else {
        total(sizes.drop_last()) + sizes.last() as nat
    }
}

/// An estimate of the size of the keyspace: the sum of the item counts that
/// the primary nodes report, or the largest `usize` where the sum exceeds
/// it. The counts are taken one after another while the store changes, so
/// the estimate is for display alone.
pub fn cluster_size(sizes: &Vec<usize>) -> (estimate: usize)
    ensures
        estimate == if total(sizes@) <= usize::MAX {
            total(sizes@)
        } else {
            usize::MAX as nat
        },
{
    let mut estimate: usize = 0;
    let mut i: usize = 0;
    while i < sizes.len()
        invariant
            i <= sizes.len(),
            estimate == if total(sizes@.take(i as int)) <= usize::MAX {
                total(sizes@.take(i as int))
            } else {
                usize::MAX as nat
            },
        decreases sizes.len() - i,
    {
        proof {
            assert(sizes@.take(i + 1).drop_last() == sizes@.take(i as int));
        }
        estimate = estimate.saturating_add(sizes[i]);
        i += 1;
    }
    proof {
        assert(sizes@.take(i as int) == sizes@);
    }
    estimate
}

/// The records of one page: the key at each place with the replica at the
/// same place, for as many places as both have.
pub open spec fn paired(keys: Seq<Seq<u8>>, replicas: Seq<Seq<u8>>) -> Seq<Record> {
    Seq::new(
        if keys.len() <= replicas.len() {
            keys.len()
        } else {
            replicas.len()
        },
        |i: int| Record { key: keys[i], data: replicas[i] },
    )
}

/// Pairs each key of a page with the replica that was extracted for it.
pub fn pair_page(keys: Vec<Vec<u8>>, replicas: Vec<Vec<u8>>) -> (payloads: Vec<Payload>)
    ensures
        records_of(payloads@) == paired(strings_of(keys@), strings_of(replicas@)),
{
    let mut keys = keys;
    let mut replicas = replicas;
    let ghost key_strings = strings_of(keys@);
    let ghost replica_strings = strings_of(replicas@);
    let count: usize = if keys.len() <= replicas.len() {
        keys.len()
    } else {
        replicas.len()
    };
    keys.truncate(count);
    replicas.truncate(count);
    let mut reversed: Vec<Payload> = Vec::new();
    while keys.len() > 0
        invariant
            keys.len() == replicas.len(),
            keys.len() + reversed.len() == count,
            count <= key_strings.len(),
            count <= replica_strings.len(),
            forall|i: int| 0 <= i < keys.len() ==> (#[trigger] keys[i])@ == key_strings[i],
            forall|i: int|
                0 <= i < replicas.len() ==> (#[trigger] replicas[i])@ == replica_strings[i],
            forall|i: int|
                0 <= i < reversed.len() ==> (#[trigger] reversed[i])@ == (Record {
                    key: key_strings[count - 1 - i],
                    data: replica_strings[count - 1 - i],
                }),
        decreases keys.len(),
    {
        let key = keys.pop().unwrap();
        let data = replicas.pop().unwrap();
        reversed.push(Payload { key, data });
    }
    let mut payloads: Vec<Payload> = Vec::new();
    while reversed.len() > 0
        invariant
            payloads.len() + reversed.len() == count,
            count <= key_strings.len(),
            count <= replica_strings.len(),
            forall|i: int|
                0 <= i < reversed.len() ==> (#[trigger] reversed[i])@ == (Record {
                    key: key_strings[count - 1 - i],
                    data: replica_strings[count - 1 - i],
                }),
            forall|i: int|
                0 <= i < payloads.len() ==> (#[trigger] payloads[i])@ == (Record {
                    key: key_strings[i],
                    data: replica_strings[i],
                }),
        decreases reversed.len(),
    {
        let payload = reversed.pop().unwrap();
        payloads.push(payload);
    }
    proof {
        assert(records_of(payloads@) =~= paired(key_strings, replica_strings));
    }
    payloads
}

/// A copy of a page of keys.
pub fn copy_keys(keys: &Vec<Vec<u8>>) -> (copy: Vec<Vec<u8>>)
    ensures
        strings_of(copy@) == strings_of(keys@),
{
    let mut copy: Vec<Vec<u8>> = Vec::new();
    let mut i: usize = 0;
    while i < keys.len()
        invariant
            i <= keys.len(),
            copy.len() == i,
            forall|j: int| 0 <= j < i ==> (#[trigger] copy[j])@ == keys[j]@,
        decreases keys.len() - i,
    {
        copy.push(keys[i].clone());
        i += 1;
    }
    proof {
        assert(strings_of(copy@) =~= strings_of(keys@));
    }
    copy
}

/// The step of a producing run on a store. The connection comes first.
/// Then page after page: the keys of the page are asked for, their replicas
/// are extracted in one batch, and the records paired from both are sent.
/// The run ends well when the enumeration is complete, and with the matching
/// error at the first request that fails. An answer that does not belong to
/// the pending request ends it with `Protocol`.
pub open spec fn store_produce(phase: ProductionView, told: ReplyView) -> (
    ProductionView,
    RequestView,
) {
    match (phase, told) {
        (ProductionView::Idle, ReplyView::Start) => (
            ProductionView::Connecting,
            RequestView::Connect,
        ),
        (ProductionView::Connecting, ReplyView::Done) => (
            ProductionView::Scanning,
            RequestView::Scan,
        ),
        (ProductionView::Connecting, ReplyView::Failed) => production_over(
            Err(MigrateError::Connection),
        ),
        (ProductionView::Scanning, ReplyView::Page(keys)) => (
            ProductionView::Dumping(keys),
            RequestView::Dump(keys),
        ),
        (ProductionView::Scanning, ReplyView::End) => production_over(Ok(())),
        (ProductionView::Scanning, ReplyView::Failed) => production_over(Err(MigrateError::Scan)),
        (ProductionView::Dumping(keys), ReplyView::Replicas(replicas)) => (
            ProductionView::Sending,
            RequestView::Send(paired(keys, replicas)),
        ),
        (ProductionView::Dumping(_), ReplyView::Failed) => production_over(
            Err(MigrateError::Extraction),
        ),
        (ProductionView::Sending, ReplyView::Done) => (ProductionView::Scanning, RequestView::Scan),
        (ProductionView::Sending, ReplyView::Failed) => production_over(
            Err(MigrateError::ChannelClosed),
        ),
        _ => production_over(Err(MigrateError::Protocol)),
    }
}

/// The step of a consuming run on a store with the given flush threshold.
/// The connection comes first. Each record received joins the open batch;
/// once the batch holds more than `threshold` records it is replayed in one
/// round trip, and the next batch is opened only when that round trip is
/// done. When the channel ends, what the batch holds is replayed, however
/// little, and the run ends well once that is done. The first request that
/// fails ends the run with the matching error, and an answer that does not
/// belong to the pending request ends it with `Protocol`.
pub open spec fn store_consume(threshold: nat, phase: ConsumptionView, told: ReplyView) -> (
    ConsumptionView,
    RequestView,
) {
    match (phase, told) {
        (ConsumptionView::Idle, ReplyView::Start) => (
            ConsumptionView::Connecting,
            RequestView::Connect,
        ),
        (ConsumptionView::Connecting, ReplyView::Done) => (
            ConsumptionView::Receiving(Seq::empty()),
            RequestView::Receive,
        ),
        (ConsumptionView::Connecting, ReplyView::Failed) => consumption_over(
            Err(MigrateError::Connection),
        ),
        (ConsumptionView::Receiving(batch), ReplyView::Received(record)) => if batch.len() + 1
            > threshold {
            (ConsumptionView::Restoring { last: false }, RequestView::Restore(batch.push(record)))
        } else {
            (ConsumptionView::Receiving(batch.push(record)), RequestView::Receive)
        },
        (ConsumptionView::Receiving(batch), ReplyView::End) => (
            ConsumptionView::Restoring { last: true },
            RequestView::Restore(batch),
        ),
        (ConsumptionView::Restoring { last }, ReplyView::Done) => if last {
            consumption_over(Ok(()))
        } else {
            (ConsumptionView::Receiving(Seq::empty()), RequestView::Receive)
        },
        (ConsumptionView::Restoring { .. }, ReplyView::Failed) => consumption_over(
            Err(MigrateError::Restore),
        ),
        _ => consumption_over(Err(MigrateError::Protocol)),
    }
}

impl Producer for RedisWrapper {
    open spec fn produces(
        &self,
        phase: ProductionView,
        told: ReplyView,
        next: ProductionView,
        request: RequestView,
    ) -> bool {
        (next, request) == store_produce(phase, told)
    }

    fn produce(&self, run: Production, reply: Reply) -> (step: (Production, Request)) {
        match (run, reply) {
            (Production::Idle, Reply::Start) => (Production::Connecting, Request::Connect),
            (Production::Connecting, Reply::Done) => (Production::Scanning, Request::Scan),
            (Production::Connecting, Reply::Failed) => (
                Production::Finished,
                Request::Finish(Err(MigrateError::Connection)),
            ),
            (Production::Scanning, Reply::Page(keys)) => {
                let asked = copy_keys(&keys);
                (Production::Dumping(keys), Request::Dump(asked))
            },
            (Production::Scanning, Reply::End) => (Production::Finished, Request::Finish(Ok(()))),
            (Production::Scanning, Reply::Failed) => (
                Production::Finished,
                Request::Finish(Err(MigrateError::Scan)),
            ),
            (Production::Dumping(keys), Reply::Replicas(replicas)) => (
                Production::Sending,
                Request::Send(pair_page(keys, replicas)),
            ),
            (Production::Dumping(_), Reply::Failed) => (
                Production::Finished,
                Request::Finish(Err(MigrateError::Extraction)),
            ),
            (Production::Sending, Reply::Done) => (Production::Scanning, Request::Scan),
            (Production::Sending, Reply::Failed) => (
                Production::Finished,
                Request::Finish(Err(MigrateError::ChannelClosed)),
            ),
            _ => (Production::Finished, Request::Finish(Err(MigrateError::Protocol))),
        }
    }
}

impl Consumer for RedisWrapper {
    open spec fn consumes(
        &self,
        phase: ConsumptionView,
        told: ReplyView,
        next: ConsumptionView,
        request: RequestView,
    ) -> bool {
        (next, request) == store_consume(self.threshold_spec() as nat, phase, told)
    }

    fn consume(&self, run: Consumption, reply: Reply) -> (step: (Consumption, Request)) {
        match (run, reply) {
            (Consumption::Idle, Reply::Start) => (Consumption::Connecting, Request::Connect),
            (Consumption::Connecting, Reply::Done) => (
                Consumption::Receiving(empty_batch()),
                Request::Receive,
            ),
            (Consumption::Connecting, Reply::Failed) => (
                Consumption::Finished,
                Request::Finish(Err(MigrateError::Connection)),
            ),
            (Consumption::Receiving(batch), Reply::Received(payload)) => {
                let mut batch = batch;
                let full = batch.len() >= self.threshold;
                proof {
                    assert(records_of(batch@.push(payload)) =~= records_of(batch@).push(payload@));
                }
                batch.push(payload);
                if full {
                    (Consumption::Restoring { last: false }, Request::Restore(batch))
                } else {
                    (Consumption::Receiving(batch), Request::Receive)
                }
            },
            (Consumption::Receiving(batch), Reply::End) => (
                Consumption::Restoring { last: true },
                Request::Restore(batch),
            ),
            (Consumption::Restoring { last }, Reply::Done) => if last {
                (Consumption::Finished, Request::Finish(Ok(())))
            } else {
                (Consumption::Receiving(empty_batch()), Request::Receive)
            },
            (Consumption::Restoring { .. }, Reply::Failed) => (
                Consumption::Finished,
                Request::Finish(Err(MigrateError::Restore)),
            ),
            _ => (Consumption::Finished, Request::Finish(Err(MigrateError::Protocol))),
        }
    }
}

impl Wrapper for RedisWrapper {

}

} // verus!
