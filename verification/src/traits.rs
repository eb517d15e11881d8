//! The capabilities of an endpoint. A run of either capability is a
//! conversation: the endpoint names the next request, the driver carries it
//! out against the store, the file or the channel, and answers. The endpoint
//! holds every decision; the driver holds every wait.

use vstd::prelude::*;
use crate::error::MigrateError;
use crate::types::{Payload, Record, records_of, strings_of};

verus! {

/// What an endpoint asks its driver to do next.
#[derive(Debug)]
pub enum Request {
    /// Connect to the store and wait until the connection is ready.
    Connect,
    /// Fetch the next page of keys of the enumeration.
    Scan,
    /// Extract the serialized replica of each of these keys, all requests in
    /// one pipelined round trip.
    Dump(Vec<Vec<u8>>),
    /// Replay these records into the store, overwriting and without expiry,
    /// all requests in one pipelined round trip.
    Restore(Vec<Payload>),
    /// Read the archive.
    Load,
    /// Open the archive for writing, dropping what it held.
    Create,
    /// Append these bytes to the archive.
    Append(Vec<u8>),
    /// Flush what the archive writer has buffered.
    Flush,
    /// Send these records into the channel, in this order, waiting whenever
    /// the channel is full.
    Send(Vec<Payload>),
    /// Receive the next record from the channel, waiting while it is empty
    /// and open.
    Receive,
    /// The run is over, with this outcome.
    Finish(Result<(), MigrateError>),
}

/// A request, as the contracts see it.
pub enum RequestView {
    Connect,
    Scan,
    Dump(Seq<Seq<u8>>),
    Restore(Seq<Record>),
    Load,
    Create,
    Append(Seq<u8>),
    Flush,
    Send(Seq<Record>),
    Receive,
    Finish(Result<(), MigrateError>),
}

impl View for Request {
    type V = RequestView;

    open spec fn view(&self) -> RequestView {
        match self {
            Request::Connect => RequestView::Connect,
            Request::Scan => RequestView::Scan,
            Request::Dump(keys) => RequestView::Dump(strings_of(keys@)),
            Request::Restore(batch) => RequestView::Restore(records_of(batch@)),
            Request::Load => RequestView::Load,
            Request::Create => RequestView::Create,
            Request::Append(bytes) => RequestView::Append(bytes@),
            Request::Flush => RequestView::Flush,
            Request::Send(payloads) => RequestView::Send(records_of(payloads@)),
            Request::Receive => RequestView::Receive,
            Request::Finish(outcome) => RequestView::Finish(*outcome),
        }
    }
}

/// What the driver answers.
#[derive(Debug)]
pub enum Reply {
    /// Nothing was asked yet: the run begins.
    Start,
    /// The request was carried out.
    Done,
    /// The request failed.
    Failed,
    /// The keys of one page of the enumeration.
    Page(Vec<Vec<u8>>),
    /// There is no more: the enumeration is complete, or the channel is
    /// closed and drained.
    End,
    /// The serialized replicas, in the order of the keys that were asked for.
    Replicas(Vec<Vec<u8>>),
    /// The bytes of the archive.
    Content(Vec<u8>),
    /// A record from the channel.
    Received(Payload),
}

/// An answer, as the contracts see it.
pub enum ReplyView {
    Start,
    Done,
    Failed,
    Page(Seq<Seq<u8>>),
    End,
    Replicas(Seq<Seq<u8>>),
    Content(Seq<u8>),
    Received(Record),
}

impl View for Reply {
    type V = ReplyView;

    open spec fn view(&self) -> ReplyView {
        match self {
            Reply::Start => ReplyView::Start,
            Reply::Done => ReplyView::Done,
            Reply::Failed => ReplyView::Failed,
            Reply::Page(keys) => ReplyView::Page(strings_of(keys@)),
            Reply::End => ReplyView::End,
            Reply::Replicas(replicas) => ReplyView::Replicas(strings_of(replicas@)),
            Reply::Content(bytes) => ReplyView::Content(bytes@),
            Reply::Received(payload) => ReplyView::Received(payload@),
        }
    }
}

/// Where a producing run stands.
#[derive(Debug)]
pub enum Production {
    /// Not begun.
    Idle,
    /// Waiting for the connection.
    Connecting,
    /// Waiting for a page of keys.
    Scanning,
    /// Waiting for the replicas of these keys.
    Dumping(Vec<Vec<u8>>),
    /// Waiting for the archive's bytes.
    Loading,
    /// Waiting for records to be taken by the channel.
    Sending,
    /// Over.
    Finished,
}

/// The state of a producing run, as the contracts see it.
pub enum ProductionView {
    Idle,
    Connecting,
    Scanning,
    Dumping(Seq<Seq<u8>>),
    Loading,
    Sending,
    Finished,
}

impl View for Production {
    type V = ProductionView;

    open spec fn view(&self) -> ProductionView {
        match self {
            Production::Idle => ProductionView::Idle,
            Production::Connecting => ProductionView::Connecting,
            Production::Scanning => ProductionView::Scanning,
            Production::Dumping(keys) => ProductionView::Dumping(strings_of(keys@)),
            Production::Loading => ProductionView::Loading,
            Production::Sending => ProductionView::Sending,
            Production::Finished => ProductionView::Finished,
        }
    }
}

/// Where a consuming run stands.
#[derive(Debug)]
pub enum Consumption {
    /// Not begun.
    Idle,
    /// Waiting for the connection.
    Connecting,
    /// Waiting for the archive to be opened.
    Creating,
    /// Waiting for a record, with these records gathered and not yet
    /// replayed.
    Receiving(Vec<Payload>),
    /// Waiting for a batch to be replayed; `last` where the channel has
    /// ended.
    Restoring { last: bool },
    /// Waiting for bytes to be written.
    Appending,
    /// Waiting for the writer to flush.
    Flushing,
    /// Over.
    Finished,
}

/// The state of a consuming run, as the contracts see it.
pub enum ConsumptionView {
    Idle,
    Connecting,
    Creating,
    Receiving(Seq<Record>),
    Restoring { last: bool },
    Appending,
    Flushing,
    Finished,
}

impl View for Consumption {
    type V = ConsumptionView;

    open spec fn view(&self) -> ConsumptionView {
        match self {
            Consumption::Idle => ConsumptionView::Idle,
            Consumption::Connecting => ConsumptionView::Connecting,
            Consumption::Creating => ConsumptionView::Creating,
            Consumption::Receiving(batch) => ConsumptionView::Receiving(records_of(batch@)),
            Consumption::Restoring { last } => ConsumptionView::Restoring { last: *last },
            Consumption::Appending => ConsumptionView::Appending,
            Consumption::Flushing => ConsumptionView::Flushing,
            Consumption::Finished => ConsumptionView::Finished,
        }
    }
}

/// The end of a producing run with the given outcome.
pub open spec fn production_over(outcome: Result<(), MigrateError>) -> (
    ProductionView,
    RequestView,
) {
    (ProductionView::Finished, RequestView::Finish(outcome))
}

/// The end of a consuming run with the given outcome.
pub open spec fn consumption_over(outcome: Result<(), MigrateError>) -> (
    ConsumptionView,
    RequestView,
) {
    (ConsumptionView::Finished, RequestView::Finish(outcome))
}

/// An endpoint that can be the source of a migration.
pub trait Producer {
    /// Whether, in state `phase` and told `told`, a producing run of this
    /// endpoint may go to `next` and ask `request`.
    spec fn produces(
        &self,
        phase: ProductionView,
        told: ReplyView,
        next: ProductionView,
        request: RequestView,
    ) -> bool;

    /// One step of a run that reads every record of this endpoint and sends
    /// it into the channel: from the state and the driver's answer to the
    /// next state and the next request. A run begins in `Production::Idle`
    /// with `Reply::Start` and is over once it asks `Request::Finish`.
    fn produce(&self, run: Production, reply: Reply) -> (step: (Production, Request))
        ensures
            self.produces(run@, reply@, step.0@, step.1@),
    ;
}

/// An endpoint that can be the destination of a migration.
pub trait Consumer {
    /// Whether, in state `phase` and told `told`, a consuming run of this
    /// endpoint may go to `next` and ask `request`.
    spec fn consumes(
        &self,
        phase: ConsumptionView,
        told: ReplyView,
        next: ConsumptionView,
        request: RequestView,
    ) -> bool;

    /// One step of a run that receives records from the channel until it
    /// ends and applies each to this endpoint. A run begins in
    /// `Consumption::Idle` with `Reply::Start` and is over once it asks
    /// `Request::Finish`.
    fn consume(&self, run: Consumption, reply: Reply) -> (step: (Consumption, Request))
        ensures
            self.consumes(run@, reply@, step.0@, step.1@),
    ;
}

/// An endpoint that can stand on either side.
pub trait Wrapper: Producer + Consumer {

}

} // verus!
