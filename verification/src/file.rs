//! The archive endpoint: a file that holds records back to back.

use vstd::prelude::*;
use crate::archive::{archive_records, decode_archive, encode_record, record_bytes};
use crate::error::MigrateError;
use crate::traits::{
    Consumer, Consumption, ConsumptionView, Producer, Production, ProductionView, Reply, ReplyView,
    Request, RequestView, Wrapper, consumption_over, production_over,
};
use crate::types::{Record, empty_batch};

verus! {

/// An archive endpoint: the path of the file that is read or written.
pub struct FileWrapper {
    file_path: String,
}

impl FileWrapper {
    /// The path that this endpoint was made for.
    pub closed spec fn path_spec(&self) -> Seq<char> {
        self.file_path@
    }

    /// An archive endpoint for the file at `file_path`. The file is not
    /// touched.
    pub fn new(file_path: &str) -> (wrapper: Self)
        ensures
            wrapper.path_spec() == file_path@,
    {
        FileWrapper { file_path: file_path.to_owned() }
    }

    /// The path of the file.
    pub fn path(&self) -> (path: &str)
        ensures
            path@ == self.path_spec(),
    {
        self.file_path.as_str()
    }
}

/// The step of a producing run on an archive. The archive is read, and every
/// record that its bytes give, from the front up to the first place that
/// gives none, is sent in the order in which it was written. A read that
/// fails ends the run with `Io`, a send that fails with `ChannelClosed`, and
/// an answer that does not belong to the pending request with `Protocol`.
pub open spec fn archive_produce(phase: ProductionView, told: ReplyView) -> (
    ProductionView,
    RequestView,
) {
    match (phase, told) {
        (ProductionView::Idle, ReplyView::Start) => (ProductionView::Loading, RequestView::Load),
        (ProductionView::Loading, ReplyView::Content(bytes)) => (
            ProductionView::Sending,
            RequestView::Send(archive_records(bytes)),
        ),
        (ProductionView::Loading, ReplyView::Failed) => production_over(Err(MigrateError::Io)),
        (ProductionView::Sending, ReplyView::Done) => production_over(Ok(())),
        (ProductionView::Sending, ReplyView::Failed) => production_over(
            Err(MigrateError::ChannelClosed),
        ),
        _ => production_over(Err(MigrateError::Protocol)),
    }
}

/// The step of a consuming run on an archive, given what encoding the
/// received record came to (`None` where it failed). The archive is opened
/// empty. Each record received is encoded and appended, in the order of
/// arrival. When the channel ends the writer is flushed, and the run ends
/// well once that is done. An encoding, or a request on the file, that fails
/// ends the run with `Io`, and an answer that does not belong to the pending
/// request with `Protocol`.
pub open spec fn archive_consume(
    phase: ConsumptionView,
    told: ReplyView,
    encoding: Option<Seq<u8>>,
) -> (ConsumptionView, RequestView) {
    match (phase, told) {
        (ConsumptionView::Idle, ReplyView::Start) => (
            ConsumptionView::Creating,
            RequestView::Create,
        ),
        (ConsumptionView::Creating, ReplyView::Done) => (
            ConsumptionView::Receiving(Seq::empty()),
            RequestView::Receive,
        ),
        (ConsumptionView::Creating, ReplyView::Failed) => consumption_over(Err(MigrateError::Io)),
        (ConsumptionView::Receiving(_), ReplyView::Received(_)) => match encoding {
            Some(bytes) => (ConsumptionView::Appending, RequestView::Append(bytes)),
            None => consumption_over(Err(MigrateError::Io)),
        },
        (ConsumptionView::Receiving(_), ReplyView::End) => (
            ConsumptionView::Flushing,
            RequestView::Flush,
        ),
        (ConsumptionView::Appending, ReplyView::Done) => (
            ConsumptionView::Receiving(Seq::empty()),
            RequestView::Receive,
        ),
        (ConsumptionView::Appending, ReplyView::Failed) => consumption_over(
            Err(MigrateError::Io),
        ),
        (ConsumptionView::Flushing, ReplyView::Done) => consumption_over(Ok(())),
        (ConsumptionView::Flushing, ReplyView::Failed) => consumption_over(Err(MigrateError::Io)),
        _ => consumption_over(Err(MigrateError::Protocol)),
    }
}

/// What an encoding attempt is to the contracts: the bytes, or nothing.
pub open spec fn encoding_view(encoding: Result<Vec<u8>, MigrateError>) -> Option<Seq<u8>> {
    match encoding {
        Ok(bytes) => Some(bytes@),
        Err(_) => None,
    }
}

/// What follows the encoding of a received record: the bytes are appended,
/// or the run ends with `Io`.
pub fn appended(encoding: Result<Vec<u8>, MigrateError>) -> (step: (Consumption, Request))
    ensures
        (step.0@, step.1@) == match encoding {
            Ok(bytes) => (ConsumptionView::Appending, RequestView::Append(bytes@)),
            Err(_) => consumption_over(Err(MigrateError::Io)),
        },
        forall|batch: Seq<Record>, record: Record|
            (step.0@, step.1@) == #[trigger] archive_consume(
                ConsumptionView::Receiving(batch),
                ReplyView::Received(record),
                encoding_view(encoding),
            ),
{
    match encoding {
        Ok(bytes) => (Consumption::Appending, Request::Append(bytes)),
        Err(_) => (Consumption::Finished, Request::Finish(Err(MigrateError::Io))),
    }
}

impl Producer for FileWrapper {
    open spec fn produces(
        &self,
        phase: ProductionView,
        told: ReplyView,
        next: ProductionView,
        request: RequestView,
    ) -> bool {
        (next, request) == archive_produce(phase, told)
    }

    fn produce(&self, run: Production, reply: Reply) -> (step: (Production, Request)) {
        match (run, reply) {
            (Production::Idle, Reply::Start) => (Production::Loading, Request::Load),
            (Production::Loading, Reply::Content(bytes)) => (
                Production::Sending,
                Request::Send(decode_archive(&bytes)),
            ),
            (Production::Loading, Reply::Failed) => (
                Production::Finished,
                Request::Finish(Err(MigrateError::Io)),
            ),
            (Production::Sending, Reply::Done) => (Production::Finished, Request::Finish(Ok(()))),
            (Production::Sending, Reply::Failed) => (
                Production::Finished,
                Request::Finish(Err(MigrateError::ChannelClosed)),
            ),
            _ => (Production::Finished, Request::Finish(Err(MigrateError::Protocol))),
        }
    }
}

impl Consumer for FileWrapper {
    /// The step is that of `archive_consume`, whether the encoding of a
    /// received record gave its bytes or failed.
    open spec fn consumes(
        &self,
        phase: ConsumptionView,
        told: ReplyView,
        next: ConsumptionView,
        request: RequestView,
    ) -> bool {
        match told {
            ReplyView::Received(record) => (next, request) == archive_consume(
                phase,
                told,
                Some(record_bytes(record)),
            ) || (next, request) == archive_consume(phase, told, None),
            _ => (next, request) == archive_consume(phase, told, None),
        }
    }

    fn consume(&self, run: Consumption, reply: Reply) -> (step: (Consumption, Request)) {
        match (run, reply) {
            (Consumption::Idle, Reply::Start) => (Consumption::Creating, Request::Create),
            (Consumption::Creating, Reply::Done) => (
                Consumption::Receiving(empty_batch()),
                Request::Receive,
            ),
            (Consumption::Creating, Reply::Failed) => (
                Consumption::Finished,
                Request::Finish(Err(MigrateError::Io)),
            ),
            (Consumption::Receiving(_), Reply::Received(payload)) => appended(
                encode_record(&payload),
            ),
            (Consumption::Receiving(_), Reply::End) => (Consumption::Flushing, Request::Flush),
            (Consumption::Appending, Reply::Done) => (
                Consumption::Receiving(empty_batch()),
                Request::Receive,
            ),
            (Consumption::Appending, Reply::Failed) => (
                Consumption::Finished,
                Request::Finish(Err(MigrateError::Io)),
            ),
            (Consumption::Flushing, Reply::Done) => (
                Consumption::Finished,
                Request::Finish(Ok(())),
            ),
            (Consumption::Flushing, Reply::Failed) => (
                Consumption::Finished,
                Request::Finish(Err(MigrateError::Io)),
            ),
            _ => (Consumption::Finished, Request::Finish(Err(MigrateError::Protocol))),
        }
    }
}

impl Wrapper for FileWrapper {

}

} // verus!
