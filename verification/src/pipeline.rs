//! Whole runs: what an endpoint asks for, from the first request to the
//! last, when its driver answers each request in turn, and what that comes
//! to when every request succeeds.

use vstd::prelude::*;
use crate::archive::{archive_bytes, archive_records, fits, lemma_archive_round_trip, record_bytes};
use crate::file::{archive_consume, archive_produce};
use crate::redis::{paired, store_consume, store_produce};
use crate::traits::{ConsumptionView, ProductionView, ReplyView, RequestView};
use crate::types::Record;

verus! {

/// The requests of a producing run on a store that starts in `phase` and is
/// given `replies` in turn.
pub open spec fn store_production(phase: ProductionView, replies: Seq<ReplyView>) -> Seq<
    RequestView,
>
    decreases replies.len(),
{
    if replies.len() == 0 {
        Seq::empty()
    } else {
        let step = store_produce(phase, replies.first());
        seq![step.1] + store_production(step.0, replies.drop_first())
    }
}

/// The records that a run sent into the channel, in order.
pub open spec fn sent(requests: Seq<RequestView>) -> Seq<Record>
    decreases requests.len(),
{
    if requests.len() == 0 {
        Seq::empty()
    } else {
        match requests.first() {
            RequestView::Send(records) => records + sent(requests.drop_first()),
            _ => sent(requests.drop_first()),
        }
    }
}

/// The keys of records, in order.
pub open spec fn keys_of(records: Seq<Record>) -> Seq<Seq<u8>> {
    records.map_values(|record: Record| record.key)
}

/// The replicas of records, in order.
pub open spec fn replicas_of(records: Seq<Record>) -> Seq<Seq<u8>> {
    records.map_values(|record: Record| record.data)
}

/// The answers of a store whose enumeration yields `pages` and whose
/// extraction gives `replicas` for them, page by page, to a run that waits
/// for its next page: each page, its replicas, the word that its records
/// were taken, and at last the end of the enumeration.
pub open spec fn scan_answers(pages: Seq<Seq<Seq<u8>>>, replicas: Seq<Seq<Seq<u8>>>) -> Seq<
    ReplyView,
>
    decreases pages.len(),
{
    if pages.len() == 0 || replicas.len() == 0 {
        seq![ReplyView::End]
    } else {
        seq![
            ReplyView::Page(pages.first()),
            ReplyView::Replicas(replicas.first()),
            ReplyView::Done,
        ] + scan_answers(pages.drop_first(), replicas.drop_first())
    }
}

/// The answers to a whole producing run on such a store: the start, the
/// connection, and then those of the enumeration.
pub open spec fn store_answers(pages: Seq<Seq<Seq<u8>>>, replicas: Seq<Seq<Seq<u8>>>) -> Seq<
    ReplyView,
> {
    seq![ReplyView::Start, ReplyView::Done] + scan_answers(pages, replicas)
}

/// A run that gets one more answer asks one request first and then what the
/// rest of the run asks.
pub proof fn lemma_store_production_step(
    phase: ProductionView,
    reply: ReplyView,
    rest: Seq<ReplyView>,
)
    ensures
        store_production(phase, seq![reply] + rest) == seq![store_produce(phase, reply).1]
            + store_production(store_produce(phase, reply).0, rest),
{
    let replies = seq![reply] + rest;
    assert(replies.first() == reply);
    assert(replies.drop_first() == rest);
}

/// What was sent by two stretches of a run is what the first sent, then what
/// the second sent.
pub proof fn lemma_sent_concat(first: Seq<RequestView>, second: Seq<RequestView>)
    ensures
        sent(first + second) == sent(first) + sent(second),
    decreases first.len(),
{
    if first.len() == 0 {
        assert(first + second == second);
        assert(sent(first) + sent(second) == sent(second));
    } else {
        assert((first + second).first() == first.first());
        assert((first + second).drop_first() == first.drop_first() + second);
        lemma_sent_concat(first.drop_first(), second);
        match first.first() {
            RequestView::Send(records) => {
                assert(records + (sent(first.drop_first()) + sent(second)) == (records + sent(
                    first.drop_first(),
                )) + sent(second));
            },
            _ => {},
        }
    }
}

/// A single request sent what it holds, if it is a send.
pub proof fn lemma_sent_single(request: RequestView)
    ensures
        sent(seq![request]) == match request {
            RequestView::Send(records) => records,
            _ => Seq::<Record>::empty(),
        },
{
    let single = seq![request];
    assert(single.drop_first() == Seq::<RequestView>::empty());
    assert(sent(single.drop_first()) == Seq::<Record>::empty());
    match request {
        RequestView::Send(records) => {
            assert(records + Seq::<Record>::empty() == records);
        },
        _ => {},
    }
}

/// The keys and the replicas of the records paired from a page are the keys
/// and the replicas of that page, where each key has its replica.
pub proof fn lemma_paired_fields(keys: Seq<Seq<u8>>, replicas: Seq<Seq<u8>>)
    requires
        keys.len() == replicas.len(),
    ensures
        keys_of(paired(keys, replicas)) == keys,
        replicas_of(paired(keys, replicas)) == replicas,
{
    assert(keys_of(paired(keys, replicas)) =~= keys);
    assert(replicas_of(paired(keys, replicas)) =~= replicas);
}

/// From the wait for a page onwards, a run on a store that answers every
/// request sends one record for each key of each page, in the order of the
/// enumeration, each with the replica that was extracted for it, and ends
/// well.
pub proof fn lemma_scan_sends_every_key(pages: Seq<Seq<Seq<u8>>>, replicas: Seq<Seq<Seq<u8>>>)
    requires
        pages.len() == replicas.len(),
        forall|i: int| 0 <= i < pages.len() ==> (#[trigger] pages[i]).len() == replicas[i].len(),
    ensures
        ({
            let requests = store_production(
                ProductionView::Scanning,
                scan_answers(pages, replicas),
            );
            &&& keys_of(sent(requests)) == pages.flatten()
            &&& replicas_of(sent(requests)) == replicas.flatten()
            &&& requests.len() > 0
            &&& requests.last() == RequestView::Finish(Ok(()))
        }),
    decreases pages.len(),
{
    let answers = scan_answers(pages, replicas);
    let requests = store_production(ProductionView::Scanning, answers);
    if pages.len() == 0 {
        assert(answers == seq![ReplyView::End] + Seq::<ReplyView>::empty());
        lemma_store_production_step(ProductionView::Scanning, ReplyView::End, Seq::empty());
        assert(store_production(ProductionView::Finished, Seq::empty()) == Seq::<
            RequestView,
        >::empty());
        assert(requests == seq![RequestView::Finish(Ok(()))]);
        assert(sent(requests.drop_first()) == Seq::<Record>::empty());
        assert(sent(requests) == Seq::<Record>::empty());
        assert(keys_of(sent(requests)) =~= pages.flatten());
        assert(replicas_of(sent(requests)) =~= replicas.flatten());
    } else {
        let keys = pages.first();
        let data = replicas.first();
        let rest = scan_answers(pages.drop_first(), replicas.drop_first());
        let tail = store_production(ProductionView::Scanning, rest);
        assert(answers == seq![ReplyView::Page(keys)] + (seq![
            ReplyView::Replicas(data),
            ReplyView::Done,
        ] + rest));
        lemma_store_production_step(
            ProductionView::Scanning,
            ReplyView::Page(keys),
            seq![ReplyView::Replicas(data), ReplyView::Done] + rest,
        );
        assert(seq![ReplyView::Replicas(data), ReplyView::Done] + rest == seq![
            ReplyView::Replicas(data),
        ] + (seq![ReplyView::Done] + rest));
        lemma_store_production_step(
            ProductionView::Dumping(keys),
            ReplyView::Replicas(data),
            seq![ReplyView::Done] + rest,
        );
        lemma_store_production_step(ProductionView::Sending, ReplyView::Done, rest);
        let head = seq![
            RequestView::Dump(keys),
            RequestView::Send(paired(keys, data)),
            RequestView::Scan,
        ];
        assert(requests == head + tail);
        assert forall|i: int| 0 <= i < pages.drop_first().len() implies (
        #[trigger] pages.drop_first()[i]).len() == replicas.drop_first()[i].len() by {
            assert(pages.drop_first()[i] == pages[i + 1]);
            assert(replicas.drop_first()[i] == replicas[i + 1]);
        }
        lemma_scan_sends_every_key(pages.drop_first(), replicas.drop_first());
        lemma_sent_concat(head, tail);
        assert(sent(head) == paired(keys, data)) by {
            let dump = seq![RequestView::Dump(keys)];
            let send = seq![RequestView::Send(paired(keys, data))];
            let scan = seq![RequestView::Scan];
            assert(head == dump + (send + scan));
            lemma_sent_concat(dump, send + scan);
            lemma_sent_concat(send, scan);
            lemma_sent_single(RequestView::Dump(keys));
            lemma_sent_single(RequestView::Send(paired(keys, data)));
            lemma_sent_single(RequestView::Scan);
            assert(Seq::<Record>::empty() + (paired(keys, data) + Seq::<Record>::empty())
                == paired(keys, data));
        }
        lemma_paired_fields(keys, data);
        assert(keys_of(paired(keys, data) + sent(tail)) =~= keys + keys_of(sent(tail)));
        assert(replicas_of(paired(keys, data) + sent(tail)) =~= data + replicas_of(sent(tail)));
        assert(requests.last() == tail.last());
    }
}

/// Pagination is complete: whatever the sizes of the pages in which the
/// enumeration hands out the keyspace, a whole producing run on a store that
/// answers every request sends exactly one record for each key listed, in
/// the order listed and each with its replica, and ends well. Where the
/// enumeration lists each of the keys once, so does the run.
pub proof fn lemma_pagination_complete(pages: Seq<Seq<Seq<u8>>>, replicas: Seq<Seq<Seq<u8>>>)
    requires
        pages.len() == replicas.len(),
        forall|i: int| 0 <= i < pages.len() ==> (#[trigger] pages[i]).len() == replicas[i].len(),
    ensures
        ({
            let requests = store_production(ProductionView::Idle, store_answers(pages, replicas));
            &&& keys_of(sent(requests)) == pages.flatten()
            &&& replicas_of(sent(requests)) == replicas.flatten()
            &&& sent(requests).len() == pages.flatten().len()
            &&& requests.last() == RequestView::Finish(Ok(()))
        }),
{
    let body = scan_answers(pages, replicas);
    let tail = store_production(ProductionView::Scanning, body);
    assert(store_answers(pages, replicas) == seq![ReplyView::Start] + (seq![ReplyView::Done]
        + body));
    lemma_store_production_step(
        ProductionView::Idle,
        ReplyView::Start,
        seq![ReplyView::Done] + body,
    );
    lemma_store_production_step(ProductionView::Connecting, ReplyView::Done, body);
    let head = seq![RequestView::Connect, RequestView::Scan];
    let requests = store_production(ProductionView::Idle, store_answers(pages, replicas));
    assert(requests == head + tail);
    lemma_scan_sends_every_key(pages, replicas);
    lemma_sent_concat(head, tail);
    assert(sent(head) == Seq::<Record>::empty()) by {
        assert(head == seq![RequestView::Connect] + seq![RequestView::Scan]);
        lemma_sent_concat(seq![RequestView::Connect], seq![RequestView::Scan]);
        lemma_sent_single(RequestView::Connect);
        lemma_sent_single(RequestView::Scan);
        assert(Seq::<Record>::empty() + Seq::<Record>::empty() == Seq::<Record>::empty());
    }
    assert(Seq::<Record>::empty() + sent(tail) == sent(tail));
    assert(sent(requests) == sent(tail));
    assert(requests.last() == tail.last());
}

/// The requests of a consuming run on a store with flush threshold
/// `threshold` that starts in `phase` and is given `replies` in turn.
pub open spec fn store_consumption(
    threshold: nat,
    phase: ConsumptionView,
    replies: Seq<ReplyView>,
) -> Seq<RequestView>
    decreases replies.len(),
{
    if replies.len() == 0 {
        Seq::empty()
    } else {
        let step = store_consume(threshold, phase, replies.first());
        seq![step.1] + store_consumption(threshold, step.0, replies.drop_first())
    }
}

/// The batches that a run replayed into the store, in order.
pub open spec fn restored(requests: Seq<RequestView>) -> Seq<Seq<Record>>
    decreases requests.len(),
{
    if requests.len() == 0 {
        Seq::empty()
    } else {
        match requests.first() {
            RequestView::Restore(batch) => seq![batch] + restored(requests.drop_first()),
            _ => restored(requests.drop_first()),
        }
    }
}

/// The answers of a channel that delivers `records` and then ends, and of a
/// store that replays every batch, to a run that waits for a record with
/// `held` records gathered: each record, the word that a batch was replayed
/// wherever the record filled one, and at last the end of the channel and
/// the word that the last batch was replayed.
pub open spec fn receive_answers(threshold: nat, held: nat, records: Seq<Record>) -> Seq<ReplyView>
    decreases records.len(),
{
    if records.len() == 0 {
        seq![ReplyView::End, ReplyView::Done]
    } else if held + 1 > threshold {
        seq![ReplyView::Received(records.first()), ReplyView::Done] + receive_answers(
            threshold,
            0,
            records.drop_first(),
        )
    } else {
        seq![ReplyView::Received(records.first())] + receive_answers(
            threshold,
            held + 1,
            records.drop_first(),
        )
    }
}

/// The answers to a whole consuming run on such a store: the start, the
/// connection, and then those of the channel and the replays.
pub open spec fn restore_answers(threshold: nat, records: Seq<Record>) -> Seq<ReplyView> {
    seq![ReplyView::Start, ReplyView::Done] + receive_answers(threshold, 0, records)
}

/// A run that gets one more answer asks one request first and then what the
/// rest of the run asks.
pub proof fn lemma_store_consumption_step(
    threshold: nat,
    phase: ConsumptionView,
    reply: ReplyView,
    rest: Seq<ReplyView>,
)
    ensures
        store_consumption(threshold, phase, seq![reply] + rest) == seq![
            store_consume(threshold, phase, reply).1,
        ] + store_consumption(threshold, store_consume(threshold, phase, reply).0, rest),
{
    let replies = seq![reply] + rest;
    assert(replies.first() == reply);
    assert(replies.drop_first() == rest);
}

/// The batches of two stretches of a run are those of the first, then those
/// of the second.
pub proof fn lemma_restored_concat(first: Seq<RequestView>, second: Seq<RequestView>)
    ensures
        restored(first + second) == restored(first) + restored(second),
    decreases first.len(),
{
    if first.len() == 0 {
        assert(first + second == second);
        assert(restored(first) + restored(second) == restored(second));
    } else {
        assert((first + second).first() == first.first());
        assert((first + second).drop_first() == first.drop_first() + second);
        lemma_restored_concat(first.drop_first(), second);
        match first.first() {
            RequestView::Restore(batch) => {
                assert(seq![batch] + (restored(first.drop_first()) + restored(second)) == (seq![
                    batch,
                ] + restored(first.drop_first())) + restored(second));
            },
            _ => {},
        }
    }
}

/// A single request replayed the batch it holds, if it is a replay.
pub proof fn lemma_restored_single(request: RequestView)
    ensures
        restored(seq![request]) == match request {
            RequestView::Restore(batch) => seq![batch],
            _ => Seq::<Seq<Record>>::empty(),
        },
{
    let single = seq![request];
    assert(single.drop_first() == Seq::<RequestView>::empty());
    assert(restored(single.drop_first()) == Seq::<Seq<Record>>::empty());
    match request {
        RequestView::Restore(batch) => {
            assert(seq![batch] + Seq::<Seq<Record>>::empty() == seq![batch]);
        },
        _ => {},
    }
}

/// From the wait for a record onwards, with `batch` gathered: a run whose
/// every request succeeds replays, over all its batches, what it had
/// gathered and then every record received, each once and in the order of
/// arrival, and ends well. No batch holds more than one record over the
/// threshold. The end of the channel is always answered by a replay; where
/// the threshold was never passed, that replay is the only one and holds
/// everything.
pub proof fn lemma_receive_restores_all(threshold: nat, batch: Seq<Record>, records: Seq<Record>)
    requires
        batch.len() <= threshold,
    ensures
        ({
            let requests = store_consumption(
                threshold,
                ConsumptionView::Receiving(batch),
                receive_answers(threshold, batch.len(), records),
            );
            &&& restored(requests).flatten() == batch + records
            &&& restored(requests).len() >= 1
            &&& forall|i: int|
                0 <= i < restored(requests).len() ==> (#[trigger] restored(requests)[i]).len()
                    <= threshold + 1
            &&& batch.len() + records.len() <= threshold ==> restored(requests) == seq![
                batch + records,
            ]
            &&& requests.len() > 0
            &&& requests.last() == RequestView::Finish(Ok(()))
        }),
    decreases records.len(),
{
    let phase = ConsumptionView::Receiving(batch);
    let answers = receive_answers(threshold, batch.len(), records);
    let requests = store_consumption(threshold, phase, answers);
    if records.len() == 0 {
        assert(answers == seq![ReplyView::End] + seq![ReplyView::Done]);
        lemma_store_consumption_step(threshold, phase, ReplyView::End, seq![ReplyView::Done]);
        assert(seq![ReplyView::Done] == seq![ReplyView::Done] + Seq::<ReplyView>::empty());
        lemma_store_consumption_step(
            threshold,
            ConsumptionView::Restoring { last: true },
            ReplyView::Done,
            Seq::empty(),
        );
        assert(store_consumption(threshold, ConsumptionView::Finished, Seq::empty()) == Seq::<
            RequestView,
        >::empty());
        let restore = seq![RequestView::Restore(batch)];
        let finish = seq![RequestView::Finish(Ok(()))];
        assert(requests == restore + finish);
        lemma_restored_concat(restore, finish);
        lemma_restored_single(RequestView::Restore(batch));
        lemma_restored_single(RequestView::Finish(Ok(())));
        assert(restored(requests) == seq![batch]);
        assert(batch + records == batch);
        seq![batch].lemma_flatten_one_element();
    } else {
        let record = records.first();
        let rest = records.drop_first();
        let grown = batch.push(record);
        assert(batch + records == grown + rest);
        if batch.len() + 1 > threshold {
            let tail_answers = receive_answers(threshold, 0, rest);
            let tail = store_consumption(
                threshold,
                ConsumptionView::Receiving(Seq::empty()),
                tail_answers,
            );
            assert(answers == seq![ReplyView::Received(record)] + (seq![ReplyView::Done]
                + tail_answers));
            lemma_store_consumption_step(
                threshold,
                phase,
                ReplyView::Received(record),
                seq![ReplyView::Done] + tail_answers,
            );
            lemma_store_consumption_step(
                threshold,
                ConsumptionView::Restoring { last: false },
                ReplyView::Done,
                tail_answers,
            );
            let restore = seq![RequestView::Restore(grown)];
            let receive = seq![RequestView::Receive];
            assert(requests == restore + (receive + tail));
            lemma_receive_restores_all(threshold, Seq::empty(), rest);
            lemma_restored_concat(restore, receive + tail);
            lemma_restored_concat(receive, tail);
            lemma_restored_single(RequestView::Restore(grown));
            lemma_restored_single(RequestView::Receive);
            assert(restored(requests) == seq![grown] + restored(tail));
            vstd::seq_lib::lemma_flatten_concat(seq![grown], restored(tail));
            seq![grown].lemma_flatten_one_element();
            assert(Seq::<Record>::empty() + rest == rest);
            assert(requests.last() == tail.last());
        } else {
            let tail_answers = receive_answers(threshold, batch.len() + 1, rest);
            let tail = store_consumption(
                threshold,
                ConsumptionView::Receiving(grown),
                tail_answers,
            );
            assert(answers == seq![ReplyView::Received(record)] + tail_answers);
            lemma_store_consumption_step(
                threshold,
                phase,
                ReplyView::Received(record),
                tail_answers,
            );
            let receive = seq![RequestView::Receive];
            assert(requests == receive + tail);
            lemma_receive_restores_all(threshold, grown, rest);
            lemma_restored_concat(receive, tail);
            lemma_restored_single(RequestView::Receive);
            assert(restored(requests) == restored(tail));
            assert(requests.last() == tail.last());
        }
    }
}

/// The flush at the end of the stream is mandatory: a whole consuming run on
/// a store that answers every request replays every record received, each
/// once and in the order of arrival, in batches of at most one record over
/// the threshold, and ends well; and a stream of no more records than the
/// threshold, which never fills a batch, is replayed in exactly one batch,
/// at the end of the stream.
pub proof fn lemma_final_flush(threshold: nat, records: Seq<Record>)
    ensures
        ({
            let requests = store_consumption(
                threshold,
                ConsumptionView::Idle,
                restore_answers(threshold, records),
            );
            &&& restored(requests).flatten() == records
            &&& restored(requests).len() >= 1
            &&& forall|i: int|
                0 <= i < restored(requests).len() ==> (#[trigger] restored(requests)[i]).len()
                    <= threshold + 1
            &&& records.len() <= threshold ==> restored(requests) == seq![records]
            &&& requests.last() == RequestView::Finish(Ok(()))
        }),
{
    let body = receive_answers(threshold, 0, records);
    let tail = store_consumption(threshold, ConsumptionView::Receiving(Seq::empty()), body);
    assert(restore_answers(threshold, records) == seq![ReplyView::Start] + (seq![ReplyView::Done]
        + body));
    lemma_store_consumption_step(
        threshold,
        ConsumptionView::Idle,
        ReplyView::Start,
        seq![ReplyView::Done] + body,
    );
    lemma_store_consumption_step(threshold, ConsumptionView::Connecting, ReplyView::Done, body);
    let connect = seq![RequestView::Connect];
    let receive = seq![RequestView::Receive];
    let requests = store_consumption(
        threshold,
        ConsumptionView::Idle,
        restore_answers(threshold, records),
    );
    assert(requests == connect + (receive + tail));
    lemma_receive_restores_all(threshold, Seq::empty(), records);
    lemma_restored_concat(connect, receive + tail);
    lemma_restored_concat(receive, tail);
    lemma_restored_single(RequestView::Connect);
    lemma_restored_single(RequestView::Receive);
    assert(restored(requests) == restored(tail));
    assert(Seq::<Record>::empty() + records == records);
    assert(requests.last() == tail.last());
}

/// The requests of a producing run on an archive that starts in `phase` and
/// is given `replies` in turn.
pub open spec fn archive_production(phase: ProductionView, replies: Seq<ReplyView>) -> Seq<
    RequestView,
>
    decreases replies.len(),
{
    if replies.len() == 0 {
        Seq::empty()
    } else {
        let step = archive_produce(phase, replies.first());
        seq![step.1] + archive_production(step.0, replies.drop_first())
    }
}

/// The encoding of the record that an answer delivers, if it delivers one.
pub open spec fn encoding_of(told: ReplyView) -> Option<Seq<u8>> {
    match told {
        ReplyView::Received(record) => Some(record_bytes(record)),
        _ => None,
    }
}

/// The requests of a consuming run on an archive that starts in `phase` and
/// is given `replies` in turn, where every encoding succeeds.
pub open spec fn archive_consumption(phase: ConsumptionView, replies: Seq<ReplyView>) -> Seq<
    RequestView,
>
    decreases replies.len(),
{
    if replies.len() == 0 {
        Seq::empty()
    } else {
        let step = archive_consume(phase, replies.first(), encoding_of(replies.first()));
        seq![step.1] + archive_consumption(step.0, replies.drop_first())
    }
}

/// The bytes that a run appended to the archive, in order.
pub open spec fn written(requests: Seq<RequestView>) -> Seq<u8>
    decreases requests.len(),
{
    if requests.len() == 0 {
        Seq::empty()
    } else {
        match requests.first() {
            RequestView::Append(bytes) => bytes + written(requests.drop_first()),
            _ => written(requests.drop_first()),
        }
    }
}

/// The answers of a channel that delivers `records` and then ends, and of a
/// file that takes every write, to a run that waits for a record: each
/// record and the word that it was written, and at last the end of the
/// channel and the word that the writer was flushed.
pub open spec fn write_answers(records: Seq<Record>) -> Seq<ReplyView>
    decreases records.len(),
{
    if records.len() == 0 {
        seq![ReplyView::End, ReplyView::Done]
    } else {
        seq![ReplyView::Received(records.first()), ReplyView::Done] + write_answers(
            records.drop_first(),
        )
    }
}

/// The answers to a whole consuming run on such a file: the start, the
/// opening, and then those of the channel and the writes.
pub open spec fn archive_answers(records: Seq<Record>) -> Seq<ReplyView> {
    seq![ReplyView::Start, ReplyView::Done] + write_answers(records)
}

/// The answers to a whole producing run on a file that holds `bytes`, with
/// a channel that takes every record.
pub open spec fn load_answers(bytes: Seq<u8>) -> Seq<ReplyView> {
    seq![ReplyView::Start, ReplyView::Content(bytes), ReplyView::Done]
}

/// A run that gets one more answer asks one request first and then what the
/// rest of the run asks.
pub proof fn lemma_archive_consumption_step(
    phase: ConsumptionView,
    reply: ReplyView,
    rest: Seq<ReplyView>,
)
    ensures
        archive_consumption(phase, seq![reply] + rest) == seq![
            archive_consume(phase, reply, encoding_of(reply)).1,
        ] + archive_consumption(archive_consume(phase, reply, encoding_of(reply)).0, rest),
{
    let replies = seq![reply] + rest;
    assert(replies.first() == reply);
    assert(replies.drop_first() == rest);
}

/// A run that gets one more answer asks one request first and then what the
/// rest of the run asks.
pub proof fn lemma_archive_production_step(
    phase: ProductionView,
    reply: ReplyView,
    rest: Seq<ReplyView>,
)
    ensures
        archive_production(phase, seq![reply] + rest) == seq![archive_produce(phase, reply).1]
            + archive_production(archive_produce(phase, reply).0, rest),
{
    let replies = seq![reply] + rest;
    assert(replies.first() == reply);
    assert(replies.drop_first() == rest);
}

/// What two stretches of a run wrote is what the first wrote, then what the
/// second wrote.
pub proof fn lemma_written_concat(first: Seq<RequestView>, second: Seq<RequestView>)
    ensures
        written(first + second) == written(first) + written(second),
    decreases first.len(),
{
    if first.len() == 0 {
        assert(first + second == second);
        assert(written(first) + written(second) == written(second));
    } else {
        assert((first + second).first() == first.first());
        assert((first + second).drop_first() == first.drop_first() + second);
        lemma_written_concat(first.drop_first(), second);
        match first.first() {
            RequestView::Append(bytes) => {
                assert(bytes + (written(first.drop_first()) + written(second)) == (bytes
                    + written(first.drop_first())) + written(second));
            },
            _ => {},
        }
    }
}

/// A single request wrote the bytes it holds, if it is a write.
pub proof fn lemma_written_single(request: RequestView)
    ensures
        written(seq![request]) == match request {
            RequestView::Append(bytes) => bytes,
            _ => Seq::<u8>::empty(),
        },
{
    let single = seq![request];
    assert(single.drop_first() == Seq::<RequestView>::empty());
    assert(written(single.drop_first()) == Seq::<u8>::empty());
    match request {
        RequestView::Append(bytes) => {
            assert(bytes + Seq::<u8>::empty() == bytes);
        },
        _ => {},
    }
}

/// From the wait for a record onwards, a run on a file that takes every
/// write appends the encoding of every record received, in the order of
/// arrival, asks for the flush when the channel ends, and ends well.
pub proof fn lemma_receive_writes_all(batch: Seq<Record>, records: Seq<Record>)
    ensures
        ({
            let requests = archive_consumption(
                ConsumptionView::Receiving(batch),
                write_answers(records),
            );
            &&& written(requests) == archive_bytes(records)
            &&& requests.len() >= 2
            &&& requests[requests.len() - 2] == RequestView::Flush
            &&& requests.last() == RequestView::Finish(Ok(()))
        }),
    decreases records.len(),
{
    let phase = ConsumptionView::Receiving(batch);
    let answers = write_answers(records);
    let requests = archive_consumption(phase, answers);
    if records.len() == 0 {
        assert(answers == seq![ReplyView::End] + seq![ReplyView::Done]);
        lemma_archive_consumption_step(phase, ReplyView::End, seq![ReplyView::Done]);
        assert(seq![ReplyView::Done] == seq![ReplyView::Done] + Seq::<ReplyView>::empty());
        lemma_archive_consumption_step(ConsumptionView::Flushing, ReplyView::Done, Seq::empty());
        assert(archive_consumption(ConsumptionView::Finished, Seq::empty()) == Seq::<
            RequestView,
        >::empty());
        let flush = seq![RequestView::Flush];
        let finish = seq![RequestView::Finish(Ok(()))];
        assert(requests == flush + finish);
        lemma_written_concat(flush, finish);
        lemma_written_single(RequestView::Flush);
        lemma_written_single(RequestView::Finish(Ok(())));
        assert(written(requests) =~= archive_bytes(records));
    } else {
        let record = records.first();
        let rest = records.drop_first();
        let tail_answers = write_answers(rest);
        let tail = archive_consumption(ConsumptionView::Receiving(Seq::empty()), tail_answers);
        assert(answers == seq![ReplyView::Received(record)] + (seq![ReplyView::Done]
            + tail_answers));
        lemma_archive_consumption_step(
            phase,
            ReplyView::Received(record),
            seq![ReplyView::Done] + tail_answers,
        );
        lemma_archive_consumption_step(ConsumptionView::Appending, ReplyView::Done, tail_answers);
        let append = seq![RequestView::Append(record_bytes(record))];
        let receive = seq![RequestView::Receive];
        assert(requests == append + (receive + tail));
        lemma_receive_writes_all(Seq::empty(), rest);
        lemma_written_concat(append, receive + tail);
        lemma_written_concat(receive, tail);
        lemma_written_single(RequestView::Append(record_bytes(record)));
        lemma_written_single(RequestView::Receive);
        assert(Seq::<u8>::empty() + written(tail) == written(tail));
        assert(rest == records.skip(1));
        assert(written(requests) == archive_bytes(records));
        assert(requests.len() == tail.len() + 2);
        assert(requests[requests.len() - 2] == tail[tail.len() - 2]);
        assert(requests.last() == tail.last());
    }
}

/// A whole consuming run on a file that takes every write leaves the
/// archive of the records received, in the order of arrival: their
/// encodings back to back and nothing else. It asks for the flush once the
/// channel has ended, and ends well.
pub proof fn lemma_archive_written(records: Seq<Record>)
    ensures
        ({
            let requests = archive_consumption(ConsumptionView::Idle, archive_answers(records));
            &&& written(requests) == archive_bytes(records)
            &&& requests[requests.len() - 2] == RequestView::Flush
            &&& requests.last() == RequestView::Finish(Ok(()))
        }),
{
    let body = write_answers(records);
    let tail = archive_consumption(ConsumptionView::Receiving(Seq::empty()), body);
    assert(archive_answers(records) == seq![ReplyView::Start] + (seq![ReplyView::Done] + body));
    lemma_archive_consumption_step(
        ConsumptionView::Idle,
        ReplyView::Start,
        seq![ReplyView::Done] + body,
    );
    lemma_archive_consumption_step(ConsumptionView::Creating, ReplyView::Done, body);
    let create = seq![RequestView::Create];
    let receive = seq![RequestView::Receive];
    let requests = archive_consumption(ConsumptionView::Idle, archive_answers(records));
    assert(requests == create + (receive + tail));
    lemma_receive_writes_all(Seq::empty(), records);
    lemma_written_concat(create, receive + tail);
    lemma_written_concat(receive, tail);
    lemma_written_single(RequestView::Create);
    lemma_written_single(RequestView::Receive);
    assert(Seq::<u8>::empty() + (Seq::<u8>::empty() + written(tail)) == written(tail));
    assert(requests[requests.len() - 2] == tail[tail.len() - 2]);
    assert(requests.last() == tail.last());
}

/// A whole producing run on a file that holds `bytes` sends the records of
/// that archive, in the order in which they were written, and ends well.
pub proof fn lemma_archive_read(bytes: Seq<u8>)
    ensures
        ({
            let requests = archive_production(ProductionView::Idle, load_answers(bytes));
            &&& requests == seq![
                RequestView::Load,
                RequestView::Send(archive_records(bytes)),
                RequestView::Finish(Ok(())),
            ]
            &&& sent(requests) == archive_records(bytes)
        }),
{
    let content = ReplyView::Content(bytes);
    assert(load_answers(bytes) == seq![ReplyView::Start] + (seq![content] + (seq![ReplyView::Done]
        + Seq::<ReplyView>::empty())));
    lemma_archive_production_step(
        ProductionView::Idle,
        ReplyView::Start,
        seq![content] + (seq![ReplyView::Done] + Seq::<ReplyView>::empty()),
    );
    lemma_archive_production_step(
        ProductionView::Loading,
        content,
        seq![ReplyView::Done] + Seq::<ReplyView>::empty(),
    );
    lemma_archive_production_step(ProductionView::Sending, ReplyView::Done, Seq::empty());
    assert(archive_production(ProductionView::Finished, Seq::empty()) == Seq::<
        RequestView,
    >::empty());
    let requests = archive_production(ProductionView::Idle, load_answers(bytes));
    let load = seq![RequestView::Load];
    let send = seq![RequestView::Send(archive_records(bytes))];
    let finish = seq![RequestView::Finish(Ok(()))];
    assert(requests == load + (send + finish));
    lemma_sent_concat(load, send + finish);
    lemma_sent_concat(send, finish);
    lemma_sent_single(RequestView::Load);
    lemma_sent_single(RequestView::Send(archive_records(bytes)));
    lemma_sent_single(RequestView::Finish(Ok(())));
    assert(Seq::<Record>::empty() + (archive_records(bytes) + Seq::<Record>::empty())
        == archive_records(bytes));
}

/// Records that are written to an archive by a consuming run and read back
/// by a producing run arrive as they were, each once and in the same order,
/// where the format can hold their fields.
pub proof fn lemma_archive_carries(records: Seq<Record>)
    requires
        forall|i: int| 0 <= i < records.len() ==> fits(#[trigger] records[i]),
    ensures
        sent(
            archive_production(
                ProductionView::Idle,
                load_answers(
                    written(archive_consumption(ConsumptionView::Idle, archive_answers(records))),
                ),
            ),
        ) == records,
{
    lemma_archive_written(records);
    lemma_archive_read(archive_bytes(records));
    lemma_archive_round_trip(records);
}

} // verus!
