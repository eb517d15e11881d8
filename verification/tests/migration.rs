use std::collections::{BTreeMap, VecDeque};

use rsump::channel::{collect, deliver, Channel};
use rsump::error::MigrateError;
use rsump::file::FileWrapper;
use rsump::migration::{outcome, to_wrapper, Endpoint};
use rsump::redis::RedisWrapper;
use rsump::traits::{Consumer, Consumption, Producer, Production, Reply, Request};
use rsump::types::Payload;

/// A store held in memory: its content, the size of the pages that its
/// enumeration hands out, and a count of what was asked of it.
struct Store {
    content: BTreeMap<Vec<u8>, Vec<u8>>,
    page: usize,
    listing: Option<VecDeque<Vec<u8>>>,
    scans: usize,
    batches: Vec<usize>,
    fail_scan_after: Option<usize>,
}

impl Store {
    fn new(page: usize) -> Store {
        Store {
            content: BTreeMap::new(),
            page,
            listing: None,
            scans: 0,
            batches: Vec::new(),
            fail_scan_after: None,
        }
    }

    fn with(mut self, key: &str, data: &[u8]) -> Store {
        self.content.insert(key.as_bytes().to_vec(), data.to_vec());
        self
    }

    fn answer(&mut self, request: Request) -> Reply {
        match request {
            Request::Connect => Reply::Done,
            Request::Scan => {
                if self.fail_scan_after == Some(self.scans) {
                    return Reply::Failed;
                }
                self.scans += 1;
                let content = &self.content;
                let listing =
                    self.listing.get_or_insert_with(|| content.keys().cloned().collect());
                if listing.is_empty() {
                    return Reply::End;
                }
                let mut keys: Vec<Vec<u8>> = Vec::new();
                while keys.len() < self.page {
                    match listing.pop_front() {
                        Some(key) => keys.push(key),
                        None => break,
                    }
                }
                Reply::Page(keys)
            }
            Request::Dump(keys) => {
                Reply::Replicas(keys.iter().map(|key| self.content[key].clone()).collect())
            }
            Request::Restore(batch) => {
                self.batches.push(batch.len());
                for payload in batch {
                    self.content.insert(payload.key, payload.data);
                }
                Reply::Done
            }
            other => panic!("not a request for a store: {:?}", other),
        }
    }
}

/// A file held in memory.
struct File {
    content: Option<Vec<u8>>,
    flushed: bool,
}

impl File {
    fn missing() -> File {
        File { content: None, flushed: false }
    }

    fn answer(&mut self, request: Request) -> Reply {
        match request {
            Request::Load => match &self.content {
                Some(bytes) => Reply::Content(bytes.clone()),
                None => Reply::Failed,
            },
            Request::Create => {
                self.content = Some(Vec::new());
                Reply::Done
            }
            Request::Append(bytes) => {
                self.content.as_mut().unwrap().extend(bytes);
                Reply::Done
            }
            Request::Flush => {
                self.flushed = true;
                Reply::Done
            }
            other => panic!("not a request for a file: {:?}", other),
        }
    }
}

/// What stands behind an endpoint.
enum Backend<'a> {
    Store(&'a mut Store),
    File(&'a mut File),
}

impl<'a> Backend<'a> {
    fn answer(&mut self, request: Request) -> Reply {
        match self {
            Backend::Store(store) => store.answer(request),
            Backend::File(file) => file.answer(request),
        }
    }
}

/// Runs both sides in turn over one channel until the destination is done,
/// and says what each side ended with and the most records that were under
/// way at once.
fn migrate<P: Producer, C: Consumer>(
    source: &P,
    mut behind_source: Backend,
    destination: &C,
    mut behind_destination: Backend,
    capacity: usize,
) -> (Option<Result<(), MigrateError>>, Result<(), MigrateError>, usize) {
    let mut channel = Channel::new(capacity);
    let mut most: usize = 0;
    let mut production = Some(Production::Idle);
    let mut to_source = Some(Reply::Start);
    let mut outbox: VecDeque<Payload> = VecDeque::new();
    let mut sending = false;
    let mut source_end = None;
    let mut consumption = Some(Consumption::Idle);
    let mut to_destination = Some(Reply::Start);
    let mut destination_end = None;
    while destination_end.is_none() {
        let mut moved = false;
        if source_end.is_none() {
            if sending {
                let waiting = outbox.len();
                to_source = deliver(&mut channel, &mut outbox);
                sending = to_source.is_none();
                moved = moved || outbox.len() < waiting;
                most = most.max(channel.len());
            }
            if let Some(reply) = to_source.take() {
                moved = true;
                let (next, request) = source.produce(production.take().unwrap(), reply);
                production = Some(next);
                match request {
                    Request::Send(payloads) => {
                        outbox = payloads.into();
                        sending = true;
                    }
                    Request::Finish(result) => {
                        source_end = Some(result);
                        channel.release();
                    }
                    other => to_source = Some(behind_source.answer(other)),
                }
            }
        }
        if to_destination.is_none() {
            to_destination = collect(&mut channel);
        }
        if let Some(reply) = to_destination.take() {
            moved = true;
            let (next, request) = destination.consume(consumption.take().unwrap(), reply);
            consumption = Some(next);
            match request {
                Request::Receive => {}
                Request::Finish(result) => {
                    destination_end = Some(result);
                    channel.abandon();
                }
                other => to_destination = Some(behind_destination.answer(other)),
            }
        }
        assert!(moved, "neither side can go on");
    }
    (source_end, destination_end.unwrap(), most)
}

fn redis() -> RedisWrapper {
    RedisWrapper::new("redis://127.0.0.1:6379").unwrap()
}

fn numbered(count: usize, page: usize) -> Store {
    let mut store = Store::new(page);
    for n in 0..count {
        store = store.with(&format!("key:{:05}", n), format!("replica of {}", n).as_bytes());
    }
    store
}

fn dump(store: &mut Store, capacity: usize) -> File {
    let mut file = File::missing();
    let (_, result, _) = migrate(
        &redis(),
        Backend::Store(store),
        &FileWrapper::new("dump.bin"),
        Backend::File(&mut file),
        capacity,
    );
    assert_eq!(result, Ok(()));
    file
}

fn load(file: &mut File, target: &mut Store, threshold: usize, capacity: usize) {
    let (_, result, _) = migrate(
        &FileWrapper::new("dump.bin"),
        Backend::File(file),
        &redis().with_threshold(threshold),
        Backend::Store(target),
        capacity,
    );
    assert_eq!(result, Ok(()));
}

#[test]
fn three_keys_through_a_file_into_an_empty_store() {
    let mut first = Store::new(1000)
        .with("k1", b"payload one")
        .with("k2", &[0, 1, 2, 255])
        .with("k3", b"");
    let mut file = dump(&mut first, 1000);
    assert!(file.flushed);
    let archive = file.content.clone().unwrap();
    assert_eq!(rsump::archive::decode_archive(&archive).len(), 3);
    let mut expected: Vec<u8> = Vec::new();
    expected.extend([0x92, 0xc4, 2, b'k', b'1', 0xc4, 11]);
    expected.extend(b"payload one");
    expected.extend([0x92, 0xc4, 2, b'k', b'2', 0xc4, 4, 0, 1, 2, 255]);
    expected.extend([0x92, 0xc4, 2, b'k', b'3', 0xc4, 0]);
    assert_eq!(archive, expected);
    let mut second = Store::new(1000);
    load(&mut file, &mut second, 1000, 1000);
    assert_eq!(second.content.len(), 3);
    assert_eq!(second.content[&b"k1".to_vec()], b"payload one".to_vec());
    assert_eq!(second.content[&b"k2".to_vec()], vec![0, 1, 2, 255]);
    assert_eq!(second.content[&b"k3".to_vec()], Vec::<u8>::new());
    assert_eq!(second.content, first.content);
}

#[test]
fn a_round_trip_leaves_an_identical_store() {
    let mut first = numbered(57, 7);
    let mut file = dump(&mut first, 3);
    assert_eq!(rsump::archive::decode_archive(file.content.as_ref().unwrap()).len(), 57);
    let mut second = Store::new(7);
    load(&mut file, &mut second, 5, 3);
    assert_eq!(second.content, first.content);
    assert_eq!(second.batches.iter().sum::<usize>(), 57);
    assert!(second.batches.iter().all(|&size| size <= 6));
}

#[test]
fn restoring_twice_leaves_the_same_store() {
    let mut first = numbered(20, 6);
    let mut file = dump(&mut first, 8);
    let mut target = Store::new(6).with("key:00003", b"stale").with("other", b"kept");
    load(&mut file, &mut target, 4, 8);
    let once = target.content.clone();
    assert_eq!(once.len(), 21);
    assert_eq!(once[&b"key:00003".to_vec()], b"replica of 3".to_vec());
    assert_eq!(once[&b"other".to_vec()], b"kept".to_vec());
    load(&mut file, &mut target, 4, 8);
    assert_eq!(target.content, once);
}

fn emitted(count: usize, page: usize) -> (Vec<Vec<u8>>, usize) {
    let mut store = numbered(count, page);
    let file = dump(&mut store, 4);
    let records = rsump::archive::decode_archive(file.content.as_ref().unwrap());
    (records.into_iter().map(|payload| payload.key).collect(), store.scans)
}

#[test]
fn pages_smaller_than_the_keyspace_emit_each_key_once() {
    let (keys, scans) = emitted(10, 3);
    let expected: Vec<Vec<u8>> = (0..10).map(|n| format!("key:{:05}", n).into_bytes()).collect();
    assert_eq!(keys, expected);
    assert_eq!(scans, 5);
}

#[test]
fn a_page_as_large_as_the_keyspace_emits_each_key_once() {
    let (keys, scans) = emitted(10, 10);
    let expected: Vec<Vec<u8>> = (0..10).map(|n| format!("key:{:05}", n).into_bytes()).collect();
    assert_eq!(keys, expected);
    assert_eq!(scans, 2);
}

#[test]
fn a_page_larger_than_the_keyspace_emits_each_key_once() {
    let (keys, _) = emitted(10, 1000);
    let expected: Vec<Vec<u8>> = (0..10).map(|n| format!("key:{:05}", n).into_bytes()).collect();
    assert_eq!(keys, expected);
    let (none, _) = emitted(0, 1000);
    assert!(none.is_empty());
}

#[test]
fn a_stream_of_exactly_the_threshold_is_flushed_once() {
    let mut first = numbered(4, 10);
    let mut file = dump(&mut first, 10);
    let mut second = Store::new(10);
    load(&mut file, &mut second, 4, 10);
    assert_eq!(second.batches, vec![4]);
    assert_eq!(second.content, first.content);
}

#[test]
fn a_stream_beyond_the_threshold_is_flushed_in_turn() {
    let mut first = numbered(11, 10);
    let mut file = dump(&mut first, 10);
    let mut second = Store::new(10);
    load(&mut file, &mut second, 4, 10);
    assert_eq!(second.batches, vec![5, 5, 1]);
    let mut third = Store::new(10);
    load(&mut file, &mut third, 10, 10);
    assert_eq!(third.batches, vec![11, 0]);
    assert_eq!(third.content, first.content);
}

#[test]
fn no_more_records_are_under_way_than_the_channel_holds() {
    let mut first = numbered(40, 25);
    let mut file = File::missing();
    let (_, result, most) = migrate(
        &redis(),
        Backend::Store(&mut first),
        &FileWrapper::new("dump.bin"),
        Backend::File(&mut file),
        6,
    );
    assert_eq!(result, Ok(()));
    assert_eq!(most, 6);
    assert_eq!(rsump::archive::decode_archive(file.content.as_ref().unwrap()).len(), 40);
}

#[test]
fn a_store_migrates_into_a_store() {
    let mut first = numbered(9, 4);
    let mut second = Store::new(4);
    let (source, result, _) = migrate(
        &redis(),
        Backend::Store(&mut first),
        &redis().with_threshold(2),
        Backend::Store(&mut second),
        5,
    );
    assert_eq!(source, Some(Ok(())));
    assert_eq!(result, Ok(()));
    assert_eq!(second.content, first.content);
    assert_eq!(second.batches, vec![3, 3, 3, 0]);
}

#[test]
fn a_failure_of_the_source_is_not_reported() {
    let mut first = numbered(9, 4);
    first.fail_scan_after = Some(1);
    let mut file = File::missing();
    let (source, result, _) = migrate(
        &redis(),
        Backend::Store(&mut first),
        &FileWrapper::new("dump.bin"),
        Backend::File(&mut file),
        100,
    );
    assert_eq!(source, Some(Err(MigrateError::Scan)));
    assert_eq!(result, Ok(()));
    assert_eq!(outcome(source, result), Ok(()));
    assert_eq!(rsump::archive::decode_archive(file.content.as_ref().unwrap()).len(), 4);
}

#[test]
fn a_missing_archive_fails_the_source_alone() {
    let mut file = File::missing();
    let mut target = Store::new(10);
    let (source, result, _) = migrate(
        &FileWrapper::new("missing.bin"),
        Backend::File(&mut file),
        &redis(),
        Backend::Store(&mut target),
        10,
    );
    assert_eq!(source, Some(Err(MigrateError::Io)));
    assert_eq!(result, Ok(()));
    assert!(target.content.is_empty());
    assert_eq!(target.batches, vec![0]);
}

#[test]
fn the_reported_outcome_is_that_of_the_destination() {
    assert_eq!(outcome(None, Ok(())), Ok(()));
    assert_eq!(outcome(Some(Ok(())), Err(MigrateError::Restore)), Err(MigrateError::Restore));
    assert_eq!(outcome(Some(Err(MigrateError::Scan)), Ok(())), Ok(()));
    assert_eq!(
        outcome(Some(Err(MigrateError::Scan)), Err(MigrateError::Io)),
        Err(MigrateError::Io)
    );
}

#[test]
fn a_store_address_names_a_store_and_anything_else_a_file() {
    assert!(matches!(to_wrapper("redis://127.0.0.1:6379"), Endpoint::Store(_)));
    assert!(matches!(to_wrapper("redis-cluster://10.0.0.1:30001"), Endpoint::Store(_)));
    match to_wrapper("backup/dump.bin") {
        Endpoint::Archive(archive) => assert_eq!(archive.path(), "backup/dump.bin"),
        Endpoint::Store(_) => panic!("a path was taken for a store"),
    }
    match to_wrapper("") {
        Endpoint::Archive(archive) => assert_eq!(archive.path(), ""),
        Endpoint::Store(_) => panic!("nothing was taken for a store"),
    }
    match to_wrapper("redis://127.0.0.1:6379") {
        Endpoint::Store(store) => {
            assert_eq!(store.page_size(), 1000);
            assert_eq!(store.threshold(), 1000);
        }
        Endpoint::Archive(_) => panic!("a store address was taken for a path"),
    }
}

#[test]
fn endpoints_of_either_kind_run_through_one_interface() {
    let mut first = Store::new(2).with("a", b"1").with("b", b"2").with("c", b"3");
    let mut file = File::missing();
    let source = to_wrapper("redis://127.0.0.1:6379");
    let destination = to_wrapper("dump.bin");
    let (_, result, _) = migrate(
        &source,
        Backend::Store(&mut first),
        &destination,
        Backend::File(&mut file),
        2,
    );
    assert_eq!(result, Ok(()));
    let mut second = Store::new(2);
    let (_, result, _) = migrate(
        &destination,
        Backend::File(&mut file),
        &source,
        Backend::Store(&mut second),
        2,
    );
    assert_eq!(result, Ok(()));
    assert_eq!(second.content, first.content);
}
