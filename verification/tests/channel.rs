use std::collections::VecDeque;

use rsump::channel::{collect, deliver, Channel, Delivery, Offer};
use rsump::traits::Reply;
use rsump::migration::CHANNEL_CAPACITY;
use rsump::types::Payload;

fn record(n: usize) -> Payload {
    Payload::new(format!("k{}", n).into_bytes(), format!("v{}", n).into_bytes())
}

#[test]
fn the_default_capacity_is_a_thousand_records() {
    assert_eq!(CHANNEL_CAPACITY, 1000);
    let channel = Channel::new(CHANNEL_CAPACITY);
    assert_eq!(channel.capacity(), 1000);
    assert_eq!(channel.len(), 0);
}

#[test]
fn records_leave_in_the_order_in_which_they_came() {
    let mut channel = Channel::new(4);
    for n in 0..3 {
        assert!(matches!(channel.offer(record(n)), Offer::Accepted));
    }
    assert_eq!(channel.len(), 3);
    for n in 0..3 {
        match channel.take() {
            Delivery::Record(payload) => assert_eq!(payload.key, format!("k{}", n).into_bytes()),
            other => panic!("unexpected delivery {:?}", other),
        }
    }
    assert!(matches!(channel.take(), Delivery::Empty));
}

#[test]
fn the_send_beyond_the_capacity_waits_for_a_receive() {
    let capacity: usize = 5;
    let mut channel = Channel::new(capacity);
    for n in 0..capacity {
        assert!(matches!(channel.offer(record(n)), Offer::Accepted));
    }
    let held_back = match channel.offer(record(capacity)) {
        Offer::Full(back) => back,
        other => panic!("unexpected offer {:?}", other),
    };
    assert_eq!(held_back.key, b"k5".to_vec());
    assert_eq!(channel.len(), capacity);
    let again = match channel.offer(held_back) {
        Offer::Full(back) => back,
        other => panic!("unexpected offer {:?}", other),
    };
    match channel.take() {
        Delivery::Record(payload) => assert_eq!(payload.key, b"k0".to_vec()),
        other => panic!("unexpected delivery {:?}", other),
    }
    assert!(matches!(channel.offer(again), Offer::Accepted));
    assert_eq!(channel.len(), capacity);
    assert!(matches!(channel.offer(record(99)), Offer::Full(_)));
}

#[test]
fn a_channel_without_room_takes_nothing() {
    let mut channel = Channel::new(0);
    assert!(matches!(channel.offer(record(1)), Offer::Full(_)));
    assert!(matches!(channel.take(), Delivery::Empty));
}

#[test]
fn a_released_channel_is_drained_and_then_ends() {
    let mut channel = Channel::new(3);
    assert!(matches!(channel.offer(record(1)), Offer::Accepted));
    assert!(matches!(channel.offer(record(2)), Offer::Accepted));
    channel.release();
    assert!(matches!(channel.offer(record(3)), Offer::Closed(_)));
    assert!(matches!(channel.take(), Delivery::Record(_)));
    assert!(matches!(channel.take(), Delivery::Record(_)));
    assert!(matches!(channel.take(), Delivery::End));
    assert!(matches!(channel.take(), Delivery::End));
}

#[test]
fn an_abandoned_channel_hands_the_record_back() {
    let mut channel = Channel::new(3);
    assert!(matches!(channel.offer(record(1)), Offer::Accepted));
    channel.abandon();
    match channel.offer(record(2)) {
        Offer::Closed(back) => assert_eq!(back.data, b"v2".to_vec()),
        other => panic!("unexpected offer {:?}", other),
    }
    assert_eq!(channel.len(), 1);
}

fn outbox(count: usize) -> VecDeque<Payload> {
    (0..count).map(record).collect()
}

#[test]
fn a_send_that_fits_is_done_at_once() {
    let mut channel = Channel::new(5);
    let mut waiting = outbox(3);
    assert!(matches!(deliver(&mut channel, &mut waiting), Some(Reply::Done)));
    assert!(waiting.is_empty());
    assert_eq!(channel.len(), 3);
    let mut nothing = outbox(0);
    assert!(matches!(deliver(&mut channel, &mut nothing), Some(Reply::Done)));
    assert_eq!(channel.len(), 3);
}

#[test]
fn a_send_beyond_the_room_waits_with_the_rest() {
    let mut channel = Channel::new(2);
    let mut waiting = outbox(5);
    assert!(deliver(&mut channel, &mut waiting).is_none());
    assert_eq!(channel.len(), 2);
    assert_eq!(waiting.len(), 3);
    assert_eq!(waiting[0].key, b"k2".to_vec());
    assert!(deliver(&mut channel, &mut waiting).is_none());
    assert_eq!(waiting.len(), 3);
    match collect(&mut channel) {
        Some(Reply::Received(payload)) => assert_eq!(payload.key, b"k0".to_vec()),
        other => panic!("unexpected answer {:?}", other),
    }
    assert!(deliver(&mut channel, &mut waiting).is_none());
    assert_eq!(waiting.len(), 2);
    assert!(matches!(collect(&mut channel), Some(Reply::Received(_))));
    assert!(matches!(collect(&mut channel), Some(Reply::Received(_))));
    assert!(matches!(deliver(&mut channel, &mut waiting), Some(Reply::Done)));
    let mut keys: Vec<Vec<u8>> = Vec::new();
    while let Some(Reply::Received(payload)) = collect(&mut channel) {
        keys.push(payload.key);
    }
    assert_eq!(keys, vec![b"k3".to_vec(), b"k4".to_vec()]);
}

#[test]
fn a_send_after_the_consumer_has_gone_fails() {
    let mut channel = Channel::new(2);
    channel.abandon();
    let mut waiting = outbox(2);
    assert!(matches!(deliver(&mut channel, &mut waiting), Some(Reply::Failed)));
    assert_eq!(waiting.len(), 2);
    assert_eq!(channel.len(), 0);
    let mut full = Channel::new(1);
    let mut more = outbox(3);
    assert!(deliver(&mut full, &mut more).is_none());
    full.abandon();
    assert!(matches!(deliver(&mut full, &mut more), Some(Reply::Failed)));
}

#[test]
fn receiving_waits_on_an_open_channel_and_ends_on_a_released_one() {
    let mut channel = Channel::new(2);
    assert!(collect(&mut channel).is_none());
    let mut waiting = outbox(1);
    assert!(matches!(deliver(&mut channel, &mut waiting), Some(Reply::Done)));
    channel.release();
    assert!(matches!(collect(&mut channel), Some(Reply::Received(_))));
    assert!(matches!(collect(&mut channel), Some(Reply::End)));
}
