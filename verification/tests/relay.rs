use std::collections::HashMap;

use tchat::pool::{Delivery, Reading, StreamPool};
use tchat::tcp::{Setting, TcpStreamWrapper, TransportFault};

fn link(id: u64) -> TcpStreamWrapper {
    let mut stream = TcpStreamWrapper::new(id);
    stream.configure(None).unwrap();
    stream
}

fn pool_of(ids: &[u64]) -> StreamPool {
    let mut pool = StreamPool::new();
    for id in ids {
        pool.add_strean(link(*id));
    }
    pool
}

fn line(id: u64, text: &str) -> Reading {
    Reading { id, outcome: Ok(text.to_string()) }
}

fn fault(id: u64, fault: TransportFault) -> Reading {
    Reading { id, outcome: Err(fault) }
}

fn delivery(recipient: u64, sender: u64, message: &str) -> Delivery {
    Delivery { recipient, sender, message: message.to_string() }
}

fn sorted(mut plan: Vec<Delivery>) -> Vec<Delivery> {
    plan.sort_by(|a, b| (a.recipient, a.sender).cmp(&(b.recipient, b.sender)));
    plan
}

fn batch_of(entries: &[(u64, &str)]) -> HashMap<u64, String> {
    let mut batch = HashMap::new();
    for (id, text) in entries {
        batch.insert(*id, text.to_string());
    }
    batch
}

#[test]
fn new_pool_is_empty() {
    let pool = StreamPool::new();
    assert_eq!(pool.len(), 0);
    assert!(pool.stream_ids().is_empty());
    assert_eq!(pool.get(1), None);
}

#[test]
fn added_links_are_on_file_under_their_identity() {
    let pool = pool_of(&[10, 20, 30]);
    assert_eq!(pool.len(), 3);
    let mut ids = pool.stream_ids();
    ids.sort();
    assert_eq!(ids, vec![10, 20, 30]);
    assert_eq!(pool.get(20), Some(link(20)));
    assert_eq!(pool.get(40), None);
}

#[test]
fn adding_under_a_taken_identity_replaces_the_link() {
    let mut pool = pool_of(&[10, 20]);
    pool.add_strean(link(10));
    assert_eq!(pool.len(), 2);
    let mut ids = pool.stream_ids();
    ids.sort();
    assert_eq!(ids, vec![10, 20]);
}

#[test]
fn removed_link_is_off_file() {
    let mut pool = pool_of(&[10, 20]);
    assert_eq!(pool.remove(10), Some(link(10)));
    assert_eq!(pool.remove(10), None);
    assert_eq!(pool.stream_ids(), vec![20]);
    let plan = pool.relay(vec![line(20, "x\n"), line(10, "y\n")]);
    assert!(plan.is_empty());
}

#[test]
fn poll_keeps_lines_of_links_on_file() {
    let pool = pool_of(&[1, 2, 3]);
    let batch = pool.read_message_from_nodes(vec![
        line(1, "hello\n"),
        fault(2, TransportFault::WouldBlock),
        line(3, "world\n"),
    ]);
    assert_eq!(batch, batch_of(&[(1, "hello\n"), (3, "world\n")]));
}

#[test]
fn poll_drops_what_is_no_line() {
    let pool = pool_of(&[1, 2, 3, 4]);
    let batch = pool.read_message_from_nodes(vec![
        line(1, "no line feed"),
        line(2, ""),
        fault(3, TransportFault::ConnectionReset),
        fault(4, TransportFault::Other),
    ]);
    assert!(batch.is_empty());
}

#[test]
fn poll_cuts_each_text_to_its_first_line() {
    let pool = pool_of(&[1]);
    let batch = pool.read_message_from_nodes(vec![line(1, "a\nb\nc\n")]);
    assert_eq!(batch, batch_of(&[(1, "a\n")]));
}

#[test]
fn poll_ignores_links_that_are_not_on_file() {
    let pool = pool_of(&[1]);
    let batch = pool.read_message_from_nodes(vec![line(1, "in\n"), line(2, "out\n")]);
    assert_eq!(batch, batch_of(&[(1, "in\n")]));
}

#[test]
fn poll_keeps_the_last_line_of_a_link() {
    let pool = pool_of(&[1, 2]);
    let batch = pool.read_message_from_nodes(vec![
        line(1, "first\n"),
        line(2, "other\n"),
        line(1, "second\n"),
        fault(1, TransportFault::WouldBlock),
        line(1, "no line"),
    ]);
    assert_eq!(batch, batch_of(&[(1, "second\n"), (2, "other\n")]));
}

#[test]
fn poll_without_readings_is_empty() {
    let pool = pool_of(&[1, 2]);
    assert!(pool.read_message_from_nodes(Vec::new()).is_empty());
}

#[test]
fn polling_twice_without_data_is_empty_both_times() {
    let pool = pool_of(&[1, 2]);
    let quiet = || vec![fault(1, TransportFault::WouldBlock), fault(2, TransportFault::WouldBlock)];
    assert!(pool.read_message_from_nodes(quiet()).is_empty());
    assert!(pool.read_message_from_nodes(quiet()).is_empty());
    assert!(pool.relay(quiet()).is_empty());
}

#[test]
fn broadcast_reaches_everyone_but_the_sender() {
    let pool = pool_of(&[1, 2, 3, 4]);
    let plan = sorted(pool.broadcast_message(batch_of(&[(2, "hi\n")])));
    assert_eq!(plan, vec![delivery(1, 2, "hi\n"), delivery(3, 2, "hi\n"), delivery(4, 2, "hi\n")]);
}

#[test]
fn broadcast_of_several_lines_crosses_them() {
    let pool = pool_of(&[1, 2, 3]);
    let plan = sorted(pool.broadcast_message(batch_of(&[(1, "a\n"), (3, "c\n")])));
    assert_eq!(
        plan,
        vec![
            delivery(1, 3, "c\n"),
            delivery(2, 1, "a\n"),
            delivery(2, 3, "c\n"),
            delivery(3, 1, "a\n"),
        ]
    );
}

#[test]
fn broadcast_of_an_empty_batch_plans_nothing() {
    let pool = pool_of(&[1, 2, 3]);
    assert!(pool.broadcast_message(HashMap::new()).is_empty());
}

#[test]
fn broadcast_on_an_empty_pool_plans_nothing() {
    let pool = StreamPool::new();
    assert!(pool.broadcast_message(batch_of(&[(1, "a\n")])).is_empty());
}

#[test]
fn broadcast_to_the_only_link_plans_nothing_for_its_own_line() {
    let pool = pool_of(&[1]);
    assert!(pool.broadcast_message(batch_of(&[(1, "a\n")])).is_empty());
}

#[test]
fn broadcast_carries_the_line_of_a_sender_that_is_not_on_file() {
    let pool = pool_of(&[1, 2]);
    let plan = sorted(pool.broadcast_message(batch_of(&[(9, "z\n")])));
    assert_eq!(plan, vec![delivery(1, 9, "z\n"), delivery(2, 9, "z\n")]);
}

#[test]
fn one_sender_after_one_cycle() {
    let pool = pool_of(&[1, 2, 3]);
    let plan = sorted(pool.relay(vec![
        line(1, "hello\n"),
        fault(2, TransportFault::WouldBlock),
        fault(3, TransportFault::WouldBlock),
    ]));
    assert_eq!(plan, vec![delivery(2, 1, "hello\n"), delivery(3, 1, "hello\n")]);
    assert!(plan.iter().all(|entry| entry.recipient != 1));
}

#[test]
fn two_senders_in_one_cycle() {
    let pool = pool_of(&[1, 2]);
    let plan = sorted(pool.relay(vec![line(1, "a\n"), line(2, "b\n")]));
    assert_eq!(plan, vec![delivery(1, 2, "b\n"), delivery(2, 1, "a\n")]);
    assert!(plan.iter().all(|entry| entry.recipient != entry.sender));
}

#[test]
fn refused_link_takes_no_part_in_a_cycle() {
    let mut pool = pool_of(&[1, 2]);
    let mut refused = TcpStreamWrapper::new(3);
    assert!(refused.configure(Some(Setting::NoDelay)).is_err());
    if refused.configured() {
        pool.add_strean(refused);
    }
    assert_eq!(pool.get(3), None);
    assert!(!pool.stream_ids().contains(&3));
    let batch = pool.read_message_from_nodes(vec![line(3, "sneak\n"), line(1, "a\n")]);
    assert_eq!(batch, batch_of(&[(1, "a\n")]));
    let plan = pool.broadcast_message(batch);
    assert_eq!(plan, vec![delivery(2, 1, "a\n")]);
}

#[test]
fn failed_write_to_one_link_leaves_the_others_their_delivery() {
    let pool = pool_of(&[1, 2, 3]);
    let plan = pool.relay(vec![line(1, "m\n")]);
    let mut reached: Vec<u64> = Vec::new();
    let mut failed: Vec<u64> = Vec::new();
    for entry in &plan {
        let stream = pool.get(entry.recipient).unwrap();
        let outcome = if entry.recipient == 2 { Err(TransportFault::Other) } else { Ok(()) };
        match stream.write(outcome) {
            Ok(()) => reached.push(entry.recipient),
            Err(_) => failed.push(entry.recipient),
        }
    }
    assert_eq!(failed, vec![2]);
    assert_eq!(reached, vec![3]);
}
