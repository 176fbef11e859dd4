use coffee_points::message::Message;
use coffee_points::order::{Order, OrderAction};
use coffee_points::replica::{decide, Pending, PendingState, Replica, ReplicaError};
use coffee_points::transaction::{Transaction, TransactionAction, TransactionState};

const ADDR: &str = "127.0.0.1:9001";

fn lock(client: u16, points: u16) -> Message {
    Message::LockOrder(Order::new(client, OrderAction::UsePoints(points)))
}

fn free(client: u16, points: u16) -> Message {
    Message::FreeOrder(Order::new(client, OrderAction::UsePoints(points)))
}

fn consume(client: u16, points: u16) -> Message {
    Message::CommitOrder(Order::new(client, OrderAction::UsePoints(points)))
}

fn fill(client: u16, points: u16) -> Message {
    Message::CommitOrder(Order::new(client, OrderAction::FillPoints(points)))
}

#[test]
fn s1_happy_path() {
    let mut replica = Replica::new();
    assert_eq!(replica.handle_message(&fill(1, 100), ADDR.to_string(), 1), 1);
    assert_eq!(replica.ledger.available(1), 100);
    assert_eq!(replica.ledger.locked(1), 0);

    assert_eq!(replica.handle_message(&lock(1, 30), ADDR.to_string(), 2), 1);
    assert_eq!(replica.ledger.available(1), 70);
    assert_eq!(replica.ledger.locked(1), 30);

    assert_eq!(replica.handle_message(&consume(1, 30), ADDR.to_string(), 3), 1);
    assert_eq!(replica.ledger.available(1), 70);
    assert_eq!(replica.ledger.locked(1), 0);
}

#[test]
fn s2_insufficient_funds() {
    let mut replica = Replica::new();
    assert_eq!(replica.handle_message(&fill(1, 10), ADDR.to_string(), 1), 1);

    assert_eq!(replica.handle_message(&lock(1, 50), ADDR.to_string(), 2), 0);
    assert_eq!(replica.ledger.available(1), 10);
    assert_eq!(replica.ledger.locked(1), 0);
}

#[test]
fn s3_free_after_lock() {
    let mut replica = Replica::new();
    assert_eq!(replica.handle_message(&fill(1, 100), ADDR.to_string(), 1), 1);

    assert_eq!(replica.handle_message(&lock(1, 40), ADDR.to_string(), 2), 1);
    assert_eq!(replica.ledger.available(1), 60);
    assert_eq!(replica.ledger.locked(1), 40);

    assert_eq!(replica.handle_message(&free(1, 40), ADDR.to_string(), 3), 1);
    assert_eq!(replica.ledger.available(1), 100);
    assert_eq!(replica.ledger.locked(1), 0);
}

#[test]
fn s4_timestamp_tiebreak() {
    // two replicas; coordinator addresses with A < B lexicographically
    let addr_a = "10.0.0.1:9000";
    let addr_b = "10.0.0.2:9000";
    let mut replica_a = Replica::new();
    let mut replica_b = Replica::new();
    assert_eq!(replica_a.handle_message(&fill(7, 60), addr_a.to_string(), 1), 1);
    assert_eq!(replica_b.handle_message(&fill(7, 60), addr_b.to_string(), 1), 1);

    // both coordinators lock 50 points of client 7 in the same millisecond
    let tx_a = Transaction::with_timestamp(addr_a.to_string(), &lock(7, 50), 1000).unwrap();
    let tx_b = Transaction::with_timestamp(addr_b.to_string(), &lock(7, 50), 1000).unwrap();
    assert!(tx_a.older_than(&tx_b));

    // the older transaction's prepares land first and are granted
    assert_eq!(replica_a.prepare(&tx_a), Ok(()));
    assert_eq!(replica_b.prepare(&tx_a), Ok(()));

    // the younger one is refused at both participants: an older lock is pending
    assert_eq!(replica_a.prepare(&tx_b), Err(ReplicaError::OrderingConflict));
    assert_eq!(replica_b.prepare(&tx_b), Err(ReplicaError::OrderingConflict));

    // coordinator A saw two Proceed votes and commits everywhere
    let votes = vec![TransactionState::Proceed, TransactionState::Proceed];
    let verdict = decide(&votes);
    assert_eq!(verdict, TransactionState::Proceed);
    assert_eq!(replica_a.finalize(&tx_a, verdict), Ok(()));
    assert_eq!(replica_b.finalize(&tx_a, verdict), Ok(()));

    assert_eq!(replica_a.ledger.available(7), 10);
    assert_eq!(replica_a.ledger.locked(7), 50);
    assert_eq!(replica_b.ledger.available(7), 10);
    assert_eq!(replica_b.ledger.locked(7), 50);

    // the younger coordinator retries with a fresh, larger timestamp; only
    // ten points are left, so the retry is refused for funds, not ordering
    let tx_b2 = Transaction::with_timestamp(addr_b.to_string(), &lock(7, 50), 1001).unwrap();
    assert_eq!(replica_b.prepare(&tx_b2), Err(ReplicaError::InsufficientFunds));
    let tx_b3 = Transaction::with_timestamp(addr_b.to_string(), &lock(7, 10), 1002).unwrap();
    assert_eq!(replica_b.prepare(&tx_b3), Ok(()));
}

#[test]
fn s5_peer_timeout() {
    let mut replica_a = Replica::new();
    assert_eq!(replica_a.handle_message(&fill(1, 100), ADDR.to_string(), 1), 1);

    // coordinator A prepares locally; the partitioned peer never answers
    let tx = Transaction::with_timestamp(ADDR.to_string(), &lock(1, 30), 1000).unwrap();
    assert_eq!(replica_a.prepare(&tx), Ok(()));
    let votes = vec![TransactionState::Proceed, TransactionState::Timeout];
    let verdict = decide(&votes);
    assert_eq!(verdict, TransactionState::Abort);

    // the abort releases the reservation; the ledger is unchanged
    assert_eq!(replica_a.finalize(&tx, verdict), Ok(()));
    assert_eq!(replica_a.ledger.available(1), 100);
    assert_eq!(replica_a.ledger.locked(1), 0);

    // the client sees the error byte
    assert_eq!(verdict.to_wire_byte(), 0);
}

#[test]
fn s6_add_and_consume() {
    let mut replica = Replica::new();
    assert_eq!(replica.ledger.available(1), 0);
    assert_eq!(replica.ledger.locked(1), 0);

    assert_eq!(replica.handle_message(&fill(1, 25), ADDR.to_string(), 1), 1);
    assert_eq!(replica.ledger.available(1), 25);

    assert_eq!(replica.handle_message(&lock(1, 25), ADDR.to_string(), 2), 1);
    assert_eq!(replica.handle_message(&consume(1, 25), ADDR.to_string(), 3), 1);
    assert_eq!(replica.ledger.available(1), 0);
    assert_eq!(replica.ledger.locked(1), 0);
}

#[test]
fn conservation_across_a_run() {
    // available + locked only moves by committed adds and consumes
    let mut replica = Replica::new();
    let total = |r: &Replica| r.ledger.available(3) as u64 + r.ledger.locked(3) as u64;

    assert_eq!(replica.handle_message(&fill(3, 40), ADDR.to_string(), 1), 1);
    assert_eq!(total(&replica), 40);

    assert_eq!(replica.handle_message(&lock(3, 25), ADDR.to_string(), 2), 1);
    assert_eq!(total(&replica), 40);

    assert_eq!(replica.handle_message(&free(3, 25), ADDR.to_string(), 3), 1);
    assert_eq!(total(&replica), 40);

    assert_eq!(replica.handle_message(&lock(3, 10), ADDR.to_string(), 4), 1);
    assert_eq!(total(&replica), 40);

    assert_eq!(replica.handle_message(&consume(3, 10), ADDR.to_string(), 5), 1);
    assert_eq!(total(&replica), 30);

    assert_eq!(replica.handle_message(&fill(3, 5), ADDR.to_string(), 6), 1);
    assert_eq!(total(&replica), 35);

    // a refused lock moves nothing
    assert_eq!(replica.handle_message(&lock(3, 1000), ADDR.to_string(), 7), 0);
    assert_eq!(total(&replica), 35);
}

#[test]
fn free_without_lock_is_refused() {
    let mut replica = Replica::new();
    assert_eq!(replica.handle_message(&fill(1, 100), ADDR.to_string(), 1), 1);

    let tx = Transaction::with_timestamp(ADDR.to_string(), &free(1, 40), 1000).unwrap();
    assert_eq!(replica.prepare(&tx), Err(ReplicaError::MissingPendingLock));

    // a consume without a matching lock is refused the same way
    let tx = Transaction::with_timestamp(ADDR.to_string(), &consume(1, 40), 1001).unwrap();
    assert_eq!(replica.prepare(&tx), Err(ReplicaError::MissingPendingLock));
}

#[test]
fn duplicate_key_is_an_ordering_conflict() {
    let mut replica = Replica::new();
    assert_eq!(replica.handle_message(&fill(1, 100), ADDR.to_string(), 1), 1);

    let tx = Transaction::with_timestamp(ADDR.to_string(), &lock(1, 10), 1000).unwrap();
    assert_eq!(replica.prepare(&tx), Ok(()));
    // the same coordinator, timestamp and client again: refused
    let tx2 = Transaction::with_timestamp(ADDR.to_string(), &lock(1, 20), 1000).unwrap();
    assert_eq!(replica.prepare(&tx2), Err(ReplicaError::OrderingConflict));
}

#[test]
fn verdict_without_prepare_is_refused() {
    let mut replica = Replica::new();
    let tx = Transaction::with_timestamp(ADDR.to_string(), &lock(1, 10), 1000).unwrap();
    assert_eq!(
        replica.finalize(&tx, TransactionState::Proceed),
        Err(ReplicaError::MissingPendingLock)
    );
}

#[test]
fn underflow_is_surfaced_not_panicked() {
    // a committed lock record with no points actually locked in the ledger
    // is an internal inconsistency that correct protocol runs never build;
    // the engine reports it instead of panicking
    let mut replica = Replica::new();
    replica.pending.push(Pending {
        client_id: 1,
        coordinator: ADDR.to_string(),
        timestamp: 5,
        action: TransactionAction::Lock,
        points: 10,
        state: PendingState::Committed,
        claimed: false,
        target_timestamp: None,
    });
    let tx = Transaction::with_timestamp(ADDR.to_string(), &free(1, 10), 1000).unwrap();
    assert_eq!(replica.prepare(&tx), Ok(()));
    assert_eq!(
        replica.finalize(&tx, TransactionState::Proceed),
        Err(ReplicaError::Underflow)
    );
}

#[test]
fn partial_consume_keeps_the_remainder_locked() {
    let mut replica = Replica::new();
    assert_eq!(replica.handle_message(&fill(1, 100), ADDR.to_string(), 1), 1);
    assert_eq!(replica.handle_message(&lock(1, 40), ADDR.to_string(), 2), 1);

    assert_eq!(replica.handle_message(&consume(1, 15), ADDR.to_string(), 3), 1);
    assert_eq!(replica.ledger.available(1), 60);
    assert_eq!(replica.ledger.locked(1), 25);

    assert_eq!(replica.handle_message(&consume(1, 25), ADDR.to_string(), 4), 1);
    assert_eq!(replica.ledger.locked(1), 0);
}

#[test]
fn decide_commits_only_on_unanimity() {
    let proceed = TransactionState::Proceed;
    let abort = TransactionState::Abort;
    assert_eq!(decide(&vec![proceed, proceed, proceed]), proceed);
    assert_eq!(decide(&vec![proceed, abort, proceed]), abort);
    assert_eq!(decide(&vec![TransactionState::Timeout]), abort);
    assert_eq!(decide(&vec![proceed, TransactionState::Disconnected]), abort);
    assert_eq!(decide(&vec![]), proceed);
}

#[test]
fn invalid_message_is_refused_without_effect() {
    let mut replica = Replica::new();
    assert_eq!(replica.handle_message(&fill(1, 100), ADDR.to_string(), 1), 1);
    // locking filled points is not a valid combination
    let bad = Message::LockOrder(Order::new(1, OrderAction::FillPoints(10)));
    assert_eq!(replica.handle_message(&bad, ADDR.to_string(), 2), 0);
    assert_eq!(replica.ledger.available(1), 100);
}
