use coffee_points::message::Message;
use coffee_points::order::{Order, OrderAction};
use coffee_points::transaction::{Transaction, TransactionAction, TransactionState};

#[test]
fn test_hello_world() {
    assert_eq!(1, 1);
}

#[test]
fn test_transaction_timestamps() {
    let order = Order::new(1, OrderAction::UsePoints(123));
    let message = Message::LockOrder(order);
    let transaction = Transaction::new("127.0.0.1:9001".to_string(), &message).unwrap();

    let other_order = Order::new(1, OrderAction::UsePoints(123));
    let other_message = Message::LockOrder(other_order);
    let other_transaction =
        Transaction::new("127.0.0.1:9002".to_string(), &other_message).unwrap();

    assert_eq!(true, transaction.older_than(&other_transaction));
}

#[test]
#[should_panic]
fn test_transaction_err() {
    let order = Order::new(1, OrderAction::FillPoints(42));
    let message = Message::LockOrder(order);
    Transaction::new("127.0.0.1:9001".to_string(), &message).unwrap();
}

#[test]
#[should_panic]
fn test_transaction_err_2() {
    let order = Order::new(1, OrderAction::FillPoints(42));
    let message = Message::FreeOrder(order);
    Transaction::new("127.0.0.1:9001".to_string(), &message).unwrap();
}

fn lock_tx(coordinator: &str, timestamp: u128) -> Transaction {
    let message = Message::LockOrder(Order::new(1, OrderAction::UsePoints(10)));
    Transaction::with_timestamp(coordinator.to_string(), &message, timestamp).unwrap()
}

#[test]
fn older_than_prefers_smaller_timestamp() {
    let a = lock_tx("127.0.0.1:9002", 1000);
    let b = lock_tx("127.0.0.1:9001", 2000);
    assert!(a.older_than(&b));
    assert!(!b.older_than(&a));
}

#[test]
fn older_than_breaks_ties_by_address() {
    let a = lock_tx("127.0.0.1:9001", 1000);
    let b = lock_tx("127.0.0.1:9002", 1000);
    assert!(a.older_than(&b));
    assert!(!b.older_than(&a));
}

#[test]
fn older_than_is_total() {
    // for any pair differing in coordinator or timestamp, exactly one
    // direction of the order holds
    let pairs = [
        (lock_tx("a", 1), lock_tx("b", 1)),
        (lock_tx("b", 1), lock_tx("a", 2)),
        (lock_tx("same", 3), lock_tx("same", 4)),
        (lock_tx("", 5), lock_tx("x", 5)),
    ];
    for (t1, t2) in pairs.iter() {
        assert!(t1.older_than(t2) != t2.older_than(t1));
    }
}

#[test]
fn transaction_fields_follow_the_message() {
    let message = Message::CommitOrder(Order::new(7, OrderAction::FillPoints(25)));
    let tx = Transaction::with_timestamp("addr".to_string(), &message, 99).unwrap();
    assert_eq!(tx.coordinator, "addr".to_string());
    assert_eq!(tx.timestamp, 99);
    assert_eq!(tx.client_id, 7);
    assert_eq!(tx.action, TransactionAction::Add);
    assert_eq!(tx.points, 25);

    let message = Message::CommitOrder(Order::new(7, OrderAction::UsePoints(25)));
    let tx = Transaction::with_timestamp("addr".to_string(), &message, 100).unwrap();
    assert_eq!(tx.action, TransactionAction::Consume);
}

#[test]
fn invalid_combinations_are_rejected() {
    let lock_fill = Message::LockOrder(Order::new(1, OrderAction::FillPoints(5)));
    let free_fill = Message::FreeOrder(Order::new(1, OrderAction::FillPoints(5)));
    assert!(Transaction::with_timestamp("a".to_string(), &lock_fill, 1).is_err());
    assert!(Transaction::with_timestamp("a".to_string(), &free_fill, 1).is_err());
}

#[test]
fn wire_bytes_for_votes_and_verdicts() {
    assert_eq!(TransactionState::Proceed.to_wire_byte(), 1);
    assert_eq!(TransactionState::Abort.to_wire_byte(), 0);
    // timeouts and disconnects are never transmitted as such: they go out
    // as a conservative abort
    assert_eq!(TransactionState::Timeout.to_wire_byte(), 0);
    assert_eq!(TransactionState::Disconnected.to_wire_byte(), 0);
    assert_eq!(TransactionState::from_wire_byte(1), TransactionState::Proceed);
    assert_eq!(TransactionState::from_wire_byte(0), TransactionState::Abort);
    assert_eq!(TransactionState::from_wire_byte(7), TransactionState::Abort);
}
