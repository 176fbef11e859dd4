use coffee_points::message::Message;
use coffee_points::order::{Order, OrderAction};

fn test_message(message: Message) {
    let buf = message.encode();
    let message2 = Message::decode(buf.as_slice()).unwrap();
    assert_eq!(message, message2);
}

#[test]
fn lock_order() {
    let order = Order::new(1, OrderAction::UsePoints(123));
    let message = Message::LockOrder(order);
    test_message(message);
}

#[test]
fn free_order() {
    let order = Order::new(50, OrderAction::UsePoints(123));
    let message = Message::FreeOrder(order);
    test_message(message);
}

#[test]
fn commit_order() {
    let order = Order::new(30, OrderAction::UsePoints(123));
    let message = Message::CommitOrder(order);
    test_message(message);
}

#[test]
fn order_roundtrip() {
    let order = Order::new(513, OrderAction::FillPoints(65535));
    let buf = order.encode();
    assert_eq!(Order::decode(buf.as_slice()), Some(order));
}

#[test]
fn exact_wire_layout() {
    // [msg_tag][action_tag][reserved][client_id be][points be]
    let message = Message::LockOrder(Order::new(1, OrderAction::UsePoints(123)));
    assert_eq!(message.encode(), vec![1, 1, 0, 0, 1, 0, 123]);

    let message = Message::CommitOrder(Order::new(258, OrderAction::FillPoints(515)));
    assert_eq!(message.encode(), vec![3, 2, 0, 1, 2, 2, 3]);
}

#[test]
fn decode_rejects_bad_tags() {
    // unknown message tag
    assert_eq!(Message::decode(&[9, 1, 0, 0, 1, 0, 123]), None);
    // unknown action tag inside the order
    assert_eq!(Message::decode(&[1, 7, 0, 0, 1, 0, 123]), None);
    assert_eq!(Order::decode(&[0, 0, 0, 1, 0, 123]), None);
}

#[test]
fn decode_rejects_short_reads() {
    // a read of fewer than seven bytes is treated as a disconnect upstream;
    // the decoder itself refuses it
    assert_eq!(Message::decode(&[1, 1, 0, 0, 1, 0]), None);
    assert_eq!(Message::decode(&[]), None);
    assert_eq!(Order::decode(&[1, 0, 0, 1]), None);
}
