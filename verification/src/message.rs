//! Client messages and their fixed seven-byte wire form.
//!
//! A client sends one of three messages about an order: lock its points,
//! free a prior lock, or commit it.  The wire layout is one tag byte (1 for
//! lock, 2 for free, 3 for commit) followed by the six-byte order.

use vstd::prelude::*;

use crate::order::{spec_decode_order, spec_encode_order, Order, ORDER_BUFFER_SIZE};
use crate::order::lemma_order_roundtrip;

verus! {

/// A client's request about one order.
#[derive(Clone, Copy, Debug, PartialEq, Eq, Structural)]
pub enum Message {
    LockOrder(Order),
    FreeOrder(Order),
    CommitOrder(Order),
}

/// Number of bytes in the wire form of a `Message`.
pub const MESSAGE_BUFFER_SIZE: usize = 7;

/// The wire tag of a message: 1 for lock, 2 for free, 3 for commit.
pub open spec fn spec_message_tag(m: Message) -> u8 {
    match m {
        Message::LockOrder(_) => 1,
        Message::FreeOrder(_) => 2,
        Message::CommitOrder(_) => 3,
    }
}

/// The order a message carries.
pub open spec fn spec_message_order(m: Message) -> Order {
    match m {
        Message::LockOrder(o) => o,
        Message::FreeOrder(o) => o,
        Message::CommitOrder(o) => o,
    }
}

/// The seven-byte wire form of a message.
pub open spec fn spec_encode_message(m: Message) -> Seq<u8> {
    seq![spec_message_tag(m)] + spec_encode_order(spec_message_order(m))
}

/// The message a seven-byte buffer stands for, or `None` where the buffer is
/// not a valid wire form (wrong length, unknown message tag, or a malformed
/// order).
pub open spec fn spec_decode_message(s: Seq<u8>) -> Option<Message> {
    if s.len() != MESSAGE_BUFFER_SIZE {
        None
    } else {
        match spec_decode_order(s.subrange(1, MESSAGE_BUFFER_SIZE as int)) {
            None => None,
            Some(order) => if s[0] == 1 {
                Some(Message::LockOrder(order))
            } else if s[0] == 2 {
                Some(Message::FreeOrder(order))
            } else if s[0] == 3 {
                Some(Message::CommitOrder(order))
            } else {
                None
            },
        }
    }
}

/// Decoding the encoding of any message gives that message back.
pub proof fn lemma_message_roundtrip(m: Message)
    ensures
        spec_decode_message(spec_encode_message(m)) == Some(m),
{
    let s = spec_encode_message(m);
    assert(s.subrange(1, MESSAGE_BUFFER_SIZE as int) =~= spec_encode_order(spec_message_order(m)));
    lemma_order_roundtrip(spec_message_order(m));
}

impl Message {
    /// The order this message carries.
    pub fn order(&self) -> (o: Order)
        ensures
            o == spec_message_order(*self),
    {
        match self {
            Message::LockOrder(o) => *o,
            Message::FreeOrder(o) => *o,
            Message::CommitOrder(o) => *o,
        }
    }

    /// Encodes this message into its seven-byte wire form.
    pub fn encode(&self) -> (buf: Vec<u8>)
        ensures
            buf@ == spec_encode_message(*self),
    {
        let tag: u8 = match self {
            Message::LockOrder(_) => 1,
            Message::FreeOrder(_) => 2,
            Message::CommitOrder(_) => 3,
        };
        let order_buf = self.order().encode();
        let mut buf: Vec<u8> = Vec::new();
        buf.push(tag);
        let mut i: usize = 0;
        while i < order_buf.len()
            invariant
                i <= order_buf.len(),
                order_buf@ == spec_encode_order(spec_message_order(*self)),
                buf@ == seq![spec_message_tag(*self)] + order_buf@.subrange(0, i as int),
            decreases order_buf.len() - i,
        {
            buf.push(order_buf[i]);
            i = i + 1;
            proof {
                assert(buf@ =~= seq![spec_message_tag(*self)] + order_buf@.subrange(0, i as int));
            }
        }
        proof {
            assert(order_buf@.subrange(0, order_buf@.len() as int) =~= order_buf@);
            assert(buf@ =~= spec_encode_message(*self));
        }
        buf
    }

    /// Decodes a seven-byte wire form; `None` on any malformed input.
    pub fn decode(buf: &[u8]) -> (r: Option<Message>)
        ensures
            r == spec_decode_message(buf@),
    {
        if buf.len() != MESSAGE_BUFFER_SIZE {
            return None;
        }
        let mut order_buf: Vec<u8> = Vec::new();
        let mut i: usize = 1;
        while i < MESSAGE_BUFFER_SIZE
            invariant
                1 <= i <= MESSAGE_BUFFER_SIZE,
                buf@.len() == MESSAGE_BUFFER_SIZE,
                order_buf@ == buf@.subrange(1, i as int),
            decreases MESSAGE_BUFFER_SIZE - i,
        {
            order_buf.push(buf[i]);
            i = i + 1;
            proof {
                assert(order_buf@ =~= buf@.subrange(1, i as int));
            }
        }
        let order = match Order::decode(order_buf.as_slice()) {
            Some(order) => order,
            None => {
                return None;
            },
        };
        if buf[0] == 1 {
            Some(Message::LockOrder(order))
        } else if buf[0] == 2 {
            Some(Message::FreeOrder(order))
        } else if buf[0] == 3 {
            Some(Message::CommitOrder(order))
        } else {
            None
        }
    }
}

} // verus!
