//! Orders and their fixed six-byte wire form.
//!
//! An order is an immutable record of a client id and an action: fill points
//! (a cash purchase earns points) or use points (a redemption spends them).
//! The wire layout is fixed and big-endian:
//! `[action_tag:1][reserved:1][client_id:2][points:2]`
//! with `action_tag` 1 for use and 2 for fill; the reserved byte is written
//! as zero and ignored on decode.

use vstd::prelude::*;

verus! {

/// What an order does to a client's balance: fill adds points, use spends them.
#[derive(Clone, Copy, Debug, PartialEq, Eq, Structural)]
pub enum OrderAction {
    FillPoints(u16),
    UsePoints(u16),
}

/// An immutable client order: who it is for and what it does.
#[derive(Clone, Copy, Debug, PartialEq, Eq, Structural)]
pub struct Order {
    pub client_id: u16,
    pub action: OrderAction,
}

/// Number of bytes in the wire form of an `Order`.
pub const ORDER_BUFFER_SIZE: usize = 6;

/// The point count an action carries.
pub open spec fn spec_points(a: OrderAction) -> u16 {
    match a {
        OrderAction::FillPoints(n) => n,
        OrderAction::UsePoints(n) => n,
    }
}

/// The wire tag of an action: 1 for use, 2 for fill.
pub open spec fn spec_action_tag(a: OrderAction) -> u8 {
    match a {
        OrderAction::UsePoints(_) => 1,
        OrderAction::FillPoints(_) => 2,
    }
}

/// High byte of a big-endian 16-bit value.
pub open spec fn be16_hi(x: u16) -> u8 {
    (x / 256) as u8
}

/// Low byte of a big-endian 16-bit value.
pub open spec fn be16_lo(x: u16) -> u8 {
    (x % 256) as u8
}

/// The 16-bit value two big-endian bytes stand for.
pub open spec fn be16(hi: u8, lo: u8) -> u16 {
    (hi * 256 + lo) as u16
}

/// Splitting a 16-bit value into big-endian bytes and reading them back is
/// the identity.
pub proof fn lemma_be16_roundtrip(x: u16)
    ensures
        be16(be16_hi(x), be16_lo(x)) == x,
{
    assert(x / 256 < 256) by (nonlinear_arith);
    assert((x / 256) * 256 + x % 256 == x) by (nonlinear_arith);
}

/// The six-byte wire form of an order.
pub open spec fn spec_encode_order(o: Order) -> Seq<u8> {
    seq![
        spec_action_tag(o.action),
        0u8,
        be16_hi(o.client_id),
        be16_lo(o.client_id),
        be16_hi(spec_points(o.action)),
        be16_lo(spec_points(o.action)),
    ]
}

/// The order a six-byte buffer stands for, or `None` where the buffer is not
/// a valid wire form (wrong length or unknown action tag).
pub open spec fn spec_decode_order(s: Seq<u8>) -> Option<Order> {
    if s.len() != ORDER_BUFFER_SIZE {
        None
    } else if s[0] == 1 {
        Some(
            Order {
                client_id: be16(s[2], s[3]),
                action: OrderAction::UsePoints(be16(s[4], s[5])),
            },
        )
    } else if s[0] == 2 {
        Some(
            Order {
                client_id: be16(s[2], s[3]),
                action: OrderAction::FillPoints(be16(s[4], s[5])),
            },
        )
    } else {
        None
    }
}

/// Decoding the encoding of any order gives that order back.
pub proof fn lemma_order_roundtrip(o: Order)
    ensures
        spec_decode_order(spec_encode_order(o)) == Some(o),
{
    lemma_be16_roundtrip(o.client_id);
    lemma_be16_roundtrip(spec_points(o.action));
}

impl OrderAction {
    /// The point count this action carries.
    pub fn points(&self) -> (n: u16)
        ensures
            n == spec_points(*self),
    {
        match self {
            OrderAction::FillPoints(n) => *n,
            OrderAction::UsePoints(n) => *n,
        }
    }
}

impl Order {
    /// Builds an order for the given client and action.
    pub fn new(client_id: u16, action: OrderAction) -> (o: Order)
        ensures
            o == (Order { client_id, action }),
    {
        Order { client_id, action }
    }

    /// Encodes this order into its six-byte wire form.
    pub fn encode(&self) -> (buf: Vec<u8>)
        ensures
            buf@ == spec_encode_order(*self),
    {
        let mut buf: Vec<u8> = Vec::new();
        let tag: u8 = match self.action {
            OrderAction::UsePoints(_) => 1,
            OrderAction::FillPoints(_) => 2,
        };
        let points = self.action.points();
        buf.push(tag);
        buf.push(0);
        buf.push((self.client_id / 256) as u8);
        buf.push((self.client_id % 256) as u8);
        buf.push((points / 256) as u8);
        buf.push((points % 256) as u8);
        proof {
            assert(buf@ =~= spec_encode_order(*self));
        }
        buf
    }

    /// Decodes a six-byte wire form; `None` on any malformed input.
    pub fn decode(buf: &[u8]) -> (r: Option<Order>)
        ensures
            r == spec_decode_order(buf@),
    {
        if buf.len() != ORDER_BUFFER_SIZE {
            return None;
        }
        let client_id: u16 = (buf[2] as u16) * 256 + (buf[3] as u16);
        let points: u16 = (buf[4] as u16) * 256 + (buf[5] as u16);
        if buf[0] == 1 {
            Some(Order { client_id, action: OrderAction::UsePoints(points) })
        } else if buf[0] == 2 {
            Some(Order { client_id, action: OrderAction::FillPoints(points) })
        } else {
            None
        }
    }
}

} // verus!
