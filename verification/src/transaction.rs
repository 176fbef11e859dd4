//! Distributed transactions and their strict total order.
//!
//! A transaction is the unit of agreement between replicas: it names the
//! coordinating replica, carries the coordinator's wall-clock timestamp, and
//! says what it does to one client's points.  Two transactions are ordered by
//! timestamp, ties broken by lexicographic comparison of the coordinator
//! addresses; this order is strict and total over transactions that differ in
//! timestamp or coordinator, which is what makes the tie-break deadlock-free.

use vstd::prelude::*;
use vstd::string::StrSliceExecFns;

use crate::message::{spec_message_order, Message};
use crate::order::{spec_points, OrderAction};

verus! {

/// How long a coordinator waits for a participant's vote, in milliseconds.
pub const PREPARE_TIMEOUT_MILLIS: u64 = 1000;

/// How long a participant waits for the coordinator's verdict, in milliseconds.
pub const COMMIT_TIMEOUT_MILLIS: u64 = 3000;

/// The outcome a coordinator or participant observes for one exchange.
/// `Timeout` and `Disconnected` are inferred locally and never transmitted.
#[derive(Clone, Copy, Debug, PartialEq, Eq, Structural)]
pub enum TransactionState {
    Disconnected,
    Abort,
    Proceed,
    Timeout,
}

/// What a transaction does to a client's balance.
#[derive(Clone, Copy, Debug, PartialEq, Eq, Structural)]
pub enum TransactionAction {
    Add,
    Lock,
    Free,
    Consume,
}

/// How far a transaction got on this replica.
#[derive(Clone, Copy, Debug, PartialEq, Eq, Structural)]
pub enum TxOk {
    Finalized,
    Pending,
}

/// One distributed transaction.
#[derive(Debug, Clone)]
pub struct Transaction {
    pub coordinator: String,
    pub timestamp: u128,
    pub client_id: u16,
    pub action: TransactionAction,
    pub points: usize,
}

/// Strict lexicographic order on character sequences: a proper prefix comes
/// first, and otherwise the first differing character decides.
pub open spec fn lex_lt(a: Seq<char>, b: Seq<char>) -> bool
    decreases a.len(),
{
    if b.len() == 0 {
        false
    } else if a.len() == 0 {
        true
    } else if a[0] != b[0] {
        (a[0] as int) < (b[0] as int)
    } else {
        lex_lt(a.skip(1), b.skip(1))
    }
}

/// Of two sequences, exactly one of `lex_lt(a, b)`, `lex_lt(b, a)`, `a == b`
/// holds: the lexicographic order is strict and total.
pub proof fn lemma_lex_lt_trichotomy(a: Seq<char>, b: Seq<char>)
    ensures
        lex_lt(a, b) || lex_lt(b, a) || a =~= b,
        !(lex_lt(a, b) && lex_lt(b, a)),
        lex_lt(a, b) ==> !(a =~= b),
    decreases a.len(),
{
    if b.len() == 0 || a.len() == 0 {
    } else if a[0] != b[0] {
    } else {
        lemma_lex_lt_trichotomy(a.skip(1), b.skip(1));
        if a.skip(1) =~= b.skip(1) {
            assert(a.skip(1).len() == b.skip(1).len());
            assert forall|i: int| 0 <= i < a.len() implies a[i] == b[i] by {
                if i > 0 {
                    assert(a.skip(1)[i - 1] == a[i]);
                    assert(b.skip(1)[i - 1] == b[i]);
                }
            }
            assert(a =~= b);
        }
        if a =~= b {
            assert(a.skip(1) =~= b.skip(1));
        }
    }
}

/// Dropping an equal first character does not change the order.
proof fn lemma_lex_lt_step(a: Seq<char>, b: Seq<char>, i: int)
    requires
        0 <= i,
        i < a.len(),
        i < b.len(),
        a[i] == b[i],
    ensures
        lex_lt(a.skip(i), b.skip(i)) == lex_lt(a.skip(i + 1), b.skip(i + 1)),
{
    assert(a.skip(i).len() > 0);
    assert(b.skip(i).len() > 0);
    assert(a.skip(i)[0] == a[i]);
    assert(b.skip(i)[0] == b[i]);
    assert(a.skip(i).skip(1) =~= a.skip(i + 1));
    assert(b.skip(i).skip(1) =~= b.skip(i + 1));
}

/// Compares two strings in the lexicographic order of their characters.
pub fn str_lex_lt(a: &str, b: &str) -> (r: bool)
    ensures
        r == lex_lt(a@, b@),
{
    let a_len = a.unicode_len();
    let b_len = b.unicode_len();
    let mut i: usize = 0;
    proof {
        assert(a@.skip(0) =~= a@);
        assert(b@.skip(0) =~= b@);
    }
    while i < a_len && i < b_len
        invariant
            a_len == a@.len(),
            b_len == b@.len(),
            i <= a_len,
            i <= b_len,
            lex_lt(a@, b@) == lex_lt(a@.skip(i as int), b@.skip(i as int)),
        decreases a_len - i,
    {
        let ca = a.get_char(i);
        let cb = b.get_char(i);
        if ca != cb {
            return (ca as u32) < (cb as u32);
        }
        proof {
            lemma_lex_lt_step(a@, b@, i as int);
        }
        i = i + 1;
    }
    a_len < b_len
}

/// The transaction action a client message asks for, or `None` where the
/// pair of message and order action is invalid: points can be locked or
/// freed only to be used, and filled only by a commit.
pub open spec fn spec_action_for(m: Message) -> Option<TransactionAction> {
    match m {
        Message::LockOrder(o) => match o.action {
            OrderAction::UsePoints(_) => Some(TransactionAction::Lock),
            OrderAction::FillPoints(_) => None,
        },
        Message::FreeOrder(o) => match o.action {
            OrderAction::UsePoints(_) => Some(TransactionAction::Free),
            OrderAction::FillPoints(_) => None,
        },
        Message::CommitOrder(o) => match o.action {
            OrderAction::UsePoints(_) => Some(TransactionAction::Consume),
            OrderAction::FillPoints(_) => Some(TransactionAction::Add),
        },
    }
}

/// The strict total order on transaction keys: smaller timestamp first, ties
/// broken by the lexicographically smaller coordinator address.
pub open spec fn key_older(ts1: u128, co1: Seq<char>, ts2: u128, co2: Seq<char>) -> bool {
    if ts1 == ts2 {
        lex_lt(co1, co2)
    } else {
        ts1 < ts2
    }
}

/// Compares two transaction keys in the order `key_older` describes.
pub fn key_older_exec(ts1: u128, co1: &str, ts2: u128, co2: &str) -> (r: bool)
    ensures
        r == key_older(ts1, co1@, ts2, co2@),
{
    if ts1 == ts2 {
        str_lex_lt(co1, co2)
    } else {
        ts1 < ts2
    }
}

/// The strict total order on transactions: smaller timestamp first, ties
/// broken by the lexicographically smaller coordinator address.
pub open spec fn spec_older_than(a: Transaction, b: Transaction) -> bool {
    key_older(a.timestamp, a.coordinator@, b.timestamp, b.coordinator@)
}

/// Of two transactions that differ in timestamp or coordinator, exactly one
/// is older than the other.
pub proof fn lemma_older_than_total(a: Transaction, b: Transaction)
    requires
        a.timestamp != b.timestamp || a.coordinator@ != b.coordinator@,
    ensures
        spec_older_than(a, b) <==> !spec_older_than(b, a),
{
    if a.timestamp == b.timestamp {
        lemma_lex_lt_trichotomy(a.coordinator@, b.coordinator@);
    }
}

/// Milliseconds of wall-clock time since the Unix epoch, for ordering
/// concurrent transactions.
///
/// Relies on `std::time::SystemTime::now`, `SystemTime::duration_since` and
/// `Duration::as_millis`: the current time as a millisecond count.  Nothing
/// is promised of the value; a clock that reads before the epoch gives zero.
#[verifier::external_body]
fn generate_timestamp() -> u128 {
    match std::time::SystemTime::now().duration_since(std::time::UNIX_EPOCH) {
        Ok(since_the_epoch) => since_the_epoch.as_millis(),
        Err(_) => 0,
    }
}

impl Transaction {
    /// Builds the transaction a client message asks for, with the given
    /// coordinator address and timestamp.  Rejects the invalid pairs of
    /// message and order action.
    pub fn with_timestamp(coordinator: String, msg: &Message, timestamp: u128) -> (r: Result<
        Transaction,
        String,
    >)
        ensures
            r is Ok <==> spec_action_for(*msg) is Some,
            r matches Ok(t) ==> t.coordinator@ == coordinator@ && t.timestamp == timestamp
                && t.client_id == spec_message_order(*msg).client_id && Some(t.action)
                == spec_action_for(*msg) && t.points == spec_points(
                spec_message_order(*msg).action,
            ) as usize,
            r matches Err(e) ==> e@ == "Invalid message for transaction"@,
    {
        let action = match action_for(msg) {
            Some(action) => action,
            None => {
                return Err("Invalid message for transaction".to_owned());
            },
        };
        let order = msg.order();
        Ok(
            Transaction {
                coordinator,
                timestamp,
                client_id: order.client_id,
                action,
                points: order.action.points() as usize,
            },
        )
    }

    /// Creates a new transaction with the given coordinator as the origin
    /// address and the given message as the transaction action.  The
    /// timestamp is drawn from the coordinator's wall clock.
    pub fn new(coordinator: String, msg: &Message) -> (r: Result<Transaction, String>)
        ensures
            r is Ok <==> spec_action_for(*msg) is Some,
            r matches Ok(t) ==> t.coordinator@ == coordinator@ && t.client_id == spec_message_order(
                *msg,
            ).client_id && Some(t.action) == spec_action_for(*msg) && t.points == spec_points(
                spec_message_order(*msg).action,
            ) as usize,
            r matches Err(e) ==> e@ == "Invalid message for transaction"@,
    {
        let timestamp = generate_timestamp();
        Transaction::with_timestamp(coordinator, msg, timestamp)
    }

    /// Compares the given transaction's timestamp with this transaction's
    /// timestamp.  Returns true if this transaction is the older one; ties
    /// go to the lexicographically smaller coordinator address.
    pub fn older_than(&self, other: &Transaction) -> (r: bool)
        ensures
            r == spec_older_than(*self, *other),
    {
        key_older_exec(
            self.timestamp,
            self.coordinator.as_str(),
            other.timestamp,
            other.coordinator.as_str(),
        )
    }
}

/// The transaction action a client message asks for; the executable twin of
/// `spec_action_for`.
pub fn action_for(msg: &Message) -> (r: Option<TransactionAction>)
    ensures
        r == spec_action_for(*msg),
{
    match msg {
        Message::LockOrder(o) => match o.action {
            OrderAction::UsePoints(_) => Some(TransactionAction::Lock),
            OrderAction::FillPoints(_) => None,
        },
        Message::FreeOrder(o) => match o.action {
            OrderAction::UsePoints(_) => Some(TransactionAction::Free),
            OrderAction::FillPoints(_) => None,
        },
        Message::CommitOrder(o) => match o.action {
            OrderAction::UsePoints(_) => Some(TransactionAction::Consume),
            OrderAction::FillPoints(_) => Some(TransactionAction::Add),
        },
    }
}

impl TransactionState {
    /// The byte a vote or verdict is sent as: 1 for proceed, 0 otherwise.
    /// A timeout or disconnect is never transmitted as such; a coordinator
    /// that observed one sends abort, which keeps aborting conservative.
    pub fn to_wire_byte(&self) -> (b: u8)
        ensures
            b == 1 <==> *self is Proceed,
            b == 0 <==> !(*self is Proceed),
    {
        match self {
            TransactionState::Proceed => 1,
            _ => 0,
        }
    }

    /// The vote or verdict a received byte stands for: 1 is proceed,
    /// anything else is abort.
    pub fn from_wire_byte(b: u8) -> (s: TransactionState)
        ensures
            s == (if b == 1 {
                TransactionState::Proceed
            } else {
                TransactionState::Abort
            }),
    {
        if b == 1 {
            TransactionState::Proceed
        } else {
            TransactionState::Abort
        }
    }
}

} // verus!
