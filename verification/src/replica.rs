//! The transaction engine of one replica: participant voting, verdict
//! application, and the coordinator's decision rule.
//!
//! Every replica keeps, beside its ledger, a table of pending transactions:
//! the transactions it has voted `Proceed` on and not yet finalized, and the
//! committed locks whose points are still reserved.  A participant votes per
//! the table in the protocol: a lock needs funds and must not overtake an
//! older prepared lock for the same client; a free or consume must name a
//! committed, unclaimed lock from its own coordinator; an add is always
//! granted.  The coordinator commits exactly when every participant voted
//! `Proceed`.

use vstd::prelude::*;

use crate::ledger::{apply_op, op_ok, spec_points_total, Ledger, PointsOp};
use crate::message::{spec_message_order, Message};
use crate::order::spec_points;
use crate::transaction::{
    key_older, key_older_exec, spec_action_for, Transaction, TransactionAction, TransactionState,
};

verus! {

/// An error of the replica's transaction engine.  The first three are normal
/// business outcomes that turn into `Abort` votes; the peer errors are what a
/// coordinator records for a silent peer; `InvalidMessage` is malformed wire
/// input; `Underflow` is an internal invariant violation that correct
/// protocol runs never produce.
#[derive(Clone, Copy, Debug, PartialEq, Eq, Structural)]
pub enum ReplicaError {
    InsufficientFunds,
    MissingPendingLock,
    OrderingConflict,
    PeerTimeout,
    PeerDisconnected,
    InvalidMessage,
    Underflow,
}

/// How far a pending transaction got on this replica: voted `Proceed` and
/// awaiting the verdict, or a committed lock whose points stay reserved
/// until a free or consume drains it.
#[derive(Clone, Copy, Debug, PartialEq, Eq, Structural)]
pub enum PendingState {
    Prepared,
    Committed,
}

/// One pending transaction, keyed by client, coordinator and timestamp.
/// `claimed` marks a committed lock that a prepared free or consume has
/// reserved for itself; `target_timestamp` is, on a prepared free or
/// consume, the timestamp of the lock it drains.
pub struct Pending {
    pub client_id: u16,
    pub coordinator: String,
    pub timestamp: u128,
    pub action: TransactionAction,
    pub points: usize,
    pub state: PendingState,
    pub claimed: bool,
    pub target_timestamp: Option<u128>,
}

/// Whether two pending entries carry the same key.
pub open spec fn same_key(a: Pending, b: Pending) -> bool {
    a.client_id == b.client_id && a.timestamp == b.timestamp && a.coordinator@ == b.coordinator@
}

/// Whether a pending entry carries the given key.
pub open spec fn key_matches_fields(p: Pending, client_id: u16, timestamp: u128, coordinator: Seq<char>) -> bool {
    p.client_id == client_id && p.timestamp == timestamp && p.coordinator@ == coordinator
}

/// Whether a pending entry carries the key of a transaction.
pub open spec fn key_matches(p: Pending, tx: Transaction) -> bool {
    key_matches_fields(p, tx.client_id, tx.timestamp, tx.coordinator@)
}

/// Pending entries carry pairwise distinct keys.
pub open spec fn unique_keys(s: Seq<Pending>) -> bool {
    forall|i: int, j: int| 0 <= i < j < s.len() ==> !same_key(s[i], s[j])
}

/// Whether some pending entry carries the given key.
pub open spec fn has_key_fields(s: Seq<Pending>, client_id: u16, timestamp: u128, coordinator: Seq<char>) -> bool {
    exists|i: int| 0 <= i < s.len() && key_matches_fields(s[i], client_id, timestamp, coordinator)
}

/// Whether some pending entry carries the key of the transaction.
pub open spec fn has_key(s: Seq<Pending>, tx: Transaction) -> bool {
    has_key_fields(s, tx.client_id, tx.timestamp, tx.coordinator@)
}

/// Whether some prepared lock for the given client is older than the given
/// key: such a lock must win, so the younger transaction is refused.
pub open spec fn has_older_lock_fields(s: Seq<Pending>, client_id: u16, timestamp: u128, coordinator: Seq<char>) -> bool {
    exists|i: int|
        0 <= i < s.len() && s[i].action is Lock && s[i].state is Prepared && s[i].client_id
            == client_id && key_older(s[i].timestamp, s[i].coordinator@, timestamp, coordinator)
}

/// Whether some prepared lock for the transaction's client is older.
pub open spec fn has_older_prepared_lock(s: Seq<Pending>, tx: Transaction) -> bool {
    has_older_lock_fields(s, tx.client_id, tx.timestamp, tx.coordinator@)
}

/// Whether a pending entry is a lock a free for `amount` points can drain:
/// committed, unclaimed, same client and coordinator, exactly the amount.
pub open spec fn is_free_target(p: Pending, client_id: u16, coordinator: Seq<char>, amount: usize) -> bool {
    p.action is Lock && p.state is Committed && !p.claimed && p.client_id == client_id
        && p.coordinator@ == coordinator && p.points == amount
}

/// Whether a pending entry is a lock a consume of `amount` points can drain:
/// committed, unclaimed, same client and coordinator, at least the amount.
pub open spec fn is_consume_target(p: Pending, client_id: u16, coordinator: Seq<char>, amount: usize) -> bool {
    p.action is Lock && p.state is Committed && !p.claimed && p.client_id == client_id
        && p.coordinator@ == coordinator && p.points >= amount
}

/// Whether some pending entry is a free target.
pub open spec fn has_free_target(s: Seq<Pending>, client_id: u16, coordinator: Seq<char>, amount: usize) -> bool {
    exists|i: int| 0 <= i < s.len() && is_free_target(s[i], client_id, coordinator, amount)
}

/// Whether some pending entry is a consume target.
pub open spec fn has_consume_target(s: Seq<Pending>, client_id: u16, coordinator: Seq<char>, amount: usize) -> bool {
    exists|i: int| 0 <= i < s.len() && is_consume_target(s[i], client_id, coordinator, amount)
}

/// The same pending entry with another claim mark.
pub open spec fn with_claimed(p: Pending, claimed: bool) -> Pending {
    Pending {
        client_id: p.client_id,
        coordinator: p.coordinator,
        timestamp: p.timestamp,
        action: p.action,
        points: p.points,
        state: p.state,
        claimed,
        target_timestamp: p.target_timestamp,
    }
}

/// The same pending entry with another state.
pub open spec fn with_state(p: Pending, state: PendingState) -> Pending {
    Pending {
        client_id: p.client_id,
        coordinator: p.coordinator,
        timestamp: p.timestamp,
        action: p.action,
        points: p.points,
        state,
        claimed: p.claimed,
        target_timestamp: p.target_timestamp,
    }
}

/// The same pending entry with another point count and the claim mark
/// cleared: what is left of a lock after a partial consume.
pub open spec fn with_remainder(p: Pending, points: usize) -> Pending {
    Pending {
        client_id: p.client_id,
        coordinator: p.coordinator,
        timestamp: p.timestamp,
        action: p.action,
        points,
        state: p.state,
        claimed: false,
        target_timestamp: p.target_timestamp,
    }
}

/// Whether a pending entry records the given transaction, just prepared,
/// with the given drain target.
pub open spec fn entry_for(p: Pending, tx: Transaction, target: Option<u128>) -> bool {
    p.client_id == tx.client_id && p.coordinator@ == tx.coordinator@ && p.timestamp
        == tx.timestamp && p.action == tx.action && p.points == tx.points && p.state is Prepared
        && !p.claimed && p.target_timestamp == target
}

/// One replica's transaction engine state: the ledger it guards and the
/// table of pending transactions.
pub struct Replica {
    pub ledger: Ledger,
    pub pending: Vec<Pending>,
}

/// Whether a participant grants its vote, over the transaction's fields:
/// the key must be fresh, and then a lock needs funds and no older prepared
/// lock for the client, a free or consume needs a lock of its own
/// coordinator to drain, and an add is always granted.
pub open spec fn spec_vote_ok_fields(
    r: Replica,
    action: TransactionAction,
    client_id: u16,
    points: usize,
    timestamp: u128,
    coordinator: Seq<char>,
) -> bool {
    !has_key_fields(r.pending@, client_id, timestamp, coordinator) && match action {
        TransactionAction::Lock => !has_older_lock_fields(r.pending@, client_id, timestamp, coordinator)
            && r.ledger.spec_client(client_id).available >= points,
        TransactionAction::Free => has_free_target(r.pending@, client_id, coordinator, points),
        TransactionAction::Consume => has_consume_target(r.pending@, client_id, coordinator, points),
        TransactionAction::Add => true,
    }
}

/// Whether a participant grants its vote on a transaction.
pub open spec fn spec_vote_ok(r: Replica, tx: Transaction) -> bool {
    spec_vote_ok_fields(r, tx.action, tx.client_id, tx.points, tx.timestamp, tx.coordinator@)
}

/// The error a refused vote reports: a stale or conflicting key is an
/// ordering conflict, a lock without funds lacks points, and a free or
/// consume without a lock to drain names a missing pending lock.
pub open spec fn spec_vote_error(r: Replica, tx: Transaction) -> ReplicaError {
    if has_key(r.pending@, tx) {
        ReplicaError::OrderingConflict
    } else {
        match tx.action {
            TransactionAction::Lock => if has_older_prepared_lock(r.pending@, tx) {
                ReplicaError::OrderingConflict
            } else {
                ReplicaError::InsufficientFunds
            },
            TransactionAction::Free => ReplicaError::MissingPendingLock,
            TransactionAction::Consume => ReplicaError::MissingPendingLock,
            TransactionAction::Add => ReplicaError::OrderingConflict,
        }
    }
}

impl Replica {
    /// A well-formed replica has a well-formed ledger and pairwise distinct
    /// pending keys.
    pub open spec fn wf(&self) -> bool {
        &&& self.ledger.wf()
        &&& unique_keys(self.pending@)
    }

    /// A fresh replica: empty ledger, nothing pending.
    pub fn new() -> (r: Replica)
        ensures
            r.wf(),
            r.pending@.len() == 0,
            forall|c: u16| r.ledger.spec_client(c).available == 0 && r.ledger.spec_client(c).locked == 0,
    {
        Replica { ledger: Ledger::new(), pending: Vec::new() }
    }

    /// The index of the pending entry with the transaction's key, if any.
    fn find_key(&self, tx: &Transaction) -> (r: Option<usize>)
        ensures
            r matches Some(i) ==> i < self.pending@.len() && key_matches(self.pending@[i as int], *tx),
            r is None ==> !has_key(self.pending@, *tx),
    {
        let mut i: usize = 0;
        while i < self.pending.len()
            invariant
                i <= self.pending@.len(),
                forall|j: int| 0 <= j < i ==> !key_matches(self.pending@[j], *tx),
            decreases self.pending@.len() - i,
        {
            let p = &self.pending[i];
            if p.client_id == tx.client_id && p.timestamp == tx.timestamp && p.coordinator
                == tx.coordinator {
                return Some(i);
            }
            i = i + 1;
        }
        None
    }

    /// Whether some prepared lock for the transaction's client is older.
    fn older_lock_pending(&self, tx: &Transaction) -> (r: bool)
        ensures
            r == has_older_prepared_lock(self.pending@, *tx),
    {
        let mut i: usize = 0;
        while i < self.pending.len()
            invariant
                i <= self.pending@.len(),
                forall|j: int|
                    0 <= j < i ==> !(self.pending@[j].action is Lock && self.pending@[j].state is Prepared
                        && self.pending@[j].client_id == tx.client_id && key_older(
                        self.pending@[j].timestamp,
                        self.pending@[j].coordinator@,
                        tx.timestamp,
                        tx.coordinator@,
                    )),
            decreases self.pending@.len() - i,
        {
            let p = &self.pending[i];
            if matches!(p.action, TransactionAction::Lock) && matches!(p.state, PendingState::Prepared)
                && p.client_id == tx.client_id && key_older_exec(
                p.timestamp,
                p.coordinator.as_str(),
                tx.timestamp,
                tx.coordinator.as_str(),
            ) {
                return true;
            }
            i = i + 1;
        }
        false
    }

    /// The index of a lock a free for `points` can drain, if any.
    fn find_free_target(&self, client_id: u16, coordinator: &String, points: usize) -> (r: Option<
        usize,
    >)
        ensures
            r matches Some(i) ==> i < self.pending@.len() && is_free_target(
                self.pending@[i as int],
                client_id,
                coordinator@,
                points,
            ),
            r is None ==> !has_free_target(self.pending@, client_id, coordinator@, points),
    {
        let mut i: usize = 0;
        while i < self.pending.len()
            invariant
                i <= self.pending@.len(),
                forall|j: int|
                    0 <= j < i ==> !is_free_target(self.pending@[j], client_id, coordinator@, points),
            decreases self.pending@.len() - i,
        {
            let p = &self.pending[i];
            if matches!(p.action, TransactionAction::Lock) && matches!(p.state, PendingState::Committed)
                && !p.claimed && p.client_id == client_id && p.coordinator == *coordinator
                && p.points == points {
                return Some(i);
            }
            i = i + 1;
        }
        None
    }

    /// The index of a lock a consume of `points` can drain, if any.
    fn find_consume_target(&self, client_id: u16, coordinator: &String, points: usize) -> (r: Option<
        usize,
    >)
        ensures
            r matches Some(i) ==> i < self.pending@.len() && is_consume_target(
                self.pending@[i as int],
                client_id,
                coordinator@,
                points,
            ),
            r is None ==> !has_consume_target(self.pending@, client_id, coordinator@, points),
    {
        let mut i: usize = 0;
        while i < self.pending.len()
            invariant
                i <= self.pending@.len(),
                forall|j: int|
                    0 <= j < i ==> !is_consume_target(self.pending@[j], client_id, coordinator@, points),
            decreases self.pending@.len() - i,
        {
            let p = &self.pending[i];
            if matches!(p.action, TransactionAction::Lock) && matches!(p.state, PendingState::Committed)
                && !p.claimed && p.client_id == client_id && p.coordinator == *coordinator
                && p.points >= points {
                return Some(i);
            }
            i = i + 1;
        }
        None
    }

    /// The participant's vote on a prepare: grants it per the protocol table
    /// and records the pending transaction, or refuses it and reports why.
    /// A granted lock moves the points from available to locked at once; a
    /// granted free or consume claims the lock it will drain; a granted add
    /// changes no balance until the verdict.
    pub fn prepare(&mut self, tx: &Transaction) -> (r: Result<(), ReplicaError>)
        requires
            old(self).wf(),
        ensures
            final (self).wf(),
            r is Ok <==> spec_vote_ok(*old(self), *tx),
            r matches Err(e) ==> e == spec_vote_error(*old(self), *tx) && *final (self) == *old(self),
            r is Ok ==> final (self).pending@.len() == old(self).pending@.len() + 1,
            r is Ok ==> match tx.action {
                TransactionAction::Lock => {
                    &&& final (self).ledger.spec_client(tx.client_id) == apply_op(
                        old(self).ledger.spec_client(tx.client_id),
                        PointsOp::Lock(tx.points as nat),
                    )
                    &&& forall|d: u16|
                        d != tx.client_id ==> final (self).ledger.spec_client(d) == old(
                            self,
                        ).ledger.spec_client(d)
                    &&& final (self).pending@.drop_last() == old(self).pending@
                    &&& entry_for(final (self).pending@.last(), *tx, None)
                },
                TransactionAction::Add => {
                    &&& final (self).ledger == old(self).ledger
                    &&& final (self).pending@.drop_last() == old(self).pending@
                    &&& entry_for(final (self).pending@.last(), *tx, None)
                },
                TransactionAction::Free => {
                    &&& final (self).ledger == old(self).ledger
                    &&& exists|j: int|
                        0 <= j < old(self).pending@.len() && is_free_target(
                            old(self).pending@[j],
                            tx.client_id,
                            tx.coordinator@,
                            tx.points,
                        ) && final (self).pending@.drop_last() == old(self).pending@.update(
                            j,
                            with_claimed(old(self).pending@[j], true),
                        ) && entry_for(
                            final (self).pending@.last(),
                            *tx,
                            Some(old(self).pending@[j].timestamp),
                        )
                },
                TransactionAction::Consume => {
                    &&& final (self).ledger == old(self).ledger
                    &&& exists|j: int|
                        0 <= j < old(self).pending@.len() && is_consume_target(
                            old(self).pending@[j],
                            tx.client_id,
                            tx.coordinator@,
                            tx.points,
                        ) && final (self).pending@.drop_last() == old(self).pending@.update(
                            j,
                            with_claimed(old(self).pending@[j], true),
                        ) && entry_for(
                            final (self).pending@.last(),
                            *tx,
                            Some(old(self).pending@[j].timestamp),
                        )
                },
            },
    {
        match self.find_key(tx) {
            Some(i) => {
                proof {
                    assert(key_matches(self.pending@[i as int], *tx));
                    assert(has_key(self.pending@, *tx));
                }
                return Err(ReplicaError::OrderingConflict);
            },
            None => {},
        }
        match tx.action {
            TransactionAction::Lock => {
                if self.older_lock_pending(tx) {
                    return Err(ReplicaError::OrderingConflict);
                }
                match self.ledger.try_lock(tx.client_id, tx.points) {
                    Ok(()) => {
                        let entry = Pending {
                            client_id: tx.client_id,
                            coordinator: tx.coordinator.clone(),
                            timestamp: tx.timestamp,
                            action: tx.action,
                            points: tx.points,
                            state: PendingState::Prepared,
                            claimed: false,
                            target_timestamp: None,
                        };
                        proof {
                            lemma_push_fresh_key(self.pending@, entry, *tx);
                        }
                        self.pending.push(entry);
                        Ok(())
                    },
                    Err(_) => Err(ReplicaError::InsufficientFunds),
                }
            },
            TransactionAction::Add => {
                let entry = Pending {
                    client_id: tx.client_id,
                    coordinator: tx.coordinator.clone(),
                    timestamp: tx.timestamp,
                    action: tx.action,
                    points: tx.points,
                    state: PendingState::Prepared,
                    claimed: false,
                    target_timestamp: None,
                };
                proof {
                    lemma_push_fresh_key(self.pending@, entry, *tx);
                }
                self.pending.push(entry);
                Ok(())
            },
            TransactionAction::Free => {
                match self.find_free_target(tx.client_id, &tx.coordinator, tx.points) {
                    Some(j) => {
                        let target_ts = self.pending[j].timestamp;
                        self.pending[j].claimed = true;
                        let entry = Pending {
                            client_id: tx.client_id,
                            coordinator: tx.coordinator.clone(),
                            timestamp: tx.timestamp,
                            action: tx.action,
                            points: tx.points,
                            state: PendingState::Prepared,
                            claimed: false,
                            target_timestamp: Some(target_ts),
                        };
                        proof {
                            lemma_update_keeps_keys(
                                old(self).pending@,
                                j as int,
                                with_claimed(old(self).pending@[j as int], true),
                            );
                            lemma_push_fresh_key(self.pending@, entry, *tx);
                        }
                        self.pending.push(entry);
                        Ok(())
                    },
                    None => Err(ReplicaError::MissingPendingLock),
                }
            },
            TransactionAction::Consume => {
                match self.find_consume_target(tx.client_id, &tx.coordinator, tx.points) {
                    Some(j) => {
                        let target_ts = self.pending[j].timestamp;
                        self.pending[j].claimed = true;
                        let entry = Pending {
                            client_id: tx.client_id,
                            coordinator: tx.coordinator.clone(),
                            timestamp: tx.timestamp,
                            action: tx.action,
                            points: tx.points,
                            state: PendingState::Prepared,
                            claimed: false,
                            target_timestamp: Some(target_ts),
                        };
                        proof {
                            lemma_update_keeps_keys(
                                old(self).pending@,
                                j as int,
                                with_claimed(old(self).pending@[j as int], true),
                            );
                            lemma_push_fresh_key(self.pending@, entry, *tx);
                        }
                        self.pending.push(entry);
                        Ok(())
                    },
                    None => Err(ReplicaError::MissingPendingLock),
                }
            },
        }
    }
}

/// Whether `q` is the lock a prepared free or consume `p` drains: a
/// committed, claimed lock of the same client and coordinator whose
/// timestamp `p` recorded as its target.
pub open spec fn is_drain_target(q: Pending, p: Pending) -> bool {
    q.action is Lock && q.state is Committed && q.claimed && q.client_id == p.client_id
        && q.coordinator@ == p.coordinator@ && p.target_timestamp == Some(q.timestamp)
}

/// The sequence with the entries at two distinct indexes taken out.
pub open spec fn remove_two(s: Seq<Pending>, i: int, j: int) -> Seq<Pending> {
    if i < j {
        s.remove(j).remove(i)
    } else {
        s.remove(i).remove(j)
    }
}

/// What finalizing the prepared entry at index `i` does: the participant
/// side of the transaction state machine, one case per action and verdict.
pub open spec fn spec_finalize(
    pre: Replica,
    i: int,
    commit: bool,
    post: Replica,
    r: Result<(), ReplicaError>,
) -> bool {
    let p = pre.pending@[i];
    match p.action {
        TransactionAction::Lock => if commit {
            // the reservation made at prepare becomes a committed lock
            post.ledger == pre.ledger && post.pending@ == pre.pending@.update(
                i,
                with_state(p, PendingState::Committed),
            ) && r is Ok
        } else {
            // the reservation is undone
            post.pending@ == pre.pending@.remove(i) && post.ledger.spec_client(p.client_id)
                == apply_op(pre.ledger.spec_client(p.client_id), PointsOp::Free(p.points as nat))
                && (forall|d: u16|
                d != p.client_id ==> post.ledger.spec_client(d) == pre.ledger.spec_client(d)) && (
            r is Ok <==> op_ok(pre.ledger.spec_client(p.client_id), PointsOp::Free(p.points as nat)))
                && (r matches Err(e) ==> e == ReplicaError::Underflow)
        },
        TransactionAction::Add => if commit {
            post.pending@ == pre.pending@.remove(i) && post.ledger.spec_client(p.client_id)
                == apply_op(pre.ledger.spec_client(p.client_id), PointsOp::Add(p.points as nat))
                && (forall|d: u16|
                d != p.client_id ==> post.ledger.spec_client(d) == pre.ledger.spec_client(d))
                && r is Ok
        } else {
            post.pending@ == pre.pending@.remove(i) && post.ledger == pre.ledger && r is Ok
        },
        TransactionAction::Free => spec_finalize_free(pre, i, commit, post, r),
        TransactionAction::Consume => spec_finalize_consume(pre, i, commit, post, r),
    }
}

/// Finalizing a prepared free: on commit the claimed lock and the free leave
/// the table and the points move back to available; on abort the claim is
/// only released.  A free whose lock is gone reports it; a ledger that
/// cannot release the points reports the underflow and quarantines the lock.
pub open spec fn spec_finalize_free(
    pre: Replica,
    i: int,
    commit: bool,
    post: Replica,
    r: Result<(), ReplicaError>,
) -> bool {
    let p = pre.pending@[i];
    if !(exists|j: int| 0 <= j < pre.pending@.len() && is_drain_target(pre.pending@[j], p)) {
        post.pending@ == pre.pending@.remove(i) && post.ledger == pre.ledger && r == Err::<(), ReplicaError>(
            ReplicaError::MissingPendingLock,
        )
    } else {
        forall|j: int|
            #![trigger pre.pending@[j]]
            0 <= j < pre.pending@.len() && is_drain_target(pre.pending@[j], p) ==> if commit {
                if op_ok(pre.ledger.spec_client(p.client_id), PointsOp::Free(p.points as nat)) {
                    post.ledger.spec_client(p.client_id) == apply_op(
                        pre.ledger.spec_client(p.client_id),
                        PointsOp::Free(p.points as nat),
                    ) && (forall|d: u16|
                        d != p.client_id ==> post.ledger.spec_client(d) == pre.ledger.spec_client(
                            d,
                        )) && post.pending@ == remove_two(pre.pending@, i, j) && r is Ok
                } else {
                    post.pending@ == pre.pending@.remove(i) && post.ledger == pre.ledger && r
                        == Err::<(), ReplicaError>(ReplicaError::Underflow)
                }
            } else {
                post.pending@ == pre.pending@.update(
                    j,
                    with_claimed(pre.pending@[j], false),
                ).remove(i) && post.ledger == pre.ledger && r is Ok
            }
    }
}

/// Finalizing a prepared consume: on commit the points leave the locked
/// balance and the claimed lock shrinks by them, leaving the table when
/// nothing remains; on abort the claim is only released.
pub open spec fn spec_finalize_consume(
    pre: Replica,
    i: int,
    commit: bool,
    post: Replica,
    r: Result<(), ReplicaError>,
) -> bool {
    let p = pre.pending@[i];
    if !(exists|j: int| 0 <= j < pre.pending@.len() && is_drain_target(pre.pending@[j], p)) {
        post.pending@ == pre.pending@.remove(i) && post.ledger == pre.ledger && r == Err::<(), ReplicaError>(
            ReplicaError::MissingPendingLock,
        )
    } else {
        forall|j: int|
            #![trigger pre.pending@[j]]
            0 <= j < pre.pending@.len() && is_drain_target(pre.pending@[j], p) ==> if commit {
                if op_ok(pre.ledger.spec_client(p.client_id), PointsOp::Consume(p.points as nat)) {
                    post.ledger.spec_client(p.client_id) == apply_op(
                        pre.ledger.spec_client(p.client_id),
                        PointsOp::Consume(p.points as nat),
                    ) && (forall|d: u16|
                        d != p.client_id ==> post.ledger.spec_client(d) == pre.ledger.spec_client(
                            d,
                        )) && post.pending@ == (if pre.pending@[j].points > p.points {
                        pre.pending@.update(
                            j,
                            with_remainder(
                                pre.pending@[j],
                                (pre.pending@[j].points - p.points) as usize,
                            ),
                        ).remove(i)
                    } else {
                        remove_two(pre.pending@, i, j)
                    }) && r is Ok
                } else {
                    post.pending@ == pre.pending@.remove(i) && post.ledger == pre.ledger && r
                        == Err::<(), ReplicaError>(ReplicaError::Underflow)
                }
            } else {
                post.pending@ == pre.pending@.update(
                    j,
                    with_claimed(pre.pending@[j], false),
                ).remove(i) && post.ledger == pre.ledger && r is Ok
            }
    }
}

impl Replica {
    /// The index of the prepared entry with the transaction's key, if any.
    fn find_prepared(&self, tx: &Transaction) -> (r: Option<usize>)
        ensures
            r matches Some(i) ==> i < self.pending@.len() && key_matches(
                self.pending@[i as int],
                *tx,
            ) && self.pending@[i as int].state is Prepared,
            r is None ==> forall|k: int|
                0 <= k < self.pending@.len() ==> !(key_matches(self.pending@[k], *tx)
                    && self.pending@[k].state is Prepared),
    {
        let mut i: usize = 0;
        while i < self.pending.len()
            invariant
                i <= self.pending@.len(),
                forall|k: int|
                    0 <= k < i ==> !(key_matches(self.pending@[k], *tx) && self.pending@[k].state
                        is Prepared),
            decreases self.pending@.len() - i,
        {
            let p = &self.pending[i];
            if p.client_id == tx.client_id && p.timestamp == tx.timestamp && p.coordinator
                == tx.coordinator && matches!(p.state, PendingState::Prepared) {
                return Some(i);
            }
            i = i + 1;
        }
        None
    }

    /// The index of the lock the prepared entry at `i` drains, if any.
    fn find_drain_target(&self, i: usize) -> (r: Option<usize>)
        requires
            i < self.pending@.len(),
        ensures
            r matches Some(j) ==> j < self.pending@.len() && is_drain_target(
                self.pending@[j as int],
                self.pending@[i as int],
            ),
            r is None ==> forall|k: int|
                0 <= k < self.pending@.len() ==> !is_drain_target(
                    self.pending@[k],
                    self.pending@[i as int],
                ),
    {
        let mut j: usize = 0;
        while j < self.pending.len()
            invariant
                i < self.pending@.len(),
                j <= self.pending@.len(),
                forall|k: int|
                    0 <= k < j ==> !is_drain_target(self.pending@[k], self.pending@[i as int]),
            decreases self.pending@.len() - j,
        {
            let q = &self.pending[j];
            let p = &self.pending[i];
            let target_hit = match p.target_timestamp {
                Some(t) => q.timestamp == t,
                None => false,
            };
            if matches!(q.action, TransactionAction::Lock) && matches!(
                q.state,
                PendingState::Committed,
            ) && q.claimed && q.client_id == p.client_id && q.coordinator == p.coordinator
                && target_hit {
                return Some(j);
            }
            j = j + 1;
        }
        None
    }

    /// Applies the coordinator's verdict to the transaction this replica
    /// prepared: `Proceed` commits it, anything else — an abort verdict, a
    /// timeout, a disconnect — aborts it and releases what the prepare
    /// reserved.  A verdict for a transaction this replica never prepared
    /// reports a missing pending lock and changes nothing.
    pub fn finalize(&mut self, tx: &Transaction, verdict: TransactionState) -> (r: Result<
        (),
        ReplicaError,
    >)
        requires
            old(self).wf(),
            verdict is Proceed ==> forall|i: int|
                0 <= i < old(self).pending@.len() && key_matches(old(self).pending@[i], *tx) && old(
                    self,
                ).pending@[i].state is Prepared && old(self).pending@[i].action is Add
                    ==> spec_points_total(
                    old(self).ledger.spec_client(old(self).pending@[i].client_id),
                ) + old(self).pending@[i].points <= usize::MAX,
        ensures
            final (self).wf(),
            (forall|i: int|
                0 <= i < old(self).pending@.len() ==> !(key_matches(old(self).pending@[i], *tx)
                    && old(self).pending@[i].state is Prepared)) ==> *final (self) == *old(self)
                && r == Err::<(), ReplicaError>(ReplicaError::MissingPendingLock),
            forall|i: int|
                0 <= i < old(self).pending@.len() && key_matches(old(self).pending@[i], *tx) && old(
                    self,
                ).pending@[i].state is Prepared ==> spec_finalize(
                    *old(self),
                    i,
                    verdict is Proceed,
                    *final (self),
                    r,
                ),
    {
        let i = match self.find_prepared(tx) {
            Some(i) => i,
            None => {
                return Err(ReplicaError::MissingPendingLock);
            },
        };
        proof {
            assert forall|k: int|
                0 <= k < self.pending@.len() && key_matches(self.pending@[k], *tx)
                    && self.pending@[k].state is Prepared implies k == i as int by {
                if k < i as int {
                    assert(same_key(self.pending@[k], self.pending@[i as int]));
                    assert(!same_key(self.pending@[k], self.pending@[i as int]));
                } else if k > i as int {
                    assert(same_key(self.pending@[i as int], self.pending@[k]));
                    assert(!same_key(self.pending@[i as int], self.pending@[k]));
                }
            }
        }
        let commit = matches!(verdict, TransactionState::Proceed);
        let action = self.pending[i].action;
        match action {
            TransactionAction::Lock => {
                if commit {
                    proof {
                        lemma_update_keeps_keys(
                            self.pending@,
                            i as int,
                            with_state(self.pending@[i as int], PendingState::Committed),
                        );
                    }
                    self.pending[i].state = PendingState::Committed;
                    Ok(())
                } else {
                    proof {
                        lemma_remove_keeps_keys(self.pending@, i as int);
                    }
                    let p = self.pending.remove(i);
                    match self.ledger.unlock(p.client_id, p.points) {
                        Ok(()) => Ok(()),
                        Err(_) => Err(ReplicaError::Underflow),
                    }
                }
            },
            TransactionAction::Add => {
                proof {
                    lemma_remove_keeps_keys(self.pending@, i as int);
                }
                let p = self.pending.remove(i);
                if commit {
                    self.ledger.add(p.client_id, p.points);
                }
                Ok(())
            },
            TransactionAction::Free => {
                match self.find_drain_target(i) {
                    Some(j) => {
                        proof {
                            assert(j != i);
                            assert forall|k: int|
                                0 <= k < self.pending@.len() && is_drain_target(
                                    self.pending@[k],
                                    self.pending@[i as int],
                                ) implies k == j as int by {
                                if k < j as int {
                                    assert(same_key(self.pending@[k], self.pending@[j as int]));
                                    assert(!same_key(self.pending@[k], self.pending@[j as int]));
                                } else if k > j as int {
                                    assert(same_key(self.pending@[j as int], self.pending@[k]));
                                    assert(!same_key(self.pending@[j as int], self.pending@[k]));
                                }
                            }
                        }
                        if commit {
                            let client_id = self.pending[i].client_id;
                            let points = self.pending[i].points;
                            match self.ledger.unlock(client_id, points) {
                                Ok(()) => {
                                    proof {
                                        lemma_remove_keeps_keys(self.pending@, if i > j {
                                            i as int
                                        } else {
                                            j as int
                                        });
                                        lemma_remove_keeps_keys(
                                            self.pending@.remove(
                                                if i > j {
                                                    i as int
                                                } else {
                                                    j as int
                                                },
                                            ),
                                            if i > j {
                                                j as int
                                            } else {
                                                i as int
                                            },
                                        );
                                    }
                                    if i > j {
                                        self.pending.remove(i);
                                        self.pending.remove(j);
                                    } else {
                                        self.pending.remove(j);
                                        self.pending.remove(i);
                                    }
                                    Ok(())
                                },
                                Err(_) => {
                                    proof {
                                        lemma_remove_keeps_keys(self.pending@, i as int);
                                    }
                                    self.pending.remove(i);
                                    Err(ReplicaError::Underflow)
                                },
                            }
                        } else {
                            proof {
                                lemma_update_keeps_keys(
                                    self.pending@,
                                    j as int,
                                    with_claimed(self.pending@[j as int], false),
                                );
                                lemma_remove_keeps_keys(
                                    self.pending@.update(
                                        j as int,
                                        with_claimed(self.pending@[j as int], false),
                                    ),
                                    i as int,
                                );
                            }
                            self.pending[j].claimed = false;
                            self.pending.remove(i);
                            Ok(())
                        }
                    },
                    None => {
                        proof {
                            lemma_remove_keeps_keys(self.pending@, i as int);
                        }
                        self.pending.remove(i);
                        Err(ReplicaError::MissingPendingLock)
                    },
                }
            },
            TransactionAction::Consume => {
                match self.find_drain_target(i) {
                    Some(j) => {
                        proof {
                            assert(j != i);
                            assert forall|k: int|
                                0 <= k < self.pending@.len() && is_drain_target(
                                    self.pending@[k],
                                    self.pending@[i as int],
                                ) implies k == j as int by {
                                if k < j as int {
                                    assert(same_key(self.pending@[k], self.pending@[j as int]));
                                    assert(!same_key(self.pending@[k], self.pending@[j as int]));
                                } else if k > j as int {
                                    assert(same_key(self.pending@[j as int], self.pending@[k]));
                                    assert(!same_key(self.pending@[j as int], self.pending@[k]));
                                }
                            }
                        }
                        if commit {
                            let client_id = self.pending[i].client_id;
                            let points = self.pending[i].points;
                            match self.ledger.consume(client_id, points) {
                                Ok(()) => {
                                    let remaining = self.pending[j].points;
                                    if remaining > points {
                                        proof {
                                            lemma_update_keeps_keys(
                                                self.pending@,
                                                j as int,
                                                with_remainder(
                                                    self.pending@[j as int],
                                                    (remaining - points) as usize,
                                                ),
                                            );
                                            lemma_remove_keeps_keys(
                                                self.pending@.update(
                                                    j as int,
                                                    with_remainder(
                                                        self.pending@[j as int],
                                                        (remaining - points) as usize,
                                                    ),
                                                ),
                                                i as int,
                                            );
                                        }
                                        self.pending[j].points = remaining - points;
                                        self.pending[j].claimed = false;
                                        proof {
                                            assert(self.pending@ =~= old(self).pending@.update(
                                                j as int,
                                                with_remainder(
                                                    old(self).pending@[j as int],
                                                    (remaining - points) as usize,
                                                ),
                                            ));
                                        }
                                        self.pending.remove(i);
                                    } else {
                                        proof {
                                            lemma_remove_keeps_keys(self.pending@, if i > j {
                                                i as int
                                            } else {
                                                j as int
                                            });
                                            lemma_remove_keeps_keys(
                                                self.pending@.remove(
                                                    if i > j {
                                                        i as int
                                                    } else {
                                                        j as int
                                                    },
                                                ),
                                                if i > j {
                                                    j as int
                                                } else {
                                                    i as int
                                                },
                                            );
                                        }
                                        if i > j {
                                            self.pending.remove(i);
                                            self.pending.remove(j);
                                        } else {
                                            self.pending.remove(j);
                                            self.pending.remove(i);
                                        }
                                    }
                                    Ok(())
                                },
                                Err(_) => {
                                    proof {
                                        lemma_remove_keeps_keys(self.pending@, i as int);
                                    }
                                    self.pending.remove(i);
                                    Err(ReplicaError::Underflow)
                                },
                            }
                        } else {
                            proof {
                                lemma_update_keeps_keys(
                                    self.pending@,
                                    j as int,
                                    with_claimed(self.pending@[j as int], false),
                                );
                                lemma_remove_keeps_keys(
                                    self.pending@.update(
                                        j as int,
                                        with_claimed(self.pending@[j as int], false),
                                    ),
                                    i as int,
                                );
                            }
                            self.pending[j].claimed = false;
                            self.pending.remove(i);
                            Ok(())
                        }
                    },
                    None => {
                        proof {
                            lemma_remove_keeps_keys(self.pending@, i as int);
                        }
                        self.pending.remove(i);
                        Err(ReplicaError::MissingPendingLock)
                    },
                }
            },
        }
    }
}

/// The coordinator's decision rule: commit exactly when every participant
/// voted `Proceed`.  Timeout safety: a prepare with any missed or refused
/// vote — an abort, a timeout, a disconnect — yields a global abort, and the
/// abort verdict at each voting participant releases what its prepare
/// reserved (see `finalize`).
pub fn decide(votes: &Vec<TransactionState>) -> (v: TransactionState)
    ensures
        v is Proceed || v is Abort,
        v is Proceed <==> (forall|i: int| 0 <= i < votes@.len() ==> votes@[i] is Proceed),
        (exists|i: int| 0 <= i < votes@.len() && !(votes@[i] is Proceed)) ==> v is Abort,
{
    let mut i: usize = 0;
    while i < votes.len()
        invariant
            i <= votes@.len(),
            forall|j: int| 0 <= j < i ==> votes@[j] is Proceed,
        decreases votes@.len() - i,
    {
        if !matches!(votes[i], TransactionState::Proceed) {
            return TransactionState::Abort;
        }
        i = i + 1;
    }
    TransactionState::Proceed
}

/// Whether the single-replica handling of a client message is granted: the
/// message must name a valid action and the participant's vote must pass on
/// the transaction the message builds.
pub open spec fn spec_handle_ok(r: Replica, msg: Message, coordinator: Seq<char>, timestamp: u128) -> bool {
    match spec_action_for(msg) {
        Some(a) => spec_vote_ok_fields(
            r,
            a,
            spec_message_order(msg).client_id,
            spec_points(spec_message_order(msg).action) as usize,
            timestamp,
            coordinator,
        ),
        None => false,
    }
}

/// Whether a pending entry is the committed lock the given client message
/// left behind.
pub open spec fn lock_entry_for(
    p: Pending,
    client_id: u16,
    coordinator: Seq<char>,
    timestamp: u128,
    points: usize,
) -> bool {
    p.client_id == client_id && p.coordinator@ == coordinator && p.timestamp == timestamp
        && p.action is Lock && p.points == points && p.state is Committed && !p.claimed
        && p.target_timestamp is None
}

impl Replica {
    /// Handles one client message on a single replica: builds the
    /// transaction, votes on it as the sole participant, decides, and
    /// applies the verdict.  Returns the client-facing reply byte: 1 where
    /// the transaction committed, 0 where it was refused or could not be
    /// applied.
    #[verifier::rlimit(50)]
    #[verifier::spinoff_prover]
    pub fn handle_message(&mut self, msg: &Message, coordinator: String, timestamp: u128) -> (reply:
        u8)
        requires
            old(self).wf(),
            spec_action_for(*msg) == Some(TransactionAction::Add) ==> spec_points_total(
                old(self).ledger.spec_client(spec_message_order(*msg).client_id),
            ) + spec_points(spec_message_order(*msg).action) <= usize::MAX,
        ensures
            final (self).wf(),
            reply == 1 || reply == 0,
            !spec_handle_ok(*old(self), *msg, coordinator@, timestamp) ==> reply == 0 && *final(self) == *old(self),
            spec_handle_ok(*old(self), *msg, coordinator@, timestamp) ==> {
                let o = spec_message_order(*msg);
                let n = spec_points(o.action) as usize;
                match spec_action_for(*msg) {
                    Some(TransactionAction::Lock) => reply == 1 && final(self).ledger.spec_client(o.client_id) == apply_op(
                        old(self).ledger.spec_client(o.client_id),
                        PointsOp::Lock(n as nat),
                    ) && (forall|d: u16|
                        d != o.client_id ==> final (self).ledger.spec_client(d) == old(
                            self,
                        ).ledger.spec_client(d)) && final (self).pending@.drop_last() == old(
                        self,
                    ).pending@ && lock_entry_for(
                        final (self).pending@.last(),
                        o.client_id,
                        coordinator@,
                        timestamp,
                        n,
                    ),
                    Some(TransactionAction::Add) => reply == 1 && final(self).ledger.spec_client(o.client_id) == apply_op(
                        old(self).ledger.spec_client(o.client_id),
                        PointsOp::Add(n as nat),
                    ) && (forall|d: u16|
                        d != o.client_id ==> final (self).ledger.spec_client(d) == old(
                            self,
                        ).ledger.spec_client(d)) && final (self).pending@ == old(self).pending@,
                    Some(TransactionAction::Free) => exists|j: int|
                        #![trigger old(self).pending@[j]]
                        0 <= j < old(self).pending@.len() && is_free_target(
                            old(self).pending@[j],
                            o.client_id,
                            coordinator@,
                            n,
                        ) && if op_ok(
                            old(self).ledger.spec_client(o.client_id),
                            PointsOp::Free(n as nat),
                        ) {
                            reply == 1 && final (self).ledger.spec_client(o.client_id) == apply_op(
                                old(self).ledger.spec_client(o.client_id),
                                PointsOp::Free(n as nat),
                            ) && (forall|d: u16|
                                d != o.client_id ==> final (self).ledger.spec_client(d) == old(
                                    self,
                                ).ledger.spec_client(d)) && final (self).pending@ == old(
                                self,
                            ).pending@.remove(j)
                        } else {
                            reply == 0 && final (self).ledger == old(self).ledger && final(self).pending@ == old(self).pending@.update(
                                j,
                                with_claimed(old(self).pending@[j], true),
                            )
                        },
                    Some(TransactionAction::Consume) => exists|j: int|
                        #![trigger old(self).pending@[j]]
                        0 <= j < old(self).pending@.len() && is_consume_target(
                            old(self).pending@[j],
                            o.client_id,
                            coordinator@,
                            n,
                        ) && if op_ok(
                            old(self).ledger.spec_client(o.client_id),
                            PointsOp::Consume(n as nat),
                        ) {
                            reply == 1 && final (self).ledger.spec_client(o.client_id) == apply_op(
                                old(self).ledger.spec_client(o.client_id),
                                PointsOp::Consume(n as nat),
                            ) && (forall|d: u16|
                                d != o.client_id ==> final (self).ledger.spec_client(d) == old(
                                    self,
                                ).ledger.spec_client(d)) && final (self).pending@ == (if old(
                                self,
                            ).pending@[j].points > n {
                                old(self).pending@.update(
                                    j,
                                    with_remainder(
                                        old(self).pending@[j],
                                        (old(self).pending@[j].points - n) as usize,
                                    ),
                                )
                            } else {
                                old(self).pending@.remove(j)
                            })
                        } else {
                            reply == 0 && final (self).ledger == old(self).ledger && final(self).pending@ == old(self).pending@.update(
                                j,
                                with_claimed(old(self).pending@[j], true),
                            )
                        },
                    None => false,
                }
            },
    {
        let tx = match Transaction::with_timestamp(coordinator, msg, timestamp) {
            Ok(tx) => tx,
            Err(_) => {
                return 0;
            },
        };
        proof {
            assert(spec_handle_ok(*old(self), *msg, coordinator@, timestamp) == spec_vote_ok(
                *old(self),
                tx,
            ));
        }
        match self.prepare(&tx) {
            Ok(()) => {
                proof {
                    assert(spec_vote_ok(*old(self), tx));
                    assert(spec_handle_ok(*old(self), *msg, coordinator@, timestamp));
                }
            },
            Err(_) => {
                proof {
                    assert(!spec_vote_ok(*old(self), tx));
                    assert(!spec_handle_ok(*old(self), *msg, coordinator@, timestamp));
                }
                return 0;
            },
        }
        let ghost mid: Replica = *self;
        proof {
            assert forall|k: int|
                0 <= k < mid.pending@.len() && key_matches(mid.pending@[k], tx) implies k
                == mid.pending@.len() - 1 by {
                if k < mid.pending@.len() - 1 {
                    match tx.action {
                        TransactionAction::Lock | TransactionAction::Add => {
                            assert(mid.pending@[k] == mid.pending@.drop_last()[k]);
                            assert(mid.pending@[k] == old(self).pending@[k]);
                            assert(has_key(old(self).pending@, tx));
                        },
                        TransactionAction::Free => {
                            let j = choose|j: int|
                                0 <= j < old(self).pending@.len() && is_free_target(
                                    old(self).pending@[j],
                                    tx.client_id,
                                    tx.coordinator@,
                                    tx.points,
                                ) && mid.pending@.drop_last() == old(self).pending@.update(
                                    j,
                                    with_claimed(old(self).pending@[j], true),
                                ) && entry_for(
                                    mid.pending@.last(),
                                    tx,
                                    Some(old(self).pending@[j].timestamp),
                                );
                            assert(mid.pending@[k] == mid.pending@.drop_last()[k]);
                            if k == j {
                                assert(mid.pending@[k] == with_claimed(old(self).pending@[k], true));
                                assert(key_matches(old(self).pending@[k], tx));
                            } else {
                                assert(mid.pending@[k] == old(self).pending@[k]);
                            }
                            assert(has_key(old(self).pending@, tx));
                        },
                        TransactionAction::Consume => {
                            let j = choose|j: int|
                                0 <= j < old(self).pending@.len() && is_consume_target(
                                    old(self).pending@[j],
                                    tx.client_id,
                                    tx.coordinator@,
                                    tx.points,
                                ) && mid.pending@.drop_last() == old(self).pending@.update(
                                    j,
                                    with_claimed(old(self).pending@[j], true),
                                ) && entry_for(
                                    mid.pending@.last(),
                                    tx,
                                    Some(old(self).pending@[j].timestamp),
                                );
                            assert(mid.pending@[k] == mid.pending@.drop_last()[k]);
                            if k == j {
                                assert(mid.pending@[k] == with_claimed(old(self).pending@[k], true));
                                assert(key_matches(old(self).pending@[k], tx));
                            } else {
                                assert(mid.pending@[k] == old(self).pending@[k]);
                            }
                            assert(has_key(old(self).pending@, tx));
                        },
                    }
                }
            }
        }
        let mut votes: Vec<TransactionState> = Vec::new();
        votes.push(TransactionState::Proceed);
        let verdict = decide(&votes);
        assert(verdict is Proceed);
        proof {
            let last = mid.pending@.len() - 1;
            assert(key_matches(mid.pending@[last], tx) && mid.pending@[last].state is Prepared);
            assert forall|i: int|
                0 <= i < mid.pending@.len() && key_matches(mid.pending@[i], tx)
                    && mid.pending@[i].state is Prepared && mid.pending@[i].action is Add implies
                spec_points_total(mid.ledger.spec_client(mid.pending@[i].client_id))
                    + mid.pending@[i].points <= usize::MAX by {
                assert(i == last);
                assert(mid.pending@[i].client_id == tx.client_id);
                assert(mid.pending@[i].points == tx.points);
                assert(mid.pending@[i].action == tx.action);
            }
        }
        let r = self.finalize(&tx, verdict);
        let reply: u8 = match r {
            Ok(()) => 1,
            Err(_) => 0,
        };
        proof {
            let last = mid.pending@.len() - 1;
            let p = mid.pending@[last];
            let o = spec_message_order(*msg);
            let n = spec_points(o.action) as usize;
            assert(tx.client_id == o.client_id);
            assert(tx.points == n);
            assert(tx.coordinator@ == coordinator@);
            assert(key_matches(p, tx) && p.state is Prepared);
            assert(spec_finalize(mid, last, true, *self, r));
            match tx.action {
                TransactionAction::Lock => {
                    assert(self.pending@ == mid.pending@.update(
                        last,
                        with_state(p, PendingState::Committed),
                    ));
                    assert(self.pending@.drop_last() =~= old(self).pending@);
                },
                TransactionAction::Add => {
                    assert(self.pending@ == mid.pending@.remove(last));
                    assert(self.pending@ =~= old(self).pending@);
                },
                TransactionAction::Free => {
                    let j = choose|j: int|
                        0 <= j < old(self).pending@.len() && is_free_target(
                            old(self).pending@[j],
                            tx.client_id,
                            tx.coordinator@,
                            tx.points,
                        ) && mid.pending@.drop_last() == old(self).pending@.update(
                            j,
                            with_claimed(old(self).pending@[j], true),
                        ) && entry_for(mid.pending@.last(), tx, Some(old(self).pending@[j].timestamp));
                    assert(mid.pending@[j] == mid.pending@.drop_last()[j]);
                    assert(mid.pending@[j] == with_claimed(old(self).pending@[j], true));
                    assert(is_drain_target(mid.pending@[j], p));
                    assert(exists|q: int|
                        0 <= q < mid.pending@.len() && is_drain_target(mid.pending@[q], p));
                    assert(mid.pending@.drop_last() =~= old(self).pending@.update(
                        j,
                        with_claimed(old(self).pending@[j], true),
                    ));
                    if op_ok(old(self).ledger.spec_client(tx.client_id), PointsOp::Free(tx.points as nat)) {
                        assert(r is Ok);
                        assert(self.pending@ == remove_two(mid.pending@, last, j));
                        assert(mid.pending@.remove(last) =~= old(self).pending@.update(
                            j,
                            with_claimed(old(self).pending@[j], true),
                        ));
                        assert(self.pending@ =~= old(self).pending@.remove(j));
                    } else {
                        assert(mid.ledger == old(self).ledger);
                        assert(p.client_id == tx.client_id && p.points == tx.points);
                        assert(!op_ok(
                            mid.ledger.spec_client(p.client_id),
                            PointsOp::Free(p.points as nat),
                        ));
                        assert(spec_finalize_free(mid, last, true, *self, r));
                        assert(r is Err);
                        assert(self.ledger == old(self).ledger);
                        assert(self.pending@ == mid.pending@.remove(last));
                        assert(mid.pending@.remove(last) =~= mid.pending@.drop_last());
                        assert(self.pending@ =~= old(self).pending@.update(
                            j,
                            with_claimed(old(self).pending@[j], true),
                        ));
                    }
                    assert(exists|jj: int|
                        #![trigger old(self).pending@[jj]]
                        0 <= jj < old(self).pending@.len() && is_free_target(
                            old(self).pending@[jj],
                            o.client_id,
                            coordinator@,
                            n,
                        ) && if op_ok(
                            old(self).ledger.spec_client(o.client_id),
                            PointsOp::Free(n as nat),
                        ) {
                            reply == 1 && self.ledger.spec_client(o.client_id) == apply_op(
                                old(self).ledger.spec_client(o.client_id),
                                PointsOp::Free(n as nat),
                            ) && (forall|d: u16|
                                d != o.client_id ==> self.ledger.spec_client(d) == old(
                                    self,
                                ).ledger.spec_client(d)) && self.pending@ == old(
                                self,
                            ).pending@.remove(jj)
                        } else {
                            reply == 0 && self.ledger == old(self).ledger && self.pending@ == old(
                                self,
                            ).pending@.update(jj, with_claimed(old(self).pending@[jj], true))
                        }) by {
                        assert(mid.ledger == old(self).ledger);
                        if op_ok(
                            old(self).ledger.spec_client(o.client_id),
                            PointsOp::Free(n as nat),
                        ) {
                            assert(reply == 1);
                            assert(self.ledger.spec_client(o.client_id) == apply_op(
                                old(self).ledger.spec_client(o.client_id),
                                PointsOp::Free(n as nat),
                            ));
                            assert(forall|d: u16|
                                d != o.client_id ==> self.ledger.spec_client(d) == old(
                                    self,
                                ).ledger.spec_client(d));
                            assert(self.pending@ == old(self).pending@.remove(j));
                        } else {
                            assert(reply == 0);
                            assert(self.ledger == old(self).ledger);
                            assert(self.pending@ == old(self).pending@.update(
                                j,
                                with_claimed(old(self).pending@[j], true),
                            ));
                        }
                        assert(0 <= j < old(self).pending@.len() && is_free_target(
                            old(self).pending@[j],
                            o.client_id,
                            coordinator@,
                            n,
                        ) && if op_ok(
                            old(self).ledger.spec_client(o.client_id),
                            PointsOp::Free(n as nat),
                        ) {
                            reply == 1 && self.ledger.spec_client(o.client_id) == apply_op(
                                old(self).ledger.spec_client(o.client_id),
                                PointsOp::Free(n as nat),
                            ) && (forall|d: u16|
                                d != o.client_id ==> self.ledger.spec_client(d) == old(
                                    self,
                                ).ledger.spec_client(d)) && self.pending@ == old(
                                self,
                            ).pending@.remove(j)
                        } else {
                            reply == 0 && self.ledger == old(self).ledger && self.pending@ == old(
                                self,
                            ).pending@.update(j, with_claimed(old(self).pending@[j], true))
                        });
                    }
                },
                TransactionAction::Consume => {
                    let j = choose|j: int|
                        0 <= j < old(self).pending@.len() && is_consume_target(
                            old(self).pending@[j],
                            tx.client_id,
                            tx.coordinator@,
                            tx.points,
                        ) && mid.pending@.drop_last() == old(self).pending@.update(
                            j,
                            with_claimed(old(self).pending@[j], true),
                        ) && entry_for(mid.pending@.last(), tx, Some(old(self).pending@[j].timestamp));
                    assert(mid.pending@[j] == mid.pending@.drop_last()[j]);
                    assert(mid.pending@[j] == with_claimed(old(self).pending@[j], true));
                    assert(is_drain_target(mid.pending@[j], p));
                    assert(exists|q: int|
                        0 <= q < mid.pending@.len() && is_drain_target(mid.pending@[q], p));
                    assert(mid.pending@.drop_last() =~= old(self).pending@.update(
                        j,
                        with_claimed(old(self).pending@[j], true),
                    ));
                    if op_ok(old(self).ledger.spec_client(tx.client_id), PointsOp::Consume(tx.points as nat)) {
                        if mid.pending@[j].points > p.points {
                            assert(self.pending@ == mid.pending@.update(
                                j,
                                with_remainder(
                                    mid.pending@[j],
                                    (mid.pending@[j].points - p.points) as usize,
                                ),
                            ).remove(last));
                            assert(with_remainder(
                                mid.pending@[j],
                                (mid.pending@[j].points - p.points) as usize,
                            ) == with_remainder(
                                old(self).pending@[j],
                                (old(self).pending@[j].points - tx.points) as usize,
                            ));
                            assert(self.pending@ =~= mid.pending@.drop_last().update(
                                j,
                                with_remainder(
                                    old(self).pending@[j],
                                    (old(self).pending@[j].points - tx.points) as usize,
                                ),
                            ));
                            assert(self.pending@ =~= old(self).pending@.update(
                                j,
                                with_remainder(
                                    old(self).pending@[j],
                                    (old(self).pending@[j].points - tx.points) as usize,
                                ),
                            ));
                        } else {
                            assert(self.pending@ == remove_two(mid.pending@, last, j));
                            assert(mid.pending@.remove(last) =~= old(self).pending@.update(
                                j,
                                with_claimed(old(self).pending@[j], true),
                            ));
                            assert(self.pending@ =~= old(self).pending@.remove(j));
                        }
                    } else {
                        assert(self.pending@ == mid.pending@.remove(last));
                        assert(mid.pending@.remove(last) =~= mid.pending@.drop_last());
                        assert(self.pending@ =~= old(self).pending@.update(
                            j,
                            with_claimed(old(self).pending@[j], true),
                        ));
                    }
                },
            }
        }
        reply
    }
}


/// Under contention the older lock wins: a participant that already holds a
/// prepared lock for a client refuses every younger lock for that client,
/// whatever the funds.
pub proof fn lemma_older_lock_wins(
    r: Replica,
    i: int,
    client_id: u16,
    points: usize,
    timestamp: u128,
    coordinator: Seq<char>,
)
    requires
        0 <= i < r.pending@.len(),
        r.pending@[i].action is Lock,
        r.pending@[i].state is Prepared,
        r.pending@[i].client_id == client_id,
        key_older(r.pending@[i].timestamp, r.pending@[i].coordinator@, timestamp, coordinator),
    ensures
        !spec_vote_ok_fields(r, TransactionAction::Lock, client_id, points, timestamp, coordinator),
{
    assert(has_older_lock_fields(r.pending@, client_id, timestamp, coordinator));
}

/// The younger coordinator can retry: a lock under a fresh key, with no
/// prepared lock for its client in the way, is voted through whenever the
/// available balance allows it.
pub proof fn lemma_lock_retry(
    r: Replica,
    client_id: u16,
    points: usize,
    timestamp: u128,
    coordinator: Seq<char>,
)
    requires
        !has_key_fields(r.pending@, client_id, timestamp, coordinator),
        !has_older_lock_fields(r.pending@, client_id, timestamp, coordinator),
        r.ledger.spec_client(client_id).available >= points,
    ensures
        spec_vote_ok_fields(r, TransactionAction::Lock, client_id, points, timestamp, coordinator),
{
}

/// Removing an entry keeps the keys pairwise distinct.
proof fn lemma_remove_keeps_keys(s: Seq<Pending>, i: int)
    requires
        unique_keys(s),
        0 <= i < s.len(),
    ensures
        unique_keys(s.remove(i)),
{
    let s2 = s.remove(i);
    assert forall|p: int, q: int| 0 <= p < q < s2.len() implies !same_key(s2[p], s2[q]) by {
        let p0 = if p < i {
            p
        } else {
            p + 1
        };
        let q0 = if q < i {
            q
        } else {
            q + 1
        };
        assert(s2[p] == s[p0]);
        assert(s2[q] == s[q0]);
        assert(!same_key(s[p0], s[q0]));
    }
}

/// Pushing an entry whose key no existing entry carries keeps the keys
/// pairwise distinct.
proof fn lemma_push_fresh_key(s: Seq<Pending>, e: Pending, tx: Transaction)
    requires
        unique_keys(s),
        !has_key(s, tx),
        key_matches(e, tx),
    ensures
        unique_keys(s.push(e)),
        s.push(e).drop_last() == s,
{
    let s2 = s.push(e);
    assert forall|i: int, j: int| 0 <= i < j < s2.len() implies !same_key(s2[i], s2[j]) by {
        if j < s.len() {
            assert(s2[i] == s[i]);
            assert(s2[j] == s[j]);
        } else {
            assert(s2[j] == e);
            assert(s2[i] == s[i]);
            assert(!key_matches(s[i], tx));
        }
    }
    assert(s2.drop_last() =~= s);
}

/// Replacing an entry with one that carries the same key keeps the keys
/// pairwise distinct.
proof fn lemma_update_keeps_keys(s: Seq<Pending>, j: int, e: Pending)
    requires
        unique_keys(s),
        0 <= j < s.len(),
        same_key(e, s[j]),
        e.client_id == s[j].client_id,
        e.timestamp == s[j].timestamp,
        e.coordinator == s[j].coordinator,
    ensures
        unique_keys(s.update(j, e)),
        forall|tx: Transaction| has_key(s.update(j, e), tx) == has_key(s, tx),
{
    let s2 = s.update(j, e);
    assert forall|p: int, q: int| 0 <= p < q < s2.len() implies !same_key(s2[p], s2[q]) by {
        assert(!same_key(s[p], s[q]));
    }
    assert forall|tx: Transaction| has_key(s2, tx) == has_key(s, tx) by {
        if has_key(s2, tx) {
            let i = choose|i: int| 0 <= i < s2.len() && key_matches(s2[i], tx);
            assert(key_matches(s[i], tx));
        }
        if has_key(s, tx) {
            let i = choose|i: int| 0 <= i < s.len() && key_matches(s[i], tx);
            assert(key_matches(s2[i], tx));
        }
    }
}

} // verus!
