//! The balance ledger: per-replica authoritative point balances.
//!
//! Each client has an available balance and a locked balance.  Locking moves
//! points from available to locked, freeing moves them back, consuming drains
//! locked points, and adding raises the available balance.  A client with no
//! entry stands for the balance zero.
//!
//! The ledger's contract is stated over a small model: `ClientPoints` is one
//! client's balance, `PointsOp` is one primitive operation on it, and each
//! executable operation is proved to take the touched client's balance
//! through `apply_op` and to leave every other client alone.  The
//! conservation law — available plus locked moves only by committed adds and
//! consumes — is proved once over the model, for every operation sequence.

use vstd::prelude::*;

verus! {

/// One client's balance: points free to lock and points currently locked.
pub struct ClientPoints {
    pub available: nat,
    pub locked: nat,
}

/// A primitive ledger operation on one client's balance.
pub enum PointsOp {
    Lock(nat),
    Free(nat),
    Consume(nat),
    Add(nat),
}

/// The sum a client owns, locked or not.
pub open spec fn spec_points_total(p: ClientPoints) -> int {
    p.available + p.locked as int
}

/// Whether an operation succeeds on the given balance: locking needs enough
/// available points, freeing and consuming need enough locked points, and
/// adding always succeeds.
pub open spec fn op_ok(p: ClientPoints, op: PointsOp) -> bool {
    match op {
        PointsOp::Lock(n) => p.available >= n,
        PointsOp::Free(n) => p.locked >= n,
        PointsOp::Consume(n) => p.locked >= n,
        PointsOp::Add(n) => true,
    }
}

/// The balance after an operation; an operation that does not succeed
/// changes nothing.
pub open spec fn apply_op(p: ClientPoints, op: PointsOp) -> ClientPoints {
    if !op_ok(p, op) {
        p
    } else {
        match op {
            PointsOp::Lock(n) => ClientPoints {
                available: (p.available - n) as nat,
                locked: (p.locked + n) as nat,
            },
            PointsOp::Free(n) => ClientPoints {
                available: (p.available + n) as nat,
                locked: (p.locked - n) as nat,
            },
            PointsOp::Consume(n) => ClientPoints { available: p.available, locked: (p.locked - n) as nat },
            PointsOp::Add(n) => ClientPoints { available: (p.available + n) as nat, locked: p.locked },
        }
    }
}

/// What an operation does to the client's total: a committed add raises it,
/// a committed consume lowers it, locking and freeing only move points
/// between the two balances, and a failed operation does nothing.
pub open spec fn op_delta(p: ClientPoints, op: PointsOp) -> int {
    if !op_ok(p, op) {
        0
    } else {
        match op {
            PointsOp::Lock(n) => 0,
            PointsOp::Free(n) => 0,
            PointsOp::Consume(n) => -(n as int),
            PointsOp::Add(n) => n as int,
        }
    }
}

/// The balance after a sequence of operations, applied in order.
pub open spec fn run_ops(p: ClientPoints, ops: Seq<PointsOp>) -> ClientPoints
    decreases ops.len(),
{
    if ops.len() == 0 {
        p
    } else {
        run_ops(apply_op(p, ops[0]), ops.skip(1))
    }
}

/// The algebraic sum of what the committed operations in a sequence add and
/// consume, starting from the given balance.
pub open spec fn ops_delta(p: ClientPoints, ops: Seq<PointsOp>) -> int
    decreases ops.len(),
{
    if ops.len() == 0 {
        0
    } else {
        op_delta(p, ops[0]) + ops_delta(apply_op(p, ops[0]), ops.skip(1))
    }
}

/// No double-spend: after any sequence of ledger operations, a client's
/// total — available plus locked — equals the starting total plus the
/// algebraic sum of the committed adds minus the committed consumes.
/// Locking and freeing never create or destroy points.
pub proof fn lemma_conservation(p: ClientPoints, ops: Seq<PointsOp>)
    ensures
        spec_points_total(run_ops(p, ops)) == spec_points_total(p) + ops_delta(p, ops),
    decreases ops.len(),
{
    if ops.len() == 0 {
    } else {
        lemma_conservation(apply_op(p, ops[0]), ops.skip(1));
    }
}

/// One stored ledger row.
#[derive(Clone, Copy, Debug, PartialEq, Eq, Structural)]
pub struct LedgerEntry {
    pub client_id: u16,
    pub available: usize,
    pub locked: usize,
}

/// An error a ledger operation reports: the check it makes failed and the
/// ledger is unchanged.
#[derive(Clone, Copy, Debug, PartialEq, Eq, Structural)]
pub enum LedgerError {
    /// A lock asked for more points than the client has available.
    InsufficientFunds,
    /// A free or consume asked for more points than the client has locked.
    Underflow,
}

/// The balance a sequence of rows gives a client: the first row with the
/// client's id, or zero where there is none.
pub open spec fn spec_entry(s: Seq<LedgerEntry>, c: u16) -> ClientPoints
    decreases s.len(),
{
    if s.len() == 0 {
        ClientPoints { available: 0, locked: 0 }
    } else if s[0].client_id == c {
        ClientPoints { available: s[0].available as nat, locked: s[0].locked as nat }
    } else {
        spec_entry(s.skip(1), c)
    }
}

/// Rows name pairwise distinct clients.
pub open spec fn unique_clients(s: Seq<LedgerEntry>) -> bool {
    forall|i: int, j: int|
        0 <= i < j < s.len() ==> s[i].client_id != s[j].client_id
}

/// Per-replica authoritative state: available and locked points per client.
pub struct Ledger {
    entries: Vec<LedgerEntry>,
}

impl Ledger {
    /// A well-formed ledger names each client at most once and keeps every
    /// client's total within the machine's range.
    pub closed spec fn wf(&self) -> bool {
        &&& unique_clients(self.entries@)
        &&& forall|i: int|
            0 <= i < self.entries@.len() ==> self.entries@[i].available + self.entries@[i].locked
                <= usize::MAX
    }

    /// The balance this ledger gives a client.
    pub closed spec fn spec_client(&self, c: u16) -> ClientPoints {
        spec_entry(self.entries@, c)
    }

    /// An empty ledger: every client's balance is zero.
    pub fn new() -> (l: Ledger)
        ensures
            l.wf(),
            forall|c: u16| l.spec_client(c) == (ClientPoints { available: 0, locked: 0 }),
    {
        Ledger { entries: Vec::new() }
    }

    /// The index of a client's row, or `None` where the client has none.
    fn find(&self, client_id: u16) -> (r: Option<usize>)
        ensures
            r matches Some(i) ==> i < self.entries@.len() && self.entries@[i as int].client_id
                == client_id,
            r is None ==> forall|j: int|
                0 <= j < self.entries@.len() ==> self.entries@[j].client_id != client_id,
    {
        let mut i: usize = 0;
        while i < self.entries.len()
            invariant
                i <= self.entries@.len(),
                forall|j: int| 0 <= j < i ==> self.entries@[j].client_id != client_id,
            decreases self.entries@.len() - i,
        {
            if self.entries[i].client_id == client_id {
                return Some(i);
            }
            i = i + 1;
        }
        None
    }

    /// The points a client can still lock.
    pub fn available(&self, client_id: u16) -> (r: usize)
        requires
            self.wf(),
        ensures
            r == self.spec_client(client_id).available,
    {
        match self.find(client_id) {
            Some(i) => {
                proof {
                    lemma_spec_entry_at(self.entries@, client_id, i as int);
                }
                self.entries[i].available
            },
            None => {
                proof {
                    lemma_spec_entry_absent(self.entries@, client_id);
                }
                0
            },
        }
    }

    /// The points a client has locked.
    pub fn locked(&self, client_id: u16) -> (r: usize)
        requires
            self.wf(),
        ensures
            r == self.spec_client(client_id).locked,
    {
        match self.find(client_id) {
            Some(i) => {
                proof {
                    lemma_spec_entry_at(self.entries@, client_id, i as int);
                }
                self.entries[i].locked
            },
            None => {
                proof {
                    lemma_spec_entry_absent(self.entries@, client_id);
                }
                0
            },
        }
    }

    /// Moves `points` from a client's available balance to its locked
    /// balance.  Fails, and changes nothing, where the available balance is
    /// too small.
    pub fn try_lock(&mut self, client_id: u16, points: usize) -> (r: Result<(), LedgerError>)
        requires
            old(self).wf(),
        ensures
            final (self).wf(),
            r is Ok <==> op_ok(old(self).spec_client(client_id), PointsOp::Lock(points as nat)),
            final (self).spec_client(client_id) == apply_op(
                old(self).spec_client(client_id),
                PointsOp::Lock(points as nat),
            ),
            forall|d: u16|
                d != client_id ==> final (self).spec_client(d) == old(self).spec_client(d),
            r matches Err(e) ==> e == LedgerError::InsufficientFunds && *final (self) == *old(self),
    {
        match self.find(client_id) {
            Some(i) => {
                proof {
                    lemma_spec_entry_at(self.entries@, client_id, i as int);
                }
                let e = self.entries[i];
                if e.available >= points {
                    let e2 = LedgerEntry {
                        client_id,
                        available: e.available - points,
                        locked: e.locked + points,
                    };
                    proof {
                        lemma_spec_entry_update(self.entries@, i as int, e2);
                    }
                    self.entries[i] = e2;
                    Ok(())
                } else {
                    Err(LedgerError::InsufficientFunds)
                }
            },
            None => {
                proof {
                    lemma_spec_entry_absent(self.entries@, client_id);
                }
                if points == 0 {
                    Ok(())
                } else {
                    Err(LedgerError::InsufficientFunds)
                }
            },
        }
    }

    /// Moves `points` back from a client's locked balance to its available
    /// balance; the reverse of a lock.  Fails, and changes nothing, where the
    /// locked balance is too small.
    pub fn unlock(&mut self, client_id: u16, points: usize) -> (r: Result<(), LedgerError>)
        requires
            old(self).wf(),
        ensures
            final (self).wf(),
            r is Ok <==> op_ok(old(self).spec_client(client_id), PointsOp::Free(points as nat)),
            final (self).spec_client(client_id) == apply_op(
                old(self).spec_client(client_id),
                PointsOp::Free(points as nat),
            ),
            forall|d: u16|
                d != client_id ==> final (self).spec_client(d) == old(self).spec_client(d),
            r matches Err(e) ==> e == LedgerError::Underflow && *final (self) == *old(self),
    {
        match self.find(client_id) {
            Some(i) => {
                proof {
                    lemma_spec_entry_at(self.entries@, client_id, i as int);
                }
                let e = self.entries[i];
                if e.locked >= points {
                    let e2 = LedgerEntry {
                        client_id,
                        available: e.available + points,
                        locked: e.locked - points,
                    };
                    proof {
                        lemma_spec_entry_update(self.entries@, i as int, e2);
                    }
                    self.entries[i] = e2;
                    Ok(())
                } else {
                    Err(LedgerError::Underflow)
                }
            },
            None => {
                proof {
                    lemma_spec_entry_absent(self.entries@, client_id);
                }
                if points == 0 {
                    Ok(())
                } else {
                    Err(LedgerError::Underflow)
                }
            },
        }
    }

    /// Drains `points` from a client's locked balance; the points leave the
    /// ledger.  Fails, and changes nothing, where the locked balance is too
    /// small.
    pub fn consume(&mut self, client_id: u16, points: usize) -> (r: Result<(), LedgerError>)
        requires
            old(self).wf(),
        ensures
            final (self).wf(),
            r is Ok <==> op_ok(old(self).spec_client(client_id), PointsOp::Consume(points as nat)),
            final (self).spec_client(client_id) == apply_op(
                old(self).spec_client(client_id),
                PointsOp::Consume(points as nat),
            ),
            forall|d: u16|
                d != client_id ==> final (self).spec_client(d) == old(self).spec_client(d),
            r matches Err(e) ==> e == LedgerError::Underflow && *final (self) == *old(self),
    {
        match self.find(client_id) {
            Some(i) => {
                proof {
                    lemma_spec_entry_at(self.entries@, client_id, i as int);
                }
                let e = self.entries[i];
                if e.locked >= points {
                    let e2 = LedgerEntry {
                        client_id,
                        available: e.available,
                        locked: e.locked - points,
                    };
                    proof {
                        lemma_spec_entry_update(self.entries@, i as int, e2);
                    }
                    self.entries[i] = e2;
                    Ok(())
                } else {
                    Err(LedgerError::Underflow)
                }
            },
            None => {
                proof {
                    lemma_spec_entry_absent(self.entries@, client_id);
                }
                if points == 0 {
                    Ok(())
                } else {
                    Err(LedgerError::Underflow)
                }
            },
        }
    }

    /// Raises a client's available balance by `points`, creating the client's
    /// row where it is absent.  Always succeeds; the machine's range is the
    /// only bound.
    pub fn add(&mut self, client_id: u16, points: usize)
        requires
            old(self).wf(),
            spec_points_total(old(self).spec_client(client_id)) + points <= usize::MAX,
        ensures
            final (self).wf(),
            final (self).spec_client(client_id) == apply_op(
                old(self).spec_client(client_id),
                PointsOp::Add(points as nat),
            ),
            forall|d: u16|
                d != client_id ==> final (self).spec_client(d) == old(self).spec_client(d),
    {
        match self.find(client_id) {
            Some(i) => {
                proof {
                    lemma_spec_entry_at(self.entries@, client_id, i as int);
                }
                let e = self.entries[i];
                let e2 = LedgerEntry { client_id, available: e.available + points, locked: e.locked };
                proof {
                    lemma_spec_entry_update(self.entries@, i as int, e2);
                }
                self.entries[i] = e2;
            },
            None => {
                proof {
                    lemma_spec_entry_absent(self.entries@, client_id);
                    lemma_spec_entry_push(self.entries@, LedgerEntry { client_id, available: points, locked: 0 });
                }
                self.entries.push(LedgerEntry { client_id, available: points, locked: 0 });
            },
        }
    }
}

/// Sequences with distinct clients keep that property when one is dropped
/// from the front.
proof fn lemma_unique_skip(s: Seq<LedgerEntry>)
    requires
        unique_clients(s),
        s.len() > 0,
    ensures
        unique_clients(s.skip(1)),
{
    assert forall|i: int, j: int|
        0 <= i < j < s.skip(1).len() implies s.skip(1)[i].client_id != s.skip(1)[j].client_id by {
        assert(s.skip(1)[i] == s[i + 1]);
        assert(s.skip(1)[j] == s[j + 1]);
    }
}

/// The balance a row gives its own client, where clients are distinct.
proof fn lemma_spec_entry_at(s: Seq<LedgerEntry>, c: u16, i: int)
    requires
        unique_clients(s),
        0 <= i < s.len(),
        s[i].client_id == c,
    ensures
        spec_entry(s, c) == (ClientPoints {
            available: s[i].available as nat,
            locked: s[i].locked as nat,
        }),
    decreases i,
{
    if i == 0 {
    } else {
        assert(s[0].client_id != c);
        lemma_unique_skip(s);
        assert(s.skip(1)[i - 1] == s[i]);
        lemma_spec_entry_at(s.skip(1), c, i - 1);
    }
}

/// A client with no row has the balance zero.
proof fn lemma_spec_entry_absent(s: Seq<LedgerEntry>, c: u16)
    requires
        forall|j: int| 0 <= j < s.len() ==> s[j].client_id != c,
    ensures
        spec_entry(s, c) == (ClientPoints { available: 0, locked: 0 }),
    decreases s.len(),
{
    if s.len() == 0 {
    } else {
        assert forall|j: int| 0 <= j < s.skip(1).len() implies s.skip(1)[j].client_id != c by {
            assert(s.skip(1)[j] == s[j + 1]);
        }
        lemma_spec_entry_absent(s.skip(1), c);
    }
}

/// Replacing a row in place, same client, changes only that client's balance
/// and keeps the clients distinct.
proof fn lemma_spec_entry_update(s: Seq<LedgerEntry>, i: int, e2: LedgerEntry)
    requires
        unique_clients(s),
        0 <= i < s.len(),
        s[i].client_id == e2.client_id,
    ensures
        unique_clients(s.update(i, e2)),
        spec_entry(s.update(i, e2), e2.client_id) == (ClientPoints {
            available: e2.available as nat,
            locked: e2.locked as nat,
        }),
        forall|d: u16|
            d != e2.client_id ==> spec_entry(s.update(i, e2), d) == spec_entry(s, d),
    decreases i,
{
    let s2 = s.update(i, e2);
    assert forall|p: int, q: int|
        0 <= p < q < s2.len() implies s2[p].client_id != s2[q].client_id by {
        assert(s[p].client_id != s[q].client_id);
    }
    lemma_spec_entry_at(s2, e2.client_id, i);
    assert forall|d: u16| d != e2.client_id implies spec_entry(s2, d) == spec_entry(s, d) by {
        lemma_spec_entry_same_others(s, i, e2, d);
    }
}

/// The balance of any other client does not change when one row is replaced.
proof fn lemma_spec_entry_same_others(s: Seq<LedgerEntry>, i: int, e2: LedgerEntry, d: u16)
    requires
        0 <= i < s.len(),
        s[i].client_id == e2.client_id,
        d != e2.client_id,
    ensures
        spec_entry(s.update(i, e2), d) == spec_entry(s, d),
    decreases i,
{
    let s2 = s.update(i, e2);
    if i == 0 {
        assert(s2.skip(1) =~= s.skip(1));
    } else {
        assert(s2[0] == s[0]);
        if s[0].client_id == d {
        } else {
            assert(s2.skip(1) =~= s.skip(1).update(i - 1, e2));
            assert(s.skip(1)[i - 1] == s[i]);
            lemma_spec_entry_same_others(s.skip(1), i - 1, e2, d);
        }
    }
}

/// Appending a row for a new client sets that client's balance and leaves
/// every other balance alone, keeping the clients distinct.
proof fn lemma_spec_entry_push(s: Seq<LedgerEntry>, e: LedgerEntry)
    requires
        forall|j: int| 0 <= j < s.len() ==> s[j].client_id != e.client_id,
        unique_clients(s),
    ensures
        unique_clients(s.push(e)),
        spec_entry(s.push(e), e.client_id) == (ClientPoints {
            available: e.available as nat,
            locked: e.locked as nat,
        }),
        forall|d: u16| d != e.client_id ==> spec_entry(s.push(e), d) == spec_entry(s, d),
    decreases s.len(),
{
    let s2 = s.push(e);
    assert forall|p: int, q: int|
        0 <= p < q < s2.len() implies s2[p].client_id != s2[q].client_id by {
        if q < s.len() {
            assert(s[p].client_id != s[q].client_id);
        } else {
            assert(s2[q] == e);
            assert(s2[p] == s[p]);
        }
    }
    lemma_spec_entry_at(s2, e.client_id, s.len() as int);
    assert forall|d: u16| d != e.client_id implies spec_entry(s2, d) == spec_entry(s, d) by {
        lemma_spec_entry_push_others(s, e, d);
    }
}

/// The balance of any other client does not change when a new row is
/// appended.
proof fn lemma_spec_entry_push_others(s: Seq<LedgerEntry>, e: LedgerEntry, d: u16)
    requires
        d != e.client_id,
    ensures
        spec_entry(s.push(e), d) == spec_entry(s, d),
    decreases s.len(),
{
    let s2 = s.push(e);
    if s.len() == 0 {
        assert(s2[0] == e);
        assert(s2.skip(1) =~= Seq::<LedgerEntry>::empty());
        assert(spec_entry(Seq::<LedgerEntry>::empty(), d) == (ClientPoints {
            available: 0 as nat,
            locked: 0 as nat,
        }));
        assert(spec_entry(s2, d) == spec_entry(s2.skip(1), d));
    } else {
        assert(s2[0] == s[0]);
        if s[0].client_id == d {
        } else {
            assert(s2.skip(1) =~= s.skip(1).push(e));
            lemma_spec_entry_push_others(s.skip(1), e, d);
        }
    }
}

} // verus!
