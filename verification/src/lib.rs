//! Distributed loyalty-points network: the verified core.
//!
//! Branches of a coffee shop each run a replica that owns a copy of the
//! customer point balances.  Orders either add points (cash purchases) or
//! consume points (redemptions).  Balances stay globally consistent through a
//! two-phase commit protocol with timestamp-ordered concurrency control.
//!
//! The crate holds the protocol logic itself: the wire codec for orders and
//! messages, the balance ledger, the transaction engine (coordinator decision
//! and participant voting), and the worker-pool accounting that fences
//! concurrent requests.  Network transport and threads live outside; they
//! hand this library plain values and take plain values back.

pub mod ledger;
pub mod message;
pub mod order;
pub mod pool;
pub mod replica;
pub mod transaction;
