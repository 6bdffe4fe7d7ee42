//! Mirror of program-owned ledger accounts in a relational store.
//!
//! The library holds the verified core of the synchronization engine:
//! byte-level decoding of the two on-chain record layouts, the
//! length-based account classifier, and the reconciliation algorithm
//! that keeps the mirror and its derived aggregate consistent with the
//! most recent full fetch. Network and database plumbing live outside
//! the library and hand it plain values.

use vstd::prelude::*;

pub mod decode;
pub mod mirror;
pub mod records;

verus! {

} // verus!
