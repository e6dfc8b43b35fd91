//! A single-node ledger: hash-linked blocks sealed by proof of work, a queue
//! of pending transactions admitted against replayed balances, and an
//! integrity walk over the chain.
use vstd::prelude::*;

pub mod hasher;
pub mod ledger;
pub mod api;

verus! {

} // verus!
