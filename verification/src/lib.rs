//! A permissioned governance library built from two coupled state machines:
//! a social-graph admission engine that grows a voter set through vouching,
//! and a quadratic-power voting engine that queues proposals, tallies votes
//! weighted by the integer square root of locked stake, and periodically
//! finalizes the oldest proposal.
//!
//! The two engines are connected only through small capability traits, so a
//! concrete admission or item-registry implementation can be swapped without
//! touching the voting engine.

pub mod assoc_list;
pub mod balances;
pub mod bounded_vec;
pub mod dispatch;
pub mod identity;
pub mod interface;
pub mod kitties;
pub mod runtime;
pub mod sqrt;
pub mod voting;
