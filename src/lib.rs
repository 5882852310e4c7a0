//! Non-fungible token ledger: ownership transfers with a compensating
//! rollback protocol, and the standard event records that log them.

pub mod contract;
pub mod event;
pub mod json;
pub mod ledger;
