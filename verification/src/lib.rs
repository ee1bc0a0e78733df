//! A bank ledger: registered users deposit into and withdraw from a set of
//! pool accounts, may authorize other accounts, and queued trades are settled
//! once per block against the depositors' recorded amounts.

pub mod account;
pub mod dispatch;
pub mod laws;
pub mod pallet;
pub mod pot;
pub mod primitives;
