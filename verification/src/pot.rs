//! The storage pallet's pot: the account that holds what users store.

use crate::account::{le_value, sub_account, sub_account_seed};
use vstd::prelude::*;

verus! {

/// The pallet identifier of the storage pallet: `b"RADCGZH!"`.
pub open spec fn storage_pallet_id() -> Seq<u8> {
    seq![82u8, 65u8, 68u8, 67u8, 71u8, 90u8, 72u8, 33u8]
}

/// The sub-account seed of the storage pot: `b"stor"`.
pub open spec fn storage_sub() -> Seq<u8> {
    seq![115u8, 116u8, 111u8, 114u8]
}

/// Why a call to the storage pallet failed.
#[derive(PartialEq, Eq, Structural, Clone, Copy, Debug)]
pub enum Error {
    AccountNotExit,
}

/// What the storage pallet announces.
#[derive(PartialEq, Eq, Structural, Clone, Copy, Debug)]
pub enum Event {
    /// A withdrawal by this account of this amount succeeded.
    WithDrawSuccess(u128, u128),
}

/// The storage pallet.
pub struct Pallet;

impl Pallet {
    /// The storage pot: the sub-account `b"stor"` of the storage pallet.
    pub fn storage_pot() -> (account: u128)
        ensures
            account == le_value(sub_account_seed(storage_pallet_id(), storage_sub())),
    {
        let id: [u8; 8] = [82, 65, 68, 67, 71, 90, 72, 33];
        let sub: [u8; 4] = [115, 116, 111, 114];
        proof {
            assert(id@ =~= storage_pallet_id());
            assert(sub@ =~= storage_sub());
        }
        sub_account(id, sub)
    }
}

} // verus!
