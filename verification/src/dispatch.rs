//! Who a call comes from, how a call fails, and the transfers of funds that
//! the bank asks the currency to carry out.

use crate::pallet::Error;
use vstd::prelude::*;

verus! {

/// The origin of a call.
#[derive(PartialEq, Eq, Structural, Clone, Copy, Debug)]
pub enum Origin {
    /// The chain's root authority.
    Root,
    /// A call signed by this account.
    Signed(u128),
    /// An unsigned call.
    Unsigned,
}

/// Why a call failed.
#[derive(PartialEq, Eq, Structural, Clone, Copy, Debug)]
pub enum DispatchError {
    /// The call did not come from the origin it needs.
    BadOrigin,
    /// The bank refused the call.
    Module(Error),
    /// The currency refused a transfer; the code is the currency's own.
    Currency(u32),
}

/// A transfer of `value` from `from` to `to`, in which `from` must stay alive
/// (keep at least the existential deposit).
#[derive(PartialEq, Eq, Structural, Clone, Copy, Debug)]
pub struct Transfer {
    pub from: u128,
    pub to: u128,
    pub value: u128,
}

/// The signer of a signed call; any other origin is a bad origin.
pub fn ensure_signed(origin: Origin) -> (r: Result<u128, DispatchError>)
    ensures
        r == (match origin {
            Origin::Signed(who) => Ok(who),
            _ => Err(DispatchError::BadOrigin),
        }),
{
    match origin {
        Origin::Signed(who) => Ok(who),
        _ => Err(DispatchError::BadOrigin),
    }
}

/// Succeeds for the root origin only.
pub fn ensure_root(origin: Origin) -> (r: Result<(), DispatchError>)
    ensures
        r == (match origin {
            Origin::Root => Ok(()),
            _ => Err(DispatchError::BadOrigin),
        }),
{
    match origin {
        Origin::Root => Ok(()),
        _ => Err(DispatchError::BadOrigin),
    }
}

} // verus!
