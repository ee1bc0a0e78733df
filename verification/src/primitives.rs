//! The records the bank keeps: a depositor's account, a withdrawal request and a
//! queued trade.

use vstd::prelude::*;

verus! {

/// What the bank records of one depositor.
#[derive(PartialEq, Eq, Structural, Clone, Copy, Debug)]
pub struct UserInfo {
    /// The depositor's account.
    pub userid: u128,
    /// All that the depositor holds in the bank.
    pub amount: u128,
    /// The depositor's key.
    pub user_key: u128,
}

/// `info` after `amount` was added to what it holds.
pub open spec fn charged(info: UserInfo, amount: u128) -> UserInfo {
    UserInfo { amount: (info.amount + amount) as u128, ..info }
}

/// `info` after a withdrawal of `amount`: taken out when it holds enough,
/// left as it is otherwise.
pub open spec fn withdrawn(info: UserInfo, amount: u128) -> UserInfo {
    if amount <= info.amount {
        UserInfo { amount: (info.amount - amount) as u128, ..info }
    } else {
        info
    }
}

impl UserInfo {
    /// Adds `amount` to what the depositor holds.
    pub fn charge_account(&mut self, amount: u128)
        requires
            old(self).amount + amount <= u128::MAX,
        ensures
            *final(self) == charged(*old(self), amount),
    {
        self.amount = self.amount + amount;
    }

    /// Takes `amount` out of what the depositor holds, if it holds that much;
    /// tells whether it did.
    pub fn withdraw_amount(&mut self, amount: u128) -> (ok: bool)
        ensures
            ok == (amount <= old(self).amount),
            *final(self) == withdrawn(*old(self), amount),
    {
        if amount > self.amount {
            return false;
        }
        self.amount = self.amount - amount;
        true
    }
}

/// A request to withdraw `money` for `who`.
#[derive(PartialEq, Eq, Structural, Clone, Copy, Debug)]
pub struct WithdrawInfo {
    pub who: u128,
    pub money: u128,
}

impl WithdrawInfo {
    pub fn new(who: u128, money: u128) -> (info: Self)
        ensures
            info == (WithdrawInfo { who, money }),
    {
        Self { who, money }
    }
}

/// A trade to settle: `amount` leaves what `source` holds in the bank and is
/// paid out to `dest`.
#[derive(PartialEq, Eq, Structural, Clone, Copy, Debug)]
pub struct TradeInfo {
    pub source: u128,
    pub dest: u128,
    pub amount: u128,
}

impl TradeInfo {
    pub fn new(source: u128, dest: u128, amount: u128) -> (info: Self)
        ensures
            info == (TradeInfo { source, dest, amount }),
    {
        Self { source, dest, amount }
    }
}

/// Charging an account with `x` and then withdrawing `x` succeeds and gives back
/// the account as it was.
pub proof fn law_charge_then_withdraw_restores(info: UserInfo, x: u128)
    requires
        info.amount + x <= u128::MAX,
    ensures
        x <= charged(info, x).amount,
        withdrawn(charged(info, x), x) == info,
{
}

} // verus!
