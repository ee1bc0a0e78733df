//! The bank: its records, the calls that users and root make on it, and the
//! settlement of queued trades at the start of each block.
//!
//! Calls that move funds are split in two around the transfer, which the
//! currency of the chain carries out: the first half decides and names the
//! transfer to make, the second half takes the currency's answer and finishes
//! the call.

use crate::account::{pool, pool_account};
use crate::dispatch::{ensure_root, ensure_signed, DispatchError, Origin, Transfer};
use crate::primitives::{charged, withdrawn, TradeInfo, UserInfo, WithdrawInfo};
use std::collections::HashMap;
use vstd::prelude::*;

verus! {

broadcast use vstd::std_specs::hash::group_hash_axioms;

/// Why the bank refused a call.
#[derive(PartialEq, Eq, Structural, Clone, Copy, Debug)]
pub enum Error {
    NotExitBankAccount,
    NotEnoughMoney,
    AlreayAuthority,
    NotExitTransactionList,
    AlreadyExitBankAccount,
}

/// What the bank announces.
#[derive(PartialEq, Eq, Structural, Clone, Copy, Debug)]
pub enum Event {
    /// This account opened a bank account.
    RegisterSuccess(u128),
    /// This account deposited this amount.
    ChargeAmountSuccess(u128, u128),
    /// This account withdrew this amount.
    WithdrawSuccess(u128, u128),
    Yes,
    No,
    /// The first account authorized the second.
    AuthoritySuccess(u128, u128),
    /// The applicant, the source and the amount of a trade.
    ApplyTradeSuccess(u128, u128, u128),
    /// The payer and the amount of a trade.
    TradeSuccess(u128, u128),
}

/// What a signed call of `charge_bank_pot` pays into each of the five pools.
pub const POT_CHARGE: u128 = 300_000_000_000_000;

/// `a - b`, or zero where `b` exceeds `a`.
pub open spec fn saturating_sub(a: u128, b: u128) -> u128 {
    if a >= b {
        (a - b) as u128
    } else {
        0
    }
}

/// The pool (counted from zero) that a random number in `0..5` selects; any
/// other number selects the last pool.
pub open spec fn pool_for(rand: u8) -> nat {
    if rand < 5 {
        rand as nat
    } else {
        4
    }
}

/// The depositors' records after the trades were settled in order: each trade
/// withdraws its amount from what its source holds, where it holds enough.
pub open spec fn settle_trades(accounts: Map<u128, UserInfo>, trades: Seq<TradeInfo>) -> Map<
    u128,
    UserInfo,
>
    decreases trades.len(),
{
    if trades.len() == 0 {
        accounts
    } else {
        let before = settle_trades(accounts, trades.drop_last());
        let t = trades.last();
        before.insert(t.source, withdrawn(before[t.source], t.amount))
    }
}

/// The transfers that settle the trades: the `i`th pays its amount to its
/// destination out of the pool that the `i`th random number selects.
pub open spec fn settlement_transfers(trades: Seq<TradeInfo>, rands: Seq<u8>) -> Seq<Transfer> {
    Seq::new(
        trades.len(),
        |i: int|
            Transfer {
                from: pool_account(pool_for((rands[i] % 5) as u8)) as u128,
                to: trades[i].dest,
                value: trades[i].amount,
            },
    )
}

/// The transfers of a signed call of `charge_bank_pot` by `who`: `POT_CHARGE`
/// into each pool, in order.
pub open spec fn pot_transfers(who: u128) -> Seq<Transfer> {
    Seq::new(
        5,
        |i: int| Transfer { from: who, to: pool_account(i as nat) as u128, value: POT_CHARGE },
    )
}

/// The first refusal among the currency's answers, in order, if any.
pub open spec fn first_refusal(answers: Seq<Result<(), u32>>) -> Option<u32>
    decreases answers.len(),
{
    if answers.len() == 0 {
        None
    } else {
        match answers[0] {
            Err(code) => Some(code),
            Ok(()) => first_refusal(answers.drop_first()),
        }
    }
}

/// Where a call of `charge_bank_pot` stands, given the currency's answers to
/// its transfers so far, in order: it ends with the first refusal; it succeeds
/// once all five transfers went through; otherwise (`None`) it goes on with
/// the transfer after the last answered one.
pub open spec fn pot_progress(answers: Seq<Result<(), u32>>) -> Option<Result<(), DispatchError>> {
    match first_refusal(answers) {
        Some(code) => Some(Err(DispatchError::Currency(code))),
        None => if answers.len() >= 5 {
            Some(Ok(()))
        } else {
            None
        },
    }
}

/// Trades are settled at the start of every `SETTLEMENT_PERIOD`th block.
pub const SETTLEMENT_PERIOD: u32 = 50;

/// How a call that made a transfer ends once the currency has answered: a
/// refusal by the currency is the call's error; otherwise the call succeeds.
pub open spec fn finish<T>(outcome: Result<(), u32>, event: T) -> Result<T, DispatchError> {
    match outcome {
        Ok(()) => Ok(event),
        Err(code) => Err(DispatchError::Currency(code)),
    }
}

/// The first byte of each random output.
pub open spec fn first_bytes(outputs: Seq<Vec<u8>>) -> Seq<u8> {
    outputs.map_values(|o: Vec<u8>| o@[0])
}

/// Settling trades whose sources are all depositors keeps the depositors and
/// each record's account and key, and never raises what a record holds.
pub proof fn lemma_settle_trades(accounts: Map<u128, UserInfo>, trades: Seq<TradeInfo>)
    requires
        forall|i: int| 0 <= i < trades.len() ==> accounts.contains_key(#[trigger] trades[i].source),
    ensures
        settle_trades(accounts, trades).dom() == accounts.dom(),
        forall|who: u128| #[trigger]
            accounts.contains_key(who) ==> {
                &&& settle_trades(accounts, trades)[who].userid == accounts[who].userid
                &&& settle_trades(accounts, trades)[who].user_key == accounts[who].user_key
                &&& settle_trades(accounts, trades)[who].amount <= accounts[who].amount
            },
    decreases trades.len(),
{
    if trades.len() > 0 {
        let rest = trades.drop_last();
        assert forall|i: int| 0 <= i < rest.len() implies accounts.contains_key(
            #[trigger] rest[i].source,
        ) by {
            assert(rest[i] == trades[i]);
        }
        lemma_settle_trades(accounts, rest);
        assert(accounts.contains_key(trades[trades.len() - 1].source));
        assert(settle_trades(accounts, trades).dom() =~= accounts.dom());
    }
}

/// The bank's records.
#[verifier::ext_equal]
pub struct BankView {
    /// The depositors' records, by account.
    pub accounts: Map<u128, UserInfo>,
    /// The accounts that each depositor authorized, in the order of authorization.
    pub authorizations: Map<u128, Seq<u128>>,
    /// Withdrawal requests, by account.
    pub withdraw_requests: Map<u128, Seq<WithdrawInfo>>,
    /// Users' public keys, by account.
    pub public_keys: Map<u128, Seq<u8>>,
    /// The encoded text.
    pub encode_text: Seq<u8>,
    /// The depositors, in the order of registration.
    pub account_list: Seq<u128>,
    /// The trades to settle, in the order they were recorded.
    pub trades: Seq<TradeInfo>,
}

impl BankView {
    /// The records of a new chain: all empty.
    pub open spec fn genesis() -> BankView {
        BankView {
            accounts: Map::empty(),
            authorizations: Map::empty(),
            withdraw_requests: Map::empty(),
            public_keys: Map::empty(),
            encode_text: Seq::empty(),
            account_list: Seq::empty(),
            trades: Seq::empty(),
        }
    }

    /// What holds of the records at all times: the depositor list names each
    /// depositor once and nobody else; each record names its own account; only
    /// depositors have authorized anybody, and nobody twice.
    pub open spec fn inv(self) -> bool {
        &&& self.account_list.no_duplicates()
        &&& forall|who: u128| #[trigger]
            self.accounts.contains_key(who) ==> self.account_list.contains(who)
        &&& forall|i: int|
            0 <= i < self.account_list.len() ==> self.accounts.contains_key(
                #[trigger] self.account_list[i],
            )
        &&& forall|who: u128| #[trigger]
            self.accounts.contains_key(who) ==> self.accounts[who].userid == who
        &&& forall|who: u128| #[trigger]
            self.authorizations.contains_key(who) ==> {
                &&& self.accounts.contains_key(who)
                &&& self.authorizations[who].no_duplicates()
            }
    }

    /// A user opens a bank account holding nothing, with its key.
    pub open spec fn register_user_account(self, origin: Origin, public_key: u128) -> (
        BankView,
        Result<Event, DispatchError>,
    ) {
        match origin {
            Origin::Signed(who) => if self.accounts.contains_key(who) {
                (self, Err(DispatchError::Module(Error::AlreadyExitBankAccount)))
            } else {
                (
                    BankView {
                        accounts: self.accounts.insert(
                            who,
                            UserInfo { userid: who, amount: 0, user_key: public_key },
                        ),
                        account_list: self.account_list.push(who),
                        ..self
                    },
                    Ok(Event::RegisterSuccess(who)),
                )
            },
            _ => (self, Err(DispatchError::BadOrigin)),
        }
    }

    /// A depositor authorizes another account.
    pub open spec fn account_authority(self, origin: Origin, authority_account: u128) -> (
        BankView,
        Result<Event, DispatchError>,
    ) {
        match origin {
            Origin::Signed(who) => if !self.accounts.contains_key(who) {
                (self, Err(DispatchError::Module(Error::NotExitBankAccount)))
            } else if self.authorizations.contains_key(who) && self.authorizations[who].contains(
                authority_account,
            ) {
                (self, Err(DispatchError::Module(Error::AlreayAuthority)))
            } else {
                let list = if self.authorizations.contains_key(who) {
                    self.authorizations[who].push(authority_account)
                } else {
                    seq![authority_account]
                };
                (
                    BankView { authorizations: self.authorizations.insert(who, list), ..self },
                    Ok(Event::AuthoritySuccess(who, authority_account)),
                )
            },
            _ => (self, Err(DispatchError::BadOrigin)),
        }
    }

    /// Whether a depositor may deposit `money`, and the transfer into the pool
    /// that `rand` selects that the deposit takes: the depositor's free balance
    /// less `money` must not fall below the currency's minimum balance.
    pub open spec fn charge_user_account(
        self,
        origin: Origin,
        money: u128,
        rand: u8,
        free_balance: u128,
        minimum_balance: u128,
    ) -> Result<Transfer, DispatchError> {
        match origin {
            Origin::Signed(who) => if !self.accounts.contains_key(who) {
                Err(DispatchError::Module(Error::NotExitBankAccount))
            } else if saturating_sub(free_balance, money) < minimum_balance {
                Err(DispatchError::Module(Error::NotEnoughMoney))
            } else {
                Ok(
                    Transfer {
                        from: who,
                        to: pool_account(pool_for((rand % 5) as u8)) as u128,
                        value: money,
                    },
                )
            },
            _ => Err(DispatchError::BadOrigin),
        }
    }

    /// The end of a deposit of `money` by `who`: once the currency moved the
    /// funds, the depositor's record holds `money` more.
    pub open spec fn charge_user_account_completed(
        self,
        who: u128,
        money: u128,
        outcome: Result<(), u32>,
    ) -> (BankView, Result<Event, DispatchError>) {
        match outcome {
            Ok(()) => (
                BankView {
                    accounts: self.accounts.insert(who, charged(self.accounts[who], money)),
                    ..self
                },
                Ok(Event::ChargeAmountSuccess(who, money)),
            ),
            Err(code) => (self, Err(DispatchError::Currency(code))),
        }
    }

    /// Whether a depositor may withdraw `money`, and the transfer out of the
    /// first pool that the withdrawal takes: the depositor's record must hold
    /// at least `money`.
    pub open spec fn withdraw(self, origin: Origin, money: u128) -> Result<
        Transfer,
        DispatchError,
    > {
        match origin {
            Origin::Signed(who) => if !self.accounts.contains_key(who) {
                Err(DispatchError::Module(Error::NotExitBankAccount))
            } else if money > self.accounts[who].amount {
                Err(DispatchError::Module(Error::NotEnoughMoney))
            } else {
                Ok(Transfer { from: pool_account(0) as u128, to: who, value: money })
            },
            _ => Err(DispatchError::BadOrigin),
        }
    }

    /// The end of a withdrawal of `money` by `who`: once the currency paid it
    /// out, the depositor's record holds `money` less.
    pub open spec fn withdraw_completed(self, who: u128, money: u128, outcome: Result<(), u32>) -> (
        BankView,
        Result<Event, DispatchError>,
    ) {
        match outcome {
            Ok(()) => (
                BankView {
                    accounts: self.accounts.insert(who, withdrawn(self.accounts[who], money)),
                    ..self
                },
                Ok(Event::WithdrawSuccess(who, money)),
            ),
            Err(code) => (self, Err(DispatchError::Currency(code))),
        }
    }

    /// Root records a trade to settle.
    pub open spec fn update_trade_info(
        self,
        origin: Origin,
        source: u128,
        dest: u128,
        money: u128,
    ) -> (BankView, Result<(), DispatchError>) {
        match origin {
            Origin::Root => (
                BankView {
                    trades: self.trades.push(TradeInfo { source, dest, amount: money }),
                    ..self
                },
                Ok(()),
            ),
            _ => (self, Err(DispatchError::BadOrigin)),
        }
    }

    /// The transfers that a call of `charge_bank_pot` asks for.
    pub open spec fn charge_bank_pot(origin: Origin) -> Result<Seq<Transfer>, DispatchError> {
        match origin {
            Origin::Signed(who) => Ok(pot_transfers(who)),
            _ => Err(DispatchError::BadOrigin),
        }
    }

    /// The settlement of all recorded trades; the trades stay recorded.
    pub open spec fn transaction(self) -> BankView {
        BankView { accounts: settle_trades(self.accounts, self.trades), ..self }
    }

    /// Every recorded trade draws on a depositor.
    pub open spec fn trades_have_sources(self) -> bool {
        forall|i: int|
            0 <= i < self.trades.len() ==> self.accounts.contains_key(#[trigger] self.trades[i].source)
    }
}


/// The bank's storage.
pub struct Pallet {
    bank_accounts: HashMap<u128, UserInfo>,
    authorization_list: HashMap<u128, Vec<u128>>,
    withdraw_money_list: HashMap<u128, Vec<WithdrawInfo>>,
    users_publickey: HashMap<u128, Vec<u8>>,
    encode_text: Vec<u8>,
    bank_account_list: Vec<u128>,
    trade_info_list: Vec<TradeInfo>,
}

impl View for Pallet {
    type V = BankView;

    closed spec fn view(&self) -> BankView {
        BankView {
            accounts: self.bank_accounts@,
            authorizations: self.authorization_list@.map_values(|l: Vec<u128>| l@),
            withdraw_requests: self.withdraw_money_list@.map_values(|l: Vec<WithdrawInfo>| l@),
            public_keys: self.users_publickey@.map_values(|l: Vec<u8>| l@),
            encode_text: self.encode_text@,
            account_list: self.bank_account_list@,
            trades: self.trade_info_list@,
        }
    }
}

/// Whether `list` holds `account`.
fn contains_account(list: &Vec<u128>, account: u128) -> (found: bool)
    ensures
        found == list@.contains(account),
{
    let mut i: usize = 0;
    while i < list.len()
        invariant
            i <= list.len(),
            forall|j: int| 0 <= j < i ==> list@[j] != account,
        decreases list.len() - i,
    {
        if list[i] == account {
            return true;
        }
        i = i + 1;
    }
    false
}

/// A copy of a list of accounts.
fn copy_accounts(list: &Vec<u128>) -> (out: Vec<u128>)
    ensures
        out@ == list@,
{
    let mut out: Vec<u128> = Vec::new();
    let mut i: usize = 0;
    while i < list.len()
        invariant
            i <= list.len(),
            out@ == list@.take(i as int),
        decreases list.len() - i,
    {
        out.push(list[i]);
        i = i + 1;
        assert(out@ =~= list@.take(i as int));
    }
    assert(list@.take(list.len() as int) =~= list@);
    out
}

/// A copy of a byte string.
fn copy_bytes(bytes: &Vec<u8>) -> (out: Vec<u8>)
    ensures
        out@ == bytes@,
{
    let mut out: Vec<u8> = Vec::new();
    let mut i: usize = 0;
    while i < bytes.len()
        invariant
            i <= bytes.len(),
            out@ == bytes@.take(i as int),
        decreases bytes.len() - i,
    {
        out.push(bytes[i]);
        i = i + 1;
        assert(out@ =~= bytes@.take(i as int));
    }
    assert(bytes@.take(bytes.len() as int) =~= bytes@);
    out
}

impl Pallet {
    /// The bank of a new chain, with empty records.
    pub fn new() -> (bank: Self)
        ensures
            bank@ == BankView::genesis(),
            bank@.inv(),
    {
        let bank = Pallet {
            bank_accounts: HashMap::new(),
            authorization_list: HashMap::new(),
            withdraw_money_list: HashMap::new(),
            users_publickey: HashMap::new(),
            encode_text: Vec::new(),
            bank_account_list: Vec::new(),
            trade_info_list: Vec::new(),
        };
        proof {
            assert(bank@.authorizations =~= Map::empty());
            assert(bank@.withdraw_requests =~= Map::empty());
            assert(bank@.public_keys =~= Map::empty());
            assert(bank@ =~= BankView::genesis());
        }
        bank
    }

    /// A user opens a bank account holding nothing, with its key.
    pub fn register_user_account(&mut self, origin: Origin, public_key: u128) -> (r: Result<
        Event,
        DispatchError,
    >)
        requires
            old(self)@.inv(),
        ensures
            (final(self)@, r) == old(self)@.register_user_account(origin, public_key),
            final(self)@.inv(),
    {
        let user = match ensure_signed(origin) {
            Ok(user) => user,
            Err(e) => {
                return Err(e);
            },
        };
        if self.bank_accounts.contains_key(&user) {
            return Err(DispatchError::Module(Error::AlreadyExitBankAccount));
        }
        let bank_account = UserInfo { userid: user, amount: 0, user_key: public_key };
        self.bank_accounts.insert(user, bank_account);
        self.bank_account_list.push(user);
        proof {
            let pre = old(self)@;
            let post = self@;
            assert(!pre.account_list.contains(user));
            assert(post.account_list == pre.account_list.push(user));
            assert forall|who: u128| #[trigger] post.accounts.contains_key(who) implies post.account_list.contains(who) by {
                if who == user {
                    assert(post.account_list[pre.account_list.len() as int] == user);
                } else {
                    assert(pre.account_list.contains(who));
                    let k = choose|k: int| 0 <= k < pre.account_list.len() && pre.account_list[k] == who;
                    assert(post.account_list[k] == who);
                }
            }
            assert forall|i: int| 0 <= i < post.account_list.len() implies post.accounts.contains_key(
                #[trigger] post.account_list[i],
            ) by {
                if i < pre.account_list.len() {
                    assert(post.account_list[i] == pre.account_list[i]);
                }
            }
        }
        Ok(Event::RegisterSuccess(user))
    }

    /// A depositor authorizes another account.
    pub fn account_authority(&mut self, origin: Origin, authority_account: u128) -> (r: Result<
        Event,
        DispatchError,
    >)
        requires
            old(self)@.inv(),
        ensures
            (final(self)@, r) == old(self)@.account_authority(origin, authority_account),
            final(self)@.inv(),
    {
        let who = match ensure_signed(origin) {
            Ok(who) => who,
            Err(e) => {
                return Err(e);
            },
        };
        if !self.bank_accounts.contains_key(&who) {
            return Err(DispatchError::Module(Error::NotExitBankAccount));
        }
        let ghost pre_lists = self.authorization_list@;
        let mut list: Vec<u128> = Vec::new();
        if self.authorization_list.contains_key(&who) {
            let existing = self.authorization_list.get(&who).unwrap();
            if contains_account(existing, authority_account) {
                return Err(DispatchError::Module(Error::AlreayAuthority));
            }
            list = self.authorization_list.remove(&who).unwrap();
        }
        assert(list@ == (if pre_lists.contains_key(who) { pre_lists[who]@ } else { Seq::<u128>::empty() }));
        list.push(authority_account);
        self.authorization_list.insert(who, list);
        proof {
            let pre = old(self)@;
            let expected = if pre.authorizations.contains_key(who) {
                pre.authorizations[who].push(authority_account)
            } else {
                seq![authority_account]
            };
            assert(list@ =~= expected);
            assert(self@.authorizations =~= pre.authorizations.insert(who, expected));
            assert(self@ =~= BankView { authorizations: pre.authorizations.insert(who, expected), ..pre });
            assert(expected.no_duplicates());
        }
        Ok(Event::AuthoritySuccess(who, authority_account))
    }

    /// The first pool: the sub-account `b"bank"` of `b"radcban1"`.
    pub fn bank_pool1() -> (account: u128)
        ensures
            account == pool_account(0),
    {
        pool(0)
    }

    /// The second pool: the sub-account `b"bank"` of `b"radcban2"`.
    pub fn bank_pool2() -> (account: u128)
        ensures
            account == pool_account(1),
    {
        pool(1)
    }

    /// The third pool: the sub-account `b"bank"` of `b"radcban3"`.
    pub fn bank_pool3() -> (account: u128)
        ensures
            account == pool_account(2),
    {
        pool(2)
    }

    /// The fourth pool: the sub-account `b"bank"` of `b"radcban4"`.
    pub fn bank_pool4() -> (account: u128)
        ensures
            account == pool_account(3),
    {
        pool(3)
    }

    /// The fifth pool: the sub-account `b"bank"` of `b"radcban5"`.
    pub fn bank_pool5() -> (account: u128)
        ensures
            account == pool_account(4),
    {
        pool(4)
    }

    /// A random number in `0..5`, from the output of the chain's randomness
    /// source: its first byte modulo five.
    pub fn create_rand(random_output: &[u8]) -> (rand: u8)
        requires
            random_output@.len() > 0,
        ensures
            rand == random_output@[0] % 5,
            rand < 5,
    {
        random_output[0] % 5
    }

    /// The pool that a random number selects: pools one to five for `0` to `4`,
    /// the fifth pool for any other number.
    pub fn rand_bank_account(rand: u8) -> (account: u128)
        ensures
            account == pool_account(pool_for(rand)),
    {
        match rand {
            0 => Self::bank_pool1(),
            1 => Self::bank_pool2(),
            2 => Self::bank_pool3(),
            3 => Self::bank_pool4(),
            4 => Self::bank_pool5(),
            _ => Self::bank_pool5(),
        }
    }

    /// The first half of a deposit of `money`: decides whether the signer may
    /// deposit and names the transfer into a pool that the deposit takes. It is
    /// handed the output of the chain's randomness source, the signer's free
    /// balance and the currency's minimum balance. The records do not change.
    pub fn charge_user_account(
        &self,
        origin: Origin,
        money: u128,
        random_output: &[u8],
        free_balance: u128,
        minimum_balance: u128,
    ) -> (r: Result<Transfer, DispatchError>)
        requires
            (match origin {
                Origin::Signed(who) => self@.accounts.contains_key(who),
                _ => false,
            }) ==> random_output@.len() > 0,
        ensures
            r == self@.charge_user_account(
                origin,
                money,
                random_output@[0],
                free_balance,
                minimum_balance,
            ),
    {
        let user = match ensure_signed(origin) {
            Ok(user) => user,
            Err(e) => {
                return Err(e);
            },
        };
        if !self.bank_accounts.contains_key(&user) {
            return Err(DispatchError::Module(Error::NotExitBankAccount));
        }
        let bank_account = Self::rand_bank_account(Self::create_rand(random_output));
        if free_balance.saturating_sub(money) < minimum_balance {
            return Err(DispatchError::Module(Error::NotEnoughMoney));
        }
        Ok(Transfer { from: user, to: bank_account, value: money })
    }

    /// The second half of a deposit of `money` by `who`, given the currency's
    /// answer to the transfer: on success the depositor's record holds `money`
    /// more; a refusal is passed on and changes nothing.
    pub fn charge_user_account_completed(
        &mut self,
        who: u128,
        money: u128,
        outcome: Result<(), u32>,
    ) -> (r: Result<Event, DispatchError>)
        requires
            old(self)@.inv(),
            old(self)@.accounts.contains_key(who),
            outcome is Ok ==> old(self)@.accounts[who].amount + money <= u128::MAX,
        ensures
            (final(self)@, r) == old(self)@.charge_user_account_completed(who, money, outcome),
            r == finish(outcome, Event::ChargeAmountSuccess(who, money)),
            final(self)@.inv(),
    {
        match outcome {
            Ok(()) => {},
            Err(code) => {
                return Err(DispatchError::Currency(code));
            },
        }
        let mut bank_account_info = *self.bank_accounts.get(&who).unwrap();
        bank_account_info.charge_account(money);
        self.bank_accounts.insert(who, bank_account_info);
        proof {
            let pre = old(self)@;
            assert(self@ =~= BankView {
                accounts: pre.accounts.insert(who, charged(pre.accounts[who], money)),
                ..pre
            });
        }
        Ok(Event::ChargeAmountSuccess(who, money))
    }

    /// The first half of a withdrawal of `money`: decides whether the signer may
    /// withdraw and names the transfer out of the first pool that it takes. The
    /// records change only once the transfer went through
    /// (`withdraw_completed`).
    pub fn withdraw(&self, origin: Origin, money: u128) -> (r: Result<Transfer, DispatchError>)
        ensures
            r == self@.withdraw(origin, money),
    {
        let who = match ensure_signed(origin) {
            Ok(who) => who,
            Err(e) => {
                return Err(e);
            },
        };
        if !self.bank_accounts.contains_key(&who) {
            return Err(DispatchError::Module(Error::NotExitBankAccount));
        }
        let mut account_info = *self.bank_accounts.get(&who).unwrap();
        if account_info.withdraw_amount(money) == false {
            return Err(DispatchError::Module(Error::NotEnoughMoney));
        }
        Ok(Transfer { from: Self::bank_pool1(), to: who, value: money })
    }

    /// The second half of a withdrawal of `money` by `who`, given the currency's
    /// answer to the transfer: on success the depositor's record holds `money`
    /// less; a refusal is passed on and changes nothing.
    pub fn withdraw_completed(
        &mut self,
        who: u128,
        money: u128,
        outcome: Result<(), u32>,
    ) -> (r: Result<Event, DispatchError>)
        requires
            old(self)@.inv(),
            old(self)@.accounts.contains_key(who),
        ensures
            (final(self)@, r) == old(self)@.withdraw_completed(who, money, outcome),
            r == finish(outcome, Event::WithdrawSuccess(who, money)),
            final(self)@.inv(),
    {
        match outcome {
            Ok(()) => {},
            Err(code) => {
                return Err(DispatchError::Currency(code));
            },
        }
        let mut account_info = *self.bank_accounts.get(&who).unwrap();
        let _ = account_info.withdraw_amount(money);
        self.bank_accounts.insert(who, account_info);
        proof {
            let pre = old(self)@;
            assert(self@ =~= BankView {
                accounts: pre.accounts.insert(who, withdrawn(pre.accounts[who], money)),
                ..pre
            });
        }
        Ok(Event::WithdrawSuccess(who, money))
    }

    /// Root records a trade to settle.
    pub fn update_trade_info(
        &mut self,
        origin: Origin,
        source: u128,
        dest: u128,
        money: u128,
    ) -> (r: Result<(), DispatchError>)
        requires
            old(self)@.inv(),
        ensures
            (final(self)@, r) == old(self)@.update_trade_info(origin, source, dest, money),
            final(self)@.inv(),
    {
        match ensure_root(origin) {
            Ok(()) => {},
            Err(e) => {
                return Err(e);
            },
        }
        let trade_info = TradeInfo::new(source, dest, money);
        self.trade_info_list.push(trade_info);
        proof {
            assert(self@ =~= BankView {
                trades: old(self)@.trades.push(TradeInfo { source, dest, amount: money }),
                ..old(self)@
            });
        }
        Ok(())
    }

    /// The transfers that a signed call asks for to fill the pools:
    /// `POT_CHARGE` from the signer into each pool, in order. They are made in
    /// that order and the first refusal ends the call with it.
    pub fn charge_bank_pot(origin: Origin) -> (r: Result<Vec<Transfer>, DispatchError>)
        ensures
            match r {
                Ok(transfers) => BankView::charge_bank_pot(origin) == Ok::<
                    Seq<Transfer>,
                    DispatchError,
                >(transfers@),
                Err(e) => BankView::charge_bank_pot(origin) == Err::<Seq<Transfer>, DispatchError>(
                    e,
                ),
            },
    {
        let who = match ensure_signed(origin) {
            Ok(who) => who,
            Err(e) => {
                return Err(e);
            },
        };
        let mut transfers: Vec<Transfer> = Vec::new();
        transfers.push(Transfer { from: who, to: Self::bank_pool1(), value: POT_CHARGE });
        transfers.push(Transfer { from: who, to: Self::bank_pool2(), value: POT_CHARGE });
        transfers.push(Transfer { from: who, to: Self::bank_pool3(), value: POT_CHARGE });
        transfers.push(Transfer { from: who, to: Self::bank_pool4(), value: POT_CHARGE });
        transfers.push(Transfer { from: who, to: Self::bank_pool5(), value: POT_CHARGE });
        assert(transfers@ =~= pot_transfers(who));
        Ok(transfers)
    }

    /// Where a call of `charge_bank_pot` stands, given the currency's answers
    /// to its transfers so far, in order: `Some` with the call's result once it
    /// ends (at the first refusal, or once all five transfers went through),
    /// `None` while the transfer after the last answered one is still to be made.
    pub fn charge_bank_pot_completed(answers: &Vec<Result<(), u32>>) -> (r: Option<
        Result<(), DispatchError>,
    >)
        ensures
            r == pot_progress(answers@),
    {
        let mut i: usize = 0;
        assert(answers@.skip(0) =~= answers@);
        while i < answers.len()
            invariant
                i <= answers.len(),
                first_refusal(answers@) == first_refusal(answers@.skip(i as int)),
                forall|j: int| 0 <= j < i ==> answers@[j] is Ok,
            decreases answers.len() - i,
        {
            proof {
                assert(answers@.skip(i as int).drop_first() =~= answers@.skip(i + 1));
            }
            match answers[i] {
                Err(code) => {
                    return Some(Err(DispatchError::Currency(code)));
                },
                Ok(()) => {},
            }
            i = i + 1;
        }
        proof {
            assert(answers@.skip(i as int).len() == 0);
        }
        if answers.len() >= 5 {
            Some(Ok(()))
        } else {
            None
        }
    }

    /// Settles every recorded trade, in order: what the trade's source holds in
    /// the bank loses the trade's amount where it holds that much and is left
    /// as it is otherwise. Hands back the transfers that pay the trades out:
    /// the `i`th from the pool that the `i`th output of the randomness source
    /// selects. The currency's answers to them do not matter. The trades stay
    /// recorded.
    pub fn transaction(&mut self, random_outputs: &Vec<Vec<u8>>) -> (transfers: Vec<Transfer>)
        requires
            old(self)@.inv(),
            old(self)@.trades_have_sources(),
            random_outputs.len() >= old(self)@.trades.len(),
            forall|i: int|
                0 <= i < old(self)@.trades.len() ==> (#[trigger] random_outputs@[i])@.len() > 0,
        ensures
            final(self)@ == old(self)@.transaction(),
            transfers@ == settlement_transfers(old(self)@.trades, first_bytes(random_outputs@)),
            final(self)@.inv(),
    {
        let ghost pre = self@;
        let ghost rands = first_bytes(random_outputs@);
        let n = self.trade_info_list.len();
        let mut transfers: Vec<Transfer> = Vec::new();
        if n == 0 {
            proof {
                assert(pre.trades =~= pre.trades.take(0));
                assert(transfers@ =~= settlement_transfers(pre.trades, rands));
                assert(self@ =~= pre.transaction());
            }
            return transfers;
        }
        let mut i: usize = 0;
        while i < n
            invariant
                n == self.trade_info_list.len(),
                i <= n,
                pre.trades_have_sources(),
                pre.inv(),
                random_outputs.len() >= n,
                forall|j: int| 0 <= j < n ==> (#[trigger] random_outputs@[j])@.len() > 0,
                rands == first_bytes(random_outputs@),
                self@ == (BankView {
                    accounts: settle_trades(pre.accounts, pre.trades.take(i as int)),
                    ..pre
                }),
                transfers@ == settlement_transfers(pre.trades.take(i as int), rands),
            decreases n - i,
        {
            let ghost before = self.bank_accounts@;
            let trade = self.trade_info_list[i];
            let source = Self::rand_bank_account(Self::create_rand(random_outputs[i].as_slice()));
            transfers.push(Transfer { from: source, to: trade.dest, value: trade.amount });
            proof {
                let done = pre.trades.take(i as int);
                assert forall|j: int| 0 <= j < done.len() implies pre.accounts.contains_key(
                    #[trigger] done[j].source,
                ) by {
                    assert(done[j] == pre.trades[j]);
                }
                lemma_settle_trades(pre.accounts, done);
                assert(pre.accounts.contains_key(pre.trades[i as int].source));
            }
            let mut bank_info = *self.bank_accounts.get(&trade.source).unwrap();
            let _ = bank_info.withdraw_amount(trade.amount);
            self.bank_accounts.insert(trade.source, bank_info);
            proof {
                let next = pre.trades.take(i + 1);
                assert(next.drop_last() =~= pre.trades.take(i as int));
                assert(next.last() == trade);
                assert(self.bank_accounts@ == settle_trades(pre.accounts, next));
                assert(transfers@ =~= settlement_transfers(next, rands));
            }
            i = i + 1;
        }
        proof {
            assert(pre.trades.take(n as int) =~= pre.trades);
            lemma_settle_trades(pre.accounts, pre.trades);
            assert(self@ =~= pre.transaction());
            let post = self@;
            assert forall|who: u128| #[trigger] post.authorizations.contains_key(who) implies post.accounts.contains_key(who) by {
                assert(pre.accounts.contains_key(who));
            }
            assert forall|i: int| 0 <= i < post.account_list.len() implies post.accounts.contains_key(
                #[trigger] post.account_list[i],
            ) by {
                assert(pre.accounts.contains_key(pre.account_list[i]));
            }
        }
        transfers
    }

    /// The start of block `now`: at every `SETTLEMENT_PERIOD`th block, settles
    /// the recorded trades and hands back the transfers that pay them out; at
    /// other blocks nothing happens. No weight is charged.
    pub fn on_initialize(&mut self, now: u32, random_outputs: &Vec<Vec<u8>>) -> (r: (
        u64,
        Vec<Transfer>,
    ))
        requires
            old(self)@.inv(),
            now % SETTLEMENT_PERIOD == 0 ==> old(self)@.trades_have_sources(),
            now % SETTLEMENT_PERIOD == 0 ==> random_outputs.len() >= old(self)@.trades.len(),
            now % SETTLEMENT_PERIOD == 0 ==> forall|i: int|
                0 <= i < old(self)@.trades.len() ==> (#[trigger] random_outputs@[i])@.len() > 0,
        ensures
            r.0 == 0,
            now % SETTLEMENT_PERIOD == 0 ==> final(self)@ == old(self)@.transaction() && r.1@
                == settlement_transfers(old(self)@.trades, first_bytes(random_outputs@)),
            now % SETTLEMENT_PERIOD != 0 ==> final(self)@ == old(self)@ && r.1@.len() == 0,
            final(self)@.inv(),
    {
        if now % SETTLEMENT_PERIOD != 0 {
            return (0, Vec::new());
        }
        let transfers = self.transaction(random_outputs);
        (0, transfers)
    }

    /// The record of `who`, if `who` is a depositor.
    pub fn bank_accounts(&self, who: u128) -> (r: Option<UserInfo>)
        ensures
            r == (if self@.accounts.contains_key(who) {
                Some(self@.accounts[who])
            } else {
                None
            }),
    {
        match self.bank_accounts.get(&who) {
            Some(info) => Some(*info),
            None => None,
        }
    }

    /// The accounts that `who` authorized, if any.
    pub fn authorization_list(&self, who: u128) -> (r: Option<Vec<u128>>)
        ensures
            match r {
                Some(list) => self@.authorizations.contains_key(who) && list@
                    == self@.authorizations[who],
                None => !self@.authorizations.contains_key(who),
            },
    {
        match self.authorization_list.get(&who) {
            Some(list) => Some(copy_accounts(list)),
            None => None,
        }
    }

    /// The withdrawal requests of `who`, if any.
    pub fn withdraw_money_list(&self, who: u128) -> (r: Option<Vec<WithdrawInfo>>)
        ensures
            match r {
                Some(list) => self@.withdraw_requests.contains_key(who) && list@
                    == self@.withdraw_requests[who],
                None => !self@.withdraw_requests.contains_key(who),
            },
    {
        match self.withdraw_money_list.get(&who) {
            Some(list) => {
                let mut out: Vec<WithdrawInfo> = Vec::new();
                let mut i: usize = 0;
                while i < list.len()
                    invariant
                        i <= list.len(),
                        out@ == list@.take(i as int),
                    decreases list.len() - i,
                {
                    out.push(list[i]);
                    i = i + 1;
                    assert(out@ =~= list@.take(i as int));
                }
                assert(list@.take(list.len() as int) =~= list@);
                Some(out)
            },
            None => None,
        }
    }

    /// The public key of `who`, if any.
    pub fn users_publickey(&self, who: u128) -> (r: Option<Vec<u8>>)
        ensures
            match r {
                Some(key) => self@.public_keys.contains_key(who) && key@ == self@.public_keys[who],
                None => !self@.public_keys.contains_key(who),
            },
    {
        match self.users_publickey.get(&who) {
            Some(key) => Some(copy_bytes(key)),
            None => None,
        }
    }

    /// The encoded text.
    pub fn encode_text(&self) -> (r: Vec<u8>)
        ensures
            r@ == self@.encode_text,
    {
        copy_bytes(&self.encode_text)
    }

    /// The depositors, in the order of registration.
    pub fn bank_account_list(&self) -> (r: Vec<u128>)
        ensures
            r@ == self@.account_list,
    {
        copy_accounts(&self.bank_account_list)
    }

    /// The recorded trades, in order.
    pub fn trade_info_list(&self) -> (r: Vec<TradeInfo>)
        ensures
            r@ == self@.trades,
    {
        let mut out: Vec<TradeInfo> = Vec::new();
        let mut i: usize = 0;
        while i < self.trade_info_list.len()
            invariant
                i <= self.trade_info_list.len(),
                out@ == self.trade_info_list@.take(i as int),
            decreases self.trade_info_list.len() - i,
        {
            out.push(self.trade_info_list[i]);
            i = i + 1;
            assert(out@ =~= self.trade_info_list@.take(i as int));
        }
        assert(self.trade_info_list@.take(self.trade_info_list.len() as int)
            =~= self.trade_info_list@);
        out
    }
}

} // verus!
