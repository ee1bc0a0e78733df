//! What holds of the bank across calls.

use crate::account::pool_account;
use crate::dispatch::{DispatchError, Origin, Transfer};
use crate::pallet::{first_refusal, lemma_settle_trades, pot_progress, BankView, Error, Event};
use crate::primitives::{charged, withdrawn, TradeInfo, UserInfo};
use vstd::prelude::*;

verus! {

/// A user without a bank account who registers gets one that holds nothing,
/// with the given key, listed last among the depositors; registering again
/// is refused with `AlreadyExitBankAccount` and changes nothing.
pub proof fn law_register_once(s: BankView, who: u128, key: u128, other_key: u128)
    requires
        s.inv(),
        !s.accounts.contains_key(who),
    ensures
        ({
            let (s1, r1) = s.register_user_account(Origin::Signed(who), key);
            let (s2, r2) = s1.register_user_account(Origin::Signed(who), other_key);
            &&& r1 == Ok::<Event, DispatchError>(Event::RegisterSuccess(who))
            &&& s1.accounts[who] == (UserInfo { userid: who, amount: 0, user_key: key })
            &&& s1.account_list.last() == who
            &&& r2 == Err::<Event, DispatchError>(
                DispatchError::Module(Error::AlreadyExitBankAccount),
            )
            &&& s2 == s1
        }),
{
}

/// A refused call changes nothing.
pub proof fn law_refused_calls_change_nothing(
    s: BankView,
    origin: Origin,
    key: u128,
    account: u128,
    source: u128,
    dest: u128,
    money: u128,
    who: u128,
    outcome: Result<(), u32>,
)
    ensures
        s.register_user_account(origin, key).1 is Err ==> s.register_user_account(origin, key).0
            == s,
        s.account_authority(origin, account).1 is Err ==> s.account_authority(origin, account).0
            == s,
        s.update_trade_info(origin, source, dest, money).1 is Err ==> s.update_trade_info(
            origin,
            source,
            dest,
            money,
        ).0 == s,
        s.charge_user_account_completed(who, money, outcome).1 is Err
            ==> s.charge_user_account_completed(who, money, outcome).0 == s,
{
}

/// A call without a signer is refused with `BadOrigin`, and so is a
/// trade recorded by anyone but root.
pub proof fn law_bad_origins(s: BankView, key: u128, money: u128, rand: u8, free: u128, min: u128, signer: u128)
    ensures
        s.register_user_account(Origin::Root, key).1 == Err::<Event, DispatchError>(
            DispatchError::BadOrigin,
        ),
        s.register_user_account(Origin::Unsigned, key).1 == Err::<Event, DispatchError>(
            DispatchError::BadOrigin,
        ),
        s.charge_user_account(Origin::Unsigned, money, rand, free, min) == Err::<
            Transfer,
            DispatchError,
        >(DispatchError::BadOrigin),
        s.withdraw(Origin::Root, money) == Err::<Transfer, DispatchError>(DispatchError::BadOrigin),
        s.update_trade_info(Origin::Signed(signer), signer, signer, money).1 == Err::<
            (),
            DispatchError,
        >(DispatchError::BadOrigin),
{
}

/// A depositor who authorizes an account finds it in its list; authorizing
/// it again is refused with `AlreayAuthority` and changes nothing.
pub proof fn law_authorize_once(s: BankView, who: u128, account: u128)
    requires
        s.inv(),
        s.accounts.contains_key(who),
        !(s.authorizations.contains_key(who) && s.authorizations[who].contains(account)),
    ensures
        ({
            let (s1, r1) = s.account_authority(Origin::Signed(who), account);
            let (s2, r2) = s1.account_authority(Origin::Signed(who), account);
            &&& r1 == Ok::<Event, DispatchError>(Event::AuthoritySuccess(who, account))
            &&& s1.authorizations[who].contains(account)
            &&& r2 == Err::<Event, DispatchError>(DispatchError::Module(Error::AlreayAuthority))
            &&& s2 == s1
        }),
{
    let (s1, r1) = s.account_authority(Origin::Signed(who), account);
    let list = s1.authorizations[who];
    assert(list[list.len() - 1] == account);
}

/// A depositor whose deposit of `money` went through may then withdraw any
/// amount up to what it held plus `money`: the withdrawal is paid out of the
/// first pool to the depositor.
pub proof fn law_deposit_then_withdraw(
    s: BankView,
    who: u128,
    money: u128,
    rand: u8,
    free: u128,
    min: u128,
    amount: u128,
)
    requires
        s.inv(),
        s.charge_user_account(Origin::Signed(who), money, rand, free, min) is Ok,
        s.accounts[who].amount + money <= u128::MAX,
        amount <= s.accounts[who].amount + money,
    ensures
        ({
            let (s1, r1) = s.charge_user_account_completed(who, money, Ok(()));
            &&& r1 == Ok::<Event, DispatchError>(Event::ChargeAmountSuccess(who, money))
            &&& s1.accounts[who].amount == s.accounts[who].amount + money
            &&& s1.withdraw(Origin::Signed(who), amount) == Ok::<Transfer, DispatchError>(
                Transfer { from: pool_account(0) as u128, to: who, value: amount },
            )
        }),
{
}

/// A deposit is paid by the depositor into one of the five pools.
pub proof fn law_deposit_goes_to_a_pool(
    s: BankView,
    origin: Origin,
    money: u128,
    rand: u8,
    free: u128,
    min: u128,
)
    requires
        s.charge_user_account(origin, money, rand, free, min) is Ok,
    ensures
        ({
            let t = s.charge_user_account(origin, money, rand, free, min)->Ok_0;
            &&& origin == Origin::Signed(t.from)
            &&& t.value == money
            &&& exists|i: nat| i < 5 && t.to == pool_account(i) as u128
        }),
{
    let t = s.charge_user_account(origin, money, rand, free, min)->Ok_0;
    let i = (rand % 5) as nat;
    assert(i < 5 && t.to == pool_account(i) as u128);
}

/// Settling the trades keeps the depositors, their list, their accounts and
/// keys, and the recorded trades, and never raises what a depositor holds.
pub proof fn law_settlement_never_raises(s: BankView)
    requires
        s.inv(),
        s.trades_have_sources(),
    ensures
        s.transaction().accounts.dom() == s.accounts.dom(),
        s.transaction().account_list == s.account_list,
        s.transaction().trades == s.trades,
        forall|who: u128| #[trigger]
            s.accounts.contains_key(who) ==> {
                &&& s.transaction().accounts[who].userid == who
                &&& s.transaction().accounts[who].user_key == s.accounts[who].user_key
                &&& s.transaction().accounts[who].amount <= s.accounts[who].amount
            },
{
    lemma_settle_trades(s.accounts, s.trades);
}


/// All that the listed depositors hold in the bank.
pub open spec fn total_held(accounts: Map<u128, UserInfo>, list: Seq<u128>) -> int
    decreases list.len(),
{
    if list.len() == 0 {
        0
    } else {
        total_held(accounts, list.drop_last()) + accounts[list.last()].amount
    }
}

/// Changing the record of one listed depositor, listed once, changes the total
/// by the change in what that record holds.
proof fn lemma_total_after_update(
    accounts: Map<u128, UserInfo>,
    list: Seq<u128>,
    who: u128,
    info: UserInfo,
)
    requires
        list.no_duplicates(),
    ensures
        list.contains(who) ==> total_held(accounts.insert(who, info), list) == total_held(
            accounts,
            list,
        ) - accounts[who].amount + info.amount,
        !list.contains(who) ==> total_held(accounts.insert(who, info), list) == total_held(
            accounts,
            list,
        ),
    decreases list.len(),
{
    if list.len() > 0 {
        let rest = list.drop_last();
        assert(rest.no_duplicates());
        lemma_total_after_update(accounts, rest, who, info);
        if list.last() == who {
            assert(!rest.contains(who)) by {
                if rest.contains(who) {
                    let k = choose|k: int| 0 <= k < rest.len() && rest[k] == who;
                    assert(list[k] == list[list.len() - 1]);
                }
            }
        } else {
            assert(list.contains(who) ==> rest.contains(who)) by {
                if list.contains(who) {
                    let k = choose|k: int| 0 <= k < list.len() && list[k] == who;
                    assert(rest[k] == who);
                }
            }
            assert(rest.contains(who) ==> list.contains(who)) by {
                if rest.contains(who) {
                    let k = choose|k: int| 0 <= k < rest.len() && rest[k] == who;
                    assert(list[k] == who);
                }
            }
        }
    }
}

/// Records that each hold no more than before give a total no larger.
proof fn lemma_total_pointwise(a: Map<u128, UserInfo>, b: Map<u128, UserInfo>, list: Seq<u128>)
    requires
        forall|i: int| 0 <= i < list.len() ==> #[trigger] b[list[i]].amount <= a[list[i]].amount,
    ensures
        total_held(b, list) <= total_held(a, list),
    decreases list.len(),
{
    if list.len() > 0 {
        let rest = list.drop_last();
        assert forall|i: int| 0 <= i < rest.len() implies #[trigger] b[rest[i]].amount
            <= a[rest[i]].amount by {
            assert(rest[i] == list[i]);
        }
        lemma_total_pointwise(a, b, rest);
        assert(b[list[list.len() - 1]].amount <= a[list[list.len() - 1]].amount);
    }
}

/// A deposit of `money` that went through raises all that the bank holds for
/// its depositors by exactly `money`.
pub proof fn law_deposit_adds_to_total(s: BankView, who: u128, money: u128)
    requires
        s.inv(),
        s.accounts.contains_key(who),
        s.accounts[who].amount + money <= u128::MAX,
    ensures
        total_held(s.charge_user_account_completed(who, money, Ok(())).0.accounts, s.account_list)
            == total_held(s.accounts, s.account_list) + money,
{
    lemma_total_after_update(s.accounts, s.account_list, who, charged(s.accounts[who], money));
}

/// Settling the trades never raises all that the bank holds for its depositors.
pub proof fn law_settlement_never_raises_total(s: BankView)
    requires
        s.inv(),
        s.trades_have_sources(),
    ensures
        total_held(s.transaction().accounts, s.account_list) <= total_held(
            s.accounts,
            s.account_list,
        ),
{
    lemma_settle_trades(s.accounts, s.trades);
    assert forall|i: int| 0 <= i < s.account_list.len() implies #[trigger] s.transaction().accounts[s.account_list[i]].amount
        <= s.accounts[s.account_list[i]].amount by {
        assert(s.accounts.contains_key(s.account_list[i]));
    }
    lemma_total_pointwise(s.accounts, s.transaction().accounts, s.account_list);
}


/// A deposit of `money` followed by a withdrawal of `money`, both gone
/// through, gives back the records as they were.
pub proof fn law_deposit_then_withdraw_restores(s: BankView, who: u128, money: u128)
    requires
        s.inv(),
        s.accounts.contains_key(who),
        s.accounts[who].amount + money <= u128::MAX,
    ensures
        s.charge_user_account_completed(who, money, Ok(())).0.withdraw_completed(
            who,
            money,
            Ok(()),
        ).0 == s,
{
    let s1 = s.charge_user_account_completed(who, money, Ok(())).0;
    let s2 = s1.withdraw_completed(who, money, Ok(())).0;
    assert(withdrawn(charged(s.accounts[who], money), money) == s.accounts[who]);
    assert(s2.accounts =~= s.accounts);
    assert(s2 =~= s);
}

/// A withdrawal of `money` that went through lowers all that the bank holds
/// for its depositors by exactly `money`.
pub proof fn law_withdraw_takes_from_total(s: BankView, who: u128, money: u128)
    requires
        s.inv(),
        s.accounts.contains_key(who),
        money <= s.accounts[who].amount,
    ensures
        total_held(s.withdraw_completed(who, money, Ok(())).0.accounts, s.account_list)
            == total_held(s.accounts, s.account_list) - money,
{
    lemma_total_after_update(s.accounts, s.account_list, who, withdrawn(s.accounts[who], money));
}

/// Answers that hold no refusal have no first refusal; answers whose first
/// refusal stands at `k` have it as their first refusal.
proof fn lemma_first_refusal(answers: Seq<Result<(), u32>>, k: int)
    requires
        0 <= k <= answers.len(),
        forall|j: int| 0 <= j < k ==> answers[j] is Ok,
    ensures
        k == answers.len() ==> first_refusal(answers) is None,
        k < answers.len() && answers[k] is Err ==> first_refusal(answers) == Some(
            answers[k]->Err_0,
        ),
    decreases answers.len(),
{
    if answers.len() > 0 && k > 0 {
        let rest = answers.drop_first();
        assert forall|j: int| 0 <= j < k - 1 implies rest[j] is Ok by {
            assert(rest[j] == answers[j + 1]);
        }
        lemma_first_refusal(rest, k - 1);
        assert(answers[0] is Ok);
        if k < answers.len() {
            assert(rest[k - 1] == answers[k]);
        }
    }
}

/// A pot charge goes on, transfer after transfer, while the currency accepts
/// them; it ends at the first refusal with that refusal, and succeeds once all
/// five transfers went through.
pub proof fn law_pot_stops_at_first_refusal(answers: Seq<Result<(), u32>>, k: int)
    requires
        0 <= k <= answers.len(),
        k <= 5,
        forall|j: int| 0 <= j < k ==> answers[j] is Ok,
    ensures
        forall|j: int| 0 <= j < k ==> pot_progress(#[trigger] answers.take(j)) is None,
        k < answers.len() && answers[k] is Err ==> pot_progress(answers.take(k + 1)) == Some(
            Err::<(), DispatchError>(DispatchError::Currency(answers[k]->Err_0)),
        ),
        k == 5 ==> pot_progress(answers.take(5)) == Some(Ok::<(), DispatchError>(())),
{
    assert forall|j: int| 0 <= j < k implies pot_progress(#[trigger] answers.take(j)) is None by {
        lemma_first_refusal(answers.take(j), j);
    }
    if k < answers.len() && answers[k] is Err {
        let t = answers.take(k + 1);
        assert forall|j: int| 0 <= j < k implies t[j] is Ok by {
            assert(t[j] == answers[j]);
        }
        assert(t[k] == answers[k]);
        lemma_first_refusal(t, k);
    }
    if k == 5 {
        let t = answers.take(5);
        assert forall|j: int| 0 <= j < 5 implies t[j] is Ok by {
            assert(t[j] == answers[j]);
        }
        lemma_first_refusal(t, 5);
    }
}


/// A user who already has a bank account, whenever it registered, is refused
/// with `AlreadyExitBankAccount`, whatever key it offers, and its record (and
/// everything else) stays as it was.
pub proof fn law_registered_user_is_refused(s: BankView, who: u128, key: u128)
    requires
        s.accounts.contains_key(who),
    ensures
        s.register_user_account(Origin::Signed(who), key).0 == s,
        s.register_user_account(Origin::Signed(who), key).1 == Err::<Event, DispatchError>(
            DispatchError::Module(Error::AlreadyExitBankAccount),
        ),
{
}

/// A user without a bank account who registers succeeds: it gets a record of
/// its own holding nothing, with its key, is listed once more at the end of
/// the depositor list, and no other record changes.
pub proof fn law_new_user_is_registered(s: BankView, who: u128, key: u128)
    requires
        !s.accounts.contains_key(who),
    ensures
        ({
            let (s1, r) = s.register_user_account(Origin::Signed(who), key);
            &&& r == Ok::<Event, DispatchError>(Event::RegisterSuccess(who))
            &&& s1.accounts.contains_key(who)
            &&& s1.accounts[who] == (UserInfo { userid: who, amount: 0, user_key: key })
            &&& s1.account_list.len() == s.account_list.len() + 1
            &&& s1.account_list.last() == who
            &&& forall|i: int| 0 <= i < s.account_list.len() ==> s1.account_list[i] == s.account_list[i]
            &&& forall|other: u128| other != who ==> (#[trigger] s1.accounts.contains_key(other)
                == s.accounts.contains_key(other))
            &&& forall|other: u128| other != who && s.accounts.contains_key(other)
                ==> #[trigger] s1.accounts[other] == s.accounts[other]
            &&& s1.authorizations == s.authorizations
            &&& s1.trades == s.trades
        }),
{
}

/// A successful authorization adds exactly the new account, at the end of the
/// depositor's list: every account authorized before stays, in its place, and
/// nobody else's list changes.
pub proof fn law_authorization_appends(s: BankView, who: u128, account: u128)
    requires
        s.account_authority(Origin::Signed(who), account).1 is Ok,
    ensures
        ({
            let s1 = s.account_authority(Origin::Signed(who), account).0;
            let before = if s.authorizations.contains_key(who) {
                s.authorizations[who]
            } else {
                Seq::<u128>::empty()
            };
            &&& s1.authorizations.contains_key(who)
            &&& s1.authorizations[who].len() == before.len() + 1
            &&& forall|i: int| 0 <= i < before.len() ==> s1.authorizations[who][i] == before[i]
            &&& s1.authorizations[who][before.len() as int] == account
            &&& !before.contains(account)
            &&& forall|other: u128| other != who ==> (#[trigger] s1.authorizations.contains_key(other)
                == s.authorizations.contains_key(other))
            &&& forall|other: u128| other != who && s.authorizations.contains_key(other)
                ==> #[trigger] s1.authorizations[other] == s.authorizations[other]
            &&& s1.accounts == s.accounts
        }),
{
}

/// Authorizing an account already authorized is refused with
/// `AlreayAuthority` and changes nothing.
pub proof fn law_authorized_account_is_refused(s: BankView, who: u128, account: u128)
    requires
        s.accounts.contains_key(who),
        s.authorizations.contains_key(who),
        s.authorizations[who].contains(account),
    ensures
        s.account_authority(Origin::Signed(who), account).0 == s,
        s.account_authority(Origin::Signed(who), account).1 == Err::<Event, DispatchError>(
            DispatchError::Module(Error::AlreayAuthority),
        ),
{
}

/// A withdrawal is accepted only for what the record holds: asking for more
/// is refused with `NotEnoughMoney`, and any accepted withdrawal asks for no
/// more than the record holds.
pub proof fn law_withdraw_only_what_is_held(s: BankView, who: u128, money: u128)
    requires
        s.accounts.contains_key(who),
    ensures
        money > s.accounts[who].amount ==> s.withdraw(Origin::Signed(who), money) == Err::<
            Transfer,
            DispatchError,
        >(DispatchError::Module(Error::NotEnoughMoney)),
        money <= s.accounts[who].amount ==> s.withdraw(Origin::Signed(who), money) == Ok::<
            Transfer,
            DispatchError,
        >(Transfer { from: pool_account(0) as u128, to: who, value: money }),
        forall|o: Origin|
            #[trigger] s.withdraw(o, money) is Ok ==> o == Origin::Signed(
                s.withdraw(o, money)->Ok_0.to,
            ) && s.accounts.contains_key(s.withdraw(o, money)->Ok_0.to) && money <= s.accounts[s.withdraw(
                o,
                money,
            )->Ok_0.to].amount,
{
}

/// A withdrawal that went through lowers the depositor's record by exactly
/// what was withdrawn and leaves every other record as it was.
pub proof fn law_withdraw_debits_record(s: BankView, who: u128, money: u128)
    requires
        s.accounts.contains_key(who),
        money <= s.accounts[who].amount,
    ensures
        ({
            let s1 = s.withdraw_completed(who, money, Ok(())).0;
            &&& s1.accounts.dom() == s.accounts.dom()
            &&& s1.accounts[who].amount == s.accounts[who].amount - money
            &&& s1.accounts[who].userid == s.accounts[who].userid
            &&& s1.accounts[who].user_key == s.accounts[who].user_key
            &&& forall|other: u128| other != who && s.accounts.contains_key(other)
                ==> #[trigger] s1.accounts[other] == s.accounts[other]
        }),
{
    let s1 = s.withdraw_completed(who, money, Ok(())).0;
    assert(s1.accounts.dom() =~= s.accounts.dom());
}

/// Root's recording of a trade always succeeds and appends exactly that one
/// trade after those recorded before; nothing else changes.
pub proof fn law_trade_is_appended(s: BankView, source: u128, dest: u128, money: u128)
    ensures
        ({
            let (s1, r) = s.update_trade_info(Origin::Root, source, dest, money);
            &&& r == Ok::<(), DispatchError>(())
            &&& s1.trades.len() == s.trades.len() + 1
            &&& forall|i: int| 0 <= i < s.trades.len() ==> s1.trades[i] == s.trades[i]
            &&& s1.trades[s.trades.len() as int] == (TradeInfo { source, dest, amount: money })
            &&& s1.accounts == s.accounts
            &&& s1.authorizations == s.authorizations
            &&& s1.account_list == s.account_list
        }),
{
}

/// Settling one more trade, after the others, takes its amount out of what its
/// source then holds, whoever the destination is, when the source holds that
/// much, and leaves the source as it is otherwise; no other record changes.
pub proof fn law_settlement_debits_source(s: BankView, t: TradeInfo)
    requires
        s.trades_have_sources(),
        s.accounts.contains_key(t.source),
    ensures
        ({
            let before = s.transaction().accounts;
            let after = BankView { trades: s.trades.push(t), ..s }.transaction().accounts;
            let held = before[t.source].amount;
            &&& after.dom() == before.dom()
            &&& held >= t.amount ==> after[t.source].amount == held - t.amount
            &&& held < t.amount ==> after[t.source].amount == held
            &&& after[t.source].userid == before[t.source].userid
            &&& after[t.source].user_key == before[t.source].user_key
            &&& forall|other: u128| other != t.source && before.contains_key(other)
                ==> #[trigger] after[other] == before[other]
        }),
{
    let ts = s.trades.push(t);
    assert(ts.drop_last() =~= s.trades);
    assert(ts.last() == t);
    lemma_settle_trades(s.accounts, s.trades);
    let before = s.transaction().accounts;
    let after = BankView { trades: ts, ..s }.transaction().accounts;
    assert(after.dom() =~= before.dom());
}

/// Settling takes out of all that the depositors hold exactly the amounts of
/// the trades whose source held enough when their turn came.
pub open spec fn covered_total(accounts: Map<u128, UserInfo>, trades: Seq<TradeInfo>) -> int
    decreases trades.len(),
{
    if trades.len() == 0 {
        0
    } else {
        let t = trades.last();
        let held = crate::pallet::settle_trades(accounts, trades.drop_last())[t.source].amount;
        covered_total(accounts, trades.drop_last()) + if held >= t.amount {
            t.amount as int
        } else {
            0
        }
    }
}

/// Settling the recorded trades lowers all that the depositors hold by exactly
/// the sum of the trades that could be covered when their turn came.
pub proof fn law_settlement_takes_covered_trades(s: BankView)
    requires
        s.inv(),
        s.trades_have_sources(),
    ensures
        total_held(s.transaction().accounts, s.account_list) == total_held(
            s.accounts,
            s.account_list,
        ) - covered_total(s.accounts, s.trades),
{
    lemma_covered(s, s.trades);
}

proof fn lemma_covered(s: BankView, ts: Seq<TradeInfo>)
    requires
        s.inv(),
        forall|i: int| 0 <= i < ts.len() ==> s.accounts.contains_key(#[trigger] ts[i].source),
    ensures
        total_held(crate::pallet::settle_trades(s.accounts, ts), s.account_list) == total_held(
            s.accounts,
            s.account_list,
        ) - covered_total(s.accounts, ts),
    decreases ts.len(),
{
    if ts.len() > 0 {
        let rest = ts.drop_last();
        assert forall|i: int| 0 <= i < rest.len() implies s.accounts.contains_key(
            #[trigger] rest[i].source,
        ) by {
            assert(rest[i] == ts[i]);
        }
        lemma_covered(s, rest);
        lemma_settle_trades(s.accounts, rest);
        let before = crate::pallet::settle_trades(s.accounts, rest);
        let t = ts.last();
        assert(s.accounts.contains_key(ts[ts.len() - 1].source));
        assert(s.account_list.contains(t.source));
        lemma_total_after_update(before, s.account_list, t.source, withdrawn(before[t.source], t.amount));
    }
}

} // verus!
