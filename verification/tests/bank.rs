use bank::dispatch::{DispatchError, Origin, Transfer};
use bank::pallet::{Error, Event, Pallet, POT_CHARGE};
use bank::pot;
use bank::primitives::{TradeInfo, UserInfo, WithdrawInfo};

fn pool_bytes(n: u8) -> u128 {
    let mut b = *b"modlradcban1bank";
    b[11] = b'0' + n;
    u128::from_le_bytes(b)
}

fn registered(users: &[u128]) -> Pallet {
    let mut bank = Pallet::new();
    for u in users {
        assert_eq!(
            bank.register_user_account(Origin::Signed(*u), 100 + *u),
            Ok(Event::RegisterSuccess(*u))
        );
    }
    bank
}

#[test]
fn pools_are_derived_sub_accounts() {
    assert_eq!(Pallet::bank_pool1(), pool_bytes(1));
    assert_eq!(Pallet::bank_pool2(), pool_bytes(2));
    assert_eq!(Pallet::bank_pool3(), pool_bytes(3));
    assert_eq!(Pallet::bank_pool4(), pool_bytes(4));
    assert_eq!(Pallet::bank_pool5(), pool_bytes(5));
    let pools = [
        Pallet::bank_pool1(),
        Pallet::bank_pool2(),
        Pallet::bank_pool3(),
        Pallet::bank_pool4(),
        Pallet::bank_pool5(),
    ];
    for i in 0..5 {
        for j in 0..5 {
            assert_eq!(i == j, pools[i] == pools[j]);
        }
    }
}

#[test]
fn storage_pot_is_derived_sub_account() {
    assert_eq!(pot::Pallet::storage_pot(), u128::from_le_bytes(*b"modlRADCGZH!stor"));
}

#[test]
fn random_numbers_select_pools() {
    assert_eq!(Pallet::create_rand(&[7, 1, 2]), 2);
    assert_eq!(Pallet::create_rand(&[255]), 0);
    assert_eq!(Pallet::create_rand(&[4]), 4);
    assert_eq!(Pallet::rand_bank_account(0), Pallet::bank_pool1());
    assert_eq!(Pallet::rand_bank_account(3), Pallet::bank_pool4());
    assert_eq!(Pallet::rand_bank_account(4), Pallet::bank_pool5());
    assert_eq!(Pallet::rand_bank_account(9), Pallet::bank_pool5());
}

#[test]
fn user_info_charge_and_withdraw() {
    let mut info = UserInfo { userid: 1, amount: 10, user_key: 5 };
    info.charge_account(15);
    assert_eq!(info, UserInfo { userid: 1, amount: 25, user_key: 5 });
    assert!(!info.withdraw_amount(26));
    assert_eq!(info.amount, 25);
    assert!(info.withdraw_amount(25));
    assert_eq!(info, UserInfo { userid: 1, amount: 0, user_key: 5 });
    assert!(info.withdraw_amount(0));
}

#[test]
fn charge_then_withdraw_restores() {
    let before = UserInfo { userid: 3, amount: 40, user_key: 9 };
    let mut info = before;
    info.charge_account(60);
    assert!(info.withdraw_amount(60));
    assert_eq!(info, before);
}

#[test]
fn records_constructors() {
    assert_eq!(WithdrawInfo::new(4, 50), WithdrawInfo { who: 4, money: 50 });
    assert_eq!(TradeInfo::new(1, 2, 3), TradeInfo { source: 1, dest: 2, amount: 3 });
}

#[test]
fn new_bank_is_empty() {
    let bank = Pallet::new();
    assert_eq!(bank.bank_accounts(1), None);
    assert_eq!(bank.authorization_list(1), None);
    assert_eq!(bank.withdraw_money_list(1), None);
    assert_eq!(bank.users_publickey(1), None);
    assert!(bank.encode_text().is_empty());
    assert!(bank.bank_account_list().is_empty());
    assert!(bank.trade_info_list().is_empty());
}

#[test]
fn register_once() {
    let mut bank = Pallet::new();
    assert_eq!(bank.register_user_account(Origin::Signed(1), 77), Ok(Event::RegisterSuccess(1)));
    assert_eq!(bank.bank_accounts(1), Some(UserInfo { userid: 1, amount: 0, user_key: 77 }));
    assert_eq!(bank.bank_account_list(), vec![1]);
    assert_eq!(
        bank.register_user_account(Origin::Signed(1), 88),
        Err(DispatchError::Module(Error::AlreadyExitBankAccount))
    );
    assert_eq!(bank.bank_accounts(1), Some(UserInfo { userid: 1, amount: 0, user_key: 77 }));
    assert_eq!(bank.register_user_account(Origin::Signed(2), 88), Ok(Event::RegisterSuccess(2)));
    assert_eq!(bank.bank_account_list(), vec![1, 2]);
}

#[test]
fn register_needs_a_signer() {
    let mut bank = Pallet::new();
    assert_eq!(bank.register_user_account(Origin::Root, 1), Err(DispatchError::BadOrigin));
    assert_eq!(bank.register_user_account(Origin::Unsigned, 1), Err(DispatchError::BadOrigin));
    assert!(bank.bank_account_list().is_empty());
}

#[test]
fn authorize_once() {
    let mut bank = registered(&[1]);
    assert_eq!(
        bank.account_authority(Origin::Signed(2), 3),
        Err(DispatchError::Module(Error::NotExitBankAccount))
    );
    assert_eq!(bank.account_authority(Origin::Signed(1), 3), Ok(Event::AuthoritySuccess(1, 3)));
    assert_eq!(bank.account_authority(Origin::Signed(1), 4), Ok(Event::AuthoritySuccess(1, 4)));
    assert_eq!(
        bank.account_authority(Origin::Signed(1), 3),
        Err(DispatchError::Module(Error::AlreayAuthority))
    );
    assert_eq!(bank.authorization_list(1), Some(vec![3, 4]));
    assert_eq!(bank.authorization_list(2), None);
    assert_eq!(bank.account_authority(Origin::Root, 3), Err(DispatchError::BadOrigin));
}

#[test]
fn deposit_goes_through() {
    let mut bank = registered(&[1]);
    let plan = bank.charge_user_account(Origin::Signed(1), 500, &[12, 0, 0], 1_000, 100);
    assert_eq!(plan, Ok(Transfer { from: 1, to: Pallet::bank_pool3(), value: 500 }));
    assert_eq!(
        bank.charge_user_account_completed(1, 500, Ok(())),
        Ok(Event::ChargeAmountSuccess(1, 500))
    );
    assert_eq!(bank.bank_accounts(1).unwrap().amount, 500);
    assert_eq!(
        bank.charge_user_account_completed(1, 20, Ok(())),
        Ok(Event::ChargeAmountSuccess(1, 20))
    );
    assert_eq!(bank.bank_accounts(1).unwrap().amount, 520);
}

#[test]
fn deposit_refusals() {
    let mut bank = registered(&[1]);
    assert_eq!(
        bank.charge_user_account(Origin::Signed(2), 5, &[0], 1_000, 1),
        Err(DispatchError::Module(Error::NotExitBankAccount))
    );
    assert_eq!(
        bank.charge_user_account(Origin::Signed(1), 901, &[0], 1_000, 100),
        Err(DispatchError::Module(Error::NotEnoughMoney))
    );
    assert_eq!(
        bank.charge_user_account(Origin::Signed(1), 900, &[0], 1_000, 100),
        Ok(Transfer { from: 1, to: Pallet::bank_pool1(), value: 900 })
    );
    // The free balance less the deposit saturates at zero.
    assert_eq!(
        bank.charge_user_account(Origin::Signed(1), 5_000, &[0], 1_000, 0),
        Ok(Transfer { from: 1, to: Pallet::bank_pool1(), value: 5_000 })
    );
    assert_eq!(
        bank.charge_user_account(Origin::Signed(1), 5_000, &[0], 1_000, 1),
        Err(DispatchError::Module(Error::NotEnoughMoney))
    );
    assert_eq!(
        bank.charge_user_account(Origin::Unsigned, 1, &[0], 1_000, 1),
        Err(DispatchError::BadOrigin)
    );
    assert_eq!(
        bank.charge_user_account_completed(1, 50, Err(3)),
        Err(DispatchError::Currency(3))
    );
    assert_eq!(bank.bank_accounts(1).unwrap().amount, 0);
}

#[test]
fn withdraw_takes_the_money() {
    let mut bank = registered(&[1]);
    bank.charge_user_account_completed(1, 300, Ok(())).unwrap();
    assert_eq!(
        bank.withdraw(Origin::Signed(1), 301),
        Err(DispatchError::Module(Error::NotEnoughMoney))
    );
    assert_eq!(
        bank.withdraw(Origin::Signed(1), 120),
        Ok(Transfer { from: Pallet::bank_pool1(), to: 1, value: 120 })
    );
    // Deciding alone changes nothing.
    assert_eq!(bank.bank_accounts(1).unwrap().amount, 300);
    assert_eq!(bank.withdraw_completed(1, 120, Err(7)), Err(DispatchError::Currency(7)));
    assert_eq!(bank.bank_accounts(1).unwrap().amount, 300);
    assert_eq!(bank.withdraw_completed(1, 120, Ok(())), Ok(Event::WithdrawSuccess(1, 120)));
    assert_eq!(bank.bank_accounts(1).unwrap().amount, 180);
    // The same money cannot be withdrawn twice.
    assert_eq!(
        bank.withdraw(Origin::Signed(1), 200),
        Err(DispatchError::Module(Error::NotEnoughMoney))
    );
    assert_eq!(
        bank.withdraw(Origin::Signed(9), 1),
        Err(DispatchError::Module(Error::NotExitBankAccount))
    );
    assert_eq!(bank.withdraw(Origin::Root, 1), Err(DispatchError::BadOrigin));
}

#[test]
fn deposit_then_withdraw_restores() {
    let mut bank = registered(&[1]);
    bank.charge_user_account_completed(1, 40, Ok(())).unwrap();
    let before = bank.bank_accounts(1);
    bank.charge_user_account_completed(1, 75, Ok(())).unwrap();
    bank.withdraw(Origin::Signed(1), 75).unwrap();
    bank.withdraw_completed(1, 75, Ok(())).unwrap();
    assert_eq!(bank.bank_accounts(1), before);
}

#[test]
fn trades_need_root() {
    let mut bank = registered(&[1]);
    assert_eq!(bank.update_trade_info(Origin::Signed(1), 1, 2, 3), Err(DispatchError::BadOrigin));
    assert!(bank.trade_info_list().is_empty());
    assert_eq!(bank.update_trade_info(Origin::Root, 1, 2, 3), Ok(()));
    assert_eq!(bank.trade_info_list(), vec![TradeInfo { source: 1, dest: 2, amount: 3 }]);
}

#[test]
fn pot_charge_transfers() {
    let transfers = Pallet::charge_bank_pot(Origin::Signed(6)).unwrap();
    assert_eq!(POT_CHARGE, 300_000_000_000_000);
    let expected: Vec<Transfer> = (1..=5)
        .map(|n| Transfer { from: 6, to: pool_bytes(n), value: POT_CHARGE })
        .collect();
    assert_eq!(transfers, expected);
    assert_eq!(Pallet::charge_bank_pot(Origin::Root), Err(DispatchError::BadOrigin));
}

#[test]
fn settlement_of_trades() {
    let mut bank = registered(&[1, 2]);
    bank.charge_user_account_completed(1, 100, Ok(())).unwrap();
    bank.charge_user_account_completed(2, 10, Ok(())).unwrap();
    bank.update_trade_info(Origin::Root, 1, 8, 60).unwrap();
    bank.update_trade_info(Origin::Root, 2, 9, 20).unwrap();
    bank.update_trade_info(Origin::Root, 1, 9, 30).unwrap();
    let seeds = vec![vec![3u8, 1], vec![11u8], vec![9u8]];
    let transfers = bank.transaction(&seeds);
    assert_eq!(
        transfers,
        vec![
            Transfer { from: Pallet::bank_pool4(), to: 8, value: 60 },
            Transfer { from: Pallet::bank_pool2(), to: 9, value: 20 },
            Transfer { from: Pallet::bank_pool5(), to: 9, value: 30 },
        ]
    );
    assert_eq!(bank.bank_accounts(1).unwrap().amount, 10);
    assert_eq!(bank.bank_accounts(2).unwrap().amount, 10);
    assert_eq!(bank.trade_info_list().len(), 3);
    // Between settlement blocks nothing happens.
    bank.charge_user_account_completed(1, 100, Ok(())).unwrap();
    let (weight, none) = bank.on_initialize(1, &vec![]);
    assert_eq!(weight, 0);
    assert!(none.is_empty());
    assert_eq!(bank.bank_accounts(1).unwrap().amount, 110);
    // The trades stay recorded and are settled again at the next settlement block.
    let (weight, again) = bank.on_initialize(50, &seeds);
    assert_eq!(weight, 0);
    assert_eq!(again.len(), 3);
    assert_eq!(bank.bank_accounts(1).unwrap().amount, 20);
    bank.transaction(&seeds);
    assert_eq!(bank.bank_accounts(1).unwrap().amount, 20);
    bank.charge_user_account_completed(1, 40, Ok(())).unwrap();
    bank.transaction(&seeds);
    assert_eq!(bank.bank_accounts(1).unwrap().amount, 0);
}

#[test]
fn settlement_without_trades() {
    let mut bank = registered(&[1]);
    assert!(bank.transaction(&vec![]).is_empty());
    assert_eq!(bank.bank_accounts(1).unwrap().amount, 0);
}

fn total(bank: &Pallet) -> u128 {
    bank.bank_account_list()
        .iter()
        .map(|a| bank.bank_accounts(*a).unwrap().amount)
        .sum()
}

#[test]
fn deposit_adds_to_total() {
    let mut bank = registered(&[1, 2, 3]);
    bank.charge_user_account_completed(2, 40, Ok(())).unwrap();
    let before = total(&bank);
    bank.charge_user_account_completed(3, 25, Ok(())).unwrap();
    assert_eq!(total(&bank), before + 25);
}

#[test]
fn settlement_never_raises_total() {
    let mut bank = registered(&[1, 2]);
    bank.charge_user_account_completed(1, 70, Ok(())).unwrap();
    bank.charge_user_account_completed(2, 5, Ok(())).unwrap();
    bank.update_trade_info(Origin::Root, 1, 3, 50).unwrap();
    bank.update_trade_info(Origin::Root, 2, 3, 6).unwrap();
    let before = total(&bank);
    bank.transaction(&vec![vec![0u8], vec![1u8]]);
    assert_eq!(total(&bank), before - 50);
    assert_eq!(bank.bank_account_list(), vec![1, 2]);
}

#[test]
fn settlement_only_every_fiftieth_block() {
    let mut bank = registered(&[1]);
    bank.charge_user_account_completed(1, 10, Ok(())).unwrap();
    bank.update_trade_info(Origin::Root, 1, 2, 4).unwrap();
    for now in [1u32, 49, 51, 99] {
        assert_eq!(bank.on_initialize(now, &vec![]), (0, vec![]));
        assert_eq!(bank.bank_accounts(1).unwrap().amount, 10);
    }
    let (_, paid) = bank.on_initialize(0, &vec![vec![2u8]]);
    assert_eq!(paid, vec![Transfer { from: Pallet::bank_pool3(), to: 2, value: 4 }]);
    assert_eq!(bank.bank_accounts(1).unwrap().amount, 6);
    bank.on_initialize(100, &vec![vec![0u8]]);
    assert_eq!(bank.bank_accounts(1).unwrap().amount, 2);
}

#[test]
fn pot_charge_outcomes() {
    assert_eq!(Pallet::charge_bank_pot_completed(&vec![]), None);
    assert_eq!(Pallet::charge_bank_pot_completed(&vec![Ok(()), Ok(())]), None);
    assert_eq!(
        Pallet::charge_bank_pot_completed(&vec![Ok(()), Ok(()), Err(4)]),
        Some(Err(DispatchError::Currency(4)))
    );
    assert_eq!(
        Pallet::charge_bank_pot_completed(&vec![Err(1), Err(2)]),
        Some(Err(DispatchError::Currency(1)))
    );
    assert_eq!(Pallet::charge_bank_pot_completed(&vec![Ok(()); 5]), Some(Ok(())));
}

#[test]
fn withdraw_takes_from_total() {
    let mut bank = registered(&[1, 2]);
    bank.charge_user_account_completed(1, 30, Ok(())).unwrap();
    bank.charge_user_account_completed(2, 50, Ok(())).unwrap();
    let before = total(&bank);
    bank.withdraw_completed(2, 35, Ok(())).unwrap();
    assert_eq!(total(&bank), before - 35);
}
