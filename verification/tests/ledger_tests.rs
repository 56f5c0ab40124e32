use bridge_core::assets::AssetId;
use bridge_core::ledger::{Ledger, LedgerError};
use bridge_core::types::EthAddress;

fn set_balance(ledger: &mut Ledger, asset_id: AssetId, account_id: u64, amount: u128) {
    ledger.insert_balance(asset_id, account_id, amount);
    ledger.insert_total_issuance(asset_id, amount);
}

const ALICE: u64 = 1;
const BOB: u64 = 2;

#[test]
fn deposit_should_increase_balance_and_total_issuance() {
    let mut ledger = Ledger::new();
    let asset_id = AssetId::Ether;
    assert!(ledger.deposit(asset_id, ALICE, 500).is_ok());
    assert_eq!(ledger.balance(asset_id, ALICE), 500);
    assert_eq!(ledger.total_issuance(asset_id), 500);

    assert!(ledger.deposit(asset_id, ALICE, 20).is_ok());
    assert_eq!(ledger.balance(asset_id, ALICE), 520);
    assert_eq!(ledger.total_issuance(asset_id), 520);
}

#[test]
fn deposit_should_raise_total_issuance_overflow_error() {
    let mut ledger = Ledger::new();
    let asset_id = AssetId::Ether;
    ledger.insert_total_issuance(asset_id, u128::MAX);
    assert_eq!(
        ledger.deposit(asset_id, ALICE, 1),
        Err(LedgerError::TotalIssuanceOverflow)
    );
    assert_eq!(ledger.total_issuance(asset_id), u128::MAX);
    assert_eq!(ledger.balance(asset_id, ALICE), 0);
}

#[test]
fn deposit_should_raise_balance_overflow_error() {
    let mut ledger = Ledger::new();
    let asset_id = AssetId::Ether;
    ledger.insert_balance(asset_id, ALICE, u128::MAX);

    assert_eq!(
        ledger.deposit(asset_id, ALICE, 1),
        Err(LedgerError::BalanceOverflow)
    );
    assert_eq!(ledger.balance(asset_id, ALICE), u128::MAX);
}

#[test]
fn withdrawal_should_decrease_balance_and_total_issuance() {
    let mut ledger = Ledger::new();
    set_balance(&mut ledger, AssetId::Ether, ALICE, 500);

    assert!(ledger.withdraw(AssetId::Ether, ALICE, 20).is_ok());
    assert_eq!(ledger.balance(AssetId::Ether, ALICE), 480);
    assert_eq!(ledger.total_issuance(AssetId::Ether), 480);
}

#[test]
fn withdrawal_should_raise_total_issuance_underflow_error() {
    let mut ledger = Ledger::new();
    let asset_id = AssetId::Ether;
    ledger.insert_total_issuance(asset_id, 1);

    assert_eq!(
        ledger.withdraw(asset_id, ALICE, 10),
        Err(LedgerError::TotalIssuanceUnderflow)
    );
    assert_eq!(ledger.total_issuance(asset_id), 1);
}

#[test]
fn withdrawal_should_raise_balance_underflow_error() {
    let mut ledger = Ledger::new();
    let asset_id = AssetId::Ether;
    ledger.insert_total_issuance(asset_id, 500);

    assert_eq!(
        ledger.withdraw(asset_id, ALICE, 10),
        Err(LedgerError::InsufficientBalance)
    );
    assert_eq!(ledger.total_issuance(asset_id), 500);
}

#[test]
fn transfer_free_balance() {
    let mut ledger = Ledger::new();
    let asset_id = AssetId::Ether;

    assert!(ledger.deposit(asset_id, ALICE, 500).is_ok());
    assert!(ledger.deposit(asset_id, BOB, 500).is_ok());
    assert!(ledger.transfer(asset_id, ALICE, BOB, 250).is_ok());

    assert_eq!(ledger.balance(asset_id, ALICE), 250);
    assert_eq!(ledger.balance(asset_id, BOB), 750);
    assert_eq!(ledger.total_issuance(asset_id), 1000);
}

#[test]
fn transfer_should_raise_insufficient_balance() {
    let mut ledger = Ledger::new();
    let asset_id = AssetId::Ether;

    assert!(ledger.deposit(asset_id, ALICE, 500).is_ok());
    assert!(ledger.deposit(asset_id, BOB, 500).is_ok());

    assert_eq!(
        ledger.transfer(asset_id, ALICE, BOB, 1000),
        Err(LedgerError::InsufficientBalance)
    );
    assert_eq!(ledger.balance(asset_id, ALICE), 500);
    assert_eq!(ledger.balance(asset_id, BOB), 500);
    assert_eq!(ledger.total_issuance(asset_id), 1000);
}

#[test]
fn scenario_deposit_twice_then_withdraw() {
    let mut ledger = Ledger::new();
    let eth = AssetId::Ether;
    assert!(ledger.deposit(eth, ALICE, 500).is_ok());
    assert!(ledger.deposit(eth, ALICE, 20).is_ok());
    assert_eq!(ledger.balance(eth, ALICE), 520);
    assert_eq!(ledger.total_issuance(eth), 520);

    let mut ledger = Ledger::new();
    set_balance(&mut ledger, eth, ALICE, 500);
    assert!(ledger.withdraw(eth, ALICE, 20).is_ok());
    assert_eq!(ledger.balance(eth, ALICE), 480);
    assert_eq!(ledger.total_issuance(eth), 480);
}

#[test]
fn transfer_to_self_keeps_balance() {
    let mut ledger = Ledger::new();
    let eth = AssetId::Ether;
    assert!(ledger.deposit(eth, ALICE, 500).is_ok());
    assert!(ledger.transfer(eth, ALICE, ALICE, 200).is_ok());
    assert_eq!(ledger.balance(eth, ALICE), 500);
    assert_eq!(ledger.total_issuance(eth), 500);
    assert_eq!(
        ledger.transfer(eth, ALICE, ALICE, 600),
        Err(LedgerError::InsufficientBalance)
    );
    assert_eq!(ledger.balance(eth, ALICE), 500);
}

#[test]
fn assets_are_independent() {
    let mut ledger = Ledger::new();
    let eth = AssetId::Ether;
    let tok = AssetId::Token(EthAddress { hi: 0x11111111, lo: 0x2222 });
    assert!(ledger.deposit(eth, ALICE, 100).is_ok());
    assert!(ledger.deposit(tok, ALICE, 7).is_ok());
    assert_eq!(ledger.balance(eth, ALICE), 100);
    assert_eq!(ledger.balance(tok, ALICE), 7);
    assert_eq!(ledger.total_issuance(eth), 100);
    assert_eq!(ledger.total_issuance(tok), 7);
    assert!(ledger.withdraw(tok, ALICE, 7).is_ok());
    assert_eq!(ledger.balance(eth, ALICE), 100);
    assert_eq!(ledger.balance(tok, ALICE), 0);
}

#[test]
fn credit_is_withdrawn_split_and_resolved() {
    let mut ledger = Ledger::new();
    let eth = AssetId::Ether;
    assert!(ledger.deposit(eth, ALICE, 100).is_ok());
    let credit = ledger.withdraw_to_credit(eth, ALICE, 40).unwrap();
    assert_eq!(credit.amount(), 40);
    assert_eq!(ledger.balance(eth, ALICE), 60);
    assert_eq!(ledger.total_issuance(eth), 60);
    let (first, second) = credit.split(15);
    assert_eq!(first.amount(), 15);
    assert_eq!(second.amount(), 25);
    assert!(ledger.resolve(BOB, first).is_ok());
    assert!(ledger.resolve(ALICE, second).is_ok());
    assert_eq!(ledger.balance(eth, BOB), 15);
    assert_eq!(ledger.balance(eth, ALICE), 85);
    assert_eq!(ledger.total_issuance(eth), 100);
}

#[test]
fn withdraw_to_credit_reports_insufficient_balance() {
    let mut ledger = Ledger::new();
    let eth = AssetId::Ether;
    assert!(ledger.deposit(eth, ALICE, 5).is_ok());
    assert!(ledger.deposit(eth, BOB, 5).is_ok());
    match ledger.withdraw_to_credit(eth, ALICE, 7) {
        Err(LedgerError::InsufficientBalance) => {}
        _ => panic!("expected an insufficient balance error"),
    }
    assert_eq!(ledger.balance(eth, ALICE), 5);
    assert_eq!(ledger.total_issuance(eth), 10);
}
