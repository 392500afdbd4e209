use standard_vault::ledger::AssetLedger;
use standard_vault::Error;

const ALICE: u64 = 7;
const BOB: u64 = 8;
const SYSTEM: u64 = 900;

#[test]
fn issue_allocates_sequential_ids_and_credits_creator() {
    let mut ledger = AssetLedger::new();
    let debt_id = ledger.issue(SYSTEM, 0);
    assert_eq!(debt_id, 1);
    let id = ledger.issue(ALICE, 1000);
    assert_eq!(id, 2);
    assert_eq!(ledger.balance(2, ALICE), 1000);
    assert_eq!(ledger.total_supply(2), 1000);
    let id2 = ledger.issue(BOB, 50);
    assert_eq!(id2, 3);
    assert_eq!(ledger.balance(3, BOB), 50);
}

#[test]
fn mint_requires_creator() {
    let mut ledger = AssetLedger::new();
    let id = ledger.issue(ALICE, 100);
    assert_eq!(ledger.mint(BOB, id, BOB, 10), Err(Error::NotTheCreator));
    assert_eq!(ledger.balance(id, BOB), 0);
    assert_eq!(ledger.total_supply(id), 100);
    assert_eq!(ledger.mint(BOB, 999, BOB, 10), Err(Error::NotTheCreator));
}

#[test]
fn mint_increases_balance_and_total_supply() {
    let mut ledger = AssetLedger::new();
    let id = ledger.issue(ALICE, 100);
    assert_eq!(ledger.mint(ALICE, id, BOB, 40), Ok(()));
    assert_eq!(ledger.balance(id, BOB), 40);
    assert_eq!(ledger.balance(id, ALICE), 100);
    assert_eq!(ledger.total_supply(id), 140);
}

#[test]
fn mint_zero_amount_fails() {
    let mut ledger = AssetLedger::new();
    let id = ledger.issue(ALICE, 100);
    assert_eq!(ledger.mint(ALICE, id, BOB, 0), Err(Error::AmountZero));
}

#[test]
fn mint_overflowing_supply_fails() {
    let mut ledger = AssetLedger::new();
    let id = ledger.issue(ALICE, u128::MAX);
    assert_eq!(ledger.mint(ALICE, id, BOB, 1), Err(Error::Overflow));
    assert_eq!(ledger.total_supply(id), u128::MAX);
}

#[test]
fn burn_zero_amount_fails() {
    let mut ledger = AssetLedger::new();
    let id = ledger.issue(ALICE, 1000);
    assert_eq!(ledger.burn(ALICE, id, 0), Err(Error::AmountZero));
}

#[test]
fn burn_more_than_balance_fails() {
    let mut ledger = AssetLedger::new();
    let id = ledger.issue(ALICE, 1000);
    assert_eq!(ledger.burn(ALICE, id, 1001), Err(Error::BalanceLow));
    assert_eq!(ledger.burn(BOB, id, 1), Err(Error::BalanceLow));
    assert_eq!(ledger.balance(id, ALICE), 1000);
    assert_eq!(ledger.total_supply(id), 1000);
}

#[test]
fn burn_reduces_balance_and_supply() {
    let mut ledger = AssetLedger::new();
    let id = ledger.issue(ALICE, 1000);
    assert_eq!(ledger.burn(ALICE, id, 300), Ok(()));
    assert_eq!(ledger.balance(id, ALICE), 700);
    assert_eq!(ledger.total_supply(id), 700);
}

#[test]
fn transfer_moves_balance_and_keeps_supply() {
    let mut ledger = AssetLedger::new();
    let id = ledger.issue(ALICE, 1000);
    assert_eq!(ledger.transfer(ALICE, id, BOB, 250), Ok(()));
    assert_eq!(ledger.balance(id, ALICE), 750);
    assert_eq!(ledger.balance(id, BOB), 250);
    assert_eq!(ledger.total_supply(id), 1000);
}

#[test]
fn transfer_insufficient_balance_fails() {
    let mut ledger = AssetLedger::new();
    let id = ledger.issue(ALICE, 100);
    assert_eq!(ledger.transfer(ALICE, id, BOB, 101), Err(Error::BalanceLow));
    assert_eq!(ledger.balance(id, ALICE), 100);
    assert_eq!(ledger.balance(id, BOB), 0);
}

#[test]
fn transfer_zero_amount_fails() {
    let mut ledger = AssetLedger::new();
    let id = ledger.issue(ALICE, 100);
    assert_eq!(ledger.transfer(ALICE, id, BOB, 0), Err(Error::AmountZero));
}

#[test]
fn transfer_to_self_is_a_noop() {
    let mut ledger = AssetLedger::new();
    let id = ledger.issue(ALICE, 1000);
    assert_eq!(ledger.transfer(ALICE, id, ALICE, 50), Ok(()));
    assert_eq!(ledger.balance(id, ALICE), 1000);
    assert_eq!(ledger.total_supply(id), 1000);
}

#[test]
fn destroy_removes_entire_holding() {
    let mut ledger = AssetLedger::new();
    let id = ledger.issue(ALICE, 1000);
    assert_eq!(ledger.transfer(ALICE, id, BOB, 400), Ok(()));
    assert_eq!(ledger.destroy(BOB, id), Ok(400));
    assert_eq!(ledger.balance(id, BOB), 0);
    assert_eq!(ledger.total_supply(id), 600);
}

#[test]
fn destroy_of_zero_balance_fails() {
    let mut ledger = AssetLedger::new();
    let id = ledger.issue(ALICE, 1000);
    assert_eq!(ledger.destroy(BOB, id), Err(Error::BalanceZero));
    assert_eq!(ledger.destroy(BOB, id), Err(Error::BalanceZero));
}

#[test]
fn mint_from_system_raises_supply_without_creator_check() {
    let mut ledger = AssetLedger::new();
    let id = ledger.issue(ALICE, 10);
    assert_eq!(ledger.mint_from_system(id, BOB, 5), Ok(()));
    assert_eq!(ledger.balance(id, BOB), 5);
    assert_eq!(ledger.total_supply(id), 15);
    assert_eq!(ledger.mint_from_system(id, BOB, 0), Err(Error::AmountZero));
}

#[test]
fn conservation_holds_across_a_mixed_history() {
    let mut ledger = AssetLedger::new();
    let id = ledger.issue(ALICE, 1_000_000);
    let holders = [ALICE, BOB, SYSTEM];
    let checkpoint = |l: &AssetLedger| {
        let sum: u128 = holders.iter().map(|h| l.balance(id, *h)).sum();
        assert_eq!(sum, l.total_supply(id));
    };
    checkpoint(&ledger);
    assert_eq!(ledger.transfer(ALICE, id, BOB, 123_456), Ok(()));
    checkpoint(&ledger);
    assert_eq!(ledger.mint(ALICE, id, SYSTEM, 777), Ok(()));
    checkpoint(&ledger);
    assert_eq!(ledger.burn(BOB, id, 3_456), Ok(()));
    checkpoint(&ledger);
    assert_eq!(ledger.destroy(SYSTEM, id), Ok(777));
    checkpoint(&ledger);
}
