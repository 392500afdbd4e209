use standard_vault::ledger::AssetLedger;
use standard_vault::vault::{is_position_valid, Event, VaultEngine, CDP, DEBT_ASSET};
use standard_vault::Error;

const ALICE: u64 = 7;
const BOB: u64 = 8;
const VAULT: u64 = 900;
const INSURANCE: u64 = 901;

fn params(num: u128, den: u128) -> CDP {
    CDP {
        liquidation_fee: (1, 10),
        max_collateralization_rate: (num, den),
        stability_fee: (0, 1),
    }
}

/// A ledger with the debt asset issued as id 1 and one collateral asset,
/// id 2, fully held by `ALICE`.
fn setup(collateral_total: u128) -> (AssetLedger, VaultEngine) {
    let mut ledger = AssetLedger::new();
    let mut engine = VaultEngine::new(VAULT, INSURANCE);
    let debt_id = ledger.issue(VAULT, 0);
    assert_eq!(debt_id, DEBT_ASSET);
    let id = ledger.issue(ALICE, collateral_total);
    assert_eq!(id, 2);
    engine.register_collateral(2, params(3, 2));
    (ledger, engine)
}

#[test]
fn generate_opens_a_position() {
    let (mut ledger, mut engine) = setup(1000);
    let r = engine.generate(&mut ledger, ALICE, 140, 2, 100, Some(100), Some(1));
    assert_eq!(r, Ok(Event::UpdateVault(ALICE, 2, 100, 140)));
    assert_eq!(engine.vault(ALICE, 2), Some((100, 140)));
    assert_eq!(ledger.balance(2, ALICE), 900);
    assert_eq!(ledger.balance(2, VAULT), 100);
    assert_eq!(ledger.balance(DEBT_ASSET, ALICE), 140);
    assert_eq!(ledger.total_supply(DEBT_ASSET), 140);
    assert_eq!(engine.circulating_supply(), 140);
}

#[test]
fn generate_respects_the_strict_ceiling() {
    let (mut ledger, mut engine) = setup(1000);
    let r = engine.generate(&mut ledger, ALICE, 160, 2, 100, Some(100), Some(1));
    assert_eq!(r, Ok(Event::UpdateVault(ALICE, 2, 100, 160)));

    let (mut ledger2, mut engine2) = setup(1000);
    let r2 = engine2.generate(&mut ledger2, ALICE, 15000, 2, 100, Some(100), Some(1));
    assert_eq!(r2, Err(Error::InvalidCDP));
    let r3 = engine2.generate(&mut ledger2, ALICE, 14999, 2, 100, Some(100), Some(1));
    assert_eq!(r3, Ok(Event::UpdateVault(ALICE, 2, 100, 14999)));
}

#[test]
fn generate_failure_leaves_state_untouched() {
    let (mut ledger, mut engine) = setup(1000);
    let ledger_before = ledger.clone();
    let engine_before = engine.clone();
    let r = engine.generate(&mut ledger, ALICE, 15000, 2, 100, Some(100), Some(1));
    assert_eq!(r, Err(Error::InvalidCDP));
    assert_eq!(ledger, ledger_before);
    assert_eq!(engine, engine_before);
}

#[test]
fn generate_accumulates_like_a_single_call() {
    let (mut ledger_a, mut engine_a) = setup(1000);
    let ra1 = engine_a.generate(&mut ledger_a, ALICE, 40, 2, 60, Some(100), Some(1));
    assert!(ra1.is_ok());
    let ra2 = engine_a.generate(&mut ledger_a, ALICE, 100, 2, 40, Some(100), Some(1));
    assert_eq!(ra2, Ok(Event::UpdateVault(ALICE, 2, 100, 100)));

    let (mut ledger_b, mut engine_b) = setup(1000);
    let rb = engine_b.generate(&mut ledger_b, ALICE, 140, 2, 100, Some(100), Some(1));
    assert!(rb.is_ok());

    assert_eq!(engine_a.vault(ALICE, 2), engine_b.vault(ALICE, 2));
    assert_eq!(engine_a.circulating_supply(), engine_b.circulating_supply());
}

#[test]
fn generate_rejects_unregistered_collateral() {
    let (mut ledger, mut engine) = setup(1000);
    let r = engine.generate(&mut ledger, ALICE, 10, 3, 10, Some(100), Some(1));
    assert_eq!(r, Err(Error::CollateralNotSupported));
}

#[test]
fn reserved_assets_are_never_collateral() {
    let (mut ledger, mut engine) = setup(1000);
    // neither the native asset nor the debt asset can carry parameters,
    // so using them as collateral fails the parameter lookup
    assert_eq!(
        engine.generate(&mut ledger, ALICE, 10, 0, 10, Some(100), Some(1)),
        Err(Error::CollateralNotSupported)
    );
    assert_eq!(
        engine.generate(&mut ledger, ALICE, 10, DEBT_ASSET, 10, Some(100), Some(1)),
        Err(Error::CollateralNotSupported)
    );
}

#[test]
fn generate_propagates_oracle_failure() {
    let (mut ledger, mut engine) = setup(1000);
    let before = ledger.clone();
    let r = engine.generate(&mut ledger, ALICE, 10, 2, 10, None, Some(1));
    assert_eq!(r, Err(Error::OracleFailed));
    let r2 = engine.generate(&mut ledger, ALICE, 10, 2, 10, Some(100), None);
    assert_eq!(r2, Err(Error::OracleFailed));
    assert_eq!(ledger, before);
}

#[test]
fn generate_rejects_zero_amounts() {
    let (mut ledger, mut engine) = setup(1000);
    assert_eq!(
        engine.generate(&mut ledger, ALICE, 0, 2, 100, Some(100), Some(1)),
        Err(Error::AmountZero)
    );
    // with no collateral at all the solvency check already fails: the
    // ceiling of an empty position is zero
    assert_eq!(
        engine.generate(&mut ledger, ALICE, 100, 2, 0, Some(100), Some(1)),
        Err(Error::InvalidCDP)
    );
    // on an existing solvent position, a zero top-up is rejected as such
    let r = engine.generate(&mut ledger, ALICE, 140, 2, 100, Some(100), Some(1));
    assert!(r.is_ok());
    assert_eq!(
        engine.generate(&mut ledger, ALICE, 100, 2, 0, Some(100), Some(1)),
        Err(Error::AmountZero)
    );
}

#[test]
fn generate_rejects_insufficient_collateral_balance() {
    let (mut ledger, mut engine) = setup(50);
    let r = engine.generate(&mut ledger, ALICE, 10, 2, 60, Some(100), Some(1));
    assert_eq!(r, Err(Error::BalanceLow));
}

#[test]
fn liquidate_of_solvent_position_is_unavailable() {
    let (mut ledger, mut engine) = setup(1000);
    let r = engine.generate(&mut ledger, ALICE, 140, 2, 100, Some(100), Some(1));
    assert!(r.is_ok());
    let r2 = engine.liquidate(&mut ledger, BOB, ALICE, 2, Some(100), Some(1));
    assert_eq!(r2, Err(Error::Unavailable));
    assert_eq!(engine.vault(ALICE, 2), Some((100, 140)));
}

#[test]
fn liquidate_of_missing_position_is_unavailable() {
    let (mut ledger, mut engine) = setup(1000);
    let r = engine.liquidate(&mut ledger, BOB, ALICE, 2, Some(100), Some(1));
    assert_eq!(r, Err(Error::Unavailable));
}

#[test]
fn liquidate_requires_the_liquidator_to_cover_the_debt() {
    let (mut ledger, mut engine) = setup(1000);
    let r = engine.generate(&mut ledger, ALICE, 140, 2, 100, Some(100), Some(1));
    assert!(r.is_ok());
    // the debt price doubles: debt value 280 overtakes the ceiling 150
    let r2 = engine.liquidate(&mut ledger, BOB, ALICE, 2, Some(1), Some(2));
    assert_eq!(r2, Err(Error::BalanceLow));
}

#[test]
fn liquidate_splits_collateral_and_burns_debt() {
    let (mut ledger, mut engine) = setup(1000);
    let r = engine.generate(&mut ledger, ALICE, 140, 2, 100, Some(100), Some(1));
    assert!(r.is_ok());
    // the liquidator acquires the debt tokens needed to repay the position
    assert_eq!(ledger.transfer(ALICE, DEBT_ASSET, BOB, 140), Ok(()));
    // a price swing makes the position unsafe; BOB liquidates it
    let r2 = engine.liquidate(&mut ledger, BOB, ALICE, 2, Some(1), Some(2));
    assert_eq!(r2, Ok(Event::Liquidate(2, 100)));
    // liquidation fee is 1/10 of 100 collateral
    assert_eq!(ledger.balance(2, BOB), 10);
    assert_eq!(ledger.balance(2, INSURANCE), 90);
    assert_eq!(ledger.balance(2, VAULT), 0);
    assert_eq!(ledger.balance(DEBT_ASSET, BOB), 0);
    assert_eq!(ledger.total_supply(DEBT_ASSET), 0);
    assert_eq!(engine.circulating_supply(), 0);
    assert_eq!(engine.vault(ALICE, 2), Some((0, 0)));
    // a closed position cannot be liquidated again
    let r3 = engine.liquidate(&mut ledger, BOB, ALICE, 2, Some(1), Some(2));
    assert_eq!(r3, Err(Error::Unavailable));
}

#[test]
fn position_getter_returns_registered_parameters() {
    let (_ledger, engine) = setup(1000);
    assert_eq!(engine.position(2), Some(params(3, 2)));
    assert_eq!(engine.position(3), None);
}

#[test]
fn solvency_check_matches_the_documented_formula() {
    let p = params(3, 2);
    // collateral value 10000, ceiling (10000 / 2) * 3 = 15000
    assert!(is_position_valid(&p, 100, 100, 1, 14999));
    assert!(!is_position_valid(&p, 100, 100, 1, 15000));
    assert!(!is_position_valid(&p, 100, 100, 1, 15001));
    // truncating division: (10 / 3) * 1 = 3
    let q = params(1, 3);
    assert!(is_position_valid(&q, 10, 1, 1, 2));
    assert!(!is_position_valid(&q, 10, 1, 1, 3));
    // a zero-value position is never valid: 0 < 0 fails
    assert!(!is_position_valid(&p, 100, 0, 1, 0));
}

#[test]
fn solvency_check_survives_wide_products() {
    let p = params(1, 1);
    // collateral value 2^64 * 2^64 = 2^128, which overflows the balance
    // width but not the wide working width
    let big: u128 = 1u128 << 64;
    assert!(is_position_valid(&p, big, big, 1, u128::MAX));
    assert!(!is_position_valid(&p, big, big, big, big));
}

#[test]
fn solvency_ceiling_saturates_instead_of_wrapping() {
    let p = params(u128::MAX, 1);
    // ceiling = (MAX * MAX / 1) * MAX overflows 256 bits and saturates to
    // the largest representable value, so any debt value passes
    assert!(is_position_valid(&p, u128::MAX, u128::MAX, u128::MAX, u128::MAX));
}
