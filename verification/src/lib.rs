//! Accounting and risk-validation core of a collateralized-debt-position
//! (CDP) vault: a fungible-asset ledger with proved conservation invariants,
//! and a vault engine that issues a pegged debt asset against deposited
//! collateral, gated by an overflow-safe solvency check.

pub mod kv;
pub mod ledger;
pub mod vault;
pub mod wide;

use vstd::prelude::*;

verus! {

/// Typed, non-fatal outcome of a single call; a returned error implies the
/// call left all state untouched.
#[derive(Clone, Copy, Debug, PartialEq, Eq, Structural)]
pub enum Error {
    /// A transfer, mint or burn amount was zero.
    AmountZero,
    /// The debited account holds less than the requested amount.
    BalanceLow,
    /// `destroy` was called on an account whose balance is already zero.
    BalanceZero,
    /// `mint` was called by an account other than the asset's creator.
    NotTheCreator,
    /// The referenced asset has no registered risk parameters.
    CollateralNotSupported,
    /// The solvency check rejected the requested position.
    InvalidCDP,
    /// Liquidation was requested for a missing, closed or still-solvent
    /// position, or the vault account cannot cover the stored collateral.
    Unavailable,
    /// The price source failed to supply a price.
    OracleFailed,
    /// A checked balance or supply addition would exceed the integer width.
    Overflow,
}

} // verus!
