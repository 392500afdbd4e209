//! The vault engine: per-(account, collateral-asset) positions of deposited
//! collateral and issued debt, risk parameters per collateral asset, and the
//! circulating-supply counter of the pegged debt asset.  `generate` opens or
//! grows a position behind a solvency check; `liquidate` unwinds a position
//! that the current prices no longer cover.
//!
//! Prices come in as plain values queried freshly by the host from its price
//! source, `None` standing for a source failure that the engine propagates;
//! the engine itself never caches a price.

use crate::kv::{
    kv_find, kv_unique, lemma_kv_absent_of_find, lemma_kv_find_absent, lemma_kv_find_at,
    lemma_kv_find_push, lemma_kv_find_some_index, lemma_kv_find_update, lemma_kv_unique_push,
};
use crate::ledger::AssetLedger;
use crate::wide::{mul_saturated, wide, wide_div, wide_lt, wide_mul, wide_mul_saturating};
use crate::Error;
use vstd::arithmetic::div_mod::{lemma_div_by_multiple, lemma_div_is_ordered};
use vstd::arithmetic::mul::lemma_mul_inequality;
use vstd::prelude::*;

verus! {

/// Asset identifier reserved for the system's pegged debt asset.
pub const DEBT_ASSET: u64 = 1;

/// Risk parameters of one collateral asset class, each an exact
/// non-negative rational given as `(numerator, denominator)`.
#[derive(Clone, Copy, Debug, PartialEq, Eq)]
pub struct CDP {
    /// Share of a liquidated position's collateral paid to the liquidator.
    pub liquidation_fee: (u128, u128),
    /// Maximum collateralization rate bounding issued debt value per unit
    /// of collateral value.
    pub max_collateralization_rate: (u128, u128),
    /// Fee paid for stability.
    pub stability_fee: (u128, u128),
}

impl CDP {
    /// Validated configuration: no denominator is zero, and the liquidation
    /// fee is a share, at most one, so a fee never exceeds the collateral
    /// it is cut from.
    pub open spec fn valid(self) -> bool {
        &&& self.liquidation_fee.1 != 0
        &&& self.max_collateralization_rate.1 != 0
        &&& self.stability_fee.1 != 0
        &&& self.liquidation_fee.0 <= self.liquidation_fee.1
    }
}

/// Domain event of one successful vault operation, handed to the host's
/// event sink.
#[derive(Clone, Copy, Debug, PartialEq, Eq)]
pub enum Event {
    /// A vault was created or grown: account, collateral asset, new total
    /// collateral, and the debt amount issued by this call.
    UpdateVault(u64, u64, u128, u128),
    /// A vault was liquidated: collateral asset and collateral amount.
    Liquidate(u64, u128),
}

/// The solvency rule: the debt value must lie strictly below the ceiling
/// `(collateral_value / rate_denominator) * rate_numerator`, the division
/// truncating and the final multiplication saturating at 2^256 - 1, so an
/// extreme but valid configuration reads as an unbounded ceiling.
pub open spec fn spec_position_valid(
    params: CDP,
    collateral_price: u128,
    collateral_amount: u128,
    debt_price: u128,
    debt_amount: u128,
) -> bool {
    debt_price * debt_amount < mul_saturated(
        (collateral_price * collateral_amount) / (params.max_collateralization_rate.1 as int),
        params.max_collateralization_rate.0 as int,
    )
}

/// Decide the solvency rule for one position, carrying both products at
/// full 256-bit width so no overflow can distort the comparison.
pub fn is_position_valid(
    params: &CDP,
    collateral_price: u128,
    collateral_amount: u128,
    debt_price: u128,
    debt_amount: u128,
) -> (r: bool)
    requires
        params.max_collateralization_rate.1 != 0,
    ensures
        r == spec_position_valid(
            *params,
            collateral_price,
            collateral_amount,
            debt_price,
            debt_amount,
        ),
{
    let collateral_value = wide_mul(collateral_price, collateral_amount);
    let debt_value = wide_mul(debt_price, debt_amount);
    let quotient = wide_div(
        collateral_value.0,
        collateral_value.1,
        params.max_collateralization_rate.1,
    );
    let ceiling = wide_mul_saturating(quotient.0, quotient.1, params.max_collateralization_rate.0);
    wide_lt(debt_value.0, debt_value.1, ceiling.0, ceiling.1)
}

/// When the ceiling multiplication overflows 256 bits and saturates, the
/// solvency rule accepts every position: a debt value is the product of
/// two 128-bit quantities and so always lies strictly below the saturated
/// ceiling — the ceiling is then effectively unbounded.
pub proof fn lemma_saturated_ceiling_accepts(
    params: CDP,
    collateral_price: u128,
    collateral_amount: u128,
    debt_price: u128,
    debt_amount: u128,
)
    requires
        ((collateral_price * collateral_amount) / (params.max_collateralization_rate.1 as int))
            * params.max_collateralization_rate.0 > crate::wide::u256_max(),
    ensures
        spec_position_valid(
            params,
            collateral_price,
            collateral_amount,
            debt_price,
            debt_amount,
        ),
{
    crate::wide::lemma_mul_u128_lt_u256_max(debt_price, debt_amount);
}

/// Total debt recorded across all positions.
pub open spec fn debt_total(s: Seq<((u64, u64), (u128, u128))>) -> int
    decreases s.len(),
{
    if s.len() == 0 {
        0
    } else {
        debt_total(s.drop_last()) + s.last().1.1
    }
}

/// Collateral and debt recorded for `(who, cid)`; a missing entry reads as
/// the closed position `(0, 0)`.
pub open spec fn totals_of(s: Seq<((u64, u64), (u128, u128))>, who: u64, cid: u64) -> (
    u128,
    u128,
) {
    match kv_find(s, (who, cid)) {
        Some(p) => p,
        None => (0, 0),
    }
}

/// The total debt is never negative.
proof fn lemma_debt_total_nonneg(s: Seq<((u64, u64), (u128, u128))>)
    ensures
        0 <= debt_total(s),
    decreases s.len(),
{
    if s.len() > 0 {
        lemma_debt_total_nonneg(s.drop_last());
    }
}

/// Under distinct keys, one position's debt never exceeds the total debt.
proof fn lemma_debt_le_total(s: Seq<((u64, u64), (u128, u128))>, who: u64, cid: u64)
    requires
        kv_unique(s),
    ensures
        totals_of(s, who, cid).1 <= debt_total(s),
    decreases s.len(),
{
    lemma_debt_total_nonneg(s);
    if s.len() > 0 {
        assert forall|a: int, b: int| 0 <= a < b < s.drop_last().len() implies s.drop_last()[a].0
            != s.drop_last()[b].0 by {
            assert(s.drop_last()[a] == s[a] && s.drop_last()[b] == s[b]);
        }
        lemma_debt_le_total(s.drop_last(), who, cid);
        lemma_debt_total_nonneg(s.drop_last());
    }
}

/// Replacing the position at index `i` (same key) moves the total debt by
/// the difference of the debt components.
proof fn lemma_debt_total_update(s: Seq<((u64, u64), (u128, u128))>, i: int, p: (u128, u128))
    requires
        0 <= i < s.len(),
    ensures
        debt_total(s.update(i, (s[i].0, p))) == debt_total(s) - s[i].1.1 + p.1,
    decreases s.len(),
{
    let t = s.update(i, (s[i].0, p));
    if i == s.len() - 1 {
        assert(t.last() == (s[i].0, p));
        assert(t.drop_last() =~= s.drop_last());
    } else {
        assert(t.last() == s.last());
        assert(t.drop_last() =~= s.drop_last().update(i, (s.drop_last()[i].0, p)));
        assert(s.drop_last()[i] == s[i]);
        lemma_debt_total_update(s.drop_last(), i, p);
    }
}

/// Appending a position adds its debt component to the total debt.
proof fn lemma_debt_total_push(s: Seq<((u64, u64), (u128, u128))>, e: ((u64, u64), (u128, u128)))
    ensures
        debt_total(s.push(e)) == debt_total(s) + e.1.1,
{
    assert(s.push(e).last() == e);
    assert(s.push(e).drop_last() =~= s);
}

/// Scan for the position entry of `(who, cid)`.
fn position_index(v: &Vec<((u64, u64), (u128, u128))>, who: u64, cid: u64) -> (r: Option<usize>)
    ensures
        match r {
            Some(i) => i < v@.len() && v@[i as int].0 == (who, cid),
            None => forall|j: int| 0 <= j < v@.len() ==> v@[j].0 != (who, cid),
        },
{
    let mut i: usize = 0;
    while i < v.len()
        invariant
            i <= v@.len(),
            forall|j: int| 0 <= j < i ==> v@[j].0 != (who, cid),
        decreases v@.len() - i,
    {
        if v[i].0.0 == who && v[i].0.1 == cid {
            return Some(i);
        }
        i += 1;
    }
    None
}

/// Read the stored position of `(who, cid)`, if any.
fn read_position(v: &Vec<((u64, u64), (u128, u128))>, who: u64, cid: u64) -> (r: Option<
    (u128, u128),
>)
    requires
        kv_unique(v@),
    ensures
        r == kv_find(v@, (who, cid)),
{
    match position_index(v, who, cid) {
        Some(i) => {
            proof {
                lemma_kv_find_at(v@, i as int);
            }
            Some(v[i].1)
        },
        None => {
            proof {
                lemma_kv_find_absent(v@, (who, cid));
            }
            None
        },
    }
}

/// Store `(collateral, debt)` as the position of `(who, cid)`, inserting an
/// entry if none exists.  Every other position is unchanged, the total debt
/// moves by the debt difference, existing keys keep their positions, and at
/// most one entry, keyed `(who, cid)`, is appended.
fn set_position(v: &mut Vec<((u64, u64), (u128, u128))>, who: u64, cid: u64, p: (u128, u128))
    requires
        kv_unique(old(v)@),
    ensures
        kv_unique(final(v)@),
        totals_of(final(v)@, who, cid) == p,
        forall|who2: u64, cid2: u64|
            !(who2 == who && cid2 == cid) ==> totals_of(final(v)@, who2, cid2) == totals_of(
                old(v)@,
                who2,
                cid2,
            ),
        debt_total(final(v)@) == debt_total(old(v)@) - totals_of(old(v)@, who, cid).1 + p.1,
        old(v)@.len() <= final(v)@.len() <= old(v)@.len() + 1,
        forall|j: int| 0 <= j < old(v)@.len() ==> final(v)@[j].0 == old(v)@[j].0,
        final(v)@.len() == old(v)@.len() + 1 ==> final(v)@[old(v)@.len() as int].0 == (who, cid),
{
    let ghost s = v@;
    match position_index(v, who, cid) {
        Some(i) => {
            proof {
                lemma_kv_find_at(s, i as int);
            }
            let elem = &mut v[i];
            *elem = ((who, cid), p);
            proof {
                assert(v@ == s.update(i as int, ((who, cid), p)));
                lemma_kv_find_update(s, i as int, ((who, cid), p), (who, cid));
                assert forall|who2: u64, cid2: u64| !(who2 == who && cid2 == cid) implies totals_of(
                    v@,
                    who2,
                    cid2,
                ) == totals_of(s, who2, cid2) by {
                    lemma_kv_find_update(s, i as int, ((who, cid), p), (who2, cid2));
                }
                lemma_debt_total_update(s, i as int, p);
            }
        },
        None => {
            proof {
                lemma_kv_find_absent(s, (who, cid));
            }
            v.push(((who, cid), p));
            proof {
                assert(v@ == s.push(((who, cid), p)));
                lemma_kv_unique_push(s, ((who, cid), p));
                lemma_kv_find_push(s, ((who, cid), p), (who, cid));
                assert forall|who2: u64, cid2: u64| !(who2 == who && cid2 == cid) implies totals_of(
                    v@,
                    who2,
                    cid2,
                ) == totals_of(s, who2, cid2) by {
                    lemma_kv_find_push(s, ((who, cid), p), (who2, cid2));
                }
                lemma_debt_total_push(s, ((who, cid), p));
            }
        },
    }
}

/// The vault engine.  It owns the position table, the registered risk
/// parameters, and the circulating-supply counter of the debt asset; the
/// asset ledger it moves balances through is passed into each operation by
/// the host.
#[derive(Clone, Debug, PartialEq, Eq)]
pub struct VaultEngine {
    /// Internal account holding deposited collateral in custody.  Not a
    /// caller identity: the host never authenticates calls as this account.
    pub vault_account: u64,
    /// Internal sink account receiving the non-fee remainder of liquidated
    /// collateral.  Not a caller identity either.
    pub insurance_account: u64,
    /// Risk parameters per collateral asset, written once at registration.
    pub params: Vec<(u64, CDP)>,
    /// Positions keyed by (account, collateral asset).
    pub vaults: Vec<((u64, u64), (u128, u128))>,
    /// Outstanding debt issued through `generate` and not yet extinguished:
    /// always the sum of the debt components of all positions.
    pub circulating: u128,
}

impl VaultEngine {
    /// Registered risk parameters of collateral asset `id`, if any.
    pub open spec fn params_of(self, id: u64) -> Option<CDP> {
        kv_find(self.params@, id)
    }

    /// Stored position of `(who, cid)`, if any.
    pub open spec fn vault_entry(self, who: u64, cid: u64) -> Option<(u128, u128)> {
        kv_find(self.vaults@, (who, cid))
    }

    /// Collateral and debt of `(who, cid)`; a missing entry reads as the
    /// closed position `(0, 0)`.
    pub open spec fn vault_totals(self, who: u64, cid: u64) -> (u128, u128) {
        totals_of(self.vaults@, who, cid)
    }

    /// Well-formedness: distinct keys, validated parameters registered
    /// only for non-reserved asset identifiers, every open position's
    /// collateral registered, distinct internal accounts, and the
    /// circulating supply equal to the total recorded debt.
    pub open spec fn wf(self) -> bool {
        &&& self.vault_account != self.insurance_account
        &&& kv_unique(self.params@)
        &&& kv_unique(self.vaults@)
        &&& forall|i: int|
            0 <= i < self.params@.len() ==> (#[trigger] self.params@[i]).1.valid()
                && self.params@[i].0 != 0 && self.params@[i].0 != DEBT_ASSET
        &&& forall|i: int|
            0 <= i < self.vaults@.len() ==> kv_find(
                self.params@,
                (#[trigger] self.vaults@[i]).0.1,
            ) is Some
        &&& self.circulating as int == debt_total(self.vaults@)
    }

    /// An empty engine around the two internal accounts.
    pub fn new(vault_account: u64, insurance_account: u64) -> (r: VaultEngine)
        requires
            vault_account != insurance_account,
        ensures
            r.wf(),
            r.vault_account == vault_account,
            r.insurance_account == insurance_account,
            r.circulating == 0,
            forall|id: u64| r.params_of(id) == None::<CDP>,
            forall|who: u64, cid: u64| r.vault_entry(who, cid) == None::<(u128, u128)>,
            forall|who: u64, cid: u64| r.vault_totals(who, cid) == (0u128, 0u128),
    {
        VaultEngine {
            vault_account,
            insurance_account,
            params: Vec::new(),
            vaults: Vec::new(),
            circulating: 0,
        }
    }

    /// Stored position of `(account, collateral_id)`, if any.
    pub fn vault(&self, account: u64, collateral_id: u64) -> (r: Option<(u128, u128)>)
        requires
            self.wf(),
        ensures
            r == self.vault_entry(account, collateral_id),
    {
        read_position(&self.vaults, account, collateral_id)
    }

    /// Registered risk parameters of `collateral_id`, if any.
    pub fn position(&self, collateral_id: u64) -> (r: Option<CDP>)
        requires
            self.wf(),
        ensures
            r == self.params_of(collateral_id),
    {
        read_params(&self.params, collateral_id)
    }

    /// Outstanding debt issued through this engine.
    pub fn circulating_supply(&self) -> (r: u128)
        ensures
            r == self.circulating,
    {
        self.circulating
    }

    /// Record the risk parameters of a collateral asset.  This is the
    /// governance path: its inputs are validated configuration, so a zero
    /// denominator, a fee above one, a reserved asset identifier, or a
    /// second registration for the same asset are excluded by precondition
    /// rather than handled at call time.
    pub fn register_collateral(&mut self, collateral_id: u64, cdp: CDP)
        requires
            old(self).wf(),
            cdp.valid(),
            collateral_id != 0 && collateral_id != DEBT_ASSET,
            old(self).params_of(collateral_id) is None,
        ensures
            final(self).wf(),
            final(self).params_of(collateral_id) == Some(cdp),
            forall|id2: u64|
                id2 != collateral_id ==> final(self).params_of(id2) == old(self).params_of(id2),
            final(self).vaults@ == old(self).vaults@,
            final(self).circulating == old(self).circulating,
            final(self).vault_account == old(self).vault_account,
            final(self).insurance_account == old(self).insurance_account,
    {
        let ghost s = self.params@;
        proof {
            lemma_kv_absent_of_find(s, collateral_id);
            lemma_kv_unique_push(s, (collateral_id, cdp));
        }
        self.params.push((collateral_id, cdp));
        proof {
            assert forall|id2: u64| #[trigger]
                kv_find(self.params@, id2) == if id2 == collateral_id {
                    Some(cdp)
                } else {
                    kv_find(s, id2)
                } by {
                lemma_kv_find_push(s, (collateral_id, cdp), id2);
            }
            assert forall|i: int| 0 <= i < self.params@.len() implies (
            #[trigger] self.params@[i]).1.valid() && self.params@[i].0 != 0 && self.params@[i].0
                != DEBT_ASSET by {
                if i < s.len() {
                    assert(self.params@[i] == s[i]);
                } else {
                    assert(self.params@[i] == (collateral_id, cdp));
                }
            }
            assert forall|i: int| 0 <= i < self.vaults@.len() implies kv_find(
                self.params@,
                (#[trigger] self.vaults@[i]).0.1,
            ) is Some by {
                assert(kv_find(s, self.vaults@[i].0.1) is Some);
            }
        }
    }
}

/// What a successful `generate` call leaves behind: the caller's position
/// grown by the new collateral and debt, collateral moved into the vault
/// account's custody, freshly minted debt credited to the caller with the
/// debt asset's total supply and the circulating supply raised in lockstep,
/// and everything else untouched.
pub open spec fn generate_applied(
    pre: VaultEngine,
    post: VaultEngine,
    lpre: AssetLedger,
    lpost: AssetLedger,
    caller: u64,
    request_amount: u128,
    collateral_id: u64,
    collateral_amount: u128,
) -> bool {
    let pos = pre.vault_totals(caller, collateral_id);
    &&& (
        post.vault_totals(caller, collateral_id).0 as int,
        post.vault_totals(caller, collateral_id).1 as int,
    ) == position_after(
        (pos.0 as int, pos.1 as int),
        collateral_amount as int,
        request_amount as int,
    )
    &&& forall|who2: u64, cid2: u64|
        !(who2 == caller && cid2 == collateral_id) ==> post.vault_totals(who2, cid2)
            == pre.vault_totals(who2, cid2)
    &&& post.params@ == pre.params@
    &&& post.circulating == pre.circulating + request_amount
    &&& post.vault_account == pre.vault_account
    &&& post.insurance_account == pre.insurance_account
    &&& lpost.balance_of(collateral_id, caller) == lpre.balance_of(collateral_id, caller)
        - collateral_amount
    &&& lpost.balance_of(collateral_id, pre.vault_account) == lpre.balance_of(
        collateral_id,
        pre.vault_account,
    ) + collateral_amount
    &&& lpost.balance_of(DEBT_ASSET, caller) == lpre.balance_of(DEBT_ASSET, caller)
        + request_amount
    &&& forall|id2: u64, who2: u64|
        !((id2 == collateral_id && (who2 == caller || who2 == pre.vault_account)) || (id2
            == DEBT_ASSET && who2 == caller)) ==> lpost.balance_of(id2, who2) == lpre.balance_of(
            id2,
            who2,
        )
    &&& lpost.supply(DEBT_ASSET) == lpre.supply(DEBT_ASSET) + request_amount
    &&& forall|id2: u64| id2 != DEBT_ASSET ==> lpost.supply(id2) == lpre.supply(id2)
    &&& lpost.creators@ == lpre.creators@
    &&& lpost.next_id == lpre.next_id
}

impl VaultEngine {
    /// Which result `generate` returns, decided over the state before the
    /// call: the parameter lookup, then price availability, then the
    /// cumulative totals fitting the balance width, then the solvency
    /// check on those cumulative totals, then the zero-amount checks, then
    /// the caller's collateral balance, then the supply headroom for the
    /// newly issued debt.
    pub open spec fn generate_outcome(
        self,
        ledger: AssetLedger,
        caller: u64,
        request_amount: u128,
        collateral_id: u64,
        collateral_amount: u128,
        collateral_price: Option<u128>,
        debt_price: Option<u128>,
    ) -> Result<Event, Error> {
        let pos = self.vault_totals(caller, collateral_id);
        match (self.params_of(collateral_id), collateral_price, debt_price) {
            (None, _, _) => Err(Error::CollateralNotSupported),
            (_, None, _) => Err(Error::OracleFailed),
            (_, _, None) => Err(Error::OracleFailed),
            (Some(p), Some(cp), Some(dp)) => if pos.0 + collateral_amount > u128::MAX || pos.1
                + request_amount > u128::MAX {
                Err(Error::Overflow)
            } else if !spec_position_valid(
                p,
                cp,
                (pos.0 + collateral_amount) as u128,
                dp,
                (pos.1 + request_amount) as u128,
            ) {
                Err(Error::InvalidCDP)
            } else if collateral_amount == 0 || request_amount == 0 {
                Err(Error::AmountZero)
            } else if ledger.balance_of(collateral_id, caller) < collateral_amount {
                Err(Error::BalanceLow)
            } else if ledger.supply(DEBT_ASSET) + request_amount > u128::MAX || self.circulating
                + request_amount > u128::MAX {
                Err(Error::Overflow)
            } else {
                Ok(
                    Event::UpdateVault(
                        caller,
                        collateral_id,
                        (pos.0 + collateral_amount) as u128,
                        request_amount,
                    ),
                )
            },
        }
    }

    /// Open or grow the caller's position on `collateral_id`: check
    /// solvency of the cumulative totals against fresh prices, then move
    /// the collateral into custody, mint the requested debt to the caller,
    /// and store the grown position.  The call is atomic: on any error
    /// neither the engine nor the ledger changes.
    pub fn generate(
        &mut self,
        ledger: &mut AssetLedger,
        caller: u64,
        request_amount: u128,
        collateral_id: u64,
        collateral_amount: u128,
        collateral_price: Option<u128>,
        debt_price: Option<u128>,
    ) -> (r: Result<Event, Error>)
        requires
            old(self).wf(),
            old(ledger).wf(),
            old(ledger).asset_in_range(DEBT_ASSET),
            caller != old(self).vault_account,
        ensures
            final(self).wf(),
            final(ledger).wf(),
            r == old(self).generate_outcome(
                *old(ledger),
                caller,
                request_amount,
                collateral_id,
                collateral_amount,
                collateral_price,
                debt_price,
            ),
            r is Err ==> *final(self) == *old(self) && *final(ledger) == *old(ledger),
            r is Ok ==> generate_applied(
                *old(self),
                *final(self),
                *old(ledger),
                *final(ledger),
                caller,
                request_amount,
                collateral_id,
                collateral_amount,
            ),
            r is Ok ==> r == Ok::<Event, Error>(
                Event::UpdateVault(
                    caller,
                    collateral_id,
                    final(self).vault_totals(caller, collateral_id).0,
                    request_amount,
                ),
            ),
    {
        let p = match read_params(&self.params, collateral_id) {
            Some(p) => p,
            None => {
                return Err(Error::CollateralNotSupported);
            },
        };
        let cp = match collateral_price {
            Some(v) => v,
            None => {
                return Err(Error::OracleFailed);
            },
        };
        let dp = match debt_price {
            Some(v) => v,
            None => {
                return Err(Error::OracleFailed);
            },
        };
        let pos = match read_position(&self.vaults, caller, collateral_id) {
            Some(x) => x,
            None => (0, 0),
        };
        if collateral_amount > u128::MAX - pos.0 || request_amount > u128::MAX - pos.1 {
            return Err(Error::Overflow);
        }
        let ct = pos.0 + collateral_amount;
        let dt = pos.1 + request_amount;
        proof {
            lemma_kv_find_some_index(self.params@, collateral_id);
            let w = choose|w: int|
                0 <= w < self.params@.len() && #[trigger] self.params@[w].0 == collateral_id;
            lemma_kv_find_at(self.params@, w);
            assert(p == self.params@[w].1 && p.valid());
            assert(collateral_id != 0 && collateral_id != DEBT_ASSET);
        }
        if !is_position_valid(&p, cp, ct, dp, dt) {
            return Err(Error::InvalidCDP);
        }
        if collateral_amount == 0 || request_amount == 0 {
            return Err(Error::AmountZero);
        }
        let bal = ledger.balance(collateral_id, caller);
        if bal < collateral_amount {
            return Err(Error::BalanceLow);
        }
        let dsup = ledger.total_supply(DEBT_ASSET);
        if dsup > u128::MAX - request_amount || self.circulating > u128::MAX - request_amount {
            return Err(Error::Overflow);
        }
        let ghost vpre = *old(self);
        let ghost lpre = *old(ledger);
        match ledger.transfer(caller, collateral_id, self.vault_account, collateral_amount) {
            Ok(_) => {},
            Err(e) => {
                return Err(e);
            },
        }
        let ghost lmid = *ledger;
        match ledger.mint_from_system(DEBT_ASSET, caller, request_amount) {
            Ok(_) => {},
            Err(e) => {
                return Err(e);
            },
        }
        set_position(&mut self.vaults, caller, collateral_id, (ct, dt));
        self.circulating = self.circulating + request_amount;
        proof {
            assert forall|i: int| 0 <= i < self.vaults@.len() implies kv_find(
                self.params@,
                (#[trigger] self.vaults@[i]).0.1,
            ) is Some by {
                if i < vpre.vaults@.len() {
                    assert(self.vaults@[i].0 == vpre.vaults@[i].0);
                    assert(kv_find(vpre.params@, vpre.vaults@[i].0.1) is Some);
                } else {
                    assert(self.vaults@[i].0 == (caller, collateral_id));
                }
            }
            assert(final(ledger).balance_of(collateral_id, caller) == lpre.balance_of(
                collateral_id,
                caller,
            ) - collateral_amount);
            assert forall|id2: u64, who2: u64|
                !((id2 == collateral_id && (who2 == caller || who2 == vpre.vault_account)) || (id2
                    == DEBT_ASSET && who2 == caller)) implies final(ledger).balance_of(id2, who2)
                == lpre.balance_of(id2, who2) by {
                assert(lmid.balance_of(id2, who2) == lpre.balance_of(id2, who2));
            }
        }
        Ok(Event::UpdateVault(caller, collateral_id, ct, request_amount))
    }
}

/// The liquidator's cut of a liquidated position's collateral, computed
/// from the registered liquidation fee share with truncating division.
pub open spec fn fee_of(p: CDP, collateral: u128) -> int {
    (collateral * p.liquidation_fee.0) / (p.liquidation_fee.1 as int)
}

/// What a successful `liquidate` call leaves behind: the position zeroed,
/// its collateral paid out of custody as fee to the liquidator and
/// remainder to the insurance sink, the position's debt burned from the
/// liquidator with the debt asset's total supply and the circulating
/// supply lowered in lockstep, and everything else untouched.
pub open spec fn liquidate_applied(
    pre: VaultEngine,
    post: VaultEngine,
    lpre: AssetLedger,
    lpost: AssetLedger,
    caller: u64,
    account: u64,
    collateral_id: u64,
) -> bool {
    let pos = pre.vault_totals(account, collateral_id);
    match pre.params_of(collateral_id) {
        None => false,
        Some(p) => {
            let fee = fee_of(p, pos.0);
            let remainder = pos.0 - fee;
            &&& post.vault_totals(account, collateral_id) == (0u128, 0u128)
            &&& forall|who2: u64, cid2: u64|
                !(who2 == account && cid2 == collateral_id) ==> post.vault_totals(who2, cid2)
                    == pre.vault_totals(who2, cid2)
            &&& post.params@ == pre.params@
            &&& post.circulating == pre.circulating - pos.1
            &&& post.vault_account == pre.vault_account
            &&& post.insurance_account == pre.insurance_account
            &&& lpost.balance_of(collateral_id, pre.vault_account) == lpre.balance_of(
                collateral_id,
                pre.vault_account,
            ) - pos.0
            &&& lpost.balance_of(collateral_id, caller) == lpre.balance_of(collateral_id, caller)
                + fee
            &&& lpost.balance_of(collateral_id, pre.insurance_account) == lpre.balance_of(
                collateral_id,
                pre.insurance_account,
            ) + remainder
            &&& lpost.balance_of(DEBT_ASSET, caller) == lpre.balance_of(DEBT_ASSET, caller)
                - pos.1
            &&& forall|id2: u64, who2: u64|
                !((id2 == collateral_id && (who2 == caller || who2 == pre.vault_account || who2
                    == pre.insurance_account)) || (id2 == DEBT_ASSET && who2 == caller))
                    ==> lpost.balance_of(id2, who2) == lpre.balance_of(id2, who2)
            &&& lpost.supply(DEBT_ASSET) == lpre.supply(DEBT_ASSET) - pos.1
            &&& forall|id2: u64| id2 != DEBT_ASSET ==> lpost.supply(id2) == lpre.supply(id2)
            &&& lpost.creators@ == lpre.creators@
            &&& lpost.next_id == lpre.next_id
        },
    }
}

impl VaultEngine {
    /// Which result `liquidate` returns, decided over the state before the
    /// call: the position must exist and be open, prices must be
    /// available, the position must fail the solvency check on its stored
    /// totals at current prices, the liquidator must hold enough of the
    /// debt asset to repay the position's debt, and the custody account
    /// must cover the stored collateral.
    pub open spec fn liquidate_outcome(
        self,
        ledger: AssetLedger,
        caller: u64,
        account: u64,
        collateral_id: u64,
        collateral_price: Option<u128>,
        debt_price: Option<u128>,
    ) -> Result<Event, Error> {
        match self.vault_entry(account, collateral_id) {
            None => Err(Error::Unavailable),
            Some(pos) => if pos.0 == 0 {
                Err(Error::Unavailable)
            } else {
                match (self.params_of(collateral_id), collateral_price, debt_price) {
                    (None, _, _) => Err(Error::CollateralNotSupported),
                    (_, None, _) => Err(Error::OracleFailed),
                    (_, _, None) => Err(Error::OracleFailed),
                    (Some(p), Some(cp), Some(dp)) => if spec_position_valid(
                        p,
                        cp,
                        pos.0,
                        dp,
                        pos.1,
                    ) {
                        Err(Error::Unavailable)
                    } else if pos.1 > 0 && ledger.balance_of(DEBT_ASSET, caller) < pos.1 {
                        Err(Error::BalanceLow)
                    } else if ledger.balance_of(collateral_id, self.vault_account) < pos.0 {
                        Err(Error::Unavailable)
                    } else {
                        Ok(Event::Liquidate(collateral_id, pos.0))
                    },
                }
            },
        }
    }

    /// Unwind the under-collateralized position of `(account,
    /// collateral_id)`: the caller, as liquidator, repays the position's
    /// debt, which is burned, and receives the liquidation-fee share of
    /// the collateral, the remainder going to the insurance sink.  That
    /// the liquidator funds the repayment, and that the fee is cut before
    /// the remainder moves to the sink, is this engine's liquidation
    /// policy.  The call is atomic: on any error neither the engine nor
    /// the ledger changes.
    pub fn liquidate(
        &mut self,
        ledger: &mut AssetLedger,
        caller: u64,
        account: u64,
        collateral_id: u64,
        collateral_price: Option<u128>,
        debt_price: Option<u128>,
    ) -> (r: Result<Event, Error>)
        requires
            old(self).wf(),
            old(ledger).wf(),
            caller != old(self).vault_account,
            caller != old(self).insurance_account,
        ensures
            final(self).wf(),
            final(ledger).wf(),
            r == old(self).liquidate_outcome(
                *old(ledger),
                caller,
                account,
                collateral_id,
                collateral_price,
                debt_price,
            ),
            r is Err ==> *final(self) == *old(self) && *final(ledger) == *old(ledger),
            r is Ok ==> liquidate_applied(
                *old(self),
                *final(self),
                *old(ledger),
                *final(ledger),
                caller,
                account,
                collateral_id,
            ),
    {
        let pos = match read_position(&self.vaults, account, collateral_id) {
            Some(x) => x,
            None => {
                return Err(Error::Unavailable);
            },
        };
        if pos.0 == 0 {
            return Err(Error::Unavailable);
        }
        let p = match read_params(&self.params, collateral_id) {
            Some(p) => p,
            None => {
                return Err(Error::CollateralNotSupported);
            },
        };
        let cp = match collateral_price {
            Some(v) => v,
            None => {
                return Err(Error::OracleFailed);
            },
        };
        let dp = match debt_price {
            Some(v) => v,
            None => {
                return Err(Error::OracleFailed);
            },
        };
        proof {
            lemma_kv_find_some_index(self.params@, collateral_id);
            let w = choose|w: int|
                0 <= w < self.params@.len() && #[trigger] self.params@[w].0 == collateral_id;
            lemma_kv_find_at(self.params@, w);
            assert(p == self.params@[w].1 && p.valid());
            assert(collateral_id != 0 && collateral_id != DEBT_ASSET);
        }
        if is_position_valid(&p, cp, pos.0, dp, pos.1) {
            return Err(Error::Unavailable);
        }
        let dbal = ledger.balance(DEBT_ASSET, caller);
        if pos.1 > 0 && dbal < pos.1 {
            return Err(Error::BalanceLow);
        }
        let vbal = ledger.balance(collateral_id, self.vault_account);
        if vbal < pos.0 {
            return Err(Error::Unavailable);
        }
        let prod = wide_mul(pos.0, p.liquidation_fee.0);
        let quot = wide_div(prod.0, prod.1, p.liquidation_fee.1);
        proof {
            lemma_mul_inequality(
                p.liquidation_fee.0 as int,
                p.liquidation_fee.1 as int,
                pos.0 as int,
            );
            lemma_div_is_ordered(
                pos.0 * p.liquidation_fee.0,
                pos.0 * p.liquidation_fee.1,
                p.liquidation_fee.1 as int,
            );
            lemma_div_by_multiple(pos.0 as int, p.liquidation_fee.1 as int);
            assert(wide(quot.0, quot.1) <= pos.0);
            assert(quot.0 == 0);
        }
        let fee = quot.1;
        let remainder = pos.0 - fee;
        let ghost vpre = *old(self);
        let ghost lpre = *old(ledger);
        if fee > 0 {
            match ledger.transfer(self.vault_account, collateral_id, caller, fee) {
                Ok(_) => {},
                Err(e) => {
                    return Err(e);
                },
            }
        }
        let ghost lmid1 = *ledger;
        proof {
            assert(lmid1.balance_of(collateral_id, vpre.vault_account) == lpre.balance_of(
                collateral_id,
                vpre.vault_account,
            ) - fee);
            assert(lmid1.balance_of(collateral_id, caller) == lpre.balance_of(
                collateral_id,
                caller,
            ) + fee);
        }
        if remainder > 0 {
            match ledger.transfer(
                self.vault_account,
                collateral_id,
                self.insurance_account,
                remainder,
            ) {
                Ok(_) => {},
                Err(e) => {
                    return Err(e);
                },
            }
        }
        let ghost lmid2 = *ledger;
        proof {
            assert(lmid2.balance_of(collateral_id, vpre.vault_account) == lpre.balance_of(
                collateral_id,
                vpre.vault_account,
            ) - pos.0);
            assert(lmid2.balance_of(collateral_id, vpre.insurance_account) == lpre.balance_of(
                collateral_id,
                vpre.insurance_account,
            ) + remainder);
            assert(lmid2.balance_of(DEBT_ASSET, caller) == lpre.balance_of(DEBT_ASSET, caller));
        }
        if pos.1 > 0 {
            match ledger.burn(caller, DEBT_ASSET, pos.1) {
                Ok(_) => {},
                Err(e) => {
                    return Err(e);
                },
            }
        }
        proof {
            lemma_debt_le_total(self.vaults@, account, collateral_id);
        }
        set_position(&mut self.vaults, account, collateral_id, (0, 0));
        self.circulating = self.circulating - pos.1;
        proof {
            assert forall|i: int| 0 <= i < self.vaults@.len() implies kv_find(
                self.params@,
                (#[trigger] self.vaults@[i]).0.1,
            ) is Some by {
                if i < vpre.vaults@.len() {
                    assert(self.vaults@[i].0 == vpre.vaults@[i].0);
                    assert(kv_find(vpre.params@, vpre.vaults@[i].0.1) is Some);
                } else {
                    assert(self.vaults@[i].0 == (account, collateral_id));
                }
            }
            assert forall|id2: u64, who2: u64|
                !((id2 == collateral_id && (who2 == caller || who2 == vpre.vault_account || who2
                    == vpre.insurance_account)) || (id2 == DEBT_ASSET && who2 == caller)) implies
                final(ledger).balance_of(id2, who2) == lpre.balance_of(id2, who2) by {
                assert(lmid1.balance_of(id2, who2) == lpre.balance_of(id2, who2));
                assert(lmid2.balance_of(id2, who2) == lmid1.balance_of(id2, who2));
            }
        }
        Ok(Event::Liquidate(collateral_id, pos.0))
    }
}

/// Growing a position twice accumulates: the collateral and debt totals are
/// the sums of what was added, independently of the split between calls.
pub open spec fn position_after(pos: (int, int), collateral_amount: int, request_amount: int) -> (
    int,
    int,
) {
    (pos.0 + collateral_amount, pos.1 + request_amount)
}

/// Cumulative vaults: two successive position growths from the same
/// starting position produce exactly the position a single growth by the
/// summed collateral and debt amounts would produce.
pub proof fn lemma_generate_cumulative(pos: (int, int), c1: int, r1: int, c2: int, r2: int)
    ensures
        position_after(position_after(pos, c1, r1), c2, r2) == position_after(
            pos,
            c1 + c2,
            r1 + r2,
        ),
{
}

/// Read the registered risk parameters of collateral asset `id`, if any.
fn read_params(v: &Vec<(u64, CDP)>, id: u64) -> (r: Option<CDP>)
    requires
        kv_unique(v@),
    ensures
        r == kv_find(v@, id),
{
    let mut i: usize = 0;
    while i < v.len()
        invariant
            i <= v@.len(),
            forall|j: int| 0 <= j < i ==> v@[j].0 != id,
            kv_unique(v@),
        decreases v@.len() - i,
    {
        if v[i].0 == id {
            proof {
                lemma_kv_find_at(v@, i as int);
            }
            return Some(v[i].1);
        }
        i += 1;
    }
    proof {
        lemma_kv_find_absent(v@, id);
    }
    None
}

} // verus!
