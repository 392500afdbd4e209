//! The fungible-asset ledger: per-asset total supply, per-asset creator, and
//! per-(asset, account) balances, with the conservation invariant that for
//! every asset the balances sum to the recorded total supply.
//!
//! Accounts and asset identifiers are plain `u64` values supplied by the
//! host, which authenticates callers; balances are `u128`.  Asset identifier
//! `0` is reserved for the native asset and is never allocated.  An absent
//! balance entry and a present zero entry are indistinguishable to every
//! query.

use crate::kv::{
    kv_find, kv_unique, lemma_kv_absent_of_find, lemma_kv_find_absent, lemma_kv_find_at,
    lemma_kv_find_push, lemma_kv_find_some_index, lemma_kv_find_update, lemma_kv_unique_push,
};
use crate::Error;
use vstd::prelude::*;

verus! {

/// Sum of the balances recorded for asset `id`.
pub open spec fn sum_asset(s: Seq<((u64, u64), u128)>, id: u64) -> int
    decreases s.len(),
{
    if s.len() == 0 {
        0
    } else {
        sum_asset(s.drop_last(), id) + if s.last().0.0 == id {
            s.last().1 as int
        } else {
            0
        }
    }
}

/// Balance of `who` for asset `id`: the stored value, or zero when no entry
/// exists.
pub open spec fn bal_of(s: Seq<((u64, u64), u128)>, id: u64, who: u64) -> u128 {
    match kv_find(s, (id, who)) {
        Some(v) => v,
        None => 0,
    }
}

/// A per-asset sum is never negative.
proof fn lemma_sum_asset_nonneg(s: Seq<((u64, u64), u128)>, id: u64)
    ensures
        0 <= sum_asset(s, id),
    decreases s.len(),
{
    if s.len() > 0 {
        lemma_sum_asset_nonneg(s.drop_last(), id);
    }
}

/// An asset with no entries has sum zero.
proof fn lemma_sum_asset_absent(s: Seq<((u64, u64), u128)>, id: u64)
    requires
        forall|i: int| 0 <= i < s.len() ==> s[i].0.0 != id,
    ensures
        sum_asset(s, id) == 0,
    decreases s.len(),
{
    if s.len() > 0 {
        assert(s.last().0.0 != id);
        assert forall|i: int| 0 <= i < s.drop_last().len() implies s.drop_last()[i].0.0 != id by {
            assert(s.drop_last()[i] == s[i]);
        }
        lemma_sum_asset_absent(s.drop_last(), id);
    }
}

/// Replacing the value at index `i` (same key) moves the sum of that key's
/// asset by the difference, and no other asset's sum.
proof fn lemma_sum_asset_update(s: Seq<((u64, u64), u128)>, i: int, v: u128, id: u64)
    requires
        0 <= i < s.len(),
    ensures
        sum_asset(s.update(i, (s[i].0, v)), id) == sum_asset(s, id) + if s[i].0.0 == id {
            v - s[i].1
        } else {
            0
        },
    decreases s.len(),
{
    let t = s.update(i, (s[i].0, v));
    if i == s.len() - 1 {
        assert(t.last() == (s[i].0, v));
        assert(t.drop_last() =~= s.drop_last());
    } else {
        assert(t.last() == s.last());
        assert(t.drop_last() =~= s.drop_last().update(i, (s.drop_last()[i].0, v)));
        assert(s.drop_last()[i] == s[i]);
        lemma_sum_asset_update(s.drop_last(), i, v, id);
    }
}

/// Appending an entry adds its value to the sum of its asset, and to no
/// other asset's sum.
proof fn lemma_sum_asset_push(s: Seq<((u64, u64), u128)>, e: ((u64, u64), u128), id: u64)
    ensures
        sum_asset(s.push(e), id) == sum_asset(s, id) + if e.0.0 == id {
            e.1 as int
        } else {
            0
        },
{
    assert(s.push(e).last() == e);
    assert(s.push(e).drop_last() =~= s);
}

/// Under distinct keys, a single balance never exceeds its asset's sum.
proof fn lemma_bal_le_sum(s: Seq<((u64, u64), u128)>, id: u64, who: u64)
    requires
        kv_unique(s),
    ensures
        bal_of(s, id, who) <= sum_asset(s, id),
    decreases s.len(),
{
    lemma_sum_asset_nonneg(s, id);
    if s.len() > 0 {
        assert forall|a: int, b: int| 0 <= a < b < s.drop_last().len() implies s.drop_last()[a].0
            != s.drop_last()[b].0 by {
            assert(s.drop_last()[a] == s[a] && s.drop_last()[b] == s[b]);
        }
        lemma_bal_le_sum(s.drop_last(), id, who);
        lemma_sum_asset_nonneg(s.drop_last(), id);
    }
}

/// Scan for the entry of `(id, who)`; `None` means no entry carries the key.
fn balance_index(v: &Vec<((u64, u64), u128)>, id: u64, who: u64) -> (r: Option<usize>)
    ensures
        match r {
            Some(i) => i < v@.len() && v@[i as int].0 == (id, who),
            None => forall|j: int| 0 <= j < v@.len() ==> v@[j].0 != (id, who),
        },
{
    let mut i: usize = 0;
    while i < v.len()
        invariant
            i <= v@.len(),
            forall|j: int| 0 <= j < i ==> v@[j].0 != (id, who),
        decreases v@.len() - i,
    {
        if v[i].0.0 == id && v[i].0.1 == who {
            return Some(i);
        }
        i += 1;
    }
    None
}

/// Read the balance of `(id, who)` from the entry sequence.
fn read_balance(v: &Vec<((u64, u64), u128)>, id: u64, who: u64) -> (r: u128)
    requires
        kv_unique(v@),
    ensures
        r == bal_of(v@, id, who),
{
    match balance_index(v, id, who) {
        Some(i) => {
            proof {
                lemma_kv_find_at(v@, i as int);
            }
            v[i].1
        },
        None => {
            proof {
                lemma_kv_find_absent(v@, (id, who));
            }
            0
        },
    }
}

/// Set the balance of `(id, who)` to `val`, inserting an entry if none
/// exists.  Every other balance, and every other asset's sum, is unchanged;
/// existing keys keep their positions, and at most one entry, keyed
/// `(id, who)`, is appended.
fn set_balance(v: &mut Vec<((u64, u64), u128)>, id: u64, who: u64, val: u128)
    requires
        kv_unique(old(v)@),
    ensures
        kv_unique(final(v)@),
        bal_of(final(v)@, id, who) == val,
        forall|id2: u64, who2: u64|
            !(id2 == id && who2 == who) ==> bal_of(final(v)@, id2, who2) == bal_of(
                old(v)@,
                id2,
                who2,
            ),
        forall|id2: u64|
            sum_asset(final(v)@, id2) == sum_asset(old(v)@, id2) + if id2 == id {
                val - bal_of(old(v)@, id, who)
            } else {
                0
            },
        old(v)@.len() <= final(v)@.len() <= old(v)@.len() + 1,
        forall|j: int| 0 <= j < old(v)@.len() ==> final(v)@[j].0 == old(v)@[j].0,
        final(v)@.len() == old(v)@.len() + 1 ==> final(v)@[old(v)@.len() as int].0 == (id, who),
{
    let ghost s = v@;
    match balance_index(v, id, who) {
        Some(i) => {
            proof {
                lemma_kv_find_at(s, i as int);
            }
            let elem = &mut v[i];
            *elem = ((id, who), val);
            proof {
                assert(v@ == s.update(i as int, ((id, who), val)));
                assert forall|id2: u64, who2: u64| !(id2 == id && who2 == who) implies bal_of(
                    v@,
                    id2,
                    who2,
                ) == bal_of(s, id2, who2) by {
                    lemma_kv_find_update(s, i as int, ((id, who), val), (id2, who2));
                }
                lemma_kv_find_update(s, i as int, ((id, who), val), (id, who));
                assert forall|id2: u64|
                    sum_asset(v@, id2) == sum_asset(s, id2) + (if id2 == id {
                        val - bal_of(s, id, who)
                    } else {
                        0int
                    }) by {
                    lemma_sum_asset_update(s, i as int, val, id2);
                }
            }
        },
        None => {
            proof {
                lemma_kv_find_absent(s, (id, who));
            }
            v.push(((id, who), val));
            proof {
                assert(v@ == s.push(((id, who), val)));
                lemma_kv_unique_push(s, ((id, who), val));
                lemma_kv_find_push(s, ((id, who), val), (id, who));
                assert forall|id2: u64, who2: u64| !(id2 == id && who2 == who) implies bal_of(
                    v@,
                    id2,
                    who2,
                ) == bal_of(s, id2, who2) by {
                    lemma_kv_find_push(s, ((id, who), val), (id2, who2));
                }
                assert forall|id2: u64|
                    sum_asset(v@, id2) == sum_asset(s, id2) + (if id2 == id {
                        val - bal_of(s, id, who)
                    } else {
                        0int
                    }) by {
                    lemma_sum_asset_push(s, ((id, who), val), id2);
                }
            }
        },
    }
}

/// Scan for the creator entry of asset `id`.
fn creator_index(v: &Vec<(u64, u64)>, id: u64) -> (r: Option<usize>)
    ensures
        match r {
            Some(i) => i < v@.len() && v@[i as int].0 == id,
            None => forall|j: int| 0 <= j < v@.len() ==> v@[j].0 != id,
        },
{
    let mut i: usize = 0;
    while i < v.len()
        invariant
            i <= v@.len(),
            forall|j: int| 0 <= j < i ==> v@[j].0 != id,
        decreases v@.len() - i,
    {
        if v[i].0 == id {
            return Some(i);
        }
        i += 1;
    }
    None
}

/// Read the recorded creator of asset `id`, if any.
fn read_creator(v: &Vec<(u64, u64)>, id: u64) -> (r: Option<u64>)
    requires
        kv_unique(v@),
    ensures
        r == kv_find(v@, id),
{
    match creator_index(v, id) {
        Some(i) => {
            proof {
                lemma_kv_find_at(v@, i as int);
            }
            Some(v[i].1)
        },
        None => {
            proof {
                lemma_kv_find_absent(v@, id);
            }
            None
        },
    }
}

/// Scan for the supply entry of asset `id`.
fn supply_index(v: &Vec<(u64, u128)>, id: u64) -> (r: Option<usize>)
    ensures
        match r {
            Some(i) => i < v@.len() && v@[i as int].0 == id,
            None => forall|j: int| 0 <= j < v@.len() ==> v@[j].0 != id,
        },
{
    let mut i: usize = 0;
    while i < v.len()
        invariant
            i <= v@.len(),
            forall|j: int| 0 <= j < i ==> v@[j].0 != id,
        decreases v@.len() - i,
    {
        if v[i].0 == id {
            return Some(i);
        }
        i += 1;
    }
    None
}

/// Total supply recorded for asset `id`, or zero when no entry exists.
pub open spec fn supply_in(s: Seq<(u64, u128)>, id: u64) -> u128 {
    match kv_find(s, id) {
        Some(v) => v,
        None => 0,
    }
}

/// Read the total supply of asset `id` from the entry sequence.
fn read_supply(v: &Vec<(u64, u128)>, id: u64) -> (r: u128)
    requires
        kv_unique(v@),
    ensures
        r == supply_in(v@, id),
{
    match supply_index(v, id) {
        Some(i) => {
            proof {
                lemma_kv_find_at(v@, i as int);
            }
            v[i].1
        },
        None => {
            proof {
                lemma_kv_find_absent(v@, id);
            }
            0
        },
    }
}

/// Set the total supply of asset `id` to `val`, inserting an entry if none
/// exists.  Every other asset's supply is unchanged; existing keys keep
/// their positions, and at most one entry, keyed `id`, is appended.
fn set_supply(v: &mut Vec<(u64, u128)>, id: u64, val: u128)
    requires
        kv_unique(old(v)@),
    ensures
        kv_unique(final(v)@),
        supply_in(final(v)@, id) == val,
        forall|id2: u64| id2 != id ==> supply_in(final(v)@, id2) == supply_in(old(v)@, id2),
        old(v)@.len() <= final(v)@.len() <= old(v)@.len() + 1,
        forall|j: int| 0 <= j < old(v)@.len() ==> final(v)@[j].0 == old(v)@[j].0,
        final(v)@.len() == old(v)@.len() + 1 ==> final(v)@[old(v)@.len() as int].0 == id,
{
    let ghost s = v@;
    match supply_index(v, id) {
        Some(i) => {
            proof {
                lemma_kv_find_at(s, i as int);
            }
            let elem = &mut v[i];
            *elem = (id, val);
            proof {
                assert(v@ == s.update(i as int, (id, val)));
                lemma_kv_find_update(s, i as int, (id, val), id);
                assert forall|id2: u64| id2 != id implies supply_in(v@, id2) == supply_in(
                    s,
                    id2,
                ) by {
                    lemma_kv_find_update(s, i as int, (id, val), id2);
                }
            }
        },
        None => {
            proof {
                lemma_kv_find_absent(s, id);
            }
            v.push((id, val));
            proof {
                assert(v@ == s.push((id, val)));
                lemma_kv_unique_push(s, (id, val));
                lemma_kv_find_push(s, (id, val), id);
                assert forall|id2: u64| id2 != id implies supply_in(v@, id2) == supply_in(
                    s,
                    id2,
                ) by {
                    lemma_kv_find_push(s, (id, val), id2);
                }
            }
        },
    }
}

/// The asset ledger.  Keyed state is held in association vectors with
/// pairwise-distinct keys; `wf` additionally carries the conservation
/// invariant relating balances to total supplies, and bounds every recorded
/// asset identifier by the allocation counter.
#[derive(Clone, Debug, PartialEq, Eq)]
pub struct AssetLedger {
    /// Next asset identifier to allocate; starts at 1, so the reserved
    /// native identifier 0 is never handed out.
    pub next_id: u64,
    /// Total supply per asset.
    pub supplies: Vec<(u64, u128)>,
    /// Issuing account per asset; immutable once recorded.
    pub creators: Vec<(u64, u64)>,
    /// Balance per (asset, account).
    pub balances: Vec<((u64, u64), u128)>,
}

impl AssetLedger {
    /// Balance of `who` for asset `id`; absent entries read as zero.
    pub open spec fn balance_of(self, id: u64, who: u64) -> u128 {
        bal_of(self.balances@, id, who)
    }

    /// Total supply of asset `id`; absent entries read as zero.
    pub open spec fn supply(self, id: u64) -> u128 {
        supply_in(self.supplies@, id)
    }

    /// The account that issued asset `id`, if any.
    pub open spec fn creator(self, id: u64) -> Option<u64> {
        kv_find(self.creators@, id)
    }

    /// Ledger conservation: for every asset, the balances sum to the
    /// recorded total supply.
    pub open spec fn conserved(self) -> bool {
        forall|id: u64| sum_asset(self.balances@, id) == #[trigger] self.supply(id) as int
    }

    /// Every recorded asset identifier is nonzero and was allocated.
    pub open spec fn ids_bounded(self) -> bool {
        &&& forall|i: int|
            0 <= i < self.balances@.len() ==> (#[trigger] self.balances@[i]).0.0 != 0
                && self.balances@[i].0.0 < self.next_id
        &&& forall|i: int|
            0 <= i < self.supplies@.len() ==> (#[trigger] self.supplies@[i]).0 != 0
                && self.supplies@[i].0 < self.next_id
        &&& forall|i: int|
            0 <= i < self.creators@.len() ==> (#[trigger] self.creators@[i]).0 != 0
                && self.creators@[i].0 < self.next_id
    }

    /// Well-formedness: distinct keys, a live allocation counter, bounded
    /// identifiers, and conservation.
    pub open spec fn wf(self) -> bool {
        &&& kv_unique(self.balances@)
        &&& kv_unique(self.supplies@)
        &&& kv_unique(self.creators@)
        &&& 1 <= self.next_id
        &&& self.ids_bounded()
        &&& self.conserved()
    }

    /// Asset `id` is not the reserved native identifier and has been
    /// allocated.
    pub open spec fn asset_in_range(self, id: u64) -> bool {
        id != 0 && id < self.next_id
    }

    /// Outcome of `mint`: the creator check, then the zero-amount check,
    /// then the supply-overflow check.
    pub open spec fn mint_outcome(self, caller: u64, id: u64, amount: u128) -> Result<(), Error> {
        if self.creator(id) != Some(caller) {
            Err(Error::NotTheCreator)
        } else if amount == 0 {
            Err(Error::AmountZero)
        } else if self.supply(id) + amount > u128::MAX {
            Err(Error::Overflow)
        } else {
            Ok(())
        }
    }

    /// Outcome of `burn`: the zero-amount check, then the balance check.
    pub open spec fn burn_outcome(self, caller: u64, id: u64, amount: u128) -> Result<(), Error> {
        if amount == 0 {
            Err(Error::AmountZero)
        } else if self.balance_of(id, caller) < amount {
            Err(Error::BalanceLow)
        } else {
            Ok(())
        }
    }

    /// Outcome of `transfer`: the zero-amount check, then the balance check.
    pub open spec fn transfer_outcome(self, caller: u64, id: u64, amount: u128) -> Result<
        (),
        Error,
    > {
        if amount == 0 {
            Err(Error::AmountZero)
        } else if self.balance_of(id, caller) < amount {
            Err(Error::BalanceLow)
        } else {
            Ok(())
        }
    }

    /// Outcome of `destroy`: fails only on an already-zero balance.
    pub open spec fn destroy_outcome(self, caller: u64, id: u64) -> Result<u128, Error> {
        if self.balance_of(id, caller) == 0 {
            Err(Error::BalanceZero)
        } else {
            Ok(self.balance_of(id, caller))
        }
    }

    /// Outcome of `mint_from_system`: the zero-amount check, then the
    /// supply-overflow check.
    pub open spec fn system_mint_outcome(self, id: u64, amount: u128) -> Result<(), Error> {
        if amount == 0 {
            Err(Error::AmountZero)
        } else if self.supply(id) + amount > u128::MAX {
            Err(Error::Overflow)
        } else {
            Ok(())
        }
    }

    /// An empty ledger: no assets, no balances, counter at 1.
    pub fn new() -> (r: AssetLedger)
        ensures
            r.wf(),
            r.next_id == 1,
            forall|id: u64, who: u64| r.balance_of(id, who) == 0,
            forall|id: u64| r.supply(id) == 0,
            forall|id: u64| r.creator(id) == None::<u64>,
    {
        AssetLedger { next_id: 1, supplies: Vec::new(), creators: Vec::new(), balances: Vec::new() }
    }

    /// Balance query; treats absent and present-zero entries identically.
    pub fn balance(&self, id: u64, who: u64) -> (r: u128)
        requires
            self.wf(),
        ensures
            r == self.balance_of(id, who),
    {
        read_balance(&self.balances, id, who)
    }

    /// Total-supply query.
    pub fn total_supply(&self, id: u64) -> (r: u128)
        requires
            self.wf(),
        ensures
            r == self.supply(id),
    {
        read_supply(&self.supplies, id)
    }
}

impl AssetLedger {
    /// Allocate a fresh asset identifier, credit the whole supply `total` to
    /// `creator`, and record `creator` as the asset's issuer.  The counter
    /// is monotone and never hands out the reserved identifier 0; counter
    /// exhaustion is excluded by precondition, being unreachable in practice
    /// at 64-bit width.
    pub fn issue(&mut self, creator: u64, total: u128) -> (id: u64)
        requires
            old(self).wf(),
            old(self).next_id < u64::MAX,
        ensures
            final(self).wf(),
            id == old(self).next_id && id != 0,
            final(self).next_id == old(self).next_id + 1,
            final(self).balance_of(id, creator) == total,
            final(self).supply(id) == total,
            final(self).creator(id) == Some(creator),
            forall|who: u64| who != creator ==> final(self).balance_of(id, who) == 0,
            balances_unchanged_except(*old(self), *final(self), id, creator),
            supplies_unchanged_except(*old(self), *final(self), id),
            forall|id2: u64| id2 != id ==> final(self).creator(id2) == old(self).creator(id2),
    {
        let id = self.next_id;
        self.next_id = id + 1;
        let ghost pre = *old(self);
        proof {
            assert forall|i: int| 0 <= i < pre.balances@.len() implies pre.balances@[i].0 != (
                id,
                creator,
            ) by {
                assert(pre.balances@[i].0.0 < id);
            }
            lemma_kv_find_absent(pre.balances@, (id, creator));
            lemma_sum_asset_absent(pre.balances@, id);
            assert forall|i: int| 0 <= i < pre.supplies@.len() implies pre.supplies@[i].0 != id by {}
            lemma_kv_find_absent(pre.supplies@, id);
        }
        set_balance(&mut self.balances, id, creator, total);
        set_supply(&mut self.supplies, id, total);
        proof {
            lemma_kv_unique_push(pre.creators@, (id, creator));
        }
        self.creators.push((id, creator));
        proof {
            assert forall|id2: u64| #[trigger]
                kv_find(self.creators@, id2) == if id2 == id {
                    Some(creator)
                } else {
                    kv_find(pre.creators@, id2)
                } by {
                lemma_kv_find_push(pre.creators@, (id, creator), id2);
            }
            assert forall|id2: u64|
                sum_asset(self.balances@, id2) == #[trigger] self.supply(id2) as int by {
                assert(sum_asset(pre.balances@, id2) == pre.supply(id2) as int);
                if id2 != id {
                    assert(self.supply(id2) == pre.supply(id2));
                }
            }
            assert forall|i: int| 0 <= i < self.balances@.len() implies (
            #[trigger] self.balances@[i]).0.0 != 0 && self.balances@[i].0.0 < self.next_id by {
                if i < pre.balances@.len() {
                    assert(self.balances@[i].0 == pre.balances@[i].0);
                } else {
                    assert(self.balances@[i].0 == (id, creator));
                }
            }
            assert forall|i: int| 0 <= i < self.supplies@.len() implies (
            #[trigger] self.supplies@[i]).0 != 0 && self.supplies@[i].0 < self.next_id by {
                if i < pre.supplies@.len() {
                    assert(self.supplies@[i].0 == pre.supplies@[i].0);
                } else {
                    assert(self.supplies@[i].0 == id);
                }
            }
            assert forall|i: int| 0 <= i < self.creators@.len() implies (
            #[trigger] self.creators@[i]).0 != 0 && self.creators@[i].0 < self.next_id by {
                if i < pre.creators@.len() {
                    assert(self.creators@[i] == pre.creators@[i]);
                } else {
                    assert(self.creators@[i] == (id, creator));
                }
            }
            assert forall|who: u64| who != creator implies final(self).balance_of(id, who)
                == 0 by {
                assert forall|i: int| 0 <= i < pre.balances@.len() implies pre.balances@[i].0 != (
                    id,
                    who,
                ) by {
                    assert(pre.balances@[i].0.0 < id);
                }
                lemma_kv_find_absent(pre.balances@, (id, who));
            }
        }
        id
    }

    /// Credit `amount` of asset `id` to `target` and raise the total supply
    /// in lockstep.  Only the asset's creator may mint.
    pub fn mint(&mut self, caller: u64, id: u64, target: u64, amount: u128) -> (r: Result<
        (),
        Error,
    >)
        requires
            old(self).wf(),
        ensures
            final(self).wf(),
            r == old(self).mint_outcome(caller, id, amount),
            r is Err ==> *final(self) == *old(self),
            r is Ok ==> {
                &&& final(self).balance_of(id, target) == old(self).balance_of(id, target)
                    + amount
                &&& final(self).supply(id) == old(self).supply(id) + amount
                &&& balances_unchanged_except(*old(self), *final(self), id, target)
                &&& supplies_unchanged_except(*old(self), *final(self), id)
                &&& final(self).creators@ == old(self).creators@
                &&& final(self).next_id == old(self).next_id
            },
    {
        let creator = read_creator(&self.creators, id);
        let authorized = match creator {
            Some(c) => c == caller,
            None => false,
        };
        if !authorized {
            return Err(Error::NotTheCreator);
        }
        if amount == 0 {
            return Err(Error::AmountZero);
        }
        let sup = read_supply(&self.supplies, id);
        if sup > u128::MAX - amount {
            return Err(Error::Overflow);
        }
        let bal = read_balance(&self.balances, id, target);
        let ghost pre = *old(self);
        proof {
            lemma_bal_le_sum(pre.balances@, id, target);
            assert(sum_asset(pre.balances@, id) == pre.supply(id) as int);
            lemma_kv_find_some_index(pre.creators@, id);
        }
        set_balance(&mut self.balances, id, target, bal + amount);
        set_supply(&mut self.supplies, id, sup + amount);
        proof {
            self.lemma_wf_after_set(pre, id, target);
        }
        Ok(())
    }

    /// Debit `amount` of asset `id` from `caller` and lower the total
    /// supply in lockstep; fails rather than letting a balance underflow.
    pub fn burn(&mut self, caller: u64, id: u64, amount: u128) -> (r: Result<(), Error>)
        requires
            old(self).wf(),
        ensures
            final(self).wf(),
            r == old(self).burn_outcome(caller, id, amount),
            r is Err ==> *final(self) == *old(self),
            r is Ok ==> {
                &&& final(self).balance_of(id, caller) == old(self).balance_of(id, caller)
                    - amount
                &&& final(self).supply(id) == old(self).supply(id) - amount
                &&& balances_unchanged_except(*old(self), *final(self), id, caller)
                &&& supplies_unchanged_except(*old(self), *final(self), id)
                &&& final(self).creators@ == old(self).creators@
                &&& final(self).next_id == old(self).next_id
            },
    {
        if amount == 0 {
            return Err(Error::AmountZero);
        }
        let bal = read_balance(&self.balances, id, caller);
        if bal < amount {
            return Err(Error::BalanceLow);
        }
        let sup = read_supply(&self.supplies, id);
        let ghost pre = *old(self);
        proof {
            lemma_bal_le_sum(pre.balances@, id, caller);
            assert(sum_asset(pre.balances@, id) == pre.supply(id) as int);
            lemma_kv_find_some_index(pre.balances@, (id, caller));
        }
        set_balance(&mut self.balances, id, caller, bal - amount);
        set_supply(&mut self.supplies, id, sup - amount);
        proof {
            self.lemma_wf_after_set(pre, id, caller);
        }
        Ok(())
    }

    /// Move `amount` of asset `id` from `caller` to `target`; the total
    /// supply is untouched, and a self-transfer is a no-op on every balance.
    pub fn transfer(&mut self, caller: u64, id: u64, target: u64, amount: u128) -> (r: Result<
        (),
        Error,
    >)
        requires
            old(self).wf(),
        ensures
            final(self).wf(),
            r == old(self).transfer_outcome(caller, id, amount),
            r is Err ==> *final(self) == *old(self),
            r is Ok && caller == target ==> *final(self) == *old(self),
            r is Ok && caller != target ==> {
                &&& final(self).balance_of(id, caller) == old(self).balance_of(id, caller)
                    - amount
                &&& final(self).balance_of(id, target) == old(self).balance_of(id, target)
                    + amount
                &&& balances_unchanged_except2(*old(self), *final(self), id, caller, target)
                &&& final(self).supplies@ == old(self).supplies@
                &&& final(self).creators@ == old(self).creators@
                &&& final(self).next_id == old(self).next_id
            },
    {
        if amount == 0 {
            return Err(Error::AmountZero);
        }
        let bal_c = read_balance(&self.balances, id, caller);
        if bal_c < amount {
            return Err(Error::BalanceLow);
        }
        if caller == target {
            return Ok(());
        }
        let bal_t = read_balance(&self.balances, id, target);
        let ghost pre = *old(self);
        proof {
            lemma_kv_find_some_index(pre.balances@, (id, caller));
            assert(sum_asset(pre.balances@, id) == pre.supply(id) as int);
        }
        set_balance(&mut self.balances, id, caller, bal_c - amount);
        proof {
            lemma_bal_le_sum(self.balances@, id, target);
        }
        let ghost mid = self.balances@;
        set_balance(&mut self.balances, id, target, bal_t + amount);
        proof {
            assert forall|id2: u64|
                sum_asset(self.balances@, id2) == #[trigger] self.supply(id2) as int by {
                assert(sum_asset(pre.balances@, id2) == pre.supply(id2) as int);
            }
            assert forall|i: int| 0 <= i < self.balances@.len() implies (
            #[trigger] self.balances@[i]).0.0 != 0 && self.balances@[i].0.0 < self.next_id by {
                if i < mid.len() {
                    assert(self.balances@[i].0 == mid[i].0);
                    if i < pre.balances@.len() {
                        assert(mid[i].0 == pre.balances@[i].0);
                    } else {
                        assert(mid[i].0 == (id, caller));
                        lemma_kv_find_some_index(pre.balances@, (id, caller));
                        let w = choose|w: int|
                            0 <= w < pre.balances@.len() && #[trigger] pre.balances@[w].0 == (
                            id,
                            caller,
                            );
                        assert(pre.balances@[w].0.0 == id);
                    }
                } else {
                    assert(self.balances@[i].0 == (id, target));
                    let w = choose|w: int|
                        0 <= w < pre.balances@.len() && #[trigger] pre.balances@[w].0 == (
                        id,
                        caller,
                        );
                    assert(pre.balances@[w].0.0 == id);
                }
            }
        }
        Ok(())
    }

    /// Remove `caller`'s entire holding of asset `id`, lowering the total
    /// supply by the removed amount; the balance afterwards reads as zero.
    pub fn destroy(&mut self, caller: u64, id: u64) -> (r: Result<u128, Error>)
        requires
            old(self).wf(),
        ensures
            final(self).wf(),
            r == old(self).destroy_outcome(caller, id),
            r is Err ==> *final(self) == *old(self),
            r is Ok ==> {
                &&& r == Ok::<u128, Error>(old(self).balance_of(id, caller))
                &&& final(self).balance_of(id, caller) == 0
                &&& final(self).supply(id) == old(self).supply(id) - old(self).balance_of(
                    id,
                    caller,
                )
                &&& balances_unchanged_except(*old(self), *final(self), id, caller)
                &&& supplies_unchanged_except(*old(self), *final(self), id)
                &&& final(self).creators@ == old(self).creators@
                &&& final(self).next_id == old(self).next_id
            },
    {
        let bal = read_balance(&self.balances, id, caller);
        if bal == 0 {
            return Err(Error::BalanceZero);
        }
        let sup = read_supply(&self.supplies, id);
        let ghost pre = *old(self);
        proof {
            lemma_bal_le_sum(pre.balances@, id, caller);
            assert(sum_asset(pre.balances@, id) == pre.supply(id) as int);
            lemma_kv_find_some_index(pre.balances@, (id, caller));
        }
        set_balance(&mut self.balances, id, caller, 0);
        set_supply(&mut self.supplies, id, sup - bal);
        proof {
            self.lemma_wf_after_set(pre, id, caller);
        }
        Ok(bal)
    }

    /// Credit `amount` of asset `id` to `target` and raise the total supply
    /// in lockstep, without a creator check: the system path the vault
    /// engine uses to put newly issued debt into circulation.
    pub fn mint_from_system(&mut self, id: u64, target: u64, amount: u128) -> (r: Result<
        (),
        Error,
    >)
        requires
            old(self).wf(),
            old(self).asset_in_range(id),
        ensures
            final(self).wf(),
            r == old(self).system_mint_outcome(id, amount),
            r is Err ==> *final(self) == *old(self),
            r is Ok ==> {
                &&& final(self).balance_of(id, target) == old(self).balance_of(id, target)
                    + amount
                &&& final(self).supply(id) == old(self).supply(id) + amount
                &&& balances_unchanged_except(*old(self), *final(self), id, target)
                &&& supplies_unchanged_except(*old(self), *final(self), id)
                &&& final(self).creators@ == old(self).creators@
                &&& final(self).next_id == old(self).next_id
            },
    {
        if amount == 0 {
            return Err(Error::AmountZero);
        }
        let sup = read_supply(&self.supplies, id);
        if sup > u128::MAX - amount {
            return Err(Error::Overflow);
        }
        let bal = read_balance(&self.balances, id, target);
        let ghost pre = *old(self);
        proof {
            lemma_bal_le_sum(pre.balances@, id, target);
            assert(sum_asset(pre.balances@, id) == pre.supply(id) as int);
        }
        set_balance(&mut self.balances, id, target, bal + amount);
        set_supply(&mut self.supplies, id, sup + amount);
        proof {
            self.lemma_wf_after_set(pre, id, target);
        }
        Ok(())
    }

    /// After one `set_balance` and one `set_supply` on the same asset, of
    /// amounts that kept the asset's sum equal to its supply, the ledger is
    /// well-formed again, provided the touched asset identifier is in range.
    proof fn lemma_wf_after_set(self, pre: AssetLedger, id: u64, who: u64)
        requires
            pre.wf(),
            self.next_id == pre.next_id,
            self.creators@ == pre.creators@,
            kv_unique(self.balances@),
            kv_unique(self.supplies@),
            pre.asset_in_range(id),
            sum_asset(self.balances@, id) == self.supply(id) as int,
            forall|id2: u64|
                id2 != id ==> sum_asset(self.balances@, id2) == sum_asset(pre.balances@, id2),
            forall|id2: u64| id2 != id ==> self.supply(id2) == pre.supply(id2),
            pre.balances@.len() <= self.balances@.len() <= pre.balances@.len() + 1,
            forall|j: int| 0 <= j < pre.balances@.len() ==> self.balances@[j].0 == pre.balances@[j].0,
            self.balances@.len() == pre.balances@.len() + 1 ==> self.balances@[pre.balances@.len() as int].0
                == (id, who),
            pre.supplies@.len() <= self.supplies@.len() <= pre.supplies@.len() + 1,
            forall|j: int| 0 <= j < pre.supplies@.len() ==> self.supplies@[j].0 == pre.supplies@[j].0,
            self.supplies@.len() == pre.supplies@.len() + 1 ==> self.supplies@[pre.supplies@.len() as int].0
                == id,
        ensures
            self.wf(),
    {
        assert forall|id2: u64|
            sum_asset(self.balances@, id2) == #[trigger] self.supply(id2) as int by {
            assert(sum_asset(pre.balances@, id2) == pre.supply(id2) as int);
        }
        assert forall|i: int| 0 <= i < self.balances@.len() implies (
        #[trigger] self.balances@[i]).0.0 != 0 && self.balances@[i].0.0 < self.next_id by {
            if i < pre.balances@.len() {
                assert(self.balances@[i].0 == pre.balances@[i].0);
            } else {
                assert(self.balances@[i].0 == (id, who));
            }
        }
        assert forall|i: int| 0 <= i < self.supplies@.len() implies (
        #[trigger] self.supplies@[i]).0 != 0 && self.supplies@[i].0 < self.next_id by {
            if i < pre.supplies@.len() {
                assert(self.supplies@[i].0 == pre.supplies@[i].0);
            } else {
                assert(self.supplies@[i].0 == id);
            }
        }
    }
}

/// Ledger conservation, seen from one account: in a well-formed ledger the
/// balances of an asset sum to its recorded total supply, so no single
/// balance can exceed that supply.
pub proof fn lemma_balance_bounded_by_supply(ledger: AssetLedger, id: u64, who: u64)
    requires
        ledger.wf(),
    ensures
        ledger.balance_of(id, who) <= ledger.supply(id),
{
    lemma_bal_le_sum(ledger.balances@, id, who);
    assert(sum_asset(ledger.balances@, id) == ledger.supply(id) as int);
}

/// All balances other than `(id, who)` agree between `pre` and `post`.
pub open spec fn balances_unchanged_except(
    pre: AssetLedger,
    post: AssetLedger,
    id: u64,
    who: u64,
) -> bool {
    forall|id2: u64, who2: u64|
        !(id2 == id && who2 == who) ==> post.balance_of(id2, who2) == pre.balance_of(id2, who2)
}

/// All balances other than `(id, who_a)` and `(id, who_b)` agree between
/// `pre` and `post`.
pub open spec fn balances_unchanged_except2(
    pre: AssetLedger,
    post: AssetLedger,
    id: u64,
    who_a: u64,
    who_b: u64,
) -> bool {
    forall|id2: u64, who2: u64|
        !(id2 == id && (who2 == who_a || who2 == who_b)) ==> post.balance_of(id2, who2)
            == pre.balance_of(id2, who2)
}

/// All supplies other than asset `id` agree between `pre` and `post`.
pub open spec fn supplies_unchanged_except(pre: AssetLedger, post: AssetLedger, id: u64) -> bool {
    forall|id2: u64| id2 != id ==> post.supply(id2) == pre.supply(id2)
}

} // verus!
