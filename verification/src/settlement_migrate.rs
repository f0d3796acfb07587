//! Storage-layout migration of the settlement ledger: single-token (V1)
//! developer balances are merged into the per-token (V2) balances in the
//! configured USDC token, one developer-index slot at a time.

use vstd::prelude::*;
use std::collections::HashMap;
use crate::errors::SettlementError;
use crate::settlement::{
    Address, CalloraSettlement, SettlementFailure, balance_key, covered, err, indexed,
    lemma_covered_grown, lemma_covered_insert, lemma_indexed_grows, sorted_insert, MAX_BATCH_SIZE,
    STORAGE_VERSION_V1, STORAGE_VERSION_V2,
};

verus! {

/// Balances in both layouts: (per-token, single-token).
pub type Ledgers = (Map<u128, i128>, Map<u64, i128>);

/// Merge the single-token balance of `addr`, if any, into its balance in
/// `usdc` and drop the single-token slot; `None` when the sum overflows.
pub open spec fn migrate_slot(l: Ledgers, addr: Address, usdc: Address) -> Option<Ledgers> {
    if l.1.contains_key(addr) {
        let key = balance_key(addr, usdc);
        let cur: int = if l.0.contains_key(key) {
            l.0[key] as int
        } else {
            0
        };
        let sum = l.1[addr] + cur;
        if sum > i128::MAX || sum < i128::MIN {
            None
        } else {
            Some((l.0.insert(key, sum as i128), l.1.remove(addr)))
        }
    } else {
        Some(l)
    }
}

/// Migrate the slots of `addrs` in turn; `None` when a merge overflows.
pub open spec fn migrate_slots(l: Ledgers, addrs: Seq<Address>, usdc: Address) -> Option<Ledgers>
    decreases addrs.len(),
{
    if addrs.len() == 0 {
        Some(l)
    } else {
        match migrate_slots(l, addrs.drop_last(), usdc) {
            None => None,
            Some(m) => migrate_slot(m, addrs.last(), usdc),
        }
    }
}

/// Both layouts hold no negative balance.
pub open spec fn ledgers_nonneg(l: Ledgers) -> bool {
    &&& forall|k: u128| #[trigger] l.0.contains_key(k) ==> l.0[k] >= 0
    &&& forall|a: u64| #[trigger] l.1.contains_key(a) ==> l.1[a] >= 0
}

/// Migrating slots keeps every balance non-negative.
proof fn lemma_migrate_slots_nonneg(l: Ledgers, addrs: Seq<Address>, usdc: Address)
    requires
        ledgers_nonneg(l),
    ensures
        forall|m: Ledgers| migrate_slots(l, addrs, usdc) == Some(m) ==> #[trigger] ledgers_nonneg(m),
    decreases addrs.len(),
{
    if addrs.len() > 0 {
        lemma_migrate_slots_nonneg(l, addrs.drop_last(), usdc);
        match migrate_slots(l, addrs.drop_last(), usdc) {
            None => {},
            Some(p) => {
                assert(ledgers_nonneg(p));
                lemma_migrate_slot_nonneg(p, addrs.last(), usdc);
            },
        }
    }
}

/// Migrating one slot keeps every balance non-negative.
proof fn lemma_migrate_slot_nonneg(l: Ledgers, addr: Address, usdc: Address)
    requires
        ledgers_nonneg(l),
    ensures
        forall|m: Ledgers| migrate_slot(l, addr, usdc) == Some(m) ==> #[trigger] ledgers_nonneg(m),
{
    if l.1.contains_key(addr) {
        let key = balance_key(addr, usdc);
        let cur: int = if l.0.contains_key(key) {
            l.0[key] as int
        } else {
            0
        };
        let sum = l.1[addr] + cur;
        if sum <= i128::MAX {
            let m = (l.0.insert(key, sum as i128), l.1.remove(addr));
            assert(forall|k: u128| #[trigger] m.0.contains_key(k) ==> m.0[k] >= 0);
            assert(forall|a: u64| #[trigger] m.1.contains_key(a) ==> m.1[a] >= 0);
            assert(ledgers_nonneg(m));
        }
    }
}

/// Merging the slot of a listed developer keeps every balance holder
/// listed.
proof fn lemma_migrate_slot_covered(l: Ledgers, addr: Address, usdc: Address, index: Seq<Address>)
    requires
        covered(l.0, index),
        index.contains(addr),
    ensures
        migrate_slot(l, addr, usdc) matches Some(m) ==> covered(m.0, index),
{
    if l.1.contains_key(addr) {
        let key = balance_key(addr, usdc);
        let cur: int = if l.0.contains_key(key) {
            l.0[key] as int
        } else {
            0
        };
        let sum = l.1[addr] + cur;
        if sum <= i128::MAX && sum >= i128::MIN {
            lemma_covered_insert(l.0, index, index, addr, usdc, sum as i128);
        }
    }
}

/// Once a prefix of the merges overflows, the whole run does.
proof fn lemma_migrate_slots_none_extends(
    l: Ledgers,
    addrs: Seq<Address>,
    usdc: Address,
    k: int,
)
    requires
        0 <= k <= addrs.len(),
        migrate_slots(l, addrs.subrange(0, k), usdc) is None,
    ensures
        migrate_slots(l, addrs, usdc) is None,
    decreases addrs.len() - k,
{
    if k < addrs.len() {
        assert(addrs.subrange(0, k + 1).drop_last() =~= addrs.subrange(0, k));
        lemma_migrate_slots_none_extends(l, addrs, usdc, k + 1);
    } else {
        assert(addrs.subrange(0, k) =~= addrs);
    }
}

/// Merge the single-token balance of `addr`, if any, into its balance in
/// `usdc` and drop the single-token slot; on an overflowing sum nothing
/// changes and `Err` comes back.
fn migrate_developer_slot(
    balances: &mut HashMap<u128, i128>,
    legacy: &mut HashMap<u64, i128>,
    addr: Address,
    usdc: Address,
) -> (r: Result<(), ()>)
    ensures
        match migrate_slot((old(balances)@, old(legacy)@), addr, usdc) {
            Some(m) => r is Ok && (final(balances)@, final(legacy)@) == m,
            None => r is Err && final(balances)@ == old(balances)@ && final(legacy)@ == old(legacy)@,
        },
{
    match legacy.get(&addr) {
        Some(v1) => {
            let v1 = *v1;
            let key = crate::settlement::ledger_key(addr, usdc);
            let existing = match balances.get(&key) {
                Some(b) => *b,
                None => 0,
            };
            match v1.checked_add(existing) {
                Some(merged) => {
                    balances.insert(key, merged);
                    legacy.remove(&addr);
                    Ok(())
                },
                None => Err(()),
            }
        },
        None => Ok(()),
    }
}

impl CalloraSettlement {
    /// The storage-layout version (V1 until a migration completes).
    pub open spec fn layout_version(&self) -> u32 {
        match self.storage_version {
            Some(v) => v,
            None => STORAGE_VERSION_V1,
        }
    }

    /// The storage-layout version (V1 until a migration completes).
    pub fn storage_version(&self) -> (r: u32)
        ensures
            r == self.layout_version(),
    {
        match self.storage_version {
            Some(v) => v,
            None => STORAGE_VERSION_V1,
        }
    }

    /// The storage-layout version (same as [`Self::storage_version`]).
    pub fn migration_storage_version(&self) -> (r: u32)
        ensures
            r == self.layout_version(),
    {
        self.storage_version()
    }

    /// Both balance layouts.
    pub open spec fn ledgers(&self) -> Ledgers {
        (self.balances@, self.legacy_balances@)
    }

    /// Migrate the slots of index positions `lo..hi` into `usdc`, all or
    /// nothing.
    fn migrate_range(&mut self, lo: usize, hi: usize, usdc: Address) -> (r: Result<
        (),
        SettlementFailure,
    >)
        requires
            old(self).wf(),
            lo <= hi <= old(self).developer_index@.len(),
        ensures
            final(self).wf(),
            migrate_slots(
                old(self).ledgers(),
                old(self).developer_index@.subrange(lo as int, hi as int),
                usdc,
            ) matches Some(m) ==> r is Ok && *final(self) == (CalloraSettlement {
                balances: final(self).balances,
                legacy_balances: final(self).legacy_balances,
                ..*old(self)
            }) && final(self).ledgers() == m,
            migrate_slots(
                old(self).ledgers(),
                old(self).developer_index@.subrange(lo as int, hi as int),
                usdc,
            ) is None ==> r == Err::<(), SettlementFailure>(
                SettlementFailure::Error(SettlementError::DeveloperOverflow),
            ) && *final(self) == *old(self),
    {
        let ghost addrs = self.developer_index@.subrange(lo as int, hi as int);
        let mut balances = self.balances.clone();
        let mut legacy = self.legacy_balances.clone();
        let mut i: usize = lo;
        proof {
            assert(addrs.subrange(0, 0) =~= Seq::<Address>::empty());
        }
        while i < hi
            invariant
                lo <= i <= hi <= self.developer_index@.len(),
                addrs == self.developer_index@.subrange(lo as int, hi as int),
                *self == *old(self),
                old(self).wf(),
                migrate_slots(self.ledgers(), addrs.subrange(0, i - lo), usdc) == Some(
                    (balances@, legacy@),
                ),
                covered(balances@, self.developer_index@),
            decreases hi - i,
        {
            let addr = self.developer_index[i];
            let ghost before: Ledgers = (balances@, legacy@);
            proof {
                lemma_migrate_slot_covered(before, addr, usdc, self.developer_index@);
            }
            proof {
                assert(addrs.subrange(0, i + 1 - lo).drop_last() =~= addrs.subrange(0, i - lo));
                assert(addrs.subrange(0, i + 1 - lo).last() == addr);
            }
            if migrate_developer_slot(&mut balances, &mut legacy, addr, usdc).is_err() {
                proof {
                    lemma_migrate_slots_none_extends(self.ledgers(), addrs, usdc, i + 1 - lo);
                }
                return Err(SettlementFailure::Error(SettlementError::DeveloperOverflow));
            }
            i = i + 1;
        }
        proof {
            assert(addrs.subrange(0, hi - lo) =~= addrs);
            lemma_migrate_slots_nonneg(self.ledgers(), addrs, usdc);
            assert(ledgers_nonneg((balances@, legacy@)));
        }
        self.balances = balances;
        self.legacy_balances = legacy;
        proof {
            assert(ledgers_nonneg(self.ledgers()));
            assert(forall|k: u128| #[trigger] self.balances@.contains_key(k) ==> self.balances@[k]
                >= 0);
            assert(forall|a: u64| #[trigger] self.legacy_balances@.contains_key(a)
                ==> self.legacy_balances@[a] >= 0);
        }
        Ok(())
    }

    /// Merge the single-token balance of `developer`, if any, into its
    /// balance in the configured USDC token (admin only), listing the
    /// developer in the index. Running it again changes nothing.
    pub fn migrate_developer_balance(&mut self, caller: Address, developer: Address) -> (r: Result<
        (),
        SettlementFailure,
    >)
        requires
            old(self).wf(),
        ensures
            final(self).wf(),
            old(self).admin_failure(caller) matches Some(f) ==> r == Err::<(), SettlementFailure>(f)
                && *final(self) == *old(self),
            old(self).admin_failure(caller) is None && old(self).usdc is None ==> r == Err::<
                (),
                SettlementFailure,
            >(SettlementFailure::Error(SettlementError::UsdcTokenNotConfigured)) && *final(self)
                == *old(self),
            old(self).usdc matches Some(u) ==> (old(self).admin_failure(caller) is None ==> match migrate_slot(
                old(self).ledgers(),
                developer,
                u,
            ) {
                None => r == Err::<(), SettlementFailure>(
                    SettlementFailure::Error(SettlementError::DeveloperOverflow),
                ) && *final(self) == *old(self),
                Some(m) => r is Ok && *final(self) == (CalloraSettlement {
                    balances: final(self).balances,
                    legacy_balances: final(self).legacy_balances,
                    developer_index: final(self).developer_index,
                    ..*old(self)
                }) && final(self).ledgers() == m && final(self).developer_index@ == if old(
                    self,
                ).legacy_balances@.contains_key(developer) {
                    indexed(old(self).developer_index@, developer)
                } else {
                    old(self).developer_index@
                },
            }),
    {
        self.require_admin(caller)?;
        let usdc = self.get_usdc_token()?;
        let mut balances = self.balances.clone();
        let mut legacy = self.legacy_balances.clone();
        if migrate_developer_slot(&mut balances, &mut legacy, developer, usdc).is_err() {
            return Err(SettlementFailure::Error(SettlementError::DeveloperOverflow));
        }
        proof {
            lemma_migrate_slot_nonneg(self.ledgers(), developer, usdc);
        }
        if self.legacy_balances.contains_key(&developer) {
            proof {
                lemma_indexed_grows(self.developer_index@, developer);
                lemma_migrate_slot_covered(
                    self.ledgers(),
                    developer,
                    usdc,
                    indexed(self.developer_index@, developer),
                );
                lemma_covered_grown(
                    self.balances@,
                    self.developer_index@,
                    indexed(self.developer_index@, developer),
                );
            }
            sorted_insert(&mut self.developer_index, developer);
        }
        self.balances = balances;
        self.legacy_balances = legacy;
        proof {
            assert(ledgers_nonneg(self.ledgers()));
            assert(forall|k: u128| #[trigger] self.balances@.contains_key(k) ==> self.balances@[k]
                >= 0);
            assert(forall|a: u64| #[trigger] self.legacy_balances@.contains_key(a)
                ==> self.legacy_balances@[a] >= 0);
        }
        Ok(())
    }

    /// The first failing check of a V1 to V2 migration that still has work.
    pub open spec fn migrate_precheck(&self, caller: Address) -> Option<SettlementFailure> {
        if self.admin_failure(caller) is Some {
            self.admin_failure(caller)
        } else if self.layout_version() >= STORAGE_VERSION_V2 {
            None
        } else if self.usdc is None {
            err(SettlementError::UsdcTokenNotConfigured)
        } else {
            None
        }
    }

    /// Migrate every indexed developer from the single-token to the
    /// per-token layout in one go (admin only), and mark the layout V2.
    /// Nothing happens once the layout is V2; an overflowing merge refuses
    /// the whole migration.
    pub fn migrate_v1_to_v2(&mut self, caller: Address) -> (r: Result<(), SettlementFailure>)
        requires
            old(self).wf(),
        ensures
            final(self).wf(),
            old(self).migrate_precheck(caller) matches Some(f) ==> r == Err::<(), SettlementFailure>(
                f,
            ) && *final(self) == *old(self),
            old(self).migrate_precheck(caller) is None && old(self).layout_version()
                >= STORAGE_VERSION_V2 ==> r is Ok && *final(self) == *old(self),
            old(self).migrate_precheck(caller) is None && old(self).layout_version()
                < STORAGE_VERSION_V2 ==> match migrate_slots(
                old(self).ledgers(),
                old(self).developer_index@,
                old(self).usdc.unwrap(),
            ) {
                None => r == Err::<(), SettlementFailure>(
                    SettlementFailure::Error(SettlementError::DeveloperOverflow),
                ) && *final(self) == *old(self),
                Some(m) => r is Ok && *final(self) == (CalloraSettlement {
                    balances: final(self).balances,
                    legacy_balances: final(self).legacy_balances,
                    storage_version: Some(STORAGE_VERSION_V2),
                    ..*old(self)
                }) && final(self).ledgers() == m,
            },
    {
        self.require_admin(caller)?;
        if self.migration_storage_version() >= STORAGE_VERSION_V2 {
            return Ok(());
        }
        let usdc = self.get_usdc_token()?;
        let n = self.developer_index.len();
        proof {
            assert(self.developer_index@.subrange(0, n as int) =~= self.developer_index@);
        }
        self.migrate_range(0, n, usdc)?;
        self.storage_version = Some(STORAGE_VERSION_V2);
        Ok(())
    }

    /// Migrate at most `batch_size` (0 counts as 1; capped at a batch)
    /// indexed developers from position `offset` (admin only). Returns the
    /// position to resume from and whether the index is done, in which case
    /// the layout is marked V2. Returns `(0, true)` once the layout is V2.
    pub fn migrate_v1_to_v2_page(&mut self, caller: Address, offset: u32, batch_size: u32) -> (r:
        Result<(u32, bool), SettlementFailure>)
        requires
            old(self).wf(),
            old(self).layout_version() < STORAGE_VERSION_V2 ==> old(self).developer_index@.len()
                <= u32::MAX,
        ensures
            final(self).wf(),
            old(self).migrate_precheck(caller) matches Some(f) ==> r == Err::<
                (u32, bool),
                SettlementFailure,
            >(f) && *final(self) == *old(self),
            old(self).migrate_precheck(caller) is None && old(self).layout_version()
                >= STORAGE_VERSION_V2 ==> r == Ok::<(u32, bool), SettlementFailure>((0, true))
                && *final(self) == *old(self),
            old(self).migrate_precheck(caller) is None && old(self).layout_version()
                < STORAGE_VERSION_V2 ==> {
                let total = old(self).developer_index@.len() as int;
                let step: int = if batch_size == 0 {
                    1
                } else if batch_size < MAX_BATCH_SIZE {
                    batch_size as int
                } else {
                    MAX_BATCH_SIZE as int
                };
                let end = if offset + step < total {
                    offset + step
                } else {
                    total
                };
                let lo = if offset < end {
                    offset as int
                } else {
                    end
                };
                match migrate_slots(
                    old(self).ledgers(),
                    old(self).developer_index@.subrange(lo, end),
                    old(self).usdc.unwrap(),
                ) {
                    None => r == Err::<(u32, bool), SettlementFailure>(
                        SettlementFailure::Error(SettlementError::DeveloperOverflow),
                    ) && *final(self) == *old(self),
                    Some(m) => r == Ok::<(u32, bool), SettlementFailure>(
                        (end as u32, end >= total),
                    ) && *final(self) == (CalloraSettlement {
                        balances: final(self).balances,
                        legacy_balances: final(self).legacy_balances,
                        storage_version: if end >= total {
                            Some(STORAGE_VERSION_V2)
                        } else {
                            old(self).storage_version
                        },
                        ..*old(self)
                    }) && final(self).ledgers() == m,
                }
            },
    {
        self.require_admin(caller)?;
        if self.migration_storage_version() >= STORAGE_VERSION_V2 {
            return Ok((0, true));
        }
        let usdc = self.get_usdc_token()?;
        let total = self.developer_index.len() as u32;
        let step: u32 = if batch_size == 0 {
            1
        } else if batch_size < MAX_BATCH_SIZE {
            batch_size
        } else {
            MAX_BATCH_SIZE
        };
        let end: u32 = if (offset as u64) + (step as u64) < total as u64 {
            offset + step
        } else {
            total
        };
        let lo: u32 = if offset < end {
            offset
        } else {
            end
        };
        self.migrate_range(lo as usize, end as usize, usdc)?;
        let done = end >= total;
        if done {
            self.storage_version = Some(STORAGE_VERSION_V2);
        }
        Ok((end, done))
    }
}

} // verus!
