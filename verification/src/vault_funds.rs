//! Vault fund movements: deposit, (batch) deduct, withdrawal, distribution
//! of untracked surplus, and the request-id markers that make deducts
//! idempotent.
//!
//! A successful deposit is accompanied by a token transfer of `amount` from
//! the caller to the vault; a successful deduct or batch deduct by a transfer
//! of the deducted total from the vault to the settlement contract and a
//! credit of that total to its global pool; a withdrawal by a transfer of
//! `amount` to the owner (or to `to`). The tracked balance moves by exactly
//! the transferred amount.

use vstd::prelude::*;
use crate::bytes::{ByteSet, views_of};
use crate::errors::VaultError;
use crate::vault::{Address, CalloraVault, DeductItem, VaultMeta, MAX_BATCH_SIZE, outcome};

verus! {

/// Sum of the amounts of a batch.
pub open spec fn items_total(items: Seq<DeductItem>) -> int
    decreases items.len(),
{
    if items.len() == 0 {
        0
    } else {
        items[0].amount + items_total(items.drop_first())
    }
}

/// `item` carries request id `v`.
pub open spec fn carries(item: DeductItem, v: Seq<u8>) -> bool {
    item.request_id matches Some(x) && x@ == v
}

/// Request ids carried by the first `n` items of a batch.
pub open spec fn ids_prefix(items: Seq<DeductItem>, n: int) -> Set<Seq<u8>> {
    Set::new(
        |v: Seq<u8>|
            exists|k: int| 0 <= k < n && carries(#[trigger] items[k], v),
    )
}

/// Request ids carried by a batch.
pub open spec fn batch_ids(items: Seq<DeductItem>) -> Set<Seq<u8>> {
    ids_prefix(items, items.len() as int)
}

/// The first item check that fails, scanning `items` in order with the
/// running balance `running`, the cap `max_d` and the ids `used` so far.
pub open spec fn batch_scan_failure(
    items: Seq<DeductItem>,
    running: int,
    max_d: int,
    used: Set<Seq<u8>>,
) -> Option<VaultError>
    decreases items.len(),
{
    if items.len() == 0 {
        None
    } else {
        let it = items[0];
        if it.amount <= 0 {
            Some(VaultError::AmountNotPositive)
        } else if it.amount > max_d {
            Some(VaultError::ExceedsMaxDeduct)
        } else if running < it.amount {
            Some(VaultError::InsufficientBalance)
        } else {
            match it.request_id {
                Some(v) => if used.contains(v@) {
                    Some(VaultError::DuplicateRequestId)
                } else {
                    batch_scan_failure(items.drop_first(), running - it.amount, max_d, used.insert(v@))
                },
                None => batch_scan_failure(items.drop_first(), running - it.amount, max_d, used),
            }
        }
    }
}

/// The ids of `ids`, in order, that `present` holds when their turn comes;
/// each one found is taken out of `present`.
pub open spec fn pruned(ids: Seq<Seq<u8>>, present: Set<Seq<u8>>) -> Seq<Seq<u8>>
    decreases ids.len(),
{
    if ids.len() == 0 {
        Seq::empty()
    } else if present.contains(ids[0]) {
        seq![ids[0]] + pruned(ids.drop_first(), present.remove(ids[0]))
    } else {
        pruned(ids.drop_first(), present)
    }
}

impl CalloraVault {
    /// The first failing check of `deposit`, in the contract's order.
    pub open spec fn deposit_failure(&self, caller: Address, amount: i128) -> Option<VaultError> {
        if self.paused {
            Some(VaultError::Paused)
        } else if amount <= 0 {
            Some(VaultError::AmountNotPositive)
        } else {
            match self.meta {
                None => Some(VaultError::NotInitialized),
                Some(m) => if !(caller == m.owner || self.depositors@.contains(caller)) {
                    Some(VaultError::Unauthorized)
                } else if amount < m.min_deposit {
                    Some(VaultError::BelowMinDeposit)
                } else if self.usdc_token is None {
                    Some(VaultError::NotInitialized)
                } else if m.balance + amount > i128::MAX {
                    Some(VaultError::Overflow)
                } else {
                    None
                },
            }
        }
    }

    /// Deposit `amount` USDC from `caller` (the owner or an allowed
    /// depositor); returns the new tracked balance.
    pub fn deposit(&mut self, caller: Address, amount: i128) -> (r: Result<i128, VaultError>)
        requires
            old(self).wf(),
        ensures
            final(self).wf(),
            r is Ok ==> old(self).meta is Some && amount >= old(self).meta.unwrap().min_deposit,
            match old(self).deposit_failure(caller, amount) {
                Some(e) => r == Err::<i128, VaultError>(e) && *final(self) == *old(self),
                None => {
                    let m = old(self).meta.unwrap();
                    let nb = (m.balance + amount) as i128;
                    &&& r == Ok::<i128, VaultError>(nb)
                    &&& *final(self) == (CalloraVault {
                        meta: Some(VaultMeta { balance: nb, ..m }),
                        ..*old(self)
                    })
                },
            },
    {
        self.require_not_paused()?;
        if amount <= 0 {
            return Err(VaultError::AmountNotPositive);
        }
        if !self.is_authorized_depositor(caller)? {
            return Err(VaultError::Unauthorized);
        }
        let mut meta = match self.meta {
            Some(m) => m,
            None => {
                return Err(VaultError::NotInitialized);
            },
        };
        if amount < meta.min_deposit {
            return Err(VaultError::BelowMinDeposit);
        }
        if self.usdc_token.is_none() {
            return Err(VaultError::NotInitialized);
        }
        meta.balance = match meta.balance.checked_add(amount) {
            Some(b) => b,
            None => {
                return Err(VaultError::Overflow);
            },
        };
        self.meta = Some(meta);
        Ok(meta.balance)
    }

    /// The first failing check of `deduct`, in the contract's order.
    pub open spec fn deduct_failure(
        &self,
        caller: Address,
        amount: i128,
        request_id: Option<Seq<u8>>,
    ) -> Option<VaultError> {
        if self.paused {
            Some(VaultError::Paused)
        } else if amount <= 0 {
            Some(VaultError::AmountNotPositive)
        } else if self.deduct_caller_failure(caller) is Some {
            self.deduct_caller_failure(caller)
        } else if amount > self.spec_max_deduct() {
            Some(VaultError::ExceedsMaxDeduct)
        } else if request_id matches Some(v) && self.spec_processed(v) {
            Some(VaultError::DuplicateRequestId)
        } else if self.spec_balance() < amount {
            Some(VaultError::InsufficientBalance)
        } else if self.settlement is None {
            Some(VaultError::SettlementNotSet)
        } else if self.usdc_token is None {
            Some(VaultError::NotInitialized)
        } else {
            None
        }
    }

    /// Deduct `amount` for the settlement contract (owner or authorized
    /// caller); returns the new tracked balance. A request id, when given,
    /// is recorded, and any later deduct carrying it is refused.
    pub fn deduct(&mut self, caller: Address, amount: i128, request_id: Option<Vec<u8>>) -> (r:
        Result<i128, VaultError>)
        requires
            old(self).wf(),
        ensures
            final(self).wf(),
            match old(self).deduct_failure(
                caller,
                amount,
                match request_id {
                    Some(v) => Some(v@),
                    None => None,
                },
            ) {
                Some(e) => r == Err::<i128, VaultError>(e) && *final(self) == *old(self),
                None => {
                    let m = old(self).meta.unwrap();
                    let nb = (m.balance - amount) as i128;
                    &&& r == Ok::<i128, VaultError>(nb)
                    &&& *final(self) == (CalloraVault {
                        meta: Some(VaultMeta { balance: nb, ..m }),
                        processed: final(self).processed,
                        ..*old(self)
                    })
                    &&& final(self).processed.view() == match request_id {
                        Some(v) => old(self).processed.view().insert(v@),
                        None => old(self).processed.view(),
                    }
                },
            },
    {
        self.require_not_paused()?;
        if amount <= 0 {
            return Err(VaultError::AmountNotPositive);
        }
        self.require_authorized_deduct_caller(caller)?;
        let max_d = self.get_max_deduct();
        if amount > max_d {
            return Err(VaultError::ExceedsMaxDeduct);
        }
        if let Some(rid) = &request_id {
            self.require_not_duplicate(rid)?;
        }
        let mut meta = match self.meta {
            Some(m) => m,
            None => {
                return Err(VaultError::NotInitialized);
            },
        };
        if meta.balance < amount {
            return Err(VaultError::InsufficientBalance);
        }
        self.require_settlement()?;
        if self.usdc_token.is_none() {
            return Err(VaultError::NotInitialized);
        }
        meta.balance = meta.balance - amount;
        self.meta = Some(meta);
        if let Some(rid) = request_id {
            self.mark_request_processed(rid);
        }
        Ok(meta.balance)
    }

    /// The first failing check of `batch_deduct`, in the contract's order.
    pub open spec fn batch_deduct_failure(&self, caller: Address, items: Seq<DeductItem>) -> Option<
        VaultError,
    > {
        if self.paused {
            Some(VaultError::Paused)
        } else if self.deduct_caller_failure(caller) is Some {
            self.deduct_caller_failure(caller)
        } else if items.len() == 0 {
            Some(VaultError::BatchEmpty)
        } else if items.len() > MAX_BATCH_SIZE {
            Some(VaultError::BatchTooLarge)
        } else if batch_scan_failure(
            items,
            self.spec_balance() as int,
            self.spec_max_deduct() as int,
            self.processed.view().union(self.legacy_processed.view()),
        ) is Some {
            batch_scan_failure(
                items,
                self.spec_balance() as int,
                self.spec_max_deduct() as int,
                self.processed.view().union(self.legacy_processed.view()),
            )
        } else if self.settlement is None {
            Some(VaultError::SettlementNotSet)
        } else if self.usdc_token is None {
            Some(VaultError::NotInitialized)
        } else {
            None
        }
    }

    /// Deduct several items atomically (owner or authorized caller); returns
    /// the new tracked balance. Every item is validated before anything
    /// changes: a failing item, a request id already processed or repeated
    /// within the batch, refuses the whole batch.
    pub fn batch_deduct(&mut self, caller: Address, items: &Vec<DeductItem>) -> (r: Result<
        i128,
        VaultError,
    >)
        requires
            old(self).wf(),
        ensures
            final(self).wf(),
            r is Ok ==> forall|i: int|
                0 <= i < items@.len() ==> 0 < (#[trigger] items@[i]).amount <= old(
                    self,
                ).spec_max_deduct(),
            match old(self).batch_deduct_failure(caller, items@) {
                Some(e) => r == Err::<i128, VaultError>(e) && *final(self) == *old(self),
                None => {
                    let m = old(self).meta.unwrap();
                    let nb = (m.balance - items_total(items@)) as i128;
                    &&& 0 <= nb <= m.balance
                    &&& r == Ok::<i128, VaultError>(nb)
                    &&& *final(self) == (CalloraVault {
                        meta: Some(VaultMeta { balance: nb, ..m }),
                        processed: final(self).processed,
                        ..*old(self)
                    })
                    &&& final(self).processed.view() == old(self).processed.view().union(
                        batch_ids(items@),
                    )
                },
            },
    {
        self.require_not_paused()?;
        self.require_authorized_deduct_caller(caller)?;
        let n = items.len();
        if n == 0 {
            return Err(VaultError::BatchEmpty);
        }
        if n > 50 {
            return Err(VaultError::BatchTooLarge);
        }
        let max_d = self.get_max_deduct();
        let mut meta = match self.meta {
            Some(m) => m,
            None => {
                return Err(VaultError::NotInitialized);
            },
        };
        let ghost bal0 = meta.balance as int;
        let ghost used0 = self.processed.view().union(self.legacy_processed.view());
        let mut running: i128 = meta.balance;
        let mut seen = ByteSet::new();
        let mut i: usize = 0;
        proof {
            assert(items@.skip(0) =~= items@);
            assert(used0.union(seen.view()) =~= used0);
            assert(seen.view() =~= ids_prefix(items@, 0));
        }
        while i < n
            invariant
                n == items@.len(),
                0 <= i <= n,
                0 <= running <= bal0,
                seen.wf(),
                seen.view() == ids_prefix(items@, i as int),
                bal0 - running + items_total(items@.skip(i as int)) == items_total(items@),
                batch_scan_failure(items@, bal0, max_d as int, used0) == batch_scan_failure(
                    items@.skip(i as int),
                    running as int,
                    max_d as int,
                    used0.union(seen.view()),
                ),
                used0 == self.processed.view().union(self.legacy_processed.view()),
                self.wf(),
                *self == *old(self),
                max_d == old(self).spec_max_deduct(),
                !old(self).paused,
                old(self).deduct_caller_failure(caller) is None,
                0 < n <= 50,
                old(self).meta == Some(meta),
                bal0 == meta.balance,
            decreases n - i,
        {
            let item = &items[i];
            proof {
                let rest = items@.skip(i as int);
                assert(rest[0] == items@[i as int]);
                assert(rest.drop_first() =~= items@.skip(i + 1));
            }
            if item.amount <= 0 {
                return Err(VaultError::AmountNotPositive);
            }
            if item.amount > max_d {
                return Err(VaultError::ExceedsMaxDeduct);
            }
            if running < item.amount {
                return Err(VaultError::InsufficientBalance);
            }
            let ghost seen_before = seen.view();
            match &item.request_id {
                Some(rid) => {
                    if self.is_request_processed(rid) {
                        return Err(VaultError::DuplicateRequestId);
                    }
                    if seen.contains(rid) {
                        return Err(VaultError::DuplicateRequestId);
                    }
                    seen.insert(rid.clone());
                    proof {
                        assert(used0.union(seen_before).insert(rid@) =~= used0.union(seen.view()));
                        assert(seen.view() =~= ids_prefix(items@, i + 1)) by {
                            assert forall|v: Seq<u8>| #[trigger] ids_prefix(items@, i + 1).contains(v)
                                implies seen.view().contains(v) by {
                                let k = choose|k: int|
                                    0 <= k < i + 1 && carries(#[trigger] items@[k], v);
                                if k < i {
                                    assert(ids_prefix(items@, i as int).contains(v));
                                }
                            }
                            assert forall|v: Seq<u8>| #[trigger] seen.view().contains(v) implies ids_prefix(
                                items@,
                                i + 1,
                            ).contains(v) by {
                                if v != rid@ {
                                    assert(ids_prefix(items@, i as int).contains(v));
                                    let k = choose|k: int|
                                        0 <= k < i && carries(#[trigger] items@[k], v);
                                    assert(0 <= k < i + 1);
                                } else {
                                    assert(carries(items@[i as int], v));
                                }
                            }
                        }
                    }
                },
                None => {
                    proof {
                        assert(seen.view() =~= ids_prefix(items@, i + 1)) by {
                            assert forall|v: Seq<u8>| #[trigger] ids_prefix(items@, i + 1).contains(v)
                                implies seen.view().contains(v) by {
                                let k = choose|k: int|
                                    0 <= k < i + 1 && carries(#[trigger] items@[k], v);
                                assert(k != i);
                                assert(ids_prefix(items@, i as int).contains(v));
                            }
                            assert forall|v: Seq<u8>| #[trigger] seen.view().contains(v) implies ids_prefix(
                                items@,
                                i + 1,
                            ).contains(v) by {
                                assert(ids_prefix(items@, i as int).contains(v));
                                let k = choose|k: int|
                                    0 <= k < i && carries(#[trigger] items@[k], v);
                                assert(0 <= k < i + 1);
                            }
                        }
                    }
                },
            }
            running = running - item.amount;
            i = i + 1;
        }
        proof {
            assert(items@.skip(n as int) =~= Seq::<DeductItem>::empty());
        }
        self.require_settlement()?;
        if self.usdc_token.is_none() {
            return Err(VaultError::NotInitialized);
        }
        meta.balance = running;
        self.meta = Some(meta);
        let mut j: usize = 0;
        while j < n
            invariant
                n == items@.len(),
                0 <= j <= n,
                self.processed.wf(),
                self.processed.view() == old(self).processed.view().union(ids_prefix(items@, j as int)),
                *self == (CalloraVault { processed: self.processed, ..*old(self) }.with_meta(meta)),
            decreases n - j,
        {
            let ghost before = self.processed.view();
            if let Some(rid) = &items[j].request_id {
                self.mark_request_processed(rid.clone());
            }
            proof {
                assert(self.processed.view() =~= old(self).processed.view().union(
                    ids_prefix(items@, j + 1),
                )) by {
                    assert forall|v: Seq<u8>| #[trigger] self.processed.view().contains(v) implies old(
                        self,
                    ).processed.view().union(ids_prefix(items@, j + 1)).contains(v) by {
                        if !before.contains(v) {
                            assert(carries(items@[j as int], v));
                        } else if !old(self).processed.view().contains(v) {
                            let k = choose|k: int|
                                0 <= k < j && carries(#[trigger] items@[k], v);
                            assert(0 <= k < j + 1);
                        }
                    }
                    assert forall|v: Seq<u8>| #[trigger] old(self).processed.view().union(
                        ids_prefix(items@, j + 1),
                    ).contains(v) implies self.processed.view().contains(v) by {
                        if !old(self).processed.view().contains(v) {
                            let k = choose|k: int|
                                0 <= k < j + 1 && carries(#[trigger] items@[k], v);
                            if k < j {
                                assert(ids_prefix(items@, j as int).contains(v));
                            }
                        }
                    }
                }
            }
            j = j + 1;
        }
        proof {
            crate::laws::law_batch_deduct_within_cap(*old(self), caller, items@);
        }
        Ok(running)
    }

    /// `self` with its vault record replaced by `meta`.
    pub open spec fn with_meta(self, meta: VaultMeta) -> CalloraVault {
        CalloraVault { meta: Some(meta), ..self }
    }

    /// The first failing check of a withdrawal of `amount`.
    pub open spec fn withdraw_failure(&self, amount: i128) -> Option<VaultError> {
        match self.meta {
            None => Some(VaultError::NotInitialized),
            Some(m) => if amount <= 0 {
                Some(VaultError::AmountNotPositive)
            } else if m.balance < amount {
                Some(VaultError::InsufficientBalance)
            } else if self.usdc_token is None {
                Some(VaultError::NotInitialized)
            } else {
                None
            },
        }
    }

    /// Withdraw `amount` to the owner (owner only; allowed while paused);
    /// returns the new tracked balance.
    pub fn withdraw(&mut self, amount: i128) -> (r: Result<i128, VaultError>)
        requires
            old(self).wf(),
        ensures
            final(self).wf(),
            match old(self).withdraw_failure(amount) {
                Some(e) => r == Err::<i128, VaultError>(e) && *final(self) == *old(self),
                None => {
                    let m = old(self).meta.unwrap();
                    let nb = (m.balance - amount) as i128;
                    &&& r == Ok::<i128, VaultError>(nb)
                    &&& *final(self) == old(self).with_meta(VaultMeta { balance: nb, ..m })
                },
            },
    {
        let mut meta = match self.meta {
            Some(m) => m,
            None => {
                return Err(VaultError::NotInitialized);
            },
        };
        if amount <= 0 {
            return Err(VaultError::AmountNotPositive);
        }
        if meta.balance < amount {
            return Err(VaultError::InsufficientBalance);
        }
        if self.usdc_token.is_none() {
            return Err(VaultError::NotInitialized);
        }
        meta.balance = meta.balance - amount;
        self.meta = Some(meta);
        Ok(meta.balance)
    }

    /// Withdraw `amount` to `to` (owner only; allowed while paused); returns
    /// the new tracked balance.
    pub fn withdraw_to(&mut self, to: Address, amount: i128) -> (r: Result<i128, VaultError>)
        requires
            old(self).wf(),
        ensures
            final(self).wf(),
            match old(self).withdraw_failure(amount) {
                Some(e) => r == Err::<i128, VaultError>(e) && *final(self) == *old(self),
                None => {
                    let m = old(self).meta.unwrap();
                    let nb = (m.balance - amount) as i128;
                    &&& r == Ok::<i128, VaultError>(nb)
                    &&& *final(self) == old(self).with_meta(VaultMeta { balance: nb, ..m })
                },
            },
    {
        self.withdraw(amount)
    }

    /// The first failing check of `distribute`.
    pub open spec fn distribute_failure(
        &self,
        caller: Address,
        amount: i128,
        on_ledger_balance: i128,
    ) -> Option<VaultError> {
        if self.admin_failure(caller) is Some {
            self.admin_failure(caller)
        } else if amount <= 0 {
            Some(VaultError::AmountNotPositive)
        } else if self.usdc_token is None {
            Some(VaultError::NotInitialized)
        } else if on_ledger_balance < amount {
            Some(VaultError::InsufficientBalance)
        } else {
            None
        }
    }

    /// Check a distribution of `amount` of untracked on-ledger USDC to `to`
    /// (admin only; allowed while paused). `on_ledger_balance` is the
    /// vault's USDC balance held by the token contract; the tracked balance
    /// is not touched.
    pub fn distribute(&self, caller: Address, to: Address, amount: i128, on_ledger_balance: i128) -> (r:
        Result<(), VaultError>)
        ensures
            r == outcome(self.distribute_failure(caller, amount, on_ledger_balance)),
    {
        match self.admin {
            None => {
                return Err(VaultError::NotInitialized);
            },
            Some(a) => {
                if caller != a {
                    return Err(VaultError::Unauthorized);
                }
            },
        }
        if amount <= 0 {
            return Err(VaultError::AmountNotPositive);
        }
        if self.usdc_token.is_none() {
            return Err(VaultError::NotInitialized);
        }
        if on_ledger_balance < amount {
            return Err(VaultError::InsufficientBalance);
        }
        Ok(())
    }

    /// Whether `request_id` has already been processed.
    pub fn is_request_processed(&self, request_id: &Vec<u8>) -> (r: bool)
        ensures
            r == self.spec_processed(request_id@),
    {
        self.processed.contains(request_id) || self.legacy_processed.contains(request_id)
    }

    fn require_not_duplicate(&self, request_id: &Vec<u8>) -> (r: Result<(), VaultError>)
        ensures
            r is Ok <==> !self.spec_processed(request_id@),
            r is Err ==> r == Err::<(), VaultError>(VaultError::DuplicateRequestId),
    {
        if self.is_request_processed(request_id) {
            return Err(VaultError::DuplicateRequestId);
        }
        Ok(())
    }

    /// `Paused` while the vault is paused.
    fn require_not_paused(&self) -> (r: Result<(), VaultError>)
        ensures
            r == (if self.paused {
                Err(VaultError::Paused)
            } else {
                Ok::<(), VaultError>(())
            }),
    {
        if self.is_paused() {
            return Err(VaultError::Paused);
        }
        Ok(())
    }

    /// The settlement contract, or `SettlementNotSet`.
    fn require_settlement(&self) -> (r: Result<Address, VaultError>)
        ensures
            r == match self.settlement {
                Some(a) => Ok::<Address, VaultError>(a),
                None => Err(VaultError::SettlementNotSet),
            },
    {
        match self.settlement {
            Some(a) => Ok(a),
            None => Err(VaultError::SettlementNotSet),
        }
    }

    /// Record `request_id` as processed.
    fn mark_request_processed(&mut self, request_id: Vec<u8>)
        requires
            old(self).processed.wf(),
        ensures
            final(self).processed.wf(),
            final(self).processed.view() == old(self).processed.view().insert(request_id@),
            *final(self) == (CalloraVault { processed: final(self).processed, ..*old(self) }),
    {
        self.processed.insert(request_id);
    }

    /// Remove processed-request markers (owner only); returns, in order, the
    /// ids that were removed. Markers of earlier contract versions stay.
    pub fn prune_processed_requests(&mut self, caller: Address, ids: &Vec<Vec<u8>>) -> (r: Result<
        Vec<Vec<u8>>,
        VaultError,
    >)
        requires
            old(self).wf(),
        ensures
            final(self).wf(),
            match old(self).owner_failure(caller) {
                Some(e) => r matches Err(x) && x == e && *final(self) == *old(self),
                None => {
                    &&& r matches Ok(removed) && views_of(removed@) == pruned(
                        views_of(ids@),
                        old(self).processed.view(),
                    )
                    &&& *final(self) == (CalloraVault {
                        processed: final(self).processed,
                        ..*old(self)
                    })
                    &&& final(self).processed.view() == old(self).processed.view().difference(
                        views_of(ids@).to_set(),
                    )
                },
            },
    {
        self.require_owner(caller)?;
        let mut removed: Vec<Vec<u8>> = Vec::new();
        let n = ids.len();
        let mut i: usize = 0;
        proof {
            assert(views_of(ids@).subrange(0, 0).to_set() =~= Set::<Seq<u8>>::empty());
            assert(old(self).processed.view().difference(Set::<Seq<u8>>::empty()) =~= old(
                self,
            ).processed.view());
            assert(views_of(removed@) =~= Seq::<Seq<u8>>::empty());
            assert(views_of(ids@).skip(0) =~= views_of(ids@));
            assert(Seq::<Seq<u8>>::empty() + pruned(views_of(ids@), old(self).processed.view())
                =~= pruned(views_of(ids@), old(self).processed.view()));
        }
        while i < n
            invariant
                n == ids@.len(),
                0 <= i <= n,
                self.processed.wf(),
                *self == (CalloraVault { processed: self.processed, ..*old(self) }),
                self.processed.view() == old(self).processed.view().difference(
                    views_of(ids@).subrange(0, i as int).to_set(),
                ),
                views_of(removed@) + pruned(views_of(ids@).skip(i as int), self.processed.view())
                    == pruned(views_of(ids@), old(self).processed.view()),
            decreases n - i,
        {
            let ghost before = self.processed.view();
            let ghost rest = views_of(ids@).skip(i as int);
            let ghost removed_before = views_of(removed@);
            proof {
                assert(rest[0] == ids@[i as int]@);
                assert(rest.drop_first() =~= views_of(ids@).skip(i + 1));
                assert(views_of(ids@).skip(0) =~= views_of(ids@));
            }
            let was = self.processed.remove(&ids[i]);
            if was {
                removed.push(ids[i].clone());
                proof {
                    assert(views_of(removed@) =~= removed_before.push(ids@[i as int]@))
                        by {
                        let a = views_of(removed@);
                        assert(a.len() == removed_before.len() + 1);
                    }
                    assert(seq![rest[0]] + pruned(rest.drop_first(), before.remove(rest[0]))
                        == pruned(rest, before));
                    assert(removed_before.push(ids@[i as int]@) + pruned(
                        views_of(ids@).skip(i + 1),
                        self.processed.view(),
                    ) =~= removed_before + (seq![rest[0]] + pruned(
                        rest.drop_first(),
                        before.remove(rest[0]),
                    )));
                }
            } else {
                proof {
                    assert(self.processed.view() =~= before);
                }
            }
            proof {
                assert(views_of(ids@).subrange(0, i + 1).to_set() =~= views_of(ids@).subrange(
                    0,
                    i as int,
                ).to_set().insert(ids@[i as int]@)) by {
                    let s1 = views_of(ids@).subrange(0, i + 1);
                    let s0 = views_of(ids@).subrange(0, i as int);
                    assert(s1 =~= s0.push(ids@[i as int]@));
                    s0.lemma_push_to_set_commute(ids@[i as int]@);
                }
                assert(self.processed.view() =~= old(self).processed.view().difference(
                    views_of(ids@).subrange(0, i + 1).to_set(),
                ));
            }
            i = i + 1;
        }
        proof {
            assert(views_of(ids@).subrange(0, n as int) =~= views_of(ids@));
            assert(views_of(ids@).skip(n as int) =~= Seq::<Seq<u8>>::empty());
            assert(views_of(removed@) + Seq::<Seq<u8>>::empty() =~= views_of(removed@));
        }
        Ok(removed)
    }
}

} // verus!
