//! The Callora revenue pool: holds USDC received from the vault and
//! distributes it to developers at the admin's request.
//!
//! # Model
//! [`RevenuePool`] holds, as plain values, what the contract keeps in
//! storage. The pool's own USDC holdings live in the token contract and are
//! given to the operations that read them. A successful `distribute` is
//! accompanied by a transfer of `amount` to the recipient, a successful
//! `batch_distribute` by one transfer per payment, a successful
//! `deposit_yield` by a transfer of `amount` from the treasury to the pool.

use vstd::prelude::*;
use crate::errors::RevenuePoolError;

pub use crate::settlement::Severity;

verus! {

/// An account or contract address.
pub type Address = u64;

/// The distribution cap before the admin sets one.
pub const DEFAULT_MAX_DISTRIBUTE: i128 = 170141183460469231731687303715884105727i128;

/// Maximum number of payments in one `batch_distribute`.
pub const MAX_BATCH_SIZE: u32 = 50;

/// Maximum byte length of an admin broadcast message.
pub const MAX_MESSAGE_LEN: u32 = 256;

/// The revenue pool's plain aborts.
#[derive(Clone, Copy, Debug, PartialEq, Eq)]
pub enum PoolPanic {
    UsdcIsContract,
    UsdcIsAdmin,
    AlreadyInitialized,
    NotInitialized,
    NotAdmin,
    NoPendingAdmin,
    NotPendingAdmin,
    NoAdminTransferPending,
    Paused,
    AlreadyPaused,
    NotPaused,
    AmountNotPositive,
    CumulativeYieldOverflow,
    MaxDistributeNotPositive,
    AmountExceedsMaxDistribute,
    RecipientIsContract,
    RecipientHasNoTrustline,
    InsufficientBalance,
    DuplicateRecipient,
    TotalOverflow,
    MessageEmpty,
    MessageTooLong,
}

impl PoolPanic {
    /// The abort message.
    pub open spec fn message_text(&self) -> Seq<char> {
        match self {
            PoolPanic::UsdcIsContract => "invalid config: usdc_token cannot be the contract itself"@,
            PoolPanic::UsdcIsAdmin => "invalid config: usdc_token cannot be the admin address"@,
            PoolPanic::AlreadyInitialized => "revenue pool already initialized"@,
            PoolPanic::NotInitialized => "revenue pool not initialized"@,
            PoolPanic::NotAdmin => "unauthorized: caller is not admin"@,
            PoolPanic::NoPendingAdmin => "no pending admin"@,
            PoolPanic::NotPendingAdmin => "unauthorized: caller is not pending admin"@,
            PoolPanic::NoAdminTransferPending => "no admin transfer pending"@,
            PoolPanic::Paused => "revenue pool paused"@,
            PoolPanic::AlreadyPaused => "revenue pool already paused"@,
            PoolPanic::NotPaused => "revenue pool not paused"@,
            PoolPanic::AmountNotPositive => "amount must be positive"@,
            PoolPanic::CumulativeYieldOverflow => "cumulative yield overflow"@,
            PoolPanic::MaxDistributeNotPositive => "max_distribute must be positive"@,
            PoolPanic::AmountExceedsMaxDistribute => "amount exceeds max_distribute"@,
            PoolPanic::RecipientIsContract => "invalid recipient: cannot distribute to the contract itself"@,
            PoolPanic::RecipientHasNoTrustline => "invalid recipient: account does not exist or has no USDC trustline"@,
            PoolPanic::InsufficientBalance => "insufficient USDC balance"@,
            PoolPanic::DuplicateRecipient => "duplicate recipient in batch"@,
            PoolPanic::TotalOverflow => "total overflow"@,
            PoolPanic::MessageEmpty => "message cannot be empty"@,
            PoolPanic::MessageTooLong => "message length exceeds maximum of 256 characters"@,
        }
    }

    /// The abort message.
    pub fn message(&self) -> (r: &'static str)
        ensures
            r@ == self.message_text(),
    {
        match self {
            PoolPanic::UsdcIsContract => "invalid config: usdc_token cannot be the contract itself",
            PoolPanic::UsdcIsAdmin => "invalid config: usdc_token cannot be the admin address",
            PoolPanic::AlreadyInitialized => "revenue pool already initialized",
            PoolPanic::NotInitialized => "revenue pool not initialized",
            PoolPanic::NotAdmin => "unauthorized: caller is not admin",
            PoolPanic::NoPendingAdmin => "no pending admin",
            PoolPanic::NotPendingAdmin => "unauthorized: caller is not pending admin",
            PoolPanic::NoAdminTransferPending => "no admin transfer pending",
            PoolPanic::Paused => "revenue pool paused",
            PoolPanic::AlreadyPaused => "revenue pool already paused",
            PoolPanic::NotPaused => "revenue pool not paused",
            PoolPanic::AmountNotPositive => "amount must be positive",
            PoolPanic::CumulativeYieldOverflow => "cumulative yield overflow",
            PoolPanic::MaxDistributeNotPositive => "max_distribute must be positive",
            PoolPanic::AmountExceedsMaxDistribute => "amount exceeds max_distribute",
            PoolPanic::RecipientIsContract => "invalid recipient: cannot distribute to the contract itself",
            PoolPanic::RecipientHasNoTrustline => "invalid recipient: account does not exist or has no USDC trustline",
            PoolPanic::InsufficientBalance => "insufficient USDC balance",
            PoolPanic::DuplicateRecipient => "duplicate recipient in batch",
            PoolPanic::TotalOverflow => "total overflow",
            PoolPanic::MessageEmpty => "message cannot be empty",
            PoolPanic::MessageTooLong => "message length exceeds maximum of 256 characters",
        }
    }
}

/// Why a batch distribution was refused.
#[derive(Clone, Copy, Debug, PartialEq, Eq)]
pub enum PoolFailure {
    /// Refused with a coded error.
    Error(RevenuePoolError),
    /// Aborted with a message.
    Panic(PoolPanic),
}

/// `Ok(())` when no check failed, else the first failure.
pub open spec fn checked(f: Option<PoolPanic>) -> Result<(), PoolPanic> {
    match f {
        Some(e) => Err(e),
        None => Ok(()),
    }
}

/// The revenue pool's stored state.
pub struct RevenuePool {
    /// The pool contract's own address.
    pub contract: Address,
    pub admin: Option<Address>,
    pub pending_admin: Option<Address>,
    pub usdc: Option<Address>,
    /// Cap on a single distribution (or on each payment of a batch).
    pub max_distribute: i128,
    /// Total yield deposited by the treasury so far.
    pub cumulative_yield: i128,
    pub paused: bool,
    pub version: Option<Vec<u8>>,
}

/// The result of scanning a batch of payments in order: their total, or
/// the first refusal (a repeated recipient, an amount that is not positive
/// or above the cap, a total beyond `i128`).
pub open spec fn batch_scan(payments: Seq<(Address, i128)>, max: i128) -> Result<int, PoolPanic>
    decreases payments.len(),
{
    if payments.len() == 0 {
        Ok(0)
    } else {
        let init = payments.drop_last();
        match batch_scan(init, max) {
            Err(e) => Err(e),
            Ok(t) => {
                let (to, a) = payments.last();
                if exists|j: int| 0 <= j < init.len() && (#[trigger] init[j]).0 == to {
                    Err(PoolPanic::DuplicateRecipient)
                } else if a <= 0 {
                    Err(PoolPanic::AmountNotPositive)
                } else if a > max {
                    Err(PoolPanic::AmountExceedsMaxDistribute)
                } else if t + a > i128::MAX {
                    Err(PoolPanic::TotalOverflow)
                } else {
                    Ok(t + a)
                }
            },
        }
    }
}

/// Sum of the amounts of `payments`.
pub open spec fn payments_total(payments: Seq<(Address, i128)>) -> int
    decreases payments.len(),
{
    if payments.len() == 0 {
        0
    } else {
        payments_total(payments.drop_last()) + payments.last().1
    }
}

/// A batch that scans cleanly has distinct recipients, positive amounts
/// within the cap, and its scan total is the sum of its amounts.
pub proof fn lemma_batch_scan_ok(payments: Seq<(Address, i128)>, max: i128)
    requires
        batch_scan(payments, max) is Ok,
    ensures
        batch_scan(payments, max) == Ok::<int, PoolPanic>(payments_total(payments)),
        forall|i: int| 0 <= i < payments.len() ==> 0 < (#[trigger] payments[i]).1 <= max,
        forall|i: int, j: int|
            0 <= i < j < payments.len() ==> (#[trigger] payments[i]).0 != (#[trigger] payments[j]).0,
        0 <= payments_total(payments) <= i128::MAX,
    decreases payments.len(),
{
    if payments.len() > 0 {
        let init = payments.drop_last();
        lemma_batch_scan_ok(init, max);
        assert forall|i: int, j: int| 0 <= i < j < payments.len() implies (
        #[trigger] payments[i]).0 != (#[trigger] payments[j]).0 by {
            if j < payments.len() - 1 {
                assert(init[i] == payments[i] && init[j] == payments[j]);
            } else {
                assert(init[i] == payments[i]);
            }
        }
        assert forall|i: int| 0 <= i < payments.len() implies 0 < (#[trigger] payments[i]).1
            <= max by {
            if i < payments.len() - 1 {
                assert(init[i] == payments[i]);
            }
        }
    }
}

impl RevenuePool {
    /// A fresh, uninitialized pool deployed at `contract`.
    pub fn new(contract: Address) -> (r: RevenuePool)
        ensures
            r.contract == contract,
            r.admin is None,
            r.pending_admin is None,
            r.usdc is None,
            r.max_distribute == DEFAULT_MAX_DISTRIBUTE,
            r.cumulative_yield == 0,
            !r.paused,
            r.version is None,
    {
        RevenuePool {
            contract,
            admin: None,
            pending_admin: None,
            usdc: None,
            max_distribute: DEFAULT_MAX_DISTRIBUTE,
            cumulative_yield: 0,
            paused: false,
            version: None,
        }
    }

    /// Invariant of the stored state: the distribution cap is positive.
    pub open spec fn wf(&self) -> bool {
        self.max_distribute > 0
    }

    /// Failure of the admin check for `caller`.
    pub open spec fn admin_failure(&self, caller: Address) -> Option<PoolPanic> {
        match self.admin {
            None => Some(PoolPanic::NotInitialized),
            Some(a) => if caller != a {
                Some(PoolPanic::NotAdmin)
            } else {
                None
            },
        }
    }

    /// `NotAdmin` unless `caller` is the admin.
    fn require_admin(&self, caller: Address) -> (r: Result<(), PoolPanic>)
        ensures
            r == checked(self.admin_failure(caller)),
    {
        match self.admin {
            None => Err(PoolPanic::NotInitialized),
            Some(a) => if caller != a {
                Err(PoolPanic::NotAdmin)
            } else {
                Ok(())
            },
        }
    }

    /// Initialize with an admin and the USDC token.
    pub fn init(&mut self, admin: Address, usdc_token: Address) -> (r: Result<(), PoolPanic>)
        ensures
            r == checked(
                if usdc_token == old(self).contract {
                    Some(PoolPanic::UsdcIsContract)
                } else if usdc_token == admin {
                    Some(PoolPanic::UsdcIsAdmin)
                } else if old(self).admin is Some {
                    Some(PoolPanic::AlreadyInitialized)
                } else {
                    None
                },
            ),
            r is Ok ==> *final(self) == (RevenuePool {
                admin: Some(admin),
                usdc: Some(usdc_token),
                ..*old(self)
            }),
            r is Err ==> *final(self) == *old(self),
    {
        if usdc_token == self.contract {
            return Err(PoolPanic::UsdcIsContract);
        }
        if usdc_token == admin {
            return Err(PoolPanic::UsdcIsAdmin);
        }
        if self.admin.is_some() {
            return Err(PoolPanic::AlreadyInitialized);
        }
        self.admin = Some(admin);
        self.usdc = Some(usdc_token);
        Ok(())
    }

    /// The admin; `NotInitialized` before `init`.
    pub fn get_admin(&self) -> (r: Result<Address, PoolPanic>)
        ensures
            r == match self.admin {
                Some(a) => Ok::<Address, PoolPanic>(a),
                None => Err(PoolPanic::NotInitialized),
            },
    {
        match self.admin {
            Some(a) => Ok(a),
            None => Err(PoolPanic::NotInitialized),
        }
    }

    /// The USDC token; `NotInitialized` before `init`.
    pub fn get_usdc_token(&self) -> (r: Result<Address, PoolPanic>)
        ensures
            r == match self.usdc {
                Some(a) => Ok::<Address, PoolPanic>(a),
                None => Err(PoolPanic::NotInitialized),
            },
    {
        match self.usdc {
            Some(a) => Ok(a),
            None => Err(PoolPanic::NotInitialized),
        }
    }

    /// Nominate `new_admin` (admin only); the nominee takes over with
    /// `accept_admin`.
    pub fn set_admin(&mut self, caller: Address, new_admin: Address) -> (r: Result<(), PoolPanic>)
        ensures
            r == checked(old(self).admin_failure(caller)),
            r is Ok ==> *final(self) == (RevenuePool {
                pending_admin: Some(new_admin),
                ..*old(self)
            }),
            r is Err ==> *final(self) == *old(self),
    {
        self.require_admin(caller)?;
        self.pending_admin = Some(new_admin);
        Ok(())
    }

    /// The first failing check of `accept_admin`.
    pub open spec fn accept_admin_failure(&self, caller: Address) -> Option<PoolPanic> {
        match self.pending_admin {
            None => Some(PoolPanic::NoPendingAdmin),
            Some(p) => if caller != p {
                Some(PoolPanic::NotPendingAdmin)
            } else {
                None
            },
        }
    }

    /// The nominee `caller` takes over as admin.
    pub fn accept_admin(&mut self, caller: Address) -> (r: Result<(), PoolPanic>)
        ensures
            r == checked(old(self).accept_admin_failure(caller)),
            r is Ok ==> *final(self) == (RevenuePool {
                admin: Some(caller),
                pending_admin: None,
                ..*old(self)
            }),
            r is Err ==> *final(self) == *old(self),
    {
        let pending = match self.pending_admin {
            Some(p) => p,
            None => {
                return Err(PoolPanic::NoPendingAdmin);
            },
        };
        if caller != pending {
            return Err(PoolPanic::NotPendingAdmin);
        }
        self.admin = Some(pending);
        self.pending_admin = None;
        Ok(())
    }

    /// The nominee `caller` takes over as admin (same as
    /// [`Self::accept_admin`]).
    pub fn claim_admin(&mut self, caller: Address) -> (r: Result<(), PoolPanic>)
        ensures
            r == checked(old(self).accept_admin_failure(caller)),
            r is Ok ==> *final(self) == (RevenuePool {
                admin: Some(caller),
                pending_admin: None,
                ..*old(self)
            }),
            r is Err ==> *final(self) == *old(self),
    {
        self.accept_admin(caller)
    }

    /// Withdraw the pending nomination (admin only); returns the nominee.
    pub fn cancel_admin_transfer(&mut self, caller: Address) -> (r: Result<Address, PoolPanic>)
        ensures
            old(self).admin_failure(caller) matches Some(e) ==> r == Err::<Address, PoolPanic>(e),
            old(self).admin_failure(caller) is None && old(self).pending_admin is None ==> r == Err::<
                Address,
                PoolPanic,
            >(PoolPanic::NoAdminTransferPending),
            old(self).pending_admin matches Some(p) ==> (old(self).admin_failure(caller) is None ==> r
                == Ok::<Address, PoolPanic>(p)),
            r is Ok ==> *final(self) == (RevenuePool { pending_admin: None, ..*old(self) }),
            r is Err ==> *final(self) == *old(self),
    {
        self.require_admin(caller)?;
        let pending = match self.pending_admin {
            Some(p) => p,
            None => {
                return Err(PoolPanic::NoAdminTransferPending);
            },
        };
        self.pending_admin = None;
        Ok(pending)
    }

    /// The pending admin nominee, if any.
    pub fn get_pending_admin(&self) -> (r: Option<Address>)
        ensures
            r == self.pending_admin,
    {
        self.pending_admin
    }

    /// Stop distributions (admin only).
    pub fn pause(&mut self, caller: Address) -> (r: Result<(), PoolPanic>)
        ensures
            r == checked(
                if old(self).admin_failure(caller) is Some {
                    old(self).admin_failure(caller)
                } else if old(self).paused {
                    Some(PoolPanic::AlreadyPaused)
                } else {
                    None
                },
            ),
            r is Ok ==> *final(self) == (RevenuePool { paused: true, ..*old(self) }),
            r is Err ==> *final(self) == *old(self),
    {
        self.require_admin(caller)?;
        if self.paused {
            return Err(PoolPanic::AlreadyPaused);
        }
        self.paused = true;
        Ok(())
    }

    /// Resume distributions (admin only).
    pub fn unpause(&mut self, caller: Address) -> (r: Result<(), PoolPanic>)
        ensures
            r == checked(
                if old(self).admin_failure(caller) is Some {
                    old(self).admin_failure(caller)
                } else if !old(self).paused {
                    Some(PoolPanic::NotPaused)
                } else {
                    None
                },
            ),
            r is Ok ==> *final(self) == (RevenuePool { paused: false, ..*old(self) }),
            r is Err ==> *final(self) == *old(self),
    {
        self.require_admin(caller)?;
        if !self.paused {
            return Err(PoolPanic::NotPaused);
        }
        self.paused = false;
        Ok(())
    }

    /// Whether distributions are stopped.
    pub fn is_paused(&self) -> (r: bool)
        ensures
            r == self.paused,
    {
        self.paused
    }

    /// Check that `caller` may report a payment (admin only); a payment
    /// changes no stored state.
    pub fn receive_payment(&self, caller: Address, amount: i128, from_vault: bool) -> (r: Result<
        (),
        PoolPanic,
    >)
        ensures
            r == checked(self.admin_failure(caller)),
    {
        self.require_admin(caller)
    }

    /// The first failing check of `deposit_yield`.
    pub open spec fn deposit_yield_failure(&self, treasury: Address, amount: i128) -> Option<
        PoolPanic,
    > {
        if self.admin_failure(treasury) is Some {
            self.admin_failure(treasury)
        } else if amount <= 0 {
            Some(PoolPanic::AmountNotPositive)
        } else if self.cumulative_yield + amount > i128::MAX {
            Some(PoolPanic::CumulativeYieldOverflow)
        } else if self.usdc is None {
            Some(PoolPanic::NotInitialized)
        } else {
            None
        }
    }

    /// Record a yield deposit of `amount` by the treasury (the admin);
    /// returns the new cumulative total.
    pub fn deposit_yield(&mut self, treasury: Address, amount: i128) -> (r: Result<i128, PoolPanic>)
        ensures
            old(self).deposit_yield_failure(treasury, amount) matches Some(e) ==> r == Err::<
                i128,
                PoolPanic,
            >(e) && *final(self) == *old(self),
            old(self).deposit_yield_failure(treasury, amount) is None ==> {
                let t = (old(self).cumulative_yield + amount) as i128;
                &&& r == Ok::<i128, PoolPanic>(t)
                &&& *final(self) == (RevenuePool { cumulative_yield: t, ..*old(self) })
            },
    {
        self.require_admin(treasury)?;
        if amount <= 0 {
            return Err(PoolPanic::AmountNotPositive);
        }
        let total = match self.cumulative_yield.checked_add(amount) {
            Some(t) => t,
            None => {
                return Err(PoolPanic::CumulativeYieldOverflow);
            },
        };
        if self.usdc.is_none() {
            return Err(PoolPanic::NotInitialized);
        }
        self.cumulative_yield = total;
        Ok(total)
    }

    /// Total yield deposited so far.
    pub fn get_cumulative_yield_deposited(&self) -> (r: i128)
        ensures
            r == self.cumulative_yield,
    {
        self.cumulative_yield
    }

    /// The cap on a single distribution.
    pub fn get_max_distribute(&self) -> (r: i128)
        ensures
            r == self.max_distribute,
    {
        self.max_distribute
    }

    /// Set the distribution cap (admin only; positive); returns the
    /// previous cap.
    pub fn set_max_distribute(&mut self, caller: Address, max_distribute: i128) -> (r: Result<
        i128,
        PoolPanic,
    >)
        requires
            old(self).wf(),
        ensures
            final(self).wf(),
            old(self).admin_failure(caller) matches Some(e) ==> r == Err::<i128, PoolPanic>(e),
            old(self).admin_failure(caller) is None && max_distribute <= 0 ==> r == Err::<
                i128,
                PoolPanic,
            >(PoolPanic::MaxDistributeNotPositive),
            old(self).admin_failure(caller) is None && max_distribute > 0 ==> r == Ok::<
                i128,
                PoolPanic,
            >(old(self).max_distribute),
            r is Ok ==> *final(self) == (RevenuePool { max_distribute, ..*old(self) }),
            r is Err ==> *final(self) == *old(self),
    {
        self.require_admin(caller)?;
        if max_distribute <= 0 {
            return Err(PoolPanic::MaxDistributeNotPositive);
        }
        let old_max = self.max_distribute;
        self.max_distribute = max_distribute;
        Ok(old_max)
    }

    /// The first failing check of `distribute`, given whether the
    /// recipient's USDC balance can be read (it has a trustline) and the
    /// pool's USDC holdings.
    pub open spec fn distribute_failure(
        &self,
        caller: Address,
        to: Address,
        amount: i128,
        recipient_has_trustline: bool,
        pool_balance: i128,
    ) -> Option<PoolPanic> {
        if self.paused {
            Some(PoolPanic::Paused)
        } else if self.admin_failure(caller) is Some {
            self.admin_failure(caller)
        } else if amount <= 0 {
            Some(PoolPanic::AmountNotPositive)
        } else if amount > self.max_distribute {
            Some(PoolPanic::AmountExceedsMaxDistribute)
        } else if self.usdc is None {
            Some(PoolPanic::NotInitialized)
        } else if to == self.contract {
            Some(PoolPanic::RecipientIsContract)
        } else if !recipient_has_trustline {
            Some(PoolPanic::RecipientHasNoTrustline)
        } else if pool_balance < amount {
            Some(PoolPanic::InsufficientBalance)
        } else {
            None
        }
    }

    /// Abort with `Paused` while the pool is paused.
    fn require_not_paused(&self) -> (r: Result<(), PoolPanic>)
        ensures
            r == (if self.paused {
                Err(PoolPanic::Paused)
            } else {
                Ok::<(), PoolPanic>(())
            }),
    {
        if self.paused {
            return Err(PoolPanic::Paused);
        }
        Ok(())
    }

    /// Check a distribution of `amount` USDC to `to` (admin only, not
    /// paused, within the cap and the pool's holdings `pool_balance`).
    pub fn distribute(
        &self,
        caller: Address,
        to: Address,
        amount: i128,
        recipient_has_trustline: bool,
        pool_balance: i128,
    ) -> (r: Result<(), PoolPanic>)
        ensures
            r == checked(
                self.distribute_failure(caller, to, amount, recipient_has_trustline, pool_balance),
            ),
    {
        self.require_not_paused()?;
        self.require_admin(caller)?;
        if amount <= 0 {
            return Err(PoolPanic::AmountNotPositive);
        }
        if amount > self.max_distribute {
            return Err(PoolPanic::AmountExceedsMaxDistribute);
        }
        if self.usdc.is_none() {
            return Err(PoolPanic::NotInitialized);
        }
        if to == self.contract {
            return Err(PoolPanic::RecipientIsContract);
        }
        if !recipient_has_trustline {
            return Err(PoolPanic::RecipientHasNoTrustline);
        }
        if pool_balance < amount {
            return Err(PoolPanic::InsufficientBalance);
        }
        Ok(())
    }

    /// The first failing check of `batch_distribute`.
    pub open spec fn batch_distribute_failure(
        &self,
        caller: Address,
        payments: Seq<(Address, i128)>,
        pool_balance: i128,
    ) -> Option<PoolFailure> {
        if self.paused {
            Some(PoolFailure::Panic(PoolPanic::Paused))
        } else if self.admin_failure(caller) is Some {
            Some(PoolFailure::Panic(self.admin_failure(caller).unwrap()))
        } else if payments.len() == 0 {
            Some(PoolFailure::Error(RevenuePoolError::BatchEmpty))
        } else if payments.len() > MAX_BATCH_SIZE {
            Some(PoolFailure::Error(RevenuePoolError::BatchTooLarge))
        } else if batch_scan(payments, self.max_distribute) is Err {
            match batch_scan(payments, self.max_distribute) {
                Err(e) => Some(PoolFailure::Panic(e)),
                Ok(_) => None,
            }
        } else if self.usdc is None {
            Some(PoolFailure::Panic(PoolPanic::NotInitialized))
        } else if pool_balance < payments_total(payments) {
            Some(PoolFailure::Panic(PoolPanic::InsufficientBalance))
        } else if exists|i: int| 0 <= i < payments.len() && (#[trigger] payments[i]).0 == self.contract {
            Some(PoolFailure::Panic(PoolPanic::RecipientIsContract))
        } else {
            None
        }
    }

    /// Whether `to` is a recipient among the first `n` payments.
    fn seen_before(payments: &Vec<(Address, i128)>, n: usize, to: Address) -> (r: bool)
        requires
            n <= payments@.len(),
        ensures
            r == exists|j: int| 0 <= j < n && (#[trigger] payments@[j]).0 == to,
    {
        let mut j: usize = 0;
        while j < n
            invariant
                n <= payments@.len(),
                0 <= j <= n,
                forall|k: int| 0 <= k < j ==> (#[trigger] payments@[k]).0 != to,
            decreases n - j,
        {
            if payments[j].0 == to {
                return true;
            }
            j = j + 1;
        }
        false
    }

    /// Check a batch of distributions (admin only, not paused): 1 to 50
    /// payments to distinct recipients, each positive and within the cap,
    /// all covered by the pool's holdings `pool_balance`. Returns the total.
    pub fn batch_distribute(
        &self,
        caller: Address,
        payments: &Vec<(Address, i128)>,
        pool_balance: i128,
    ) -> (r: Result<i128, PoolFailure>)
        ensures
            self.batch_distribute_failure(caller, payments@, pool_balance) matches Some(f) ==> r
                == Err::<i128, PoolFailure>(f),
            self.batch_distribute_failure(caller, payments@, pool_balance) is None ==> r == Ok::<
                i128,
                PoolFailure,
            >(payments_total(payments@) as i128),
    {
        match self.require_not_paused() {
            Ok(()) => {},
            Err(e) => {
                return Err(PoolFailure::Panic(e));
            },
        }
        match self.require_admin(caller) {
            Ok(()) => {},
            Err(e) => {
                return Err(PoolFailure::Panic(e));
            },
        }
        let n = payments.len();
        if n == 0 {
            return Err(PoolFailure::Error(RevenuePoolError::BatchEmpty));
        }
        if n > 50 {
            return Err(PoolFailure::Error(RevenuePoolError::BatchTooLarge));
        }
        let max = self.max_distribute;
        let mut total: i128 = 0;
        let mut i: usize = 0;
        proof {
            assert(payments@.subrange(0, 0) =~= Seq::<(Address, i128)>::empty());
        }
        while i < n
            invariant
                n == payments@.len(),
                0 < n <= MAX_BATCH_SIZE,
                !self.paused,
                self.admin_failure(caller) is None,
                0 <= i <= n,
                max == self.max_distribute,
                batch_scan(payments@.subrange(0, i as int), max) == Ok::<int, PoolPanic>(
                    total as int,
                ),
            decreases n - i,
        {
            let (to, amount) = payments[i];
            let ghost prefix = payments@.subrange(0, i + 1);
            proof {
                assert(prefix.drop_last() =~= payments@.subrange(0, i as int));
                assert(prefix.last() == payments@[i as int]);
            }
            let dup = Self::seen_before(payments, i, to);
            proof {
                assert(dup == exists|j: int|
                    0 <= j < prefix.drop_last().len() && (#[trigger] prefix.drop_last()[j]).0
                        == to) by {
                    if dup {
                        let j = choose|j: int| 0 <= j < i && (#[trigger] payments@[j]).0 == to;
                        assert(prefix.drop_last()[j] == payments@[j]);
                    }
                    if exists|j: int|
                        0 <= j < prefix.drop_last().len() && (#[trigger] prefix.drop_last()[j]).0
                            == to {
                        let j = choose|j: int|
                            0 <= j < prefix.drop_last().len() && (#[trigger] prefix.drop_last()[j]).0
                                == to;
                        assert(prefix.drop_last()[j] == payments@[j]);
                    }
                }
            }
            let step = if dup {
                Err(PoolPanic::DuplicateRecipient)
            } else if amount <= 0 {
                Err(PoolPanic::AmountNotPositive)
            } else if amount > max {
                Err(PoolPanic::AmountExceedsMaxDistribute)
            } else {
                match total.checked_add(amount) {
                    Some(t) => Ok(t),
                    None => Err(PoolPanic::TotalOverflow),
                }
            };
            match step {
                Ok(t) => {
                    total = t;
                },
                Err(e) => {
                    proof {
                        lemma_batch_scan_err_extends(payments@, max, i + 1);
                    }
                    return Err(PoolFailure::Panic(e));
                },
            }
            i = i + 1;
        }
        proof {
            assert(payments@.subrange(0, n as int) =~= payments@);
            lemma_batch_scan_ok(payments@, max);
        }
        if self.usdc.is_none() {
            return Err(PoolFailure::Panic(PoolPanic::NotInitialized));
        }
        if pool_balance < total {
            return Err(PoolFailure::Panic(PoolPanic::InsufficientBalance));
        }
        let mut k: usize = 0;
        while k < n
            invariant
                n == payments@.len(),
                0 < n <= MAX_BATCH_SIZE,
                !self.paused,
                self.admin_failure(caller) is None,
                self.usdc is Some,
                batch_scan(payments@, self.max_distribute) == Ok::<int, PoolPanic>(
                    payments_total(payments@),
                ),
                pool_balance >= payments_total(payments@),
                0 <= k <= n,
                forall|j: int| 0 <= j < k ==> (#[trigger] payments@[j]).0 != self.contract,
            decreases n - k,
        {
            if payments[k].0 == self.contract {
                return Err(PoolFailure::Panic(PoolPanic::RecipientIsContract));
            }
            k = k + 1;
        }
        Ok(total)
    }

    /// Record the code hash of an upgrade (admin only).
    pub fn upgrade(&mut self, caller: Address, new_wasm_hash: Vec<u8>) -> (r: Result<(), PoolPanic>)
        ensures
            r == checked(old(self).admin_failure(caller)),
            r is Ok ==> *final(self) == (RevenuePool { version: Some(new_wasm_hash), ..*old(self) }),
            r is Err ==> *final(self) == *old(self),
    {
        self.require_admin(caller)?;
        self.version = Some(new_wasm_hash);
        Ok(())
    }

    /// The code hash recorded by the last upgrade, if any.
    pub fn get_version(&self) -> (r: Option<Vec<u8>>)
        ensures
            r is Some == self.version is Some,
            r is Some ==> r.unwrap()@ == self.version.unwrap()@,
    {
        match &self.version {
            Some(v) => Some(v.clone()),
            None => None,
        }
    }

    /// Check an admin broadcast: the admin only, a message of 1 to 256 bytes.
    pub fn broadcast(&self, caller: Address, severity: Severity, message: &Vec<u8>) -> (r: Result<
        (),
        PoolPanic,
    >)
        ensures
            r == checked(
                if self.admin_failure(caller) is Some {
                    self.admin_failure(caller)
                } else if message@.len() == 0 {
                    Some(PoolPanic::MessageEmpty)
                } else if message@.len() > MAX_MESSAGE_LEN {
                    Some(PoolPanic::MessageTooLong)
                } else {
                    None
                },
            ),
    {
        self.require_admin(caller)?;
        if message.len() == 0 {
            return Err(PoolPanic::MessageEmpty);
        }
        if message.len() > 256 {
            return Err(PoolPanic::MessageTooLong);
        }
        Ok(())
    }
}

/// Once a prefix of a batch is refused, the whole batch is.
proof fn lemma_batch_scan_err_extends(payments: Seq<(Address, i128)>, max: i128, k: int)
    requires
        0 <= k <= payments.len(),
        batch_scan(payments.subrange(0, k), max) is Err,
    ensures
        batch_scan(payments, max) == batch_scan(payments.subrange(0, k), max),
    decreases payments.len() - k,
{
    if k < payments.len() {
        assert(payments.subrange(0, k + 1).drop_last() =~= payments.subrange(0, k));
        lemma_batch_scan_err_extends(payments, max, k + 1);
    } else {
        assert(payments.subrange(0, k) =~= payments);
    }
}

/// Where chunk `k` of a list of length `n` cut into chunks of `c` ends.
pub open spec fn chunk_end(n: int, c: int, k: int) -> int {
    if (k + 1) * c < n {
        (k + 1) * c
    } else {
        n
    }
}

/// Split `payments` into consecutive chunks of `chunk_size` (the last one
/// possibly shorter); no chunks for a size of zero.
pub fn chunk_iter(payments: &Vec<(Address, i128)>, chunk_size: u32) -> (r: Vec<
    Vec<(Address, i128)>,
>)
    ensures
        chunk_size == 0 ==> r@.len() == 0,
        chunk_size > 0 ==> r@.len() == (payments@.len() + chunk_size - 1) / chunk_size as int,
        forall|k: int|
            0 <= k < r@.len() ==> (#[trigger] r@[k])@ == payments@.subrange(
                k * chunk_size,
                chunk_end(payments@.len() as int, chunk_size as int, k),
            ),
{
    let mut chunks: Vec<Vec<(Address, i128)>> = Vec::new();
    if chunk_size == 0 {
        return chunks;
    }
    let c = chunk_size as usize;
    let n = payments.len();
    let mut start: usize = 0;
    proof {
        assert(chunks@.len() * c == 0) by (nonlinear_arith)
            requires
                chunks@.len() == 0,
        ;
    }
    while start < n
        invariant
            c == chunk_size as int,
            c > 0,
            n == payments@.len(),
            start <= n,
            start == if chunks@.len() * c < n {
                chunks@.len() * c
            } else {
                n as int
            },
            chunks@.len() == 0 || (chunks@.len() - 1) * c < n,
            forall|k: int|
                0 <= k < chunks@.len() ==> (#[trigger] chunks@[k])@ == payments@.subrange(
                    k * c,
                    chunk_end(n as int, c as int, k),
                ),
        decreases n - start,
    {
        let ghost m = chunks@.len() as int;
        proof {
            assert(m * c + c == (m + 1) * c) by (nonlinear_arith);
        }
        let end: usize = if n - start < c {
            n
        } else {
            start + c
        };
        let mut current: Vec<(Address, i128)> = Vec::new();
        let mut i: usize = start;
        while i < end
            invariant
                start <= i <= end <= n,
                n == payments@.len(),
                current@ == payments@.subrange(start as int, i as int),
            decreases end - i,
        {
            current.push(payments[i]);
            i = i + 1;
            proof {
                assert(current@ =~= payments@.subrange(start as int, i as int));
            }
        }
        chunks.push(current);
        start = end;
    }
    proof {
        let m = chunks@.len() as int;
        assert(m * c >= n);
        assert(m == (n + c - 1) / c as int) by (nonlinear_arith)
            requires
                c > 0,
                m >= 0,
                m * c >= n,
                m == 0 || (m - 1) * c < n,
        ;
    }
    chunks
}

} // verus!
