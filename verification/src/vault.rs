//! The Callora vault: a prepaid USDC balance that an owner funds and an
//! authorized backend deducts from, with a pause circuit breaker.
//!
//! # Pause circuit breaker
//! While the vault is paused, deposits and (batch) deducts are refused;
//! owner withdrawals and admin distributions stay allowed for emergency
//! recovery, as do configuration calls.
//!
//! # Request-id idempotency
//! A deduct may carry a request id. The first successful deduct with an id
//! records it; every later deduct carrying the same id is refused with
//! [`VaultError::DuplicateRequestId`], so a backend may retry safely.
//!
//! # Model
//! [`CalloraVault`] holds, as plain values, what the contract keeps in
//! storage. Addresses are the integers by which accounts and contracts are
//! identified; strings are their bytes. Each operation checks its inputs
//! against the state in the contract's order and either changes the state as
//! the contract does or leaves it untouched and names the error. Token
//! transfers and the settlement notification that accompany a successful
//! deduct, deposit or withdrawal are made by the host around these calls:
//! the contract's amounts and parties are fixed by the arguments and the
//! state, as each contract below states. Signatures are checked by the host
//! before a call reaches this model.

use vstd::prelude::*;
use crate::bytes::{ByteMap, ByteSet, distinct_bytes};
use crate::errors::VaultError;
use crate::text::parse_i128_spec;

verus! {

/// An account or contract address.
pub type Address = u64;

/// Default cap on a single deduct: no cap.
pub const DEFAULT_MAX_DEDUCT: i128 = 170141183460469231731687303715884105727i128;

/// Default minimum deposit.
pub const DEFAULT_MIN_DEPOSIT: i128 = 1;

/// Maximum number of items in one `batch_deduct`.
pub const MAX_BATCH_SIZE: u32 = 50;

/// Maximum byte length of offering metadata.
pub const MAX_METADATA_LEN: u32 = 256;

/// Maximum byte length of an offering id.
pub const MAX_OFFERING_ID_LEN: u32 = 64;

/// Maximum number of prices returned by one `list_prices` call.
pub const MAX_LIST_PRICES_LIMIT: u32 = 100;

/// Core vault record: owner, tracked balance, optional deduct caller and
/// minimum deposit.
#[derive(Clone, Copy, Debug, PartialEq, Eq)]
pub struct VaultMeta {
    pub owner: Address,
    pub balance: i128,
    pub authorized_caller: Option<Address>,
    pub min_deposit: i128,
}

/// One item of a batch deduct.
#[derive(Clone, Debug, PartialEq, Eq)]
pub struct DeductItem {
    pub amount: i128,
    pub request_id: Option<Vec<u8>>,
}

/// Payload of the `withdraw` and `withdraw_to` events.
#[derive(Clone, Copy, Debug, PartialEq, Eq)]
pub struct WithdrawEventData {
    pub amount: i128,
    pub new_balance: i128,
}

/// The vault's stored state.
pub struct CalloraVault {
    /// The vault contract's own address.
    pub contract: Address,
    /// Present once the vault is initialized.
    pub meta: Option<VaultMeta>,
    pub admin: Option<Address>,
    pub usdc_token: Option<Address>,
    pub settlement: Option<Address>,
    pub revenue_pool: Option<Address>,
    pub max_deduct: Option<i128>,
    pub paused: bool,
    pub pending_owner: Option<Address>,
    pub pending_admin: Option<Address>,
    /// A proposed revenue pool; `Some(None)` proposes clearing it.
    pub pending_revenue_pool: Option<Option<Address>>,
    /// Allowed depositors, in the order they were added, without repetition.
    pub depositors: Vec<Address>,
    /// Rotation counter of the authorized caller.
    pub caller_nonce: u64,
    /// Code hash recorded by the last upgrade.
    pub version: Option<Vec<u8>>,
    pub metadata: ByteMap,
    pub prices: ByteMap,
    /// Offering ids that have a price, in the order they were first priced.
    pub offering_index: Vec<Vec<u8>>,
    /// Request ids of processed deducts.
    pub processed: ByteSet,
    /// Request ids recorded by earlier contract versions in temporary storage.
    pub legacy_processed: ByteSet,
}

/// `Ok(())` when no check failed, else the first failure.
pub open spec fn outcome(f: Option<VaultError>) -> Result<(), VaultError> {
    match f {
        Some(e) => Err(e),
        None => Ok(()),
    }
}

/// Every price in `prices` parses to a positive amount.
pub open spec fn prices_positive(prices: Map<Seq<u8>, Seq<u8>>) -> bool {
    forall|k: Seq<u8>| #[trigger]
        prices.contains_key(k) ==> parse_i128_spec(prices[k]) is Some && parse_i128_spec(
            prices[k],
        ).unwrap() > 0
}

impl CalloraVault {
    /// Invariant of the stored state: the tracked balance is never negative,
    /// the minimum deposit and the deduct cap are positive, every stored
    /// price parses to a positive amount, collections hold no duplicates.
    pub open spec fn wf(&self) -> bool {
        &&& self.meta matches Some(m) ==> m.balance >= 0 && m.min_deposit > 0
        &&& self.max_deduct matches Some(x) ==> x > 0
        &&& self.depositors@.no_duplicates()
        &&& self.metadata.wf()
        &&& self.prices.wf()
        &&& prices_positive(self.prices.view())
        &&& distinct_bytes(self.offering_index@)
        &&& self.processed.wf()
        &&& self.legacy_processed.wf()
    }

    /// The deduct cap in force.
    pub open spec fn spec_max_deduct(&self) -> i128 {
        match self.max_deduct {
            Some(x) => x,
            None => DEFAULT_MAX_DEDUCT,
        }
    }

    /// The tracked balance (zero before initialization).
    pub open spec fn spec_balance(&self) -> i128 {
        match self.meta {
            Some(m) => m.balance,
            None => 0,
        }
    }

    /// `request_id` was already processed.
    pub open spec fn spec_processed(&self, request_id: Seq<u8>) -> bool {
        self.processed.view().contains(request_id) || self.legacy_processed.view().contains(
            request_id,
        )
    }

    /// Failure of the owner check for `caller`.
    pub open spec fn owner_failure(&self, caller: Address) -> Option<VaultError> {
        match self.meta {
            None => Some(VaultError::NotInitialized),
            Some(m) => if caller != m.owner {
                Some(VaultError::Unauthorized)
            } else {
                None
            },
        }
    }

    /// Failure of the admin check for `caller`.
    pub open spec fn admin_failure(&self, caller: Address) -> Option<VaultError> {
        match self.admin {
            None => Some(VaultError::NotInitialized),
            Some(a) => if caller != a {
                Some(VaultError::Unauthorized)
            } else {
                None
            },
        }
    }

    /// Failure of the admin-or-owner check for `caller`.
    pub open spec fn admin_or_owner_failure(&self, caller: Address) -> Option<VaultError> {
        match (self.admin, self.meta) {
            (None, _) => Some(VaultError::NotInitialized),
            (_, None) => Some(VaultError::NotInitialized),
            (Some(a), Some(m)) => if caller != a && caller != m.owner {
                Some(VaultError::Unauthorized)
            } else {
                None
            },
        }
    }

    /// Failure of the deduct-caller check for `caller`: the owner, or the
    /// authorized caller when one is set.
    pub open spec fn deduct_caller_failure(&self, caller: Address) -> Option<VaultError> {
        match self.meta {
            None => Some(VaultError::NotInitialized),
            Some(m) => if caller == m.owner || m.authorized_caller == Some(caller) {
                None
            } else {
                Some(VaultError::Unauthorized)
            },
        }
    }

    /// A fresh, uninitialized vault deployed at `contract`.
    pub fn new(contract: Address) -> (r: CalloraVault)
        ensures
            r.wf(),
            r.contract == contract,
            r.meta is None,
            r.admin is None,
            r.usdc_token is None,
            r.settlement is None,
            r.revenue_pool is None,
            r.max_deduct is None,
            !r.paused,
            r.pending_owner is None,
            r.pending_admin is None,
            r.pending_revenue_pool is None,
            r.depositors@.len() == 0,
            r.caller_nonce == 0,
            r.version is None,
            r.metadata.view() == Map::<Seq<u8>, Seq<u8>>::empty(),
            r.prices.view() == Map::<Seq<u8>, Seq<u8>>::empty(),
            r.offering_index@.len() == 0,
            r.processed.view() == Set::<Seq<u8>>::empty(),
            r.legacy_processed.view() == Set::<Seq<u8>>::empty(),
    {
        CalloraVault {
            contract,
            meta: None,
            admin: None,
            usdc_token: None,
            settlement: None,
            revenue_pool: None,
            max_deduct: None,
            paused: false,
            pending_owner: None,
            pending_admin: None,
            pending_revenue_pool: None,
            depositors: Vec::new(),
            caller_nonce: 0,
            version: None,
            metadata: ByteMap::new(),
            prices: ByteMap::new(),
            offering_index: Vec::new(),
            processed: ByteSet::new(),
            legacy_processed: ByteSet::new(),
        }
    }

    /// The first failing check of `init`, in the contract's order.
    pub open spec fn init_failure(
        &self,
        usdc_token: Address,
        initial_balance: Option<i128>,
        authorized_caller: Option<Address>,
        min_deposit: Option<i128>,
        revenue_pool: Option<Address>,
        max_deduct: Option<i128>,
        on_ledger_balance: i128,
    ) -> Option<VaultError> {
        let balance = match initial_balance {
            Some(b) => b,
            None => 0,
        };
        let min_d = match min_deposit {
            Some(m) => m,
            None => DEFAULT_MIN_DEPOSIT,
        };
        let max_d = match max_deduct {
            Some(m) => m,
            None => DEFAULT_MAX_DEDUCT,
        };
        if self.meta is Some {
            Some(VaultError::AlreadyInitialized)
        } else if usdc_token == self.contract {
            Some(VaultError::UsdcTokenCannotBeVault)
        } else if revenue_pool == Some(self.contract) {
            Some(VaultError::RevenuePoolCannotBeVault)
        } else if authorized_caller == Some(self.contract) {
            Some(VaultError::AuthorizedCallerCannotBeVault)
        } else if balance < 0 {
            Some(VaultError::InitialBalanceNegative)
        } else if min_d <= 0 {
            Some(VaultError::MinDepositNotPositive)
        } else if max_d <= 0 {
            Some(VaultError::MaxDeductNotPositive)
        } else if min_d > max_d {
            Some(VaultError::MinDepositExceedsMaxDeduct)
        } else if balance > 0 && on_ledger_balance < balance {
            Some(VaultError::InitialBalanceExceedsOnLedger)
        } else {
            None
        }
    }

    /// Initialize the vault; exactly once.
    ///
    /// `on_ledger_balance` is the vault's USDC balance held by the token
    /// contract; it is consulted only when `initial_balance` is positive, and
    /// the vault must hold at least that much. The owner becomes the admin;
    /// the minimum deposit defaults to 1 and the deduct cap to no cap.
    pub fn init(
        &mut self,
        owner: Address,
        usdc_token: Address,
        initial_balance: Option<i128>,
        authorized_caller: Option<Address>,
        min_deposit: Option<i128>,
        revenue_pool: Option<Address>,
        max_deduct: Option<i128>,
        on_ledger_balance: i128,
    ) -> (r: Result<VaultMeta, VaultError>)
        requires
            old(self).wf(),
        ensures
            final(self).wf(),
            match old(self).init_failure(
                usdc_token,
                initial_balance,
                authorized_caller,
                min_deposit,
                revenue_pool,
                max_deduct,
                on_ledger_balance,
            ) {
                Some(e) => r == Err::<VaultMeta, VaultError>(e) && *final(self) == *old(self),
                None => {
                    let meta = VaultMeta {
                        owner,
                        balance: match initial_balance {
                            Some(b) => b,
                            None => 0,
                        },
                        authorized_caller,
                        min_deposit: match min_deposit {
                            Some(m) => m,
                            None => DEFAULT_MIN_DEPOSIT,
                        },
                    };
                    &&& r == Ok::<VaultMeta, VaultError>(meta)
                    &&& *final(self) == (CalloraVault {
                        meta: Some(meta),
                        usdc_token: Some(usdc_token),
                        admin: Some(owner),
                        revenue_pool: match revenue_pool {
                            Some(p) => Some(p),
                            None => old(self).revenue_pool,
                        },
                        max_deduct: Some(
                            match max_deduct {
                                Some(m) => m,
                                None => DEFAULT_MAX_DEDUCT,
                            },
                        ),
                        ..*old(self)
                    })
                },
            },
    {
        if self.meta.is_some() {
            return Err(VaultError::AlreadyInitialized);
        }
        if usdc_token == self.contract {
            return Err(VaultError::UsdcTokenCannotBeVault);
        }
        if let Some(p) = revenue_pool {
            if p == self.contract {
                return Err(VaultError::RevenuePoolCannotBeVault);
            }
        }
        if let Some(ac) = authorized_caller {
            if ac == self.contract {
                return Err(VaultError::AuthorizedCallerCannotBeVault);
            }
        }
        let balance = match initial_balance {
            Some(b) => b,
            None => 0,
        };
        if balance < 0 {
            return Err(VaultError::InitialBalanceNegative);
        }
        let min_d = match min_deposit {
            Some(m) => m,
            None => DEFAULT_MIN_DEPOSIT,
        };
        if min_d <= 0 {
            return Err(VaultError::MinDepositNotPositive);
        }
        let max_d = match max_deduct {
            Some(m) => m,
            None => DEFAULT_MAX_DEDUCT,
        };
        if max_d <= 0 {
            return Err(VaultError::MaxDeductNotPositive);
        }
        if min_d > max_d {
            return Err(VaultError::MinDepositExceedsMaxDeduct);
        }
        if balance > 0 {
            if on_ledger_balance < balance {
                return Err(VaultError::InitialBalanceExceedsOnLedger);
            }
        }
        let meta = VaultMeta { owner, balance, authorized_caller, min_deposit: min_d };
        self.meta = Some(meta);
        self.usdc_token = Some(usdc_token);
        self.admin = Some(owner);
        if let Some(p) = revenue_pool {
            self.revenue_pool = Some(p);
        }
        self.max_deduct = Some(max_d);
        Ok(meta)
    }

    // ------------------------------------------------------------------
    // Views
    // ------------------------------------------------------------------

    /// The vault record; `NotInitialized` before `init`.
    pub fn get_meta(&self) -> (r: Result<VaultMeta, VaultError>)
        ensures
            r == match self.meta {
                Some(m) => Ok::<VaultMeta, VaultError>(m),
                None => Err(VaultError::NotInitialized),
            },
    {
        match self.meta {
            Some(m) => Ok(m),
            None => Err(VaultError::NotInitialized),
        }
    }

    /// The tracked USDC balance; `NotInitialized` before `init`.
    pub fn balance(&self) -> (r: Result<i128, VaultError>)
        ensures
            r == match self.meta {
                Some(m) => Ok::<i128, VaultError>(m.balance),
                None => Err(VaultError::NotInitialized),
            },
    {
        match self.meta {
            Some(m) => Ok(m.balance),
            None => Err(VaultError::NotInitialized),
        }
    }

    /// The admin; `NotInitialized` before `init`.
    pub fn get_admin(&self) -> (r: Result<Address, VaultError>)
        ensures
            r == match self.admin {
                Some(a) => Ok::<Address, VaultError>(a),
                None => Err(VaultError::NotInitialized),
            },
    {
        match self.admin {
            Some(a) => Ok(a),
            None => Err(VaultError::NotInitialized),
        }
    }

    /// The USDC token contract; `NotInitialized` before `init`.
    pub fn get_usdc_token(&self) -> (r: Result<Address, VaultError>)
        ensures
            r == match self.usdc_token {
                Some(a) => Ok::<Address, VaultError>(a),
                None => Err(VaultError::NotInitialized),
            },
    {
        match self.usdc_token {
            Some(a) => Ok(a),
            None => Err(VaultError::NotInitialized),
        }
    }

    /// The deduct cap; no cap when none was set.
    pub fn get_max_deduct(&self) -> (r: i128)
        ensures
            r == self.spec_max_deduct(),
    {
        match self.max_deduct {
            Some(x) => x,
            None => DEFAULT_MAX_DEDUCT,
        }
    }

    /// The settlement contract; `SettlementNotSet` until one is set.
    pub fn get_settlement(&self) -> (r: Result<Address, VaultError>)
        ensures
            r == match self.settlement {
                Some(a) => Ok::<Address, VaultError>(a),
                None => Err(VaultError::SettlementNotSet),
            },
    {
        match self.settlement {
            Some(a) => Ok(a),
            None => Err(VaultError::SettlementNotSet),
        }
    }

    /// The revenue pool, if set.
    pub fn get_revenue_pool(&self) -> (r: Option<Address>)
        ensures
            r == self.revenue_pool,
    {
        self.revenue_pool
    }

    /// The pending owner, if an ownership transfer is in progress.
    pub fn get_pending_owner(&self) -> (r: Option<Address>)
        ensures
            r == self.pending_owner,
    {
        self.pending_owner
    }

    /// The pending admin, if an admin transfer is in progress.
    pub fn get_pending_admin(&self) -> (r: Option<Address>)
        ensures
            r == self.pending_admin,
    {
        self.pending_admin
    }

    /// The proposed revenue pool, if a proposal naming one is pending.
    ///
    /// A pending proposal to clear the pool is stored as an empty value that
    /// the contract cannot read back as an address; that state is excluded.
    pub fn get_pending_revenue_pool(&self) -> (r: Option<Address>)
        requires
            self.pending_revenue_pool != Some(None::<Address>),
        ensures
            r == match self.pending_revenue_pool {
                Some(Some(a)) => Some(a),
                _ => None::<Address>,
            },
    {
        match self.pending_revenue_pool {
            Some(Some(a)) => Some(a),
            _ => None,
        }
    }

    /// `(usdc_token, settlement, revenue_pool)` in one call.
    pub fn get_contract_addresses(&self) -> (r: (Option<Address>, Option<Address>, Option<Address>))
        ensures
            r == (self.usdc_token, self.settlement, self.revenue_pool),
    {
        (self.usdc_token, self.settlement, self.revenue_pool)
    }

    /// Whether the vault is paused (false before the first pause).
    pub fn is_paused(&self) -> (r: bool)
        ensures
            r == self.paused,
    {
        self.paused
    }

    /// The current authorized-caller rotation nonce (0 before the first rotation).
    pub fn get_authorized_caller_nonce(&self) -> (r: u64)
        ensures
            r == self.caller_nonce,
    {
        self.caller_nonce
    }

    /// Whether `caller` may deposit: the owner or an allowed depositor.
    pub fn is_authorized_depositor(&self, caller: Address) -> (r: Result<bool, VaultError>)
        ensures
            r == match self.meta {
                None => Err(VaultError::NotInitialized),
                Some(m) => Ok::<bool, VaultError>(
                    caller == m.owner || self.depositors@.contains(caller),
                ),
            },
    {
        let meta = match self.meta {
            Some(m) => m,
            None => {
                return Err(VaultError::NotInitialized);
            },
        };
        if caller == meta.owner {
            return Ok(true);
        }
        Ok(contains_address(&self.depositors, caller))
    }

    /// The allowed depositors, in the order they were added.
    pub fn get_allowed_depositors(&self) -> (r: Vec<Address>)
        ensures
            r@ == self.depositors@,
    {
        self.depositors.clone()
    }

    /// The allowed depositors (alias of [`Self::get_allowed_depositors`]).
    pub fn get_allowlist(&self) -> (r: Vec<Address>)
        ensures
            r@ == self.depositors@,
    {
        self.depositors.clone()
    }

    /// The code hash recorded by the last upgrade, if any.
    pub fn get_version(&self) -> (r: Option<Vec<u8>>)
        ensures
            r is Some == self.version is Some,
            r is Some ==> r.unwrap()@ == self.version.unwrap()@,
    {
        match &self.version {
            Some(v) => Some(v.clone()),
            None => None,
        }
    }

    // ------------------------------------------------------------------
    // Checks shared by the operations
    // ------------------------------------------------------------------

    /// `Unauthorized` unless `caller` is the owner.
    pub fn require_owner(&self, caller: Address) -> (r: Result<(), VaultError>)
        ensures
            r == outcome(self.owner_failure(caller)),
    {
        match self.meta {
            None => Err(VaultError::NotInitialized),
            Some(m) => if caller != m.owner {
                Err(VaultError::Unauthorized)
            } else {
                Ok(())
            },
        }
    }

    fn require_admin(&self, caller: Address) -> (r: Result<(), VaultError>)
        ensures
            r == outcome(self.admin_failure(caller)),
    {
        match self.admin {
            None => Err(VaultError::NotInitialized),
            Some(a) => if caller != a {
                Err(VaultError::Unauthorized)
            } else {
                Ok(())
            },
        }
    }

    fn require_admin_or_owner(&self, caller: Address) -> (r: Result<(), VaultError>)
        ensures
            r == outcome(self.admin_or_owner_failure(caller)),
    {
        let admin = match self.admin {
            Some(a) => a,
            None => {
                return Err(VaultError::NotInitialized);
            },
        };
        let meta = match self.meta {
            Some(m) => m,
            None => {
                return Err(VaultError::NotInitialized);
            },
        };
        if caller != admin && caller != meta.owner {
            return Err(VaultError::Unauthorized);
        }
        Ok(())
    }

    pub(crate) fn require_authorized_deduct_caller(&self, caller: Address) -> (r: Result<
        (),
        VaultError,
    >)
        ensures
            r == outcome(self.deduct_caller_failure(caller)),
    {
        let meta = match self.meta {
            Some(m) => m,
            None => {
                return Err(VaultError::NotInitialized);
            },
        };
        let auth = match meta.authorized_caller {
            Some(ac) => caller == ac || caller == meta.owner,
            None => caller == meta.owner,
        };
        if !auth {
            return Err(VaultError::Unauthorized);
        }
        Ok(())
    }

    // ------------------------------------------------------------------
    // Roles
    // ------------------------------------------------------------------

    /// Nominate a new admin (current admin only); takes effect on `accept_admin`.
    pub fn set_admin(&mut self, caller: Address, new_admin: Address) -> (r: Result<(), VaultError>)
        ensures
            r == outcome(old(self).admin_failure(caller)),
            r is Ok ==> *final(self) == (CalloraVault {
                pending_admin: Some(new_admin),
                ..*old(self)
            }),
            r is Err ==> *final(self) == *old(self),
    {
        self.require_admin(caller)?;
        self.pending_admin = Some(new_admin);
        Ok(())
    }

    /// The nominated admin takes the role.
    pub fn accept_admin(&mut self) -> (r: Result<(), VaultError>)
        ensures
            r == match (old(self).pending_admin, old(self).admin) {
                (None, _) => Err(VaultError::NoAdminTransferPending),
                (_, None) => Err(VaultError::NotInitialized),
                _ => Ok(()),
            },
            r is Ok ==> *final(self) == (CalloraVault {
                admin: old(self).pending_admin,
                pending_admin: None,
                ..*old(self)
            }),
            r is Err ==> *final(self) == *old(self),
    {
        let pending = match self.pending_admin {
            Some(p) => p,
            None => {
                return Err(VaultError::NoAdminTransferPending);
            },
        };
        if self.admin.is_none() {
            return Err(VaultError::NotInitialized);
        }
        self.admin = Some(pending);
        self.pending_admin = None;
        Ok(())
    }

    /// Nominate a new owner (owner only); takes effect on `accept_ownership`.
    pub fn transfer_ownership(&mut self, new_owner: Address) -> (r: Result<(), VaultError>)
        ensures
            r == match old(self).meta {
                None => Err(VaultError::NotInitialized),
                Some(m) => if new_owner == m.owner {
                    Err(VaultError::NewOwnerSameAsCurrent)
                } else {
                    Ok(())
                },
            },
            r is Ok ==> *final(self) == (CalloraVault {
                pending_owner: Some(new_owner),
                ..*old(self)
            }),
            r is Err ==> *final(self) == *old(self),
    {
        let meta = match self.meta {
            Some(m) => m,
            None => {
                return Err(VaultError::NotInitialized);
            },
        };
        if new_owner == meta.owner {
            return Err(VaultError::NewOwnerSameAsCurrent);
        }
        self.pending_owner = Some(new_owner);
        Ok(())
    }

    /// The nominated owner takes ownership.
    pub fn accept_ownership(&mut self) -> (r: Result<(), VaultError>)
        requires
            old(self).wf(),
        ensures
            final(self).wf(),
            r == match (old(self).pending_owner, old(self).meta) {
                (None, _) => Err(VaultError::NoOwnershipTransferPending),
                (_, None) => Err(VaultError::NotInitialized),
                _ => Ok(()),
            },
            r is Ok ==> *final(self) == (CalloraVault {
                meta: Some(
                    VaultMeta { owner: old(self).pending_owner.unwrap(), ..old(self).meta.unwrap() },
                ),
                pending_owner: None,
                ..*old(self)
            }),
            r is Err ==> *final(self) == *old(self),
    {
        let pending = match self.pending_owner {
            Some(p) => p,
            None => {
                return Err(VaultError::NoOwnershipTransferPending);
            },
        };
        let mut meta = match self.meta {
            Some(m) => m,
            None => {
                return Err(VaultError::NotInitialized);
            },
        };
        meta.owner = pending;
        self.meta = Some(meta);
        self.pending_owner = None;
        Ok(())
    }

    /// Set or clear the caller allowed to deduct (owner only), guarded by a
    /// rotation nonce: `expected_nonce` must equal the stored nonce, which
    /// then advances by one (wrapping at `u64::MAX`).
    pub fn set_authorized_caller(&mut self, new_caller: Option<Address>, expected_nonce: u64) -> (r:
        Result<(), VaultError>)
        requires
            old(self).wf(),
        ensures
            final(self).wf(),
            r == match old(self).meta {
                None => Err(VaultError::NotInitialized),
                Some(_) => if new_caller == Some(old(self).contract) {
                    Err(VaultError::AuthorizedCallerCannotBeVault)
                } else if expected_nonce != old(self).caller_nonce {
                    Err(VaultError::StaleNonce)
                } else {
                    Ok(())
                },
            },
            r is Ok ==> *final(self) == (CalloraVault {
                meta: Some(VaultMeta { authorized_caller: new_caller, ..old(self).meta.unwrap() }),
                caller_nonce: if old(self).caller_nonce == u64::MAX {
                    0
                } else {
                    (old(self).caller_nonce + 1) as u64
                },
                ..*old(self)
            }),
            r is Err ==> *final(self) == *old(self),
    {
        let mut meta = match self.meta {
            Some(m) => m,
            None => {
                return Err(VaultError::NotInitialized);
            },
        };
        if let Some(nc) = new_caller {
            if nc == self.contract {
                return Err(VaultError::AuthorizedCallerCannotBeVault);
            }
        }
        if expected_nonce != self.caller_nonce {
            return Err(VaultError::StaleNonce);
        }
        let next = if self.caller_nonce == u64::MAX {
            0
        } else {
            self.caller_nonce + 1
        };
        meta.authorized_caller = new_caller;
        self.meta = Some(meta);
        self.caller_nonce = next;
        Ok(())
    }

    /// Set the deduct cap (owner only); it must be positive.
    pub fn set_max_deduct(&mut self, max_deduct: i128) -> (r: Result<(), VaultError>)
        requires
            old(self).wf(),
        ensures
            final(self).wf(),
            r == match old(self).meta {
                None => Err(VaultError::NotInitialized),
                Some(_) => if max_deduct <= 0 {
                    Err(VaultError::MaxDeductNotPositive)
                } else {
                    Ok(())
                },
            },
            r is Ok ==> *final(self) == (CalloraVault {
                max_deduct: Some(max_deduct),
                ..*old(self)
            }),
            r is Err ==> *final(self) == *old(self),
    {
        if self.meta.is_none() {
            return Err(VaultError::NotInitialized);
        }
        if max_deduct <= 0 {
            return Err(VaultError::MaxDeductNotPositive);
        }
        self.max_deduct = Some(max_deduct);
        Ok(())
    }

    /// Store the settlement contract (admin only); deducts are refused until then.
    pub fn set_settlement(&mut self, caller: Address, settlement_address: Address) -> (r: Result<
        (),
        VaultError,
    >)
        ensures
            r == outcome(old(self).admin_failure(caller)),
            r is Ok ==> *final(self) == (CalloraVault {
                settlement: Some(settlement_address),
                ..*old(self)
            }),
            r is Err ==> *final(self) == *old(self),
    {
        self.require_admin(caller)?;
        self.settlement = Some(settlement_address);
        Ok(())
    }

    /// Propose a new revenue pool, or clearing it with `None` (owner only);
    /// a later proposal replaces an earlier one.
    pub fn propose_revenue_pool(&mut self, new_pool: Option<Address>) -> (r: Result<
        (),
        VaultError,
    >)
        ensures
            r == match old(self).meta {
                None => Err(VaultError::NotInitialized),
                Some(_) => match new_pool {
                    Some(p) => if p == old(self).contract {
                        Err(VaultError::RevenuePoolCannotBeVault)
                    } else if old(self).revenue_pool == Some(p) {
                        Err(VaultError::NewRevenuePoolSameAsCurrent)
                    } else {
                        Ok(())
                    },
                    None => Ok(()),
                },
            },
            r is Ok ==> *final(self) == (CalloraVault {
                pending_revenue_pool: Some(new_pool),
                ..*old(self)
            }),
            r is Err ==> *final(self) == *old(self),
    {
        if self.meta.is_none() {
            return Err(VaultError::NotInitialized);
        }
        if let Some(pool) = new_pool {
            if pool == self.contract {
                return Err(VaultError::RevenuePoolCannotBeVault);
            }
            if let Some(cur) = self.revenue_pool {
                if cur == pool {
                    return Err(VaultError::NewRevenuePoolSameAsCurrent);
                }
            }
        }
        self.pending_revenue_pool = Some(new_pool);
        Ok(())
    }

    /// Apply the pending revenue-pool proposal; returns the previous pool.
    pub fn accept_revenue_pool(&mut self) -> (r: Result<Option<Address>, VaultError>)
        ensures
            r == match old(self).pending_revenue_pool {
                None => Err(VaultError::NoRevenuePoolTransferPending),
                Some(_) => Ok::<Option<Address>, VaultError>(old(self).revenue_pool),
            },
            r is Ok ==> *final(self) == (CalloraVault {
                revenue_pool: old(self).pending_revenue_pool.unwrap(),
                pending_revenue_pool: None,
                ..*old(self)
            }),
            r is Err ==> *final(self) == *old(self),
    {
        let pending = match self.pending_revenue_pool {
            Some(p) => p,
            None => {
                return Err(VaultError::NoRevenuePoolTransferPending);
            },
        };
        let previous = self.revenue_pool;
        self.revenue_pool = pending;
        self.pending_revenue_pool = None;
        Ok(previous)
    }

    /// Withdraw the pending revenue-pool proposal (owner only).
    pub fn cancel_revenue_pool(&mut self) -> (r: Result<(), VaultError>)
        ensures
            r == match (old(self).meta, old(self).pending_revenue_pool) {
                (None, _) => Err(VaultError::NotInitialized),
                (_, None) => Err(VaultError::NoRevenuePoolTransferPending),
                _ => Ok(()),
            },
            r is Ok ==> *final(self) == (CalloraVault { pending_revenue_pool: None, ..*old(self) }),
            r is Err ==> *final(self) == *old(self),
    {
        if self.meta.is_none() {
            return Err(VaultError::NotInitialized);
        }
        if self.pending_revenue_pool.is_none() {
            return Err(VaultError::NoRevenuePoolTransferPending);
        }
        self.pending_revenue_pool = None;
        Ok(())
    }

    // ------------------------------------------------------------------
    // Pause
    // ------------------------------------------------------------------

    /// Pause the vault (admin or owner).
    pub fn pause(&mut self, caller: Address) -> (r: Result<(), VaultError>)
        ensures
            r == match old(self).admin_or_owner_failure(caller) {
                Some(e) => Err(e),
                None => if old(self).paused {
                    Err(VaultError::AlreadyPaused)
                } else {
                    Ok(())
                },
            },
            r is Ok ==> *final(self) == (CalloraVault { paused: true, ..*old(self) }),
            r is Err ==> *final(self) == *old(self),
    {
        self.require_admin_or_owner(caller)?;
        if self.paused {
            return Err(VaultError::AlreadyPaused);
        }
        self.paused = true;
        Ok(())
    }

    /// Unpause the vault (admin or owner).
    pub fn unpause(&mut self, caller: Address) -> (r: Result<(), VaultError>)
        ensures
            r == match old(self).admin_or_owner_failure(caller) {
                Some(e) => Err(e),
                None => if !old(self).paused {
                    Err(VaultError::NotPaused)
                } else {
                    Ok(())
                },
            },
            r is Ok ==> *final(self) == (CalloraVault { paused: false, ..*old(self) }),
            r is Err ==> *final(self) == *old(self),
    {
        self.require_admin_or_owner(caller)?;
        if !self.paused {
            return Err(VaultError::NotPaused);
        }
        self.paused = false;
        Ok(())
    }

    // ------------------------------------------------------------------
    // Depositor allowlist
    // ------------------------------------------------------------------

    /// Add `depositor` to the allowlist, or with `None` empty it (owner only).
    pub fn set_allowed_depositor(&mut self, caller: Address, depositor: Option<Address>) -> (r:
        Result<(), VaultError>)
        requires
            old(self).wf(),
        ensures
            final(self).wf(),
            r == outcome(old(self).owner_failure(caller)),
            r is Ok ==> *final(self) == (CalloraVault { depositors: final(self).depositors, ..*old(self) }),
            r is Ok ==> final(self).depositors@ == match depositor {
                Some(d) => if old(self).depositors@.contains(d) {
                    old(self).depositors@
                } else {
                    old(self).depositors@.push(d)
                },
                None => Seq::<Address>::empty(),
            },
            r is Err ==> *final(self) == *old(self),
    {
        self.require_owner(caller)?;
        match depositor {
            Some(d) => {
                self.add_depositor(d);
            },
            None => {
                self.depositors = Vec::new();
            },
        }
        Ok(())
    }

    /// Add `depositor` to the allowlist (owner only).
    pub fn add_address(&mut self, caller: Address, depositor: Address) -> (r: Result<
        (),
        VaultError,
    >)
        requires
            old(self).wf(),
        ensures
            final(self).wf(),
            r == outcome(old(self).owner_failure(caller)),
            r is Ok ==> *final(self) == (CalloraVault { depositors: final(self).depositors, ..*old(self) }),
            r is Ok ==> final(self).depositors@ == if old(self).depositors@.contains(depositor) {
                old(self).depositors@
            } else {
                old(self).depositors@.push(depositor)
            },
            r is Err ==> *final(self) == *old(self),
    {
        self.require_owner(caller)?;
        self.add_depositor(depositor);
        Ok(())
    }

    /// Empty the allowlist (owner only).
    pub fn clear_allowed_depositors(&mut self, caller: Address) -> (r: Result<(), VaultError>)
        requires
            old(self).wf(),
        ensures
            final(self).wf(),
            r == outcome(old(self).owner_failure(caller)),
            r is Ok ==> *final(self) == (CalloraVault { depositors: final(self).depositors, ..*old(self) }),
            r is Ok ==> final(self).depositors@ == Seq::<Address>::empty(),
            r is Err ==> *final(self) == *old(self),
    {
        self.require_owner(caller)?;
        self.depositors = Vec::new();
        Ok(())
    }

    /// Empty the allowlist (alias of [`Self::clear_allowed_depositors`]).
    pub fn clear_all(&mut self, caller: Address) -> (r: Result<(), VaultError>)
        requires
            old(self).wf(),
        ensures
            final(self).wf(),
            r == outcome(old(self).owner_failure(caller)),
            r is Ok ==> *final(self) == (CalloraVault { depositors: final(self).depositors, ..*old(self) }),
            r is Ok ==> final(self).depositors@ == Seq::<Address>::empty(),
            r is Err ==> *final(self) == *old(self),
    {
        self.clear_allowed_depositors(caller)
    }

    fn add_depositor(&mut self, d: Address)
        requires
            old(self).wf(),
        ensures
            final(self).wf(),
            *final(self) == (CalloraVault { depositors: final(self).depositors, ..*old(self) }),
            final(self).depositors@ == if old(self).depositors@.contains(d) {
                old(self).depositors@
            } else {
                old(self).depositors@.push(d)
            },
    {
        if !contains_address(&self.depositors, d) {
            self.depositors.push(d);
            proof {
                assert(self.depositors@.no_duplicates()) by {
                    assert forall|i: int, j: int|
                        0 <= i < self.depositors@.len() && 0 <= j < self.depositors@.len() && i
                            != j implies self.depositors@[i] != self.depositors@[j] by {
                        if i < old(self).depositors@.len() && j < old(self).depositors@.len() {
                            assert(old(self).depositors@[i] != old(self).depositors@[j]);
                        } else if i < old(self).depositors@.len() {
                            assert(old(self).depositors@.contains(old(self).depositors@[i]));
                        } else {
                            assert(old(self).depositors@.contains(old(self).depositors@[j]));
                        }
                    }
                }
            }
        }
    }

    // ------------------------------------------------------------------
    // Upgrade
    // ------------------------------------------------------------------

    /// Record the code hash of an upgrade (admin only).
    pub fn upgrade(&mut self, caller: Address, new_wasm_hash: Vec<u8>) -> (r: Result<
        (),
        VaultError,
    >)
        ensures
            r == outcome(old(self).admin_failure(caller)),
            r is Ok ==> *final(self) == (CalloraVault {
                version: Some(new_wasm_hash),
                ..*old(self)
            }),
            r is Err ==> *final(self) == *old(self),
    {
        self.require_admin(caller)?;
        self.version = Some(new_wasm_hash);
        Ok(())
    }
}

/// Whether `x` is in `v`.
pub fn contains_address(v: &Vec<Address>, x: Address) -> (r: bool)
    ensures
        r == v@.contains(x),
{
    let mut i: usize = 0;
    while i < v.len()
        invariant
            0 <= i <= v@.len(),
            forall|j: int| 0 <= j < i ==> v@[j] != x,
        decreases v@.len() - i,
    {
        if v[i] == x {
            return true;
        }
        i = i + 1;
    }
    false
}

} // verus!
