//! The Callora settlement ledger: receives payments from the vault and
//! credits them to a global pool or to per-developer, per-token balances,
//! from which developers withdraw.
//!
//! # Model
//! [`CalloraSettlement`] holds, as plain values, what the contract keeps in
//! storage. Addresses are integers; developer balances are keyed by the
//! pair (developer, token). Each operation checks its inputs against the
//! state in the contract's order and either changes the state as the contract
//! does or leaves it untouched and names the failure: a coded
//! [`SettlementError`], or one of the contract's plain aborts
//! ([`SettlementPanic`]). The ledger time and the token balances held by the
//! contract are given to the operations that read them.

use vstd::prelude::*;
use std::collections::HashMap;
use crate::errors::SettlementError;
use crate::vault::contains_address;
use crate::settlement_totals::{
    items_total, lemma_credit_appended, lemma_credit_batch, lemma_credit_one, lemma_index_sum_listed,
};

verus! {

/// An account or contract address.
pub type Address = u64;

/// Maximum number of items in one `batch_receive_payment`.
pub const MAX_BATCH_SIZE: u32 = 50;

/// Maximum number of developer balances returned by one page.
pub const MAX_DEVELOPER_BALANCES_PAGE_SIZE: u32 = 100;

/// Maximum byte length of an admin broadcast message.
pub const MAX_MESSAGE_LEN: u32 = 256;

/// Maximum byte length of a force-credit reason.
pub const MAX_REASON_LENGTH: u32 = 32;

/// Seconds in a withdrawal day.
pub const SECONDS_PER_DAY: u64 = 86400;

/// Delay between proposing and executing a developer balance migration.
pub const DEVELOPER_MIGRATION_TIMELOCK_SECONDS: u64 = 172800;

/// Storage layout before per-token balances.
pub const STORAGE_VERSION_V1: u32 = 1;

/// Storage layout with per-token balances.
pub const STORAGE_VERSION_V2: u32 = 2;

/// Global pool balance and the ledger time of its last credit.
#[derive(Clone, Copy, Debug, PartialEq, Eq)]
pub struct GlobalPool {
    pub total_balance: i128,
    pub last_updated: u64,
}

/// A developer's cumulative withdrawals on epoch day `day`
/// (`timestamp / 86400`).
#[derive(Clone, Copy, Debug, PartialEq, Eq)]
pub struct DailyWithdrawState {
    pub day: u64,
    pub amount: i128,
}

/// Inclusive range of ledger timestamps in which a developer may claim.
#[derive(Clone, Copy, Debug, PartialEq, Eq)]
pub struct DeveloperClaimWindow {
    pub start_ts: u64,
    pub end_ts: u64,
}

/// One developer's balance in one token.
#[derive(Clone, Copy, Debug, PartialEq, Eq)]
pub struct DeveloperBalance {
    pub address: Address,
    pub token: Address,
    pub balance: i128,
}

/// A proposed move of a developer's balance to a replacement address.
#[derive(Clone, Copy, Debug, PartialEq, Eq)]
pub struct PendingDeveloperMigration {
    pub from: Address,
    pub to: Address,
    pub token: Address,
    pub amount: i128,
    pub proposed_at: u64,
    pub execute_after: u64,
}

/// Severity of an admin broadcast.
#[derive(Clone, Copy, Debug, PartialEq, Eq)]
pub enum Severity {
    Info,
    Warn,
    Crit,
}

/// The settlement contract's plain aborts, which carry a message instead of
/// an error code.
#[derive(Clone, Copy, Debug, PartialEq, Eq)]
pub enum SettlementPanic {
    AdminIsVault,
    AdminIsContract,
    VaultAddressIsContract,
    NotAdmin,
    UsdcIsContract,
    RecipientIsContract,
    EmptyBatch,
    BatchTooLarge,
    AmountNotPositive,
    MinimumBalanceNegative,
    NoAdminTransferPending,
    ProposedVaultIsContract,
    NoVaultRotationPending,
    NotPendingVaultOrAdmin,
    MessageEmpty,
    MessageTooLong,
}

impl SettlementPanic {
    /// The abort message.
    pub open spec fn message_text(&self) -> Seq<char> {
        match self {
            SettlementPanic::AdminIsVault => "invalid config: admin and vault_address must be distinct"@,
            SettlementPanic::AdminIsContract => "invalid config: admin cannot be the contract itself"@,
            SettlementPanic::VaultAddressIsContract => "invalid config: vault_address cannot be the contract itself"@,
            SettlementPanic::NotAdmin => "unauthorized: caller is not admin"@,
            SettlementPanic::UsdcIsContract => "invalid config: usdc_token cannot be the contract itself"@,
            SettlementPanic::RecipientIsContract => "invalid recipient: cannot withdraw to contract itself"@,
            SettlementPanic::EmptyBatch => "batch_receive_payment requires at least one item"@,
            SettlementPanic::BatchTooLarge => "batch too large"@,
            SettlementPanic::AmountNotPositive => "amount must be positive"@,
            SettlementPanic::MinimumBalanceNegative => "minimum balance must be non-negative"@,
            SettlementPanic::NoAdminTransferPending => "no admin transfer pending"@,
            SettlementPanic::ProposedVaultIsContract => "invalid config: vault cannot be the contract itself"@,
            SettlementPanic::NoVaultRotationPending => "no vault rotation pending"@,
            SettlementPanic::NotPendingVaultOrAdmin => "unauthorized: caller must be pending vault or admin"@,
            SettlementPanic::MessageEmpty => "message cannot be empty"@,
            SettlementPanic::MessageTooLong => "message length exceeds maximum of 256 characters"@,
        }
    }

    /// The abort message.
    pub fn message(&self) -> (r: &'static str)
        ensures
            r@ == self.message_text(),
    {
        match self {
            SettlementPanic::AdminIsVault => "invalid config: admin and vault_address must be distinct",
            SettlementPanic::AdminIsContract => "invalid config: admin cannot be the contract itself",
            SettlementPanic::VaultAddressIsContract => "invalid config: vault_address cannot be the contract itself",
            SettlementPanic::NotAdmin => "unauthorized: caller is not admin",
            SettlementPanic::UsdcIsContract => "invalid config: usdc_token cannot be the contract itself",
            SettlementPanic::RecipientIsContract => "invalid recipient: cannot withdraw to contract itself",
            SettlementPanic::EmptyBatch => "batch_receive_payment requires at least one item",
            SettlementPanic::BatchTooLarge => "batch too large",
            SettlementPanic::AmountNotPositive => "amount must be positive",
            SettlementPanic::MinimumBalanceNegative => "minimum balance must be non-negative",
            SettlementPanic::NoAdminTransferPending => "no admin transfer pending",
            SettlementPanic::ProposedVaultIsContract => "invalid config: vault cannot be the contract itself",
            SettlementPanic::NoVaultRotationPending => "no vault rotation pending",
            SettlementPanic::NotPendingVaultOrAdmin => "unauthorized: caller must be pending vault or admin",
            SettlementPanic::MessageEmpty => "message cannot be empty",
            SettlementPanic::MessageTooLong => "message length exceeds maximum of 256 characters",
        }
    }
}

/// Why a settlement operation was refused.
#[derive(Clone, Copy, Debug, PartialEq, Eq)]
pub enum SettlementFailure {
    /// Refused with a coded error.
    Error(SettlementError),
    /// Aborted with a message.
    Panic(SettlementPanic),
}

/// The ledger key of the balance of `developer` in `token`.
pub open spec fn balance_key(developer: Address, token: Address) -> u128 {
    (developer as int * 0x1_0000_0000_0000_0000 + token as int) as u128
}

/// Distinct (developer, token) pairs have distinct ledger keys.
pub proof fn lemma_balance_key_injective(d1: Address, t1: Address, d2: Address, t2: Address)
    ensures
        balance_key(d1, t1) == balance_key(d2, t2) <==> d1 == d2 && t1 == t2,
{
    assert(0 <= d1 as int * 0x1_0000_0000_0000_0000 + t1 as int <= u128::MAX);
    assert(0 <= d2 as int * 0x1_0000_0000_0000_0000 + t2 as int <= u128::MAX);
    if d1 < d2 {
        assert(d1 as int * 0x1_0000_0000_0000_0000 + 0x1_0000_0000_0000_0000 <= d2 as int
            * 0x1_0000_0000_0000_0000);
    } else if d2 < d1 {
        assert(d2 as int * 0x1_0000_0000_0000_0000 + 0x1_0000_0000_0000_0000 <= d1 as int
            * 0x1_0000_0000_0000_0000);
    }
}

/// The ledger key of the balance of `developer` in `token`.
pub fn ledger_key(developer: Address, token: Address) -> (k: u128)
    ensures
        k == balance_key(developer, token),
{
    assert(developer as int * 0x1_0000_0000_0000_0000 + token as int <= u128::MAX);
    (developer as u128) * 0x1_0000_0000_0000_0000u128 + (token as u128)
}

/// Every developer holding a balance entry, in any token, is listed in
/// `index`.
pub open spec fn covered(balances: Map<u128, i128>, index: Seq<Address>) -> bool {
    forall|d: Address, t: Address| #[trigger]
        balances.contains_key(balance_key(d, t)) ==> index.contains(d)
}

/// Storing a balance of a listed developer, in an index that only grows,
/// keeps every balance holder listed.
pub proof fn lemma_covered_insert(
    balances: Map<u128, i128>,
    index: Seq<Address>,
    grown: Seq<Address>,
    developer: Address,
    token: Address,
    value: i128,
)
    requires
        covered(balances, index),
        grown.contains(developer),
        forall|x: Address| index.contains(x) ==> grown.contains(x),
    ensures
        covered(balances.insert(balance_key(developer, token), value), grown),
{
    let b2 = balances.insert(balance_key(developer, token), value);
    assert forall|d: Address, t: Address| #[trigger]
        b2.contains_key(balance_key(d, t)) implies grown.contains(d) by {
        lemma_balance_key_injective(d, t, developer, token);
        if d != developer {
            assert(balances.contains_key(balance_key(d, t)));
            assert(index.contains(d));
        }
    }
}

/// A listing that only grows keeps every balance holder listed.
pub proof fn lemma_covered_grown(balances: Map<u128, i128>, index: Seq<Address>, grown: Seq<Address>)
    requires
        covered(balances, index),
        forall|x: Address| index.contains(x) ==> grown.contains(x),
    ensures
        covered(balances, grown),
{
    assert forall|d: Address, t: Address| #[trigger]
        balances.contains_key(balance_key(d, t)) implies grown.contains(d) by {
        assert(index.contains(d));
    }
}

/// Listing a developer keeps every listed developer listed and adds it.
pub proof fn lemma_indexed_grows(index: Seq<Address>, d: Address)
    requires
        index.no_duplicates(),
    ensures
        indexed(index, d).contains(d),
        forall|x: Address| index.contains(x) ==> indexed(index, d).contains(x),
{
    law_listing_keeps_index_sound(index, d);
    let n = indexed(index, d);
    assert(n.to_set().contains(d));
    assert forall|x: Address| index.contains(x) implies n.contains(x) by {
        assert(index.to_set().contains(x));
        assert(n.to_set().contains(x));
    }
}

/// `s` is in strictly ascending order.
pub open spec fn ascending(s: Seq<Address>) -> bool {
    forall|i: int, j: int| 0 <= i < j < s.len() ==> s[i] < s[j]
}

/// The settlement contract's stored state.
pub struct CalloraSettlement {
    /// The settlement contract's own address.
    pub contract: Address,
    pub admin: Option<Address>,
    pub vault: Option<Address>,
    pub pending_admin: Option<Address>,
    pub pending_vault: Option<Address>,
    /// Developers that were ever credited, without repetition.
    pub developer_index: Vec<Address>,
    /// Per-token balances, keyed by [`balance_key`].
    pub balances: HashMap<u128, i128>,
    /// Single-token balances of the layout before per-token accounting.
    pub legacy_balances: HashMap<u64, i128>,
    pub min_balances: HashMap<u64, i128>,
    pub global_pool: Option<GlobalPool>,
    pub usdc: Option<Address>,
    pub daily_caps: HashMap<u64, i128>,
    pub withdrawals: HashMap<u64, DailyWithdrawState>,
    pub claim_windows: HashMap<u64, DeveloperClaimWindow>,
    /// Pending balance migrations, keyed by their source developer.
    pub migrations: HashMap<u64, PendingDeveloperMigration>,
    pub storage_version: Option<u32>,
    pub version: Option<Vec<u8>>,
}

/// `Ok(())` when no check failed, else the first failure.
pub open spec fn settled(f: Option<SettlementFailure>) -> Result<(), SettlementFailure> {
    match f {
        Some(e) => Err(e),
        None => Ok(()),
    }
}

/// A coded settlement error.
pub open spec fn err(e: SettlementError) -> Option<SettlementFailure> {
    Some(SettlementFailure::Error(e))
}

/// A plain settlement abort.
pub open spec fn abort(p: SettlementPanic) -> Option<SettlementFailure> {
    Some(SettlementFailure::Panic(p))
}

impl CalloraSettlement {
    /// Invariant of the stored state: the developer index has no repetition
    /// and lists every developer holding a balance, developer balances
    /// (current and legacy) are never negative, and each pending balance
    /// migration is filed under its source, moves a positive amount and
    /// targets another address.
    pub open spec fn wf(&self) -> bool {
        &&& self.developer_index@.no_duplicates()
        &&& covered(self.balances@, self.developer_index@)
        &&& forall|k: u128| #[trigger] self.balances@.contains_key(k) ==> self.balances@[k] >= 0
        &&& forall|a: u64| #[trigger]
            self.legacy_balances@.contains_key(a) ==> self.legacy_balances@[a] >= 0
        &&& forall|a: u64| #[trigger]
            self.migrations@.contains_key(a) ==> {
                let m = self.migrations@[a];
                &&& m.from == a
                &&& m.to != a
                &&& m.amount > 0
            }
    }

    /// The balance of `developer` in `token` (zero when none is recorded).
    pub open spec fn balance_of(&self, developer: Address, token: Address) -> i128 {
        if self.balances@.contains_key(balance_key(developer, token)) {
            self.balances@[balance_key(developer, token)]
        } else {
            0
        }
    }

    /// Failure of the admin check for `caller`, refused with a code.
    pub open spec fn admin_failure(&self, caller: Address) -> Option<SettlementFailure> {
        match self.admin {
            None => err(SettlementError::NotInitialized),
            Some(a) => if caller != a {
                err(SettlementError::Unauthorized)
            } else {
                None
            },
        }
    }

    /// Failure of the vault-or-admin check for `caller`.
    pub open spec fn payer_failure(&self, caller: Address) -> Option<SettlementFailure> {
        match (self.vault, self.admin) {
            (None, _) => err(SettlementError::NotInitialized),
            (_, None) => err(SettlementError::NotInitialized),
            (Some(v), Some(a)) => if caller != v && caller != a {
                err(SettlementError::Unauthorized)
            } else {
                None
            },
        }
    }

    /// A fresh, uninitialized settlement contract deployed at `contract`.
    pub fn new(contract: Address) -> (r: CalloraSettlement)
        ensures
            r.wf(),
            r.contract == contract,
            r.admin is None,
            r.vault is None,
            r.pending_admin is None,
            r.pending_vault is None,
            r.developer_index@.len() == 0,
            r.balances@ == Map::<u128, i128>::empty(),
            forall|t: Address| #[trigger] r.holdings(t) == 0,
            r.legacy_balances@ == Map::<u64, i128>::empty(),
            r.min_balances@ == Map::<u64, i128>::empty(),
            r.global_pool is None,
            r.usdc is None,
            r.daily_caps@ == Map::<u64, i128>::empty(),
            r.withdrawals@ == Map::<u64, DailyWithdrawState>::empty(),
            r.claim_windows@ == Map::<u64, DeveloperClaimWindow>::empty(),
            r.migrations@ == Map::<u64, PendingDeveloperMigration>::empty(),
            r.storage_version is None,
            r.version is None,
    {
        CalloraSettlement {
            contract,
            admin: None,
            vault: None,
            pending_admin: None,
            pending_vault: None,
            developer_index: Vec::new(),
            balances: HashMap::new(),
            legacy_balances: HashMap::new(),
            min_balances: HashMap::new(),
            global_pool: None,
            usdc: None,
            daily_caps: HashMap::new(),
            withdrawals: HashMap::new(),
            claim_windows: HashMap::new(),
            migrations: HashMap::new(),
            storage_version: None,
            version: None,
        }
    }

    /// Initialize with an admin and the vault allowed to pay in; the global
    /// pool starts empty, stamped with the ledger time `now`.
    pub fn init(&mut self, admin: Address, vault_address: Address, now: u64) -> (r: Result<
        (),
        SettlementFailure,
    >)
        ensures
            r == settled(
                if old(self).admin is Some {
                    err(SettlementError::AlreadyInitialized)
                } else if admin == vault_address {
                    abort(SettlementPanic::AdminIsVault)
                } else if admin == old(self).contract {
                    abort(SettlementPanic::AdminIsContract)
                } else if vault_address == old(self).contract {
                    abort(SettlementPanic::VaultAddressIsContract)
                } else {
                    None
                },
            ),
            r is Ok ==> *final(self) == (CalloraSettlement {
                admin: Some(admin),
                vault: Some(vault_address),
                global_pool: Some(GlobalPool { total_balance: 0, last_updated: now }),
                ..*old(self)
            }),
            r is Err ==> *final(self) == *old(self),
    {
        if self.admin.is_some() {
            return Err(SettlementFailure::Error(SettlementError::AlreadyInitialized));
        }
        if admin == vault_address {
            return Err(SettlementFailure::Panic(SettlementPanic::AdminIsVault));
        }
        if admin == self.contract {
            return Err(SettlementFailure::Panic(SettlementPanic::AdminIsContract));
        }
        if vault_address == self.contract {
            return Err(SettlementFailure::Panic(SettlementPanic::VaultAddressIsContract));
        }
        self.admin = Some(admin);
        self.vault = Some(vault_address);
        self.global_pool = Some(GlobalPool { total_balance: 0, last_updated: now });
        Ok(())
    }

    // ------------------------------------------------------------------
    // Views
    // ------------------------------------------------------------------

    /// The admin; `NotInitialized` before `init`.
    pub fn get_admin(&self) -> (r: Result<Address, SettlementFailure>)
        ensures
            r == match self.admin {
                Some(a) => Ok::<Address, SettlementFailure>(a),
                None => Err(SettlementFailure::Error(SettlementError::NotInitialized)),
            },
    {
        match self.admin {
            Some(a) => Ok(a),
            None => Err(SettlementFailure::Error(SettlementError::NotInitialized)),
        }
    }

    /// The vault allowed to pay in; `NotInitialized` before `init`.
    pub fn get_vault(&self) -> (r: Result<Address, SettlementFailure>)
        ensures
            r == match self.vault {
                Some(a) => Ok::<Address, SettlementFailure>(a),
                None => Err(SettlementFailure::Error(SettlementError::NotInitialized)),
            },
    {
        match self.vault {
            Some(a) => Ok(a),
            None => Err(SettlementFailure::Error(SettlementError::NotInitialized)),
        }
    }

    /// The global pool; `NotInitialized` before `init`.
    pub fn get_global_pool(&self) -> (r: Result<GlobalPool, SettlementFailure>)
        ensures
            r == match self.global_pool {
                Some(p) => Ok::<GlobalPool, SettlementFailure>(p),
                None => Err(SettlementFailure::Error(SettlementError::NotInitialized)),
            },
    {
        match self.global_pool {
            Some(p) => Ok(p),
            None => Err(SettlementFailure::Error(SettlementError::NotInitialized)),
        }
    }

    /// The balance of `developer` in `token` (zero when none is recorded);
    /// `NotInitialized` before `init`.
    pub fn get_developer_balance(&self, developer: Address, token: Address) -> (r: Result<
        i128,
        SettlementFailure,
    >)
        ensures
            r == match self.admin {
                Some(_) => Ok::<i128, SettlementFailure>(self.balance_of(developer, token)),
                None => Err(SettlementFailure::Error(SettlementError::NotInitialized)),
            },
    {
        if self.admin.is_none() {
            return Err(SettlementFailure::Error(SettlementError::NotInitialized));
        }
        Ok(self.read_balance(developer, token))
    }

    /// The balance of `developer` in `token` (zero when none is recorded).
    pub(crate) fn read_balance(&self, developer: Address, token: Address) -> (r: i128)
        ensures
            r == self.balance_of(developer, token),
    {
        match self.balances.get(&ledger_key(developer, token)) {
            Some(v) => *v,
            None => 0,
        }
    }

    /// The pending admin, if an admin transfer is in progress.
    pub fn get_pending_admin(&self) -> (r: Option<Address>)
        ensures
            r == self.pending_admin,
    {
        self.pending_admin
    }

    /// The claim window of `developer`, if one is set.
    pub fn get_developer_claim_window(&self, developer: Address) -> (r: Option<DeveloperClaimWindow>)
        ensures
            r == if self.claim_windows@.contains_key(developer) {
                Some(self.claim_windows@[developer])
            } else {
                None::<DeveloperClaimWindow>
            },
    {
        match self.claim_windows.get(&developer) {
            Some(w) => Some(*w),
            None => None,
        }
    }

    /// The daily withdrawal cap of `developer`; zero (no cap) when unset.
    pub fn get_daily_withdraw_cap(&self, developer: Address) -> (r: i128)
        ensures
            r == if self.daily_caps@.contains_key(developer) {
                self.daily_caps@[developer]
            } else {
                0
            },
    {
        match self.daily_caps.get(&developer) {
            Some(c) => *c,
            None => 0,
        }
    }

    /// What `developer` has withdrawn on the day of ledger time `now`.
    pub fn get_withdrawal_today(&self, developer: Address, now: u64) -> (r: i128)
        ensures
            r == if self.withdrawals@.contains_key(developer) && self.withdrawals@[developer].day
                == now / SECONDS_PER_DAY {
                self.withdrawals@[developer].amount
            } else {
                0
            },
    {
        match self.withdrawals.get(&developer) {
            Some(s) => if s.day == now / SECONDS_PER_DAY {
                s.amount
            } else {
                0
            },
            None => 0,
        }
    }

    /// The minimum balance of `developer`; zero when unset.
    pub fn get_developer_min_balance(&self, developer: Address) -> (r: i128)
        ensures
            r == if self.min_balances@.contains_key(developer) {
                self.min_balances@[developer]
            } else {
                0
            },
    {
        match self.min_balances.get(&developer) {
            Some(c) => *c,
            None => 0,
        }
    }

    /// The code hash recorded by the last upgrade, if any.
    pub fn get_version(&self) -> (r: Option<Vec<u8>>)
        ensures
            r is Some == self.version is Some,
            r is Some ==> r.unwrap()@ == self.version.unwrap()@,
    {
        match &self.version {
            Some(v) => Some(v.clone()),
            None => None,
        }
    }

    // ------------------------------------------------------------------
    // Checks shared by the operations
    // ------------------------------------------------------------------

    /// `Unauthorized` unless `caller` is the admin.
    pub(crate) fn require_admin(&self, caller: Address) -> (r: Result<(), SettlementFailure>)
        ensures
            r == settled(self.admin_failure(caller)),
    {
        match self.admin {
            None => Err(SettlementFailure::Error(SettlementError::NotInitialized)),
            Some(a) => if caller != a {
                Err(SettlementFailure::Error(SettlementError::Unauthorized))
            } else {
                Ok(())
            },
        }
    }

    /// The configured USDC token, or `UsdcTokenNotConfigured`.
    pub(crate) fn get_usdc_token(&self) -> (r: Result<Address, SettlementFailure>)
        ensures
            r == match self.usdc {
                Some(u) => Ok::<Address, SettlementFailure>(u),
                None => Err(SettlementFailure::Error(SettlementError::UsdcTokenNotConfigured)),
            },
    {
        match self.usdc {
            Some(u) => Ok(u),
            None => Err(SettlementFailure::Error(SettlementError::UsdcTokenNotConfigured)),
        }
    }

    /// `Unauthorized` unless `caller` is the vault or the admin.
    fn require_authorized_caller(&self, caller: Address) -> (r: Result<(), SettlementFailure>)
        ensures
            r == settled(self.payer_failure(caller)),
    {
        let vault = self.get_vault()?;
        let admin = self.get_admin()?;
        if caller != vault && caller != admin {
            return Err(SettlementFailure::Error(SettlementError::Unauthorized));
        }
        Ok(())
    }

    // ------------------------------------------------------------------
    // Payments
    // ------------------------------------------------------------------

    /// The first failing check of `receive_payment`.
    pub open spec fn receive_failure(
        &self,
        caller: Address,
        amount: i128,
        to_pool: bool,
        developer: Option<Address>,
        token: Address,
    ) -> Option<SettlementFailure> {
        if self.payer_failure(caller) is Some {
            self.payer_failure(caller)
        } else if amount <= 0 {
            err(SettlementError::AmountNotPositive)
        } else if to_pool {
            if developer is Some {
                err(SettlementError::DeveloperMustBeNone)
            } else {
                match self.global_pool {
                    None => err(SettlementError::NotInitialized),
                    Some(p) => if p.total_balance + amount > i128::MAX {
                        err(SettlementError::PoolOverflow)
                    } else {
                        None
                    },
                }
            }
        } else {
            match developer {
                None => err(SettlementError::DeveloperRequired),
                Some(d) => if self.balance_of(d, token) + amount > i128::MAX {
                    err(SettlementError::DeveloperOverflow)
                } else {
                    None
                },
            }
        }
    }

    /// Credit a payment from the vault or the admin: to the global pool
    /// (stamped with the ledger time `now`), or to the balance of
    /// `developer` in `token`, listing the developer in the index.
    pub fn receive_payment(
        &mut self,
        caller: Address,
        amount: i128,
        to_pool: bool,
        developer: Option<Address>,
        token: Address,
        now: u64,
    ) -> (r: Result<(), SettlementFailure>)
        requires
            old(self).wf(),
        ensures
            final(self).wf(),
            r == settled(old(self).receive_failure(caller, amount, to_pool, developer, token)),
            r is Err ==> *final(self) == *old(self),
            r is Ok ==> final(self).holdings(token) == old(self).holdings(token) + amount,
            r is Ok && to_pool ==> *final(self) == (CalloraSettlement {
                global_pool: Some(
                    GlobalPool {
                        total_balance: (old(self).global_pool.unwrap().total_balance
                            + amount) as i128,
                        last_updated: now,
                    },
                ),
                ..*old(self)
            }),
            r is Ok && !to_pool ==> {
                let d = developer.unwrap();
                &&& *final(self) == (CalloraSettlement {
                    balances: final(self).balances,
                    developer_index: final(self).developer_index,
                    ..*old(self)
                })
                &&& final(self).balances@ == old(self).balances@.insert(
                    balance_key(d, token),
                    (old(self).balance_of(d, token) + amount) as i128,
                )
                &&& final(self).developer_index@ == indexed(old(self).developer_index@, d)
            },
    {
        self.require_authorized_caller(caller)?;
        if amount <= 0 {
            return Err(SettlementFailure::Error(SettlementError::AmountNotPositive));
        }
        if to_pool {
            if developer.is_some() {
                return Err(SettlementFailure::Error(SettlementError::DeveloperMustBeNone));
            }
            let mut pool = self.get_global_pool()?;
            pool.total_balance = match pool.total_balance.checked_add(amount) {
                Some(t) => t,
                None => {
                    return Err(SettlementFailure::Error(SettlementError::PoolOverflow));
                },
            };
            pool.last_updated = now;
            self.global_pool = Some(pool);
            Ok(())
        } else {
            let dev = match developer {
                Some(d) => d,
                None => {
                    return Err(SettlementFailure::Error(SettlementError::DeveloperRequired));
                },
            };
            let current = self.read_balance(dev, token);
            let new_balance = match current.checked_add(amount) {
                Some(b) => b,
                None => {
                    return Err(SettlementFailure::Error(SettlementError::DeveloperOverflow));
                },
            };
            proof {
                lemma_indexed_grows(self.developer_index@, dev);
                lemma_covered_grown(
                    self.balances@,
                    self.developer_index@,
                    indexed(self.developer_index@, dev),
                );
                lemma_credit_one(self.developer_index@, self.balances@, dev, token, amount as int);
            }
            sorted_insert(&mut self.developer_index, dev);
            self.write_balance(dev, token, new_balance);
            Ok(())
        }
    }

    /// Store `value` as the balance of `developer` in `token`.
    pub(crate) fn write_balance(&mut self, developer: Address, token: Address, value: i128)
        requires
            old(self).wf(),
            old(self).developer_index@.contains(developer),
            value >= 0,
        ensures
            final(self).wf(),
            *final(self) == (CalloraSettlement { balances: final(self).balances, ..*old(self) }),
            final(self).balances@ == old(self).balances@.insert(balance_key(developer, token), value),
    {
        proof {
            lemma_covered_insert(
                self.balances@,
                self.developer_index@,
                self.developer_index@,
                developer,
                token,
                value,
            );
        }
        self.balances.insert(ledger_key(developer, token), value);
    }

    /// The first failing check of `batch_receive_payment`.
    pub open spec fn batch_receive_failure(
        &self,
        caller: Address,
        items: Seq<(Address, i128)>,
        token: Address,
    ) -> Option<SettlementFailure> {
        if self.payer_failure(caller) is Some {
            self.payer_failure(caller)
        } else if items.len() == 0 {
            abort(SettlementPanic::EmptyBatch)
        } else if items.len() > MAX_BATCH_SIZE {
            abort(SettlementPanic::BatchTooLarge)
        } else if exists|i: int| 0 <= i < items.len() && (#[trigger] items[i]).1 <= 0 {
            abort(SettlementPanic::AmountNotPositive)
        } else if credit_all(self.balances@, items, token) is None {
            err(SettlementError::DeveloperOverflow)
        } else {
            None
        }
    }

    /// Credit several developers in `token` atomically (vault or admin):
    /// all amounts are validated first, and an overflow on any credit
    /// refuses the whole batch.
    pub fn batch_receive_payment(
        &mut self,
        caller: Address,
        items: &Vec<(Address, i128)>,
        token: Address,
    ) -> (r: Result<(), SettlementFailure>)
        requires
            old(self).wf(),
        ensures
            final(self).wf(),
            r == settled(old(self).batch_receive_failure(caller, items@, token)),
            r is Err ==> *final(self) == *old(self),
            r is Ok ==> final(self).holdings(token) == old(self).holdings(token) + items_total(items@),
            r is Ok ==> (ascending(old(self).developer_index@) ==> ascending(
                final(self).developer_index@,
            )),
            r is Ok ==> forall|x: Address| #[trigger]
                final(self).developer_index@.contains(x) <==> (old(self).developer_index@.contains(x)
                    || exists|j: int| 0 <= j < items@.len() && items@[j].0 == x),
            r is Ok ==> {
                &&& *final(self) == (CalloraSettlement {
                    balances: final(self).balances,
                    developer_index: final(self).developer_index,
                    ..*old(self)
                })
                &&& final(self).balances@ == credit_all(old(self).balances@, items@, token).unwrap()
                &&& final(self).developer_index@ == indexed_all(
                    old(self).developer_index@,
                    items@,
                    items@.len() as int,
                )
            },
    {
        self.require_authorized_caller(caller)?;
        let n = items.len();
        if n == 0 {
            return Err(SettlementFailure::Panic(SettlementPanic::EmptyBatch));
        }
        if n > 50 {
            return Err(SettlementFailure::Panic(SettlementPanic::BatchTooLarge));
        }
        let mut i: usize = 0;
        while i < n
            invariant
                n == items@.len(),
                0 < n <= MAX_BATCH_SIZE,
                0 <= i <= n,
                forall|j: int| 0 <= j < i ==> (#[trigger] items@[j]).1 > 0,
                *self == *old(self),
                old(self).wf(),
                old(self).payer_failure(caller) is None,
            decreases n - i,
        {
            if items[i].1 <= 0 {
                return Err(SettlementFailure::Panic(SettlementPanic::AmountNotPositive));
            }
            i = i + 1;
        }
        // First pass: the running balances, checked for overflow.
        let mut running: HashMap<u128, i128> = self.balances.clone();
        let mut k: usize = 0;
        proof {
            assert(items@.subrange(0, 0) =~= Seq::<(Address, i128)>::empty());
        }
        while k < n
            invariant
                n == items@.len(),
                0 <= k <= n,
                forall|j: int| 0 <= j < n ==> (#[trigger] items@[j]).1 > 0,
                credit_all(self.balances@, items@.subrange(0, k as int), token) == Some(running@),
                *self == *old(self),
                0 < n <= MAX_BATCH_SIZE,
                old(self).wf(),
                old(self).payer_failure(caller) is None,
            decreases n - k,
        {
            let (dev, amount) = items[k];
            let key = ledger_key(dev, token);
            let current = match running.get(&key) {
                Some(v) => *v,
                None => 0,
            };
            proof {
                assert(items@.subrange(0, k + 1).drop_last() =~= items@.subrange(0, k as int));
                assert(items@.subrange(0, k + 1).last() == items@[k as int]);
            }
            let next = match current.checked_add(amount) {
                Some(b) => b,
                None => {
                    proof {
                        lemma_credit_all_none_extends(self.balances@, items@, token, k + 1);
                    }
                    return Err(SettlementFailure::Error(SettlementError::DeveloperOverflow));
                },
            };
            running.insert(key, next);
            k = k + 1;
        }
        proof {
            assert(items@.subrange(0, n as int) =~= items@);
            lemma_credit_all_nonneg(self.balances@, items@, token);
            assert(credit_all(self.balances@, items@, token) == Some(running@));
            assert(forall|kk: u128| #[trigger] running@.contains_key(kk) ==> running@[kk] >= 0);
        }
        let mut m: usize = 0;
        while m < n
            invariant
                n == items@.len(),
                0 <= m <= n,
                self.developer_index@.no_duplicates(),
                self.developer_index@ == indexed_all(
                    old(self).developer_index@,
                    items@,
                    m as int,
                ),
                forall|j: int| 0 <= j < m ==> self.developer_index@.contains(#[trigger] items@[j].0),
                forall|x: Address|
                    old(self).developer_index@.contains(x) ==> self.developer_index@.contains(x),
                *self == (CalloraSettlement {
                    developer_index: self.developer_index,
                    ..*old(self)
                }),
            decreases n - m,
        {
            proof {
                lemma_indexed_grows(self.developer_index@, items@[m as int].0);
            }
            sorted_insert(&mut self.developer_index, items[m].0);
            m = m + 1;
        }
        proof {
            lemma_covered_grown(old(self).balances@, old(self).developer_index@, self.developer_index@);
            lemma_credit_all_covered(old(self).balances@, items@, token, self.developer_index@);
            lemma_credit_batch(
                old(self).developer_index@,
                old(self).balances@,
                items@,
                token,
                n as int,
            );
            assert(items@.subrange(0, n as int) =~= items@);
            crate::laws::law_batch_listing_keeps_index_sound(
                old(self).developer_index@,
                items@,
                n as int,
            );
        }
        self.balances = running;
        Ok(())
    }

    // ------------------------------------------------------------------
    // Admin and vault rotation
    // ------------------------------------------------------------------

    /// Nominate a new admin (admin only); takes effect on `accept_admin`.
    pub fn set_admin(&mut self, caller: Address, new_admin: Address) -> (r: Result<
        (),
        SettlementFailure,
    >)
        ensures
            r == settled(old(self).admin_failure(caller)),
            r is Ok ==> *final(self) == (CalloraSettlement {
                pending_admin: Some(new_admin),
                ..*old(self)
            }),
            r is Err ==> *final(self) == *old(self),
    {
        self.require_admin(caller)?;
        self.pending_admin = Some(new_admin);
        Ok(())
    }

    /// The nominated admin takes the role.
    pub fn accept_admin(&mut self) -> (r: Result<(), SettlementFailure>)
        ensures
            r == settled(
                match (old(self).pending_admin, old(self).admin) {
                    (None, _) => abort(SettlementPanic::NoAdminTransferPending),
                    (_, None) => err(SettlementError::NotInitialized),
                    _ => None,
                },
            ),
            r is Ok ==> *final(self) == (CalloraSettlement {
                admin: old(self).pending_admin,
                pending_admin: None,
                ..*old(self)
            }),
            r is Err ==> *final(self) == *old(self),
    {
        let pending = match self.pending_admin {
            Some(p) => p,
            None => {
                return Err(SettlementFailure::Panic(SettlementPanic::NoAdminTransferPending));
            },
        };
        self.get_admin()?;
        self.admin = Some(pending);
        self.pending_admin = None;
        Ok(())
    }

    /// Withdraw a pending admin nomination (admin only).
    pub fn cancel_admin_transfer(&mut self, caller: Address) -> (r: Result<(), SettlementFailure>)
        ensures
            r == settled(
                if old(self).admin_failure(caller) is Some {
                    old(self).admin_failure(caller)
                } else if old(self).pending_admin is None {
                    abort(SettlementPanic::NoAdminTransferPending)
                } else {
                    None
                },
            ),
            r is Ok ==> *final(self) == (CalloraSettlement { pending_admin: None, ..*old(self) }),
            r is Err ==> *final(self) == *old(self),
    {
        self.require_admin(caller)?;
        if self.pending_admin.is_none() {
            return Err(SettlementFailure::Panic(SettlementPanic::NoAdminTransferPending));
        }
        self.pending_admin = None;
        Ok(())
    }

    /// Propose a new vault (admin only); takes effect on `accept_vault`.
    pub fn propose_vault(&mut self, caller: Address, new_vault: Address) -> (r: Result<
        (),
        SettlementFailure,
    >)
        ensures
            r == settled(
                if old(self).admin_failure(caller) is Some {
                    old(self).admin_failure(caller)
                } else if new_vault == old(self).contract {
                    abort(SettlementPanic::ProposedVaultIsContract)
                } else if old(self).vault is None {
                    err(SettlementError::NotInitialized)
                } else {
                    None
                },
            ),
            r is Ok ==> *final(self) == (CalloraSettlement {
                pending_vault: Some(new_vault),
                ..*old(self)
            }),
            r is Err ==> *final(self) == *old(self),
    {
        self.require_admin(caller)?;
        if new_vault == self.contract {
            return Err(SettlementFailure::Panic(SettlementPanic::ProposedVaultIsContract));
        }
        self.get_vault()?;
        self.pending_vault = Some(new_vault);
        Ok(())
    }

    /// Propose a new vault (same as [`Self::propose_vault`]).
    pub fn set_vault(&mut self, caller: Address, new_vault: Address) -> (r: Result<
        (),
        SettlementFailure,
    >)
        ensures
            r == settled(
                if old(self).admin_failure(caller) is Some {
                    old(self).admin_failure(caller)
                } else if new_vault == old(self).contract {
                    abort(SettlementPanic::ProposedVaultIsContract)
                } else if old(self).vault is None {
                    err(SettlementError::NotInitialized)
                } else {
                    None
                },
            ),
            r is Ok ==> *final(self) == (CalloraSettlement {
                pending_vault: Some(new_vault),
                ..*old(self)
            }),
            r is Err ==> *final(self) == *old(self),
    {
        self.propose_vault(caller, new_vault)
    }

    /// Activate the proposed vault (the proposed vault or the admin).
    pub fn accept_vault(&mut self, caller: Address) -> (r: Result<(), SettlementFailure>)
        ensures
            r == settled(
                match (old(self).pending_vault, old(self).admin, old(self).vault) {
                    (None, _, _) => abort(SettlementPanic::NoVaultRotationPending),
                    (_, None, _) => err(SettlementError::NotInitialized),
                    (Some(p), Some(a), v) => if caller != p && caller != a {
                        abort(SettlementPanic::NotPendingVaultOrAdmin)
                    } else if v is None {
                        err(SettlementError::NotInitialized)
                    } else {
                        None
                    },
                },
            ),
            r is Ok ==> *final(self) == (CalloraSettlement {
                vault: old(self).pending_vault,
                pending_vault: None,
                ..*old(self)
            }),
            r is Err ==> *final(self) == *old(self),
    {
        let pending = match self.pending_vault {
            Some(p) => p,
            None => {
                return Err(SettlementFailure::Panic(SettlementPanic::NoVaultRotationPending));
            },
        };
        let admin = self.get_admin()?;
        if caller != pending && caller != admin {
            return Err(SettlementFailure::Panic(SettlementPanic::NotPendingVaultOrAdmin));
        }
        self.get_vault()?;
        self.vault = Some(pending);
        self.pending_vault = None;
        Ok(())
    }

    /// Set the USDC token (admin only); it cannot be the contract itself.
    pub fn set_usdc_token(&mut self, caller: Address, usdc_address: Address) -> (r: Result<
        (),
        SettlementFailure,
    >)
        ensures
            r == settled(
                match old(self).admin {
                    None => err(SettlementError::NotInitialized),
                    Some(a) => if caller != a {
                        abort(SettlementPanic::NotAdmin)
                    } else if usdc_address == old(self).contract {
                        abort(SettlementPanic::UsdcIsContract)
                    } else {
                        None
                    },
                },
            ),
            r is Ok ==> *final(self) == (CalloraSettlement { usdc: Some(usdc_address), ..*old(self) }),
            r is Err ==> *final(self) == *old(self),
    {
        let admin = self.get_admin()?;
        if caller != admin {
            return Err(SettlementFailure::Panic(SettlementPanic::NotAdmin));
        }
        if usdc_address == self.contract {
            return Err(SettlementFailure::Panic(SettlementPanic::UsdcIsContract));
        }
        self.usdc = Some(usdc_address);
        Ok(())
    }

    // ------------------------------------------------------------------
    // Developer limits
    // ------------------------------------------------------------------

    /// Set the daily withdrawal cap of `developer` (admin only); zero means
    /// no cap.
    pub fn set_daily_withdraw_cap(&mut self, caller: Address, developer: Address, cap: i128) -> (r:
        Result<(), SettlementFailure>)
        ensures
            r == settled(old(self).admin_failure(caller)),
            r is Ok ==> *final(self) == (CalloraSettlement {
                daily_caps: final(self).daily_caps,
                ..*old(self)
            }),
            r is Ok ==> final(self).daily_caps@ == old(self).daily_caps@.insert(developer, cap),
            r is Err ==> *final(self) == *old(self),
    {
        self.require_admin(caller)?;
        self.daily_caps.insert(developer, cap);
        Ok(())
    }

    /// Set the minimum balance of `developer` (admin only); it cannot be
    /// negative.
    pub fn set_developer_min_balance(&mut self, caller: Address, developer: Address, min_balance: i128) -> (r:
        Result<(), SettlementFailure>)
        ensures
            r == settled(
                if old(self).admin_failure(caller) is Some {
                    old(self).admin_failure(caller)
                } else if min_balance < 0 {
                    abort(SettlementPanic::MinimumBalanceNegative)
                } else {
                    None
                },
            ),
            r is Ok ==> *final(self) == (CalloraSettlement {
                min_balances: final(self).min_balances,
                ..*old(self)
            }),
            r is Ok ==> final(self).min_balances@ == old(self).min_balances@.insert(
                developer,
                min_balance,
            ),
            r is Err ==> *final(self) == *old(self),
    {
        self.require_admin(caller)?;
        if min_balance < 0 {
            return Err(SettlementFailure::Panic(SettlementPanic::MinimumBalanceNegative));
        }
        self.min_balances.insert(developer, min_balance);
        Ok(())
    }

    /// Set the minimum balance of `developer` (same as
    /// [`Self::set_developer_min_balance`]).
    pub fn set_minimum_balance(&mut self, caller: Address, developer: Address, min_balance: i128) -> (r:
        Result<(), SettlementFailure>)
        ensures
            r == settled(
                if old(self).admin_failure(caller) is Some {
                    old(self).admin_failure(caller)
                } else if min_balance < 0 {
                    abort(SettlementPanic::MinimumBalanceNegative)
                } else {
                    None
                },
            ),
            r is Ok ==> *final(self) == (CalloraSettlement {
                min_balances: final(self).min_balances,
                ..*old(self)
            }),
            r is Ok ==> final(self).min_balances@ == old(self).min_balances@.insert(
                developer,
                min_balance,
            ),
            r is Err ==> *final(self) == *old(self),
    {
        self.set_developer_min_balance(caller, developer, min_balance)
    }

    /// Restrict the claims of `developer` to the inclusive window
    /// `start_ts ..= end_ts` (admin only).
    pub fn set_developer_claim_window(
        &mut self,
        caller: Address,
        developer: Address,
        start_ts: u64,
        end_ts: u64,
    ) -> (r: Result<(), SettlementFailure>)
        ensures
            r == settled(
                if old(self).admin_failure(caller) is Some {
                    old(self).admin_failure(caller)
                } else if end_ts < start_ts {
                    err(SettlementError::InvalidClaimWindow)
                } else {
                    None
                },
            ),
            r is Ok ==> *final(self) == (CalloraSettlement {
                claim_windows: final(self).claim_windows,
                ..*old(self)
            }),
            r is Ok ==> final(self).claim_windows@ == old(self).claim_windows@.insert(
                developer,
                DeveloperClaimWindow { start_ts, end_ts },
            ),
            r is Err ==> *final(self) == *old(self),
    {
        self.require_admin(caller)?;
        if end_ts < start_ts {
            return Err(SettlementFailure::Error(SettlementError::InvalidClaimWindow));
        }
        self.claim_windows.insert(developer, DeveloperClaimWindow { start_ts, end_ts });
        Ok(())
    }

    /// Lift the claim window of `developer` (admin only).
    pub fn clear_developer_claim_window(&mut self, caller: Address, developer: Address) -> (r:
        Result<(), SettlementFailure>)
        ensures
            r == settled(old(self).admin_failure(caller)),
            r is Ok ==> *final(self) == (CalloraSettlement {
                claim_windows: final(self).claim_windows,
                ..*old(self)
            }),
            r is Ok ==> final(self).claim_windows@ == old(self).claim_windows@.remove(developer),
            r is Err ==> *final(self) == *old(self),
    {
        self.require_admin(caller)?;
        self.claim_windows.remove(&developer);
        Ok(())
    }

    /// Credit `developer` in `token` outside the payment flow (admin only),
    /// listing the developer at the end of the index if new.
    pub fn force_credit_developer(
        &mut self,
        caller: Address,
        developer: Address,
        amount: i128,
        token: Address,
    ) -> (r: Result<(), SettlementFailure>)
        requires
            old(self).wf(),
        ensures
            final(self).wf(),
            r == settled(
                if old(self).admin_failure(caller) is Some {
                    old(self).admin_failure(caller)
                } else if amount <= 0 {
                    err(SettlementError::AmountNotPositive)
                } else if old(self).balance_of(developer, token) + amount > i128::MAX {
                    err(SettlementError::DeveloperOverflow)
                } else {
                    None
                },
            ),
            r is Err ==> *final(self) == *old(self),
            r is Ok ==> final(self).holdings(token) == old(self).holdings(token) + amount,
            r is Ok ==> {
                &&& *final(self) == (CalloraSettlement {
                    balances: final(self).balances,
                    developer_index: final(self).developer_index,
                    ..*old(self)
                })
                &&& final(self).balances@ == old(self).balances@.insert(
                    balance_key(developer, token),
                    (old(self).balance_of(developer, token) + amount) as i128,
                )
                &&& final(self).developer_index@ == if old(self).developer_index@.contains(
                    developer,
                ) {
                    old(self).developer_index@
                } else {
                    old(self).developer_index@.push(developer)
                }
            },
    {
        self.require_admin(caller)?;
        if amount <= 0 {
            return Err(SettlementFailure::Error(SettlementError::AmountNotPositive));
        }
        let current = self.read_balance(developer, token);
        let new_balance = match current.checked_add(amount) {
            Some(b) => b,
            None => {
                return Err(SettlementFailure::Error(SettlementError::DeveloperOverflow));
            },
        };
        if !contains_address(&self.developer_index, developer) {
            self.developer_index.push(developer);
            proof {
                assert(self.developer_index@.no_duplicates()) by {
                    let o = old(self).developer_index@;
                    assert forall|i: int, j: int|
                        0 <= i < self.developer_index@.len() && 0 <= j < self.developer_index@.len()
                            && i != j implies self.developer_index@[i] != self.developer_index@[j] by {
                        if i < o.len() && j < o.len() {
                            assert(o[i] != o[j]);
                        } else if i < o.len() {
                            assert(o.contains(o[i]));
                        } else {
                            assert(o.contains(o[j]));
                        }
                    }
                }
            }
        }
        proof {
            let o = old(self).developer_index@;
            let g = self.developer_index@;
            assert(g.contains(developer)) by {
                if !o.contains(developer) {
                    assert(g[o.len() as int] == developer);
                }
            }
            assert forall|x: Address| o.contains(x) implies g.contains(x) by {
                let j = choose|j: int| 0 <= j < o.len() && o[j] == x;
                assert(g[j] == x);
            }
            lemma_covered_grown(self.balances@, o, g);
            if o.contains(developer) {
                lemma_index_sum_listed(o, self.balances@, developer, token, new_balance);
            } else {
                lemma_credit_appended(o, self.balances@, developer, token, amount as int);
            }
        }
        self.write_balance(developer, token, new_balance);
        Ok(())
    }

    // ------------------------------------------------------------------
    // Broadcast and upgrade
    // ------------------------------------------------------------------

    /// Check an admin broadcast: the admin only, a message of 1 to 256 bytes.
    pub fn broadcast(&self, caller: Address, severity: Severity, message: &Vec<u8>) -> (r: Result<
        (),
        SettlementFailure,
    >)
        ensures
            r == settled(
                if self.admin_failure(caller) is Some {
                    self.admin_failure(caller)
                } else if message@.len() == 0 {
                    abort(SettlementPanic::MessageEmpty)
                } else if message@.len() > MAX_MESSAGE_LEN {
                    abort(SettlementPanic::MessageTooLong)
                } else {
                    None
                },
            ),
    {
        self.require_admin(caller)?;
        if message.len() == 0 {
            return Err(SettlementFailure::Panic(SettlementPanic::MessageEmpty));
        }
        if message.len() > 256 {
            return Err(SettlementFailure::Panic(SettlementPanic::MessageTooLong));
        }
        Ok(())
    }

    /// Record the code hash of an upgrade (admin only).
    pub fn upgrade(&mut self, caller: Address, new_wasm_hash: Vec<u8>) -> (r: Result<
        (),
        SettlementFailure,
    >)
        ensures
            r == settled(old(self).admin_failure(caller)),
            r is Ok ==> *final(self) == (CalloraSettlement {
                version: Some(new_wasm_hash),
                ..*old(self)
            }),
            r is Err ==> *final(self) == *old(self),
    {
        self.require_admin(caller)?;
        self.version = Some(new_wasm_hash);
        Ok(())
    }
}

/// The balances after crediting each `(developer, amount)` of `items` in
/// `token` in turn; `None` when a credit overflows.
pub open spec fn credit_all(
    balances: Map<u128, i128>,
    items: Seq<(Address, i128)>,
    token: Address,
) -> Option<Map<u128, i128>>
    decreases items.len(),
{
    if items.len() == 0 {
        Some(balances)
    } else {
        match credit_all(balances, items.drop_last(), token) {
            None => None,
            Some(b) => {
                let key = balance_key(items.last().0, token);
                let cur: int = if b.contains_key(key) {
                    b[key] as int
                } else {
                    0
                };
                if cur + items.last().1 > i128::MAX {
                    None
                } else {
                    Some(b.insert(key, (cur + items.last().1) as i128))
                }
            },
        }
    }
}

/// Once a prefix of the credits overflows, the whole batch does.
proof fn lemma_credit_all_none_extends(
    balances: Map<u128, i128>,
    items: Seq<(Address, i128)>,
    token: Address,
    k: int,
)
    requires
        0 <= k <= items.len(),
        credit_all(balances, items.subrange(0, k), token) is None,
    ensures
        credit_all(balances, items, token) is None,
    decreases items.len() - k,
{
    if k < items.len() {
        assert(items.subrange(0, k + 1).drop_last() =~= items.subrange(0, k));
        lemma_credit_all_none_extends(balances, items, token, k + 1);
    } else {
        assert(items.subrange(0, k) =~= items);
    }
}

/// Crediting positive amounts keeps every balance non-negative.
pub(crate) proof fn lemma_credit_all_nonneg(
    balances: Map<u128, i128>,
    items: Seq<(Address, i128)>,
    token: Address,
)
    requires
        forall|k: u128| #[trigger] balances.contains_key(k) ==> balances[k] >= 0,
        forall|j: int| 0 <= j < items.len() ==> (#[trigger] items[j]).1 > 0,
    ensures
        forall|b: Map<u128, i128>, k: u128|
            credit_all(balances, items, token) == Some(b) && #[trigger] b.contains_key(k) ==> b[k]
                >= 0,
    decreases items.len(),
{
    if items.len() > 0 {
        let t = items.drop_last();
        assert forall|j: int| 0 <= j < t.len() implies (#[trigger] t[j]).1 > 0 by {
            assert(t[j] == items[j]);
        }
        lemma_credit_all_nonneg(balances, t, token);
        assert(items.last() == items[items.len() - 1]);
    }
}

/// Crediting developers that are all listed keeps every balance holder
/// listed.
proof fn lemma_credit_all_covered(
    balances: Map<u128, i128>,
    items: Seq<(Address, i128)>,
    token: Address,
    index: Seq<Address>,
)
    requires
        covered(balances, index),
        forall|j: int| 0 <= j < items.len() ==> index.contains(#[trigger] items[j].0),
    ensures
        credit_all(balances, items, token) matches Some(m) ==> covered(m, index),
    decreases items.len(),
{
    if items.len() > 0 {
        let t = items.drop_last();
        assert forall|j: int| 0 <= j < t.len() implies index.contains(#[trigger] t[j].0) by {
            assert(t[j] == items[j]);
        }
        lemma_credit_all_covered(balances, t, token, index);
        assert(items.last() == items[items.len() - 1]);
        match credit_all(balances, t, token) {
            None => {},
            Some(b) => {
                let key = balance_key(items.last().0, token);
                let cur: int = if b.contains_key(key) {
                    b[key] as int
                } else {
                    0
                };
                if cur + items.last().1 <= i128::MAX {
                    lemma_covered_insert(
                        b,
                        index,
                        index,
                        items.last().0,
                        token,
                        (cur + items.last().1) as i128,
                    );
                }
            },
        }
    }
}

/// The index after listing `d`: unchanged when `d` is listed already, else
/// with `d` inserted before the first greater address.
pub open spec fn indexed(index: Seq<Address>, d: Address) -> Seq<Address> {
    if index.contains(d) {
        index
    } else {
        let p = first_greater(index, d);
        index.subrange(0, p).push(d) + index.subrange(p, index.len() as int)
    }
}

/// Position of the first address of `index` greater than `d`
/// (`index.len()` if there is none).
pub open spec fn first_greater(index: Seq<Address>, d: Address) -> int
    decreases index.len(),
{
    if index.len() == 0 {
        0
    } else if d < index[0] {
        0
    } else {
        1 + first_greater(index.drop_first(), d)
    }
}

/// The index after listing the developers of the first `n` items in turn.
pub open spec fn indexed_all(index: Seq<Address>, items: Seq<(Address, i128)>, n: int) -> Seq<
    Address,
>
    decreases n,
{
    if n <= 0 {
        index
    } else {
        indexed(indexed_all(index, items, n - 1), items[n - 1].0)
    }
}

pub(crate) proof fn lemma_first_greater(index: Seq<Address>, d: Address)
    ensures
        0 <= first_greater(index, d) <= index.len(),
        forall|j: int| 0 <= j < first_greater(index, d) ==> index[j] <= d,
        first_greater(index, d) < index.len() ==> d < index[first_greater(index, d)],
    decreases index.len(),
{
    if index.len() > 0 && d >= index[0] {
        lemma_first_greater(index.drop_first(), d);
        let p = first_greater(index, d);
        assert forall|j: int| 0 <= j < p implies index[j] <= d by {
            if j > 0 {
                assert(index[j] == index.drop_first()[j - 1]);
            }
        }
    }
}

/// Insert `addr` into `index` before the first greater address, unless it
/// is present already. An ascending index stays ascending.
pub fn sorted_insert(index: &mut Vec<Address>, addr: Address)
    requires
        old(index)@.no_duplicates(),
    ensures
        final(index)@.no_duplicates(),
        final(index)@ == indexed(old(index)@, addr),
        final(index)@.to_set() == old(index)@.to_set().insert(addr),
        ascending(old(index)@) ==> ascending(final(index)@),
{
    let mut insert_pos: Option<usize> = None;
    let mut i: usize = 0;
    let ghost o = index@;
    proof {
        lemma_first_greater(o, addr);
    }
    while i < index.len()
        invariant
            index@ == o,
            o.no_duplicates(),
            0 <= i <= o.len(),
            forall|j: int| 0 <= j < i ==> o[j] != addr,
            match insert_pos {
                None => forall|j: int| 0 <= j < i ==> o[j] <= addr,
                Some(p) => p < i && p == first_greater(o, addr),
            },
            0 <= first_greater(o, addr) <= o.len(),
            forall|j: int| 0 <= j < first_greater(o, addr) ==> o[j] <= addr,
            first_greater(o, addr) < o.len() ==> addr < o[first_greater(o, addr)],
        decreases o.len() - i,
    {
        let existing = index[i];
        if existing == addr {
            proof {
                assert(o.contains(addr));
                assert(o.to_set().insert(addr) =~= o.to_set());
            }
            return;
        }
        if insert_pos.is_none() && addr < existing {
            proof {
                let fg = first_greater(o, addr);
                if fg < i {
                    assert(o[fg] <= addr);
                }
                if fg > i {
                    assert(o[i as int] <= addr);
                }
            }
            insert_pos = Some(i);
        }
        i = i + 1;
    }
    proof {
        assert(!o.contains(addr));
        if insert_pos is None {
            let fg = first_greater(o, addr);
            if fg < o.len() {
                assert(o[fg] <= addr);
            }
        }
    }
    let p = match insert_pos {
        Some(p) => p,
        None => index.len(),
    };
    index.insert(p, addr);
    proof {
        assert(index@ =~= indexed(o, addr));
        law_listing_keeps_index_sound(o, addr);
    }
}

/// Listing a developer adds exactly that developer to the index, keeps it
/// free of repetition, and keeps an ascending index ascending.
pub proof fn law_listing_keeps_index_sound(o: Seq<Address>, addr: Address)
    requires
        o.no_duplicates(),
    ensures
        indexed(o, addr).no_duplicates(),
        indexed(o, addr).to_set() == o.to_set().insert(addr),
        ascending(o) ==> ascending(indexed(o, addr)),
{
    if o.contains(addr) {
        assert(o.to_set().insert(addr) =~= o.to_set());
    } else {
        lemma_first_greater(o, addr);
        let p = first_greater(o, addr);
        let n = indexed(o, addr);
        assert(n.no_duplicates()) by {
            assert forall|a: int, b: int| 0 <= a < n.len() && 0 <= b < n.len() && a != b implies n[a]
                != n[b] by {
                let oa = if a < p { a } else { a - 1 };
                let ob = if b < p { b } else { b - 1 };
                if a != p && b != p {
                    assert(n[a] == o[oa] && n[b] == o[ob]);
                } else if a == p {
                    assert(n[b] == o[ob]);
                } else {
                    assert(n[a] == o[oa]);
                }
            }
        }
        assert(n.to_set() =~= o.to_set().insert(addr)) by {
            assert forall|x: Address| n.to_set().contains(x) implies o.to_set().insert(addr).contains(x) by {
                let j = choose|j: int| 0 <= j < n.len() && n[j] == x;
                if j < p {
                    assert(o[j] == x);
                } else if j > p {
                    assert(o[j - 1] == x);
                }
            }
            assert forall|x: Address| o.to_set().insert(addr).contains(x) implies n.to_set().contains(x) by {
                if x == addr {
                    assert(n[p] == x);
                } else {
                    let j = choose|j: int| 0 <= j < o.len() && o[j] == x;
                    if j < p {
                        assert(n[j] == x);
                    } else {
                        assert(n[j + 1] == x);
                    }
                }
            }
        }
        if ascending(o) {
            assert forall|a: int, b: int| 0 <= a < b < n.len() implies n[a] < n[b] by {
                if b < p {
                    assert(n[a] == o[a] && n[b] == o[b]);
                } else if b == p {
                    assert(n[a] == o[a]);
                    assert(o[a] <= addr);
                } else if a < p {
                    assert(n[a] == o[a] && n[b] == o[b - 1]);
                } else if a == p {
                    assert(n[b] == o[b - 1]);
                    assert(addr < o[p]);
                } else {
                    assert(n[a] == o[a - 1] && n[b] == o[b - 1]);
                }
            }
        }
    }
}

} // verus!
