//! Stable, machine-readable error codes of the three contracts.

use vstd::prelude::*;

verus! {

/// Typed error codes of the vault contract.
///
/// Every variant carries a stable numeric code (see [`VaultError::code`]);
/// callers and indexers branch on the code instead of parsing messages.
#[derive(Clone, Copy, Debug, PartialEq, Eq)]
pub enum VaultError {
    /// Vault has not been initialized (code 1).
    NotInitialized,
    /// `init` was called more than once (code 2).
    AlreadyInitialized,
    /// Caller is not authorized for the operation (code 3).
    Unauthorized,
    /// State-changing action is blocked while paused (code 4).
    Paused,
    /// Vault balance is too low for the requested operation (code 5).
    InsufficientBalance,
    /// Amount must be greater than zero (code 6).
    AmountNotPositive,
    /// Deduct amount exceeds the configured cap (code 7).
    ExceedsMaxDeduct,
    /// Deposit amount is below the configured minimum (code 8).
    BelowMinDeposit,
    /// Arithmetic overflow was detected (code 9).
    Overflow,
    /// Initial balance must be non-negative (code 10).
    InitialBalanceNegative,
    /// Minimum deposit must be greater than zero (code 11).
    MinDepositNotPositive,
    /// Maximum deduct must be greater than zero (code 12).
    MaxDeductNotPositive,
    /// Minimum deposit cannot exceed maximum deduct (code 13).
    MinDepositExceedsMaxDeduct,
    /// USDC token address cannot be the vault contract (code 14).
    UsdcTokenCannotBeVault,
    /// Revenue pool address cannot be the vault contract (code 15).
    RevenuePoolCannotBeVault,
    /// Authorized caller cannot be the vault contract (code 16).
    AuthorizedCallerCannotBeVault,
    /// Initial tracked balance exceeds on-ledger USDC (code 17).
    InitialBalanceExceedsOnLedger,
    /// Contract is already paused (code 18).
    AlreadyPaused,
    /// Contract is not paused (code 19).
    NotPaused,
    /// Settlement address has not been configured (code 20).
    SettlementNotSet,
    /// Batch deduct received no items (code 21).
    BatchEmpty,
    /// Batch deduct exceeds the maximum allowed size (code 22).
    BatchTooLarge,
    /// Proposed owner matches the current owner (code 23).
    NewOwnerSameAsCurrent,
    /// No ownership transfer is pending (code 24).
    NoOwnershipTransferPending,
    /// No admin transfer is pending (code 25).
    NoAdminTransferPending,
    /// Offering ID exceeds the maximum length (code 26).
    OfferingIdTooLong,
    /// Metadata exceeds the maximum length (code 27).
    MetadataTooLong,
    /// Price is invalid or non-positive (code 28).
    PriceParseError,
    /// Request ID has already been processed (code 29).
    DuplicateRequestId,
    /// Offering ID is empty or contains invalid characters (code 30).
    OfferingIdInvalid,
    /// Metadata is empty or contains invalid characters (code 31).
    MetadataInvalid,
    /// Rotation nonce does not match the stored current nonce (code 32).
    StaleNonce,
    /// Proposed revenue pool matches the current revenue pool (code 33).
    NewRevenuePoolSameAsCurrent,
    /// No revenue-pool transfer is pending (code 34).
    NoRevenuePoolTransferPending,
}

/// The stable numeric code of each [`VaultError`] variant.
pub open spec fn vault_error_code(e: VaultError) -> u32 {
    match e {
        VaultError::NotInitialized => 1,
        VaultError::AlreadyInitialized => 2,
        VaultError::Unauthorized => 3,
        VaultError::Paused => 4,
        VaultError::InsufficientBalance => 5,
        VaultError::AmountNotPositive => 6,
        VaultError::ExceedsMaxDeduct => 7,
        VaultError::BelowMinDeposit => 8,
        VaultError::Overflow => 9,
        VaultError::InitialBalanceNegative => 10,
        VaultError::MinDepositNotPositive => 11,
        VaultError::MaxDeductNotPositive => 12,
        VaultError::MinDepositExceedsMaxDeduct => 13,
        VaultError::UsdcTokenCannotBeVault => 14,
        VaultError::RevenuePoolCannotBeVault => 15,
        VaultError::AuthorizedCallerCannotBeVault => 16,
        VaultError::InitialBalanceExceedsOnLedger => 17,
        VaultError::AlreadyPaused => 18,
        VaultError::NotPaused => 19,
        VaultError::SettlementNotSet => 20,
        VaultError::BatchEmpty => 21,
        VaultError::BatchTooLarge => 22,
        VaultError::NewOwnerSameAsCurrent => 23,
        VaultError::NoOwnershipTransferPending => 24,
        VaultError::NoAdminTransferPending => 25,
        VaultError::OfferingIdTooLong => 26,
        VaultError::MetadataTooLong => 27,
        VaultError::PriceParseError => 28,
        VaultError::DuplicateRequestId => 29,
        VaultError::OfferingIdInvalid => 30,
        VaultError::MetadataInvalid => 31,
        VaultError::StaleNonce => 32,
        VaultError::NewRevenuePoolSameAsCurrent => 33,
        VaultError::NoRevenuePoolTransferPending => 34,
    }
}

impl VaultError {
    /// The stable numeric code of this error, as listed in the error table.
    pub fn code(&self) -> (r: u32)
        ensures
            r == vault_error_code(*self),
            1 <= r <= 34,
    {
        match self {
            VaultError::NotInitialized => 1,
            VaultError::AlreadyInitialized => 2,
            VaultError::Unauthorized => 3,
            VaultError::Paused => 4,
            VaultError::InsufficientBalance => 5,
            VaultError::AmountNotPositive => 6,
            VaultError::ExceedsMaxDeduct => 7,
            VaultError::BelowMinDeposit => 8,
            VaultError::Overflow => 9,
            VaultError::InitialBalanceNegative => 10,
            VaultError::MinDepositNotPositive => 11,
            VaultError::MaxDeductNotPositive => 12,
            VaultError::MinDepositExceedsMaxDeduct => 13,
            VaultError::UsdcTokenCannotBeVault => 14,
            VaultError::RevenuePoolCannotBeVault => 15,
            VaultError::AuthorizedCallerCannotBeVault => 16,
            VaultError::InitialBalanceExceedsOnLedger => 17,
            VaultError::AlreadyPaused => 18,
            VaultError::NotPaused => 19,
            VaultError::SettlementNotSet => 20,
            VaultError::BatchEmpty => 21,
            VaultError::BatchTooLarge => 22,
            VaultError::NewOwnerSameAsCurrent => 23,
            VaultError::NoOwnershipTransferPending => 24,
            VaultError::NoAdminTransferPending => 25,
            VaultError::OfferingIdTooLong => 26,
            VaultError::MetadataTooLong => 27,
            VaultError::PriceParseError => 28,
            VaultError::DuplicateRequestId => 29,
            VaultError::OfferingIdInvalid => 30,
            VaultError::MetadataInvalid => 31,
            VaultError::StaleNonce => 32,
            VaultError::NewRevenuePoolSameAsCurrent => 33,
            VaultError::NoRevenuePoolTransferPending => 34,
        }
    }

    /// The variant's name, as it appears in the error table.
    pub open spec fn table_name(&self) -> Seq<char> {
        match self {
            VaultError::NotInitialized => "NotInitialized"@,
            VaultError::AlreadyInitialized => "AlreadyInitialized"@,
            VaultError::Unauthorized => "Unauthorized"@,
            VaultError::Paused => "Paused"@,
            VaultError::InsufficientBalance => "InsufficientBalance"@,
            VaultError::AmountNotPositive => "AmountNotPositive"@,
            VaultError::ExceedsMaxDeduct => "ExceedsMaxDeduct"@,
            VaultError::BelowMinDeposit => "BelowMinDeposit"@,
            VaultError::Overflow => "Overflow"@,
            VaultError::InitialBalanceNegative => "InitialBalanceNegative"@,
            VaultError::MinDepositNotPositive => "MinDepositNotPositive"@,
            VaultError::MaxDeductNotPositive => "MaxDeductNotPositive"@,
            VaultError::MinDepositExceedsMaxDeduct => "MinDepositExceedsMaxDeduct"@,
            VaultError::UsdcTokenCannotBeVault => "UsdcTokenCannotBeVault"@,
            VaultError::RevenuePoolCannotBeVault => "RevenuePoolCannotBeVault"@,
            VaultError::AuthorizedCallerCannotBeVault => "AuthorizedCallerCannotBeVault"@,
            VaultError::InitialBalanceExceedsOnLedger => "InitialBalanceExceedsOnLedger"@,
            VaultError::AlreadyPaused => "AlreadyPaused"@,
            VaultError::NotPaused => "NotPaused"@,
            VaultError::SettlementNotSet => "SettlementNotSet"@,
            VaultError::BatchEmpty => "BatchEmpty"@,
            VaultError::BatchTooLarge => "BatchTooLarge"@,
            VaultError::NewOwnerSameAsCurrent => "NewOwnerSameAsCurrent"@,
            VaultError::NoOwnershipTransferPending => "NoOwnershipTransferPending"@,
            VaultError::NoAdminTransferPending => "NoAdminTransferPending"@,
            VaultError::OfferingIdTooLong => "OfferingIdTooLong"@,
            VaultError::MetadataTooLong => "MetadataTooLong"@,
            VaultError::PriceParseError => "PriceParseError"@,
            VaultError::DuplicateRequestId => "DuplicateRequestId"@,
            VaultError::OfferingIdInvalid => "OfferingIdInvalid"@,
            VaultError::MetadataInvalid => "MetadataInvalid"@,
            VaultError::StaleNonce => "StaleNonce"@,
            VaultError::NewRevenuePoolSameAsCurrent => "NewRevenuePoolSameAsCurrent"@,
            VaultError::NoRevenuePoolTransferPending => "NoRevenuePoolTransferPending"@,
        }
    }

    /// The variant's name, as it appears in the error table.
    pub fn name(&self) -> (r: &'static str)
        ensures
            r@ == self.table_name(),
    {
        match self {
            VaultError::NotInitialized => "NotInitialized",
            VaultError::AlreadyInitialized => "AlreadyInitialized",
            VaultError::Unauthorized => "Unauthorized",
            VaultError::Paused => "Paused",
            VaultError::InsufficientBalance => "InsufficientBalance",
            VaultError::AmountNotPositive => "AmountNotPositive",
            VaultError::ExceedsMaxDeduct => "ExceedsMaxDeduct",
            VaultError::BelowMinDeposit => "BelowMinDeposit",
            VaultError::Overflow => "Overflow",
            VaultError::InitialBalanceNegative => "InitialBalanceNegative",
            VaultError::MinDepositNotPositive => "MinDepositNotPositive",
            VaultError::MaxDeductNotPositive => "MaxDeductNotPositive",
            VaultError::MinDepositExceedsMaxDeduct => "MinDepositExceedsMaxDeduct",
            VaultError::UsdcTokenCannotBeVault => "UsdcTokenCannotBeVault",
            VaultError::RevenuePoolCannotBeVault => "RevenuePoolCannotBeVault",
            VaultError::AuthorizedCallerCannotBeVault => "AuthorizedCallerCannotBeVault",
            VaultError::InitialBalanceExceedsOnLedger => "InitialBalanceExceedsOnLedger",
            VaultError::AlreadyPaused => "AlreadyPaused",
            VaultError::NotPaused => "NotPaused",
            VaultError::SettlementNotSet => "SettlementNotSet",
            VaultError::BatchEmpty => "BatchEmpty",
            VaultError::BatchTooLarge => "BatchTooLarge",
            VaultError::NewOwnerSameAsCurrent => "NewOwnerSameAsCurrent",
            VaultError::NoOwnershipTransferPending => "NoOwnershipTransferPending",
            VaultError::NoAdminTransferPending => "NoAdminTransferPending",
            VaultError::OfferingIdTooLong => "OfferingIdTooLong",
            VaultError::MetadataTooLong => "MetadataTooLong",
            VaultError::PriceParseError => "PriceParseError",
            VaultError::DuplicateRequestId => "DuplicateRequestId",
            VaultError::OfferingIdInvalid => "OfferingIdInvalid",
            VaultError::MetadataInvalid => "MetadataInvalid",
            VaultError::StaleNonce => "StaleNonce",
            VaultError::NewRevenuePoolSameAsCurrent => "NewRevenuePoolSameAsCurrent",
            VaultError::NoRevenuePoolTransferPending => "NoRevenuePoolTransferPending",
        }
    }

    /// The contract that raises this error, as it appears in the error table.
    pub fn contract(&self) -> (r: &'static str)
        ensures
            r@ == "Vault"@,
    {
        "Vault"
    }

    /// One-line meaning of the error, as it appears in the error table.
    pub open spec fn table_description(&self) -> Seq<char> {
        match self {
            VaultError::NotInitialized => "Vault has not been initialized"@,
            VaultError::AlreadyInitialized => "`init` was called more than once"@,
            VaultError::Unauthorized => "Caller is not authorized for the operation"@,
            VaultError::Paused => "State-changing action is blocked while paused"@,
            VaultError::InsufficientBalance => "Vault balance is too low for the requested operation"@,
            VaultError::AmountNotPositive => "Amount must be greater than zero"@,
            VaultError::ExceedsMaxDeduct => "Deduct amount exceeds the configured cap"@,
            VaultError::BelowMinDeposit => "Deposit amount is below the configured minimum"@,
            VaultError::Overflow => "Arithmetic overflow was detected"@,
            VaultError::InitialBalanceNegative => "Initial balance must be non-negative"@,
            VaultError::MinDepositNotPositive => "Minimum deposit must be greater than zero"@,
            VaultError::MaxDeductNotPositive => "Maximum deduct must be greater than zero"@,
            VaultError::MinDepositExceedsMaxDeduct => "Minimum deposit cannot exceed maximum deduct"@,
            VaultError::UsdcTokenCannotBeVault => "USDC token address cannot be the vault contract"@,
            VaultError::RevenuePoolCannotBeVault => "Revenue pool address cannot be the vault contract"@,
            VaultError::AuthorizedCallerCannotBeVault => "Authorized caller cannot be the vault contract"@,
            VaultError::InitialBalanceExceedsOnLedger => "Initial tracked balance exceeds on-ledger USDC"@,
            VaultError::AlreadyPaused => "Contract is already paused"@,
            VaultError::NotPaused => "Contract is not paused"@,
            VaultError::SettlementNotSet => "Settlement address has not been configured"@,
            VaultError::BatchEmpty => "Batch deduct received no items"@,
            VaultError::BatchTooLarge => "Batch deduct exceeds the maximum allowed size"@,
            VaultError::NewOwnerSameAsCurrent => "Proposed owner matches the current owner"@,
            VaultError::NoOwnershipTransferPending => "No ownership transfer is pending"@,
            VaultError::NoAdminTransferPending => "No admin transfer is pending"@,
            VaultError::OfferingIdTooLong => "Offering ID exceeds the maximum length"@,
            VaultError::MetadataTooLong => "Metadata exceeds the maximum length"@,
            VaultError::PriceParseError => "Price is invalid or non-positive"@,
            VaultError::DuplicateRequestId => "Request ID has already been processed"@,
            VaultError::OfferingIdInvalid => "Offering ID is empty or contains invalid characters"@,
            VaultError::MetadataInvalid => "Metadata is empty or contains invalid characters"@,
            VaultError::StaleNonce => "Rotation nonce does not match the stored current nonce"@,
            VaultError::NewRevenuePoolSameAsCurrent => "Proposed revenue pool matches the current revenue pool"@,
            VaultError::NoRevenuePoolTransferPending => "No revenue-pool transfer is pending"@,
        }
    }

    /// One-line meaning of the error, as it appears in the error table.
    pub fn description(&self) -> (r: &'static str)
        ensures
            r@ == self.table_description(),
    {
        match self {
            VaultError::NotInitialized => "Vault has not been initialized",
            VaultError::AlreadyInitialized => "`init` was called more than once",
            VaultError::Unauthorized => "Caller is not authorized for the operation",
            VaultError::Paused => "State-changing action is blocked while paused",
            VaultError::InsufficientBalance => "Vault balance is too low for the requested operation",
            VaultError::AmountNotPositive => "Amount must be greater than zero",
            VaultError::ExceedsMaxDeduct => "Deduct amount exceeds the configured cap",
            VaultError::BelowMinDeposit => "Deposit amount is below the configured minimum",
            VaultError::Overflow => "Arithmetic overflow was detected",
            VaultError::InitialBalanceNegative => "Initial balance must be non-negative",
            VaultError::MinDepositNotPositive => "Minimum deposit must be greater than zero",
            VaultError::MaxDeductNotPositive => "Maximum deduct must be greater than zero",
            VaultError::MinDepositExceedsMaxDeduct => "Minimum deposit cannot exceed maximum deduct",
            VaultError::UsdcTokenCannotBeVault => "USDC token address cannot be the vault contract",
            VaultError::RevenuePoolCannotBeVault => "Revenue pool address cannot be the vault contract",
            VaultError::AuthorizedCallerCannotBeVault => "Authorized caller cannot be the vault contract",
            VaultError::InitialBalanceExceedsOnLedger => "Initial tracked balance exceeds on-ledger USDC",
            VaultError::AlreadyPaused => "Contract is already paused",
            VaultError::NotPaused => "Contract is not paused",
            VaultError::SettlementNotSet => "Settlement address has not been configured",
            VaultError::BatchEmpty => "Batch deduct received no items",
            VaultError::BatchTooLarge => "Batch deduct exceeds the maximum allowed size",
            VaultError::NewOwnerSameAsCurrent => "Proposed owner matches the current owner",
            VaultError::NoOwnershipTransferPending => "No ownership transfer is pending",
            VaultError::NoAdminTransferPending => "No admin transfer is pending",
            VaultError::OfferingIdTooLong => "Offering ID exceeds the maximum length",
            VaultError::MetadataTooLong => "Metadata exceeds the maximum length",
            VaultError::PriceParseError => "Price is invalid or non-positive",
            VaultError::DuplicateRequestId => "Request ID has already been processed",
            VaultError::OfferingIdInvalid => "Offering ID is empty or contains invalid characters",
            VaultError::MetadataInvalid => "Metadata is empty or contains invalid characters",
            VaultError::StaleNonce => "Rotation nonce does not match the stored current nonce",
            VaultError::NewRevenuePoolSameAsCurrent => "Proposed revenue pool matches the current revenue pool",
            VaultError::NoRevenuePoolTransferPending => "No revenue-pool transfer is pending",
        }
    }
}

/// Distinct variants of [`VaultError`] carry distinct codes.
pub proof fn lemma_vault_error_code_injective(a: VaultError, b: VaultError)
    ensures
        vault_error_code(a) == vault_error_code(b) <==> a == b,
{
}

/// Typed error codes of the settlement contract.
///
/// Every variant carries a stable numeric code (see [`SettlementError::code`]);
/// callers and indexers branch on the code instead of parsing messages.
#[derive(Clone, Copy, Debug, PartialEq, Eq)]
pub enum SettlementError {
    /// A function was called before `init` (code 1).
    NotInitialized,
    /// `init` was called more than once (code 2).
    AlreadyInitialized,
    /// Caller is not the vault or current admin (code 3).
    Unauthorized,
    /// Amount must be greater than zero (code 4).
    AmountNotPositive,
    /// `to_pool=false` requires a developer address (code 5).
    DeveloperRequired,
    /// `to_pool=true` forbids a developer address (code 6).
    DeveloperMustBeNone,
    /// Global pool credit would overflow `i128` (code 7).
    PoolOverflow,
    /// Developer balance credit would overflow `i128` (code 8).
    DeveloperOverflow,
    /// USDC token address is not configured (code 9).
    UsdcTokenNotConfigured,
    /// Developer balance is lower than the withdrawal (code 10).
    InsufficientDeveloperBalance,
    /// Developer balance debit would underflow (code 11).
    DeveloperBalanceUnderflow,
    /// Contract USDC balance is lower than requested amount (code 12).
    InsufficientContractBalance,
    /// Daily developer withdrawal cap would be exceeded (code 13).
    DailyWithdrawCapExceeded,
    /// Full scan is too large; use paginated access (code 14).
    GasExhaustionRisk,
    /// Reason `Symbol` exceeds the allowed length (code 15).
    ReasonTooLong,
    /// Migration source and target are identical (code 16).
    MigrationSameAddress,
    /// Migration target is the settlement contract (code 17).
    InvalidMigrationTarget,
    /// Migration source has no positive balance (code 18).
    NoDeveloperBalance,
    /// Timelock timestamp addition overflowed (code 19).
    TimelockOverflow,
    /// No migration is pending for the source (code 20).
    MigrationNotFound,
    /// Migration delay has not elapsed (code 21).
    TimelockNotExpired,
    /// Approved amount is no longer available (code 22).
    MigrationBalanceChanged,
    /// Withdrawal amount exceeds the developer's balance (code 23).
    OverDraft,
    /// Claim window end is before its start (code 24).
    InvalidClaimWindow,
    /// Claim attempted outside the developer's claim window (code 25).
    ClaimWindowClosed,
}

/// The stable numeric code of each [`SettlementError`] variant.
pub open spec fn settlement_error_code(e: SettlementError) -> u32 {
    match e {
        SettlementError::NotInitialized => 1,
        SettlementError::AlreadyInitialized => 2,
        SettlementError::Unauthorized => 3,
        SettlementError::AmountNotPositive => 4,
        SettlementError::DeveloperRequired => 5,
        SettlementError::DeveloperMustBeNone => 6,
        SettlementError::PoolOverflow => 7,
        SettlementError::DeveloperOverflow => 8,
        SettlementError::UsdcTokenNotConfigured => 9,
        SettlementError::InsufficientDeveloperBalance => 10,
        SettlementError::DeveloperBalanceUnderflow => 11,
        SettlementError::InsufficientContractBalance => 12,
        SettlementError::DailyWithdrawCapExceeded => 13,
        SettlementError::GasExhaustionRisk => 14,
        SettlementError::ReasonTooLong => 15,
        SettlementError::MigrationSameAddress => 16,
        SettlementError::InvalidMigrationTarget => 17,
        SettlementError::NoDeveloperBalance => 18,
        SettlementError::TimelockOverflow => 19,
        SettlementError::MigrationNotFound => 20,
        SettlementError::TimelockNotExpired => 21,
        SettlementError::MigrationBalanceChanged => 22,
        SettlementError::OverDraft => 23,
        SettlementError::InvalidClaimWindow => 24,
        SettlementError::ClaimWindowClosed => 25,
    }
}

impl SettlementError {
    /// The stable numeric code of this error, as listed in the error table.
    pub fn code(&self) -> (r: u32)
        ensures
            r == settlement_error_code(*self),
            1 <= r <= 25,
    {
        match self {
            SettlementError::NotInitialized => 1,
            SettlementError::AlreadyInitialized => 2,
            SettlementError::Unauthorized => 3,
            SettlementError::AmountNotPositive => 4,
            SettlementError::DeveloperRequired => 5,
            SettlementError::DeveloperMustBeNone => 6,
            SettlementError::PoolOverflow => 7,
            SettlementError::DeveloperOverflow => 8,
            SettlementError::UsdcTokenNotConfigured => 9,
            SettlementError::InsufficientDeveloperBalance => 10,
            SettlementError::DeveloperBalanceUnderflow => 11,
            SettlementError::InsufficientContractBalance => 12,
            SettlementError::DailyWithdrawCapExceeded => 13,
            SettlementError::GasExhaustionRisk => 14,
            SettlementError::ReasonTooLong => 15,
            SettlementError::MigrationSameAddress => 16,
            SettlementError::InvalidMigrationTarget => 17,
            SettlementError::NoDeveloperBalance => 18,
            SettlementError::TimelockOverflow => 19,
            SettlementError::MigrationNotFound => 20,
            SettlementError::TimelockNotExpired => 21,
            SettlementError::MigrationBalanceChanged => 22,
            SettlementError::OverDraft => 23,
            SettlementError::InvalidClaimWindow => 24,
            SettlementError::ClaimWindowClosed => 25,
        }
    }

    /// The variant's name, as it appears in the error table.
    pub open spec fn table_name(&self) -> Seq<char> {
        match self {
            SettlementError::NotInitialized => "NotInitialized"@,
            SettlementError::AlreadyInitialized => "AlreadyInitialized"@,
            SettlementError::Unauthorized => "Unauthorized"@,
            SettlementError::AmountNotPositive => "AmountNotPositive"@,
            SettlementError::DeveloperRequired => "DeveloperRequired"@,
            SettlementError::DeveloperMustBeNone => "DeveloperMustBeNone"@,
            SettlementError::PoolOverflow => "PoolOverflow"@,
            SettlementError::DeveloperOverflow => "DeveloperOverflow"@,
            SettlementError::UsdcTokenNotConfigured => "UsdcTokenNotConfigured"@,
            SettlementError::InsufficientDeveloperBalance => "InsufficientDeveloperBalance"@,
            SettlementError::DeveloperBalanceUnderflow => "DeveloperBalanceUnderflow"@,
            SettlementError::InsufficientContractBalance => "InsufficientContractBalance"@,
            SettlementError::DailyWithdrawCapExceeded => "DailyWithdrawCapExceeded"@,
            SettlementError::GasExhaustionRisk => "GasExhaustionRisk"@,
            SettlementError::ReasonTooLong => "ReasonTooLong"@,
            SettlementError::MigrationSameAddress => "MigrationSameAddress"@,
            SettlementError::InvalidMigrationTarget => "InvalidMigrationTarget"@,
            SettlementError::NoDeveloperBalance => "NoDeveloperBalance"@,
            SettlementError::TimelockOverflow => "TimelockOverflow"@,
            SettlementError::MigrationNotFound => "MigrationNotFound"@,
            SettlementError::TimelockNotExpired => "TimelockNotExpired"@,
            SettlementError::MigrationBalanceChanged => "MigrationBalanceChanged"@,
            SettlementError::OverDraft => "OverDraft"@,
            SettlementError::InvalidClaimWindow => "InvalidClaimWindow"@,
            SettlementError::ClaimWindowClosed => "ClaimWindowClosed"@,
        }
    }

    /// The variant's name, as it appears in the error table.
    pub fn name(&self) -> (r: &'static str)
        ensures
            r@ == self.table_name(),
    {
        match self {
            SettlementError::NotInitialized => "NotInitialized",
            SettlementError::AlreadyInitialized => "AlreadyInitialized",
            SettlementError::Unauthorized => "Unauthorized",
            SettlementError::AmountNotPositive => "AmountNotPositive",
            SettlementError::DeveloperRequired => "DeveloperRequired",
            SettlementError::DeveloperMustBeNone => "DeveloperMustBeNone",
            SettlementError::PoolOverflow => "PoolOverflow",
            SettlementError::DeveloperOverflow => "DeveloperOverflow",
            SettlementError::UsdcTokenNotConfigured => "UsdcTokenNotConfigured",
            SettlementError::InsufficientDeveloperBalance => "InsufficientDeveloperBalance",
            SettlementError::DeveloperBalanceUnderflow => "DeveloperBalanceUnderflow",
            SettlementError::InsufficientContractBalance => "InsufficientContractBalance",
            SettlementError::DailyWithdrawCapExceeded => "DailyWithdrawCapExceeded",
            SettlementError::GasExhaustionRisk => "GasExhaustionRisk",
            SettlementError::ReasonTooLong => "ReasonTooLong",
            SettlementError::MigrationSameAddress => "MigrationSameAddress",
            SettlementError::InvalidMigrationTarget => "InvalidMigrationTarget",
            SettlementError::NoDeveloperBalance => "NoDeveloperBalance",
            SettlementError::TimelockOverflow => "TimelockOverflow",
            SettlementError::MigrationNotFound => "MigrationNotFound",
            SettlementError::TimelockNotExpired => "TimelockNotExpired",
            SettlementError::MigrationBalanceChanged => "MigrationBalanceChanged",
            SettlementError::OverDraft => "OverDraft",
            SettlementError::InvalidClaimWindow => "InvalidClaimWindow",
            SettlementError::ClaimWindowClosed => "ClaimWindowClosed",
        }
    }

    /// The contract that raises this error, as it appears in the error table.
    pub fn contract(&self) -> (r: &'static str)
        ensures
            r@ == "Settlement"@,
    {
        "Settlement"
    }

    /// One-line meaning of the error, as it appears in the error table.
    pub open spec fn table_description(&self) -> Seq<char> {
        match self {
            SettlementError::NotInitialized => "A function was called before `init`"@,
            SettlementError::AlreadyInitialized => "`init` was called more than once"@,
            SettlementError::Unauthorized => "Caller is not the vault or current admin"@,
            SettlementError::AmountNotPositive => "Amount must be greater than zero"@,
            SettlementError::DeveloperRequired => "`to_pool=false` requires a developer address"@,
            SettlementError::DeveloperMustBeNone => "`to_pool=true` forbids a developer address"@,
            SettlementError::PoolOverflow => "Global pool credit would overflow `i128`"@,
            SettlementError::DeveloperOverflow => "Developer balance credit would overflow `i128`"@,
            SettlementError::UsdcTokenNotConfigured => "USDC token address is not configured"@,
            SettlementError::InsufficientDeveloperBalance => "Developer balance is lower than the withdrawal"@,
            SettlementError::DeveloperBalanceUnderflow => "Developer balance debit would underflow"@,
            SettlementError::InsufficientContractBalance => "Contract USDC balance is lower than requested amount"@,
            SettlementError::DailyWithdrawCapExceeded => "Daily developer withdrawal cap would be exceeded"@,
            SettlementError::GasExhaustionRisk => "Full scan is too large; use paginated access"@,
            SettlementError::ReasonTooLong => "Reason `Symbol` exceeds the allowed length"@,
            SettlementError::MigrationSameAddress => "Migration source and target are identical"@,
            SettlementError::InvalidMigrationTarget => "Migration target is the settlement contract"@,
            SettlementError::NoDeveloperBalance => "Migration source has no positive balance"@,
            SettlementError::TimelockOverflow => "Timelock timestamp addition overflowed"@,
            SettlementError::MigrationNotFound => "No migration is pending for the source"@,
            SettlementError::TimelockNotExpired => "Migration delay has not elapsed"@,
            SettlementError::MigrationBalanceChanged => "Approved amount is no longer available"@,
            SettlementError::OverDraft => "Withdrawal amount exceeds the developer's balance"@,
            SettlementError::InvalidClaimWindow => "Claim window end is before its start"@,
            SettlementError::ClaimWindowClosed => "Claim attempted outside the developer's claim window"@,
        }
    }

    /// One-line meaning of the error, as it appears in the error table.
    pub fn description(&self) -> (r: &'static str)
        ensures
            r@ == self.table_description(),
    {
        match self {
            SettlementError::NotInitialized => "A function was called before `init`",
            SettlementError::AlreadyInitialized => "`init` was called more than once",
            SettlementError::Unauthorized => "Caller is not the vault or current admin",
            SettlementError::AmountNotPositive => "Amount must be greater than zero",
            SettlementError::DeveloperRequired => "`to_pool=false` requires a developer address",
            SettlementError::DeveloperMustBeNone => "`to_pool=true` forbids a developer address",
            SettlementError::PoolOverflow => "Global pool credit would overflow `i128`",
            SettlementError::DeveloperOverflow => "Developer balance credit would overflow `i128`",
            SettlementError::UsdcTokenNotConfigured => "USDC token address is not configured",
            SettlementError::InsufficientDeveloperBalance => "Developer balance is lower than the withdrawal",
            SettlementError::DeveloperBalanceUnderflow => "Developer balance debit would underflow",
            SettlementError::InsufficientContractBalance => "Contract USDC balance is lower than requested amount",
            SettlementError::DailyWithdrawCapExceeded => "Daily developer withdrawal cap would be exceeded",
            SettlementError::GasExhaustionRisk => "Full scan is too large; use paginated access",
            SettlementError::ReasonTooLong => "Reason `Symbol` exceeds the allowed length",
            SettlementError::MigrationSameAddress => "Migration source and target are identical",
            SettlementError::InvalidMigrationTarget => "Migration target is the settlement contract",
            SettlementError::NoDeveloperBalance => "Migration source has no positive balance",
            SettlementError::TimelockOverflow => "Timelock timestamp addition overflowed",
            SettlementError::MigrationNotFound => "No migration is pending for the source",
            SettlementError::TimelockNotExpired => "Migration delay has not elapsed",
            SettlementError::MigrationBalanceChanged => "Approved amount is no longer available",
            SettlementError::OverDraft => "Withdrawal amount exceeds the developer's balance",
            SettlementError::InvalidClaimWindow => "Claim window end is before its start",
            SettlementError::ClaimWindowClosed => "Claim attempted outside the developer's claim window",
        }
    }
}

/// Distinct variants of [`SettlementError`] carry distinct codes.
pub proof fn lemma_settlement_error_code_injective(a: SettlementError, b: SettlementError)
    ensures
        settlement_error_code(a) == settlement_error_code(b) <==> a == b,
{
}

/// Typed error codes of the revenue pool contract.
///
/// Every variant carries a stable numeric code (see [`RevenuePoolError::code`]);
/// callers and indexers branch on the code instead of parsing messages.
#[derive(Clone, Copy, Debug, PartialEq, Eq)]
pub enum RevenuePoolError {
    /// `batch_distribute` received an empty `payments` vector (code 1).
    BatchEmpty,
    /// `batch_distribute` exceeded `MAX_BATCH_SIZE` (code 2).
    BatchTooLarge,
}

/// The stable numeric code of each [`RevenuePoolError`] variant.
pub open spec fn revenue_pool_error_code(e: RevenuePoolError) -> u32 {
    match e {
        RevenuePoolError::BatchEmpty => 1,
        RevenuePoolError::BatchTooLarge => 2,
    }
}

impl RevenuePoolError {
    /// The stable numeric code of this error, as listed in the error table.
    pub fn code(&self) -> (r: u32)
        ensures
            r == revenue_pool_error_code(*self),
            1 <= r <= 2,
    {
        match self {
            RevenuePoolError::BatchEmpty => 1,
            RevenuePoolError::BatchTooLarge => 2,
        }
    }

    /// The variant's name, as it appears in the error table.
    pub open spec fn table_name(&self) -> Seq<char> {
        match self {
            RevenuePoolError::BatchEmpty => "BatchEmpty"@,
            RevenuePoolError::BatchTooLarge => "BatchTooLarge"@,
        }
    }

    /// The variant's name, as it appears in the error table.
    pub fn name(&self) -> (r: &'static str)
        ensures
            r@ == self.table_name(),
    {
        match self {
            RevenuePoolError::BatchEmpty => "BatchEmpty",
            RevenuePoolError::BatchTooLarge => "BatchTooLarge",
        }
    }

    /// The contract that raises this error, as it appears in the error table.
    pub fn contract(&self) -> (r: &'static str)
        ensures
            r@ == "Revenue Pool"@,
    {
        "Revenue Pool"
    }

    /// One-line meaning of the error, as it appears in the error table.
    pub open spec fn table_description(&self) -> Seq<char> {
        match self {
            RevenuePoolError::BatchEmpty => "`batch_distribute` received an empty `payments` vector"@,
            RevenuePoolError::BatchTooLarge => "`batch_distribute` exceeded `MAX_BATCH_SIZE`"@,
        }
    }

    /// One-line meaning of the error, as it appears in the error table.
    pub fn description(&self) -> (r: &'static str)
        ensures
            r@ == self.table_description(),
    {
        match self {
            RevenuePoolError::BatchEmpty => "`batch_distribute` received an empty `payments` vector",
            RevenuePoolError::BatchTooLarge => "`batch_distribute` exceeded `MAX_BATCH_SIZE`",
        }
    }
}

/// Distinct variants of [`RevenuePoolError`] carry distinct codes.
pub proof fn lemma_revenue_pool_error_code_injective(a: RevenuePoolError, b: RevenuePoolError)
    ensures
        revenue_pool_error_code(a) == revenue_pool_error_code(b) <==> a == b,
{
}

} // verus!
