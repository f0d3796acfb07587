//! Vault operations, one behaviour per test.

use callora::errors::VaultError;
use callora::text::{is_visible_ascii_metadata, normalize_visible_ascii, parse_i128, validate_vault_input};
use callora::vault::{CalloraVault, DeductItem, DEFAULT_MAX_DEDUCT};

const VAULT: u64 = 100;
const OWNER: u64 = 1;
const DEPOSITOR: u64 = 2;
const STRANGER: u64 = 3;
const USDC: u64 = 10;
const SETTLEMENT: u64 = 20;
const POOL: u64 = 30;

fn ready(balance: i128) -> CalloraVault {
    let mut v = CalloraVault::new(VAULT);
    v.init(OWNER, USDC, Some(balance), None, None, None, None, balance).unwrap();
    v.set_settlement(OWNER, SETTLEMENT).unwrap();
    v
}

fn b(s: &str) -> Vec<u8> {
    s.as_bytes().to_vec()
}

#[test]
fn init_records_the_vault() {
    let mut v = CalloraVault::new(VAULT);
    let meta = v.init(OWNER, USDC, Some(500), Some(7), Some(10), Some(POOL), Some(100), 500).unwrap();
    assert_eq!(meta.owner, OWNER);
    assert_eq!(meta.balance, 500);
    assert_eq!(meta.authorized_caller, Some(7));
    assert_eq!(meta.min_deposit, 10);
    assert_eq!(v.get_admin(), Ok(OWNER));
    assert_eq!(v.get_max_deduct(), 100);
    assert_eq!(v.get_revenue_pool(), Some(POOL));
    assert_eq!(v.get_usdc_token(), Ok(USDC));
    assert_eq!(v.balance(), Ok(500));
}

#[test]
fn init_defaults() {
    let mut v = CalloraVault::new(VAULT);
    v.init(OWNER, USDC, None, None, None, None, None, 0).unwrap();
    assert_eq!(v.balance(), Ok(0));
    assert_eq!(v.get_max_deduct(), DEFAULT_MAX_DEDUCT);
    assert_eq!(v.get_meta().unwrap().min_deposit, 1);
}

#[test]
fn vault_init_refusals() {
    let mut v = CalloraVault::new(VAULT);
    assert_eq!(v.balance(), Err(VaultError::NotInitialized));
    assert_eq!(
        v.init(OWNER, VAULT, None, None, None, None, None, 0),
        Err(VaultError::UsdcTokenCannotBeVault)
    );
    assert_eq!(
        v.init(OWNER, USDC, None, None, None, Some(VAULT), None, 0),
        Err(VaultError::RevenuePoolCannotBeVault)
    );
    assert_eq!(
        v.init(OWNER, USDC, None, Some(VAULT), None, None, None, 0),
        Err(VaultError::AuthorizedCallerCannotBeVault)
    );
    assert_eq!(
        v.init(OWNER, USDC, Some(-1), None, None, None, None, 0),
        Err(VaultError::InitialBalanceNegative)
    );
    assert_eq!(
        v.init(OWNER, USDC, None, None, Some(0), None, None, 0),
        Err(VaultError::MinDepositNotPositive)
    );
    assert_eq!(
        v.init(OWNER, USDC, None, None, None, None, Some(0), 0),
        Err(VaultError::MaxDeductNotPositive)
    );
    assert_eq!(
        v.init(OWNER, USDC, None, None, Some(11), None, Some(10), 0),
        Err(VaultError::MinDepositExceedsMaxDeduct)
    );
    assert_eq!(
        v.init(OWNER, USDC, Some(100), None, None, None, None, 99),
        Err(VaultError::InitialBalanceExceedsOnLedger)
    );
    v.init(OWNER, USDC, None, None, None, None, None, 0).unwrap();
    assert_eq!(
        v.init(OWNER, USDC, None, None, None, None, None, 0),
        Err(VaultError::AlreadyInitialized)
    );
}

#[test]
fn deposit_adds_exactly() {
    let mut v = ready(100);
    assert_eq!(v.deposit(OWNER, 50), Ok(150));
    assert_eq!(v.balance(), Ok(150));
}

#[test]
fn deposit_refusals() {
    let mut v = CalloraVault::new(VAULT);
    v.init(OWNER, USDC, Some(i128::MAX - 5), None, Some(10), None, None, i128::MAX).unwrap();
    assert_eq!(v.deposit(OWNER, 0), Err(VaultError::AmountNotPositive));
    assert_eq!(v.deposit(STRANGER, 20), Err(VaultError::Unauthorized));
    assert_eq!(v.deposit(OWNER, 9), Err(VaultError::BelowMinDeposit));
    assert_eq!(v.deposit(OWNER, 10), Err(VaultError::Overflow));
    v.pause(OWNER).unwrap();
    assert_eq!(v.deposit(OWNER, 20), Err(VaultError::Paused));
}

#[test]
fn allowed_depositors() {
    let mut v = ready(0);
    assert_eq!(v.is_authorized_depositor(DEPOSITOR), Ok(false));
    v.set_allowed_depositor(OWNER, Some(DEPOSITOR)).unwrap();
    v.add_address(OWNER, DEPOSITOR).unwrap();
    assert_eq!(v.get_allowed_depositors(), vec![DEPOSITOR]);
    assert_eq!(v.get_allowlist(), vec![DEPOSITOR]);
    assert_eq!(v.deposit(DEPOSITOR, 5), Ok(5));
    v.clear_allowed_depositors(OWNER).unwrap();
    assert_eq!(v.deposit(DEPOSITOR, 5), Err(VaultError::Unauthorized));
    v.add_address(OWNER, 8).unwrap();
    v.clear_all(OWNER).unwrap();
    assert!(v.get_allowed_depositors().is_empty());
    assert_eq!(v.set_allowed_depositor(STRANGER, Some(9)), Err(VaultError::Unauthorized));
}

#[test]
fn deduct_subtracts_exactly_and_records_the_request() {
    let mut v = ready(1000);
    assert_eq!(v.deduct(OWNER, 300, Some(b("req_001"))), Ok(700));
    assert!(v.is_request_processed(&b("req_001")));
    assert_eq!(v.deduct(OWNER, 1, Some(b("req_001"))), Err(VaultError::DuplicateRequestId));
    assert_eq!(v.balance(), Ok(700));
    assert_eq!(v.deduct(OWNER, 100, None), Ok(600));
}

#[test]
fn deduct_refusals() {
    let mut v = CalloraVault::new(VAULT);
    v.init(OWNER, USDC, Some(100), Some(5), None, None, Some(50), 100).unwrap();
    assert_eq!(v.deduct(OWNER, 0, None), Err(VaultError::AmountNotPositive));
    assert_eq!(v.deduct(STRANGER, 10, None), Err(VaultError::Unauthorized));
    assert_eq!(v.deduct(OWNER, 51, None), Err(VaultError::ExceedsMaxDeduct));
    assert_eq!(v.deduct(5, 10, None), Err(VaultError::SettlementNotSet));
    v.set_settlement(OWNER, SETTLEMENT).unwrap();
    assert_eq!(v.deduct(5, 10, None), Ok(90));
    v.set_max_deduct(1000).unwrap();
    assert_eq!(v.deduct(OWNER, 91, None), Err(VaultError::InsufficientBalance));
    v.pause(OWNER).unwrap();
    assert_eq!(v.deduct(OWNER, 1, None), Err(VaultError::Paused));
}

#[test]
fn batch_deduct_is_all_or_nothing() {
    let mut v = ready(100);
    let items = vec![
        DeductItem { amount: 30, request_id: Some(b("a")) },
        DeductItem { amount: 20, request_id: None },
    ];
    assert_eq!(v.batch_deduct(OWNER, &items), Ok(50));
    assert!(v.is_request_processed(&b("a")));
    let repeated = vec![
        DeductItem { amount: 1, request_id: Some(b("b")) },
        DeductItem { amount: 1, request_id: Some(b("b")) },
    ];
    assert_eq!(v.batch_deduct(OWNER, &repeated), Err(VaultError::DuplicateRequestId));
    let too_much = vec![
        DeductItem { amount: 40, request_id: None },
        DeductItem { amount: 11, request_id: None },
    ];
    assert_eq!(v.batch_deduct(OWNER, &too_much), Err(VaultError::InsufficientBalance));
    assert_eq!(v.balance(), Ok(50));
    assert!(!v.is_request_processed(&b("b")));
    assert_eq!(v.batch_deduct(OWNER, &vec![]), Err(VaultError::BatchEmpty));
    let big: Vec<DeductItem> = (0..51).map(|_| DeductItem { amount: 1, request_id: None }).collect();
    assert_eq!(v.batch_deduct(OWNER, &big), Err(VaultError::BatchTooLarge));
    assert_eq!(
        v.batch_deduct(OWNER, &vec![DeductItem { amount: 0, request_id: None }]),
        Err(VaultError::AmountNotPositive)
    );
}

#[test]
fn withdrawals_are_allowed_while_paused() {
    let mut v = ready(100);
    v.pause(OWNER).unwrap();
    assert_eq!(v.withdraw(30), Ok(70));
    assert_eq!(v.withdraw_to(7, 20), Ok(50));
    assert_eq!(v.withdraw(51), Err(VaultError::InsufficientBalance));
    assert_eq!(v.withdraw(0), Err(VaultError::AmountNotPositive));
    assert_eq!(v.distribute(OWNER, 7, 10, 60), Ok(()));
}

#[test]
fn vault_distribute_refusals() {
    let v = ready(100);
    assert_eq!(v.distribute(STRANGER, 7, 10, 200), Err(VaultError::Unauthorized));
    assert_eq!(v.distribute(OWNER, 7, 0, 200), Err(VaultError::AmountNotPositive));
    assert_eq!(v.distribute(OWNER, 7, 201, 200), Err(VaultError::InsufficientBalance));
}

#[test]
fn pause_and_unpause() {
    let mut v = ready(0);
    assert_eq!(v.unpause(OWNER), Err(VaultError::NotPaused));
    v.pause(OWNER).unwrap();
    assert!(v.is_paused());
    assert_eq!(v.pause(OWNER), Err(VaultError::AlreadyPaused));
    assert_eq!(v.pause(STRANGER), Err(VaultError::Unauthorized));
    v.unpause(OWNER).unwrap();
    assert!(!v.is_paused());
}

#[test]
fn ownership_and_admin_handover() {
    let mut v = ready(0);
    assert_eq!(v.accept_ownership(), Err(VaultError::NoOwnershipTransferPending));
    assert_eq!(v.transfer_ownership(OWNER), Err(VaultError::NewOwnerSameAsCurrent));
    v.transfer_ownership(4).unwrap();
    assert_eq!(v.get_pending_owner(), Some(4));
    v.accept_ownership().unwrap();
    assert_eq!(v.get_meta().unwrap().owner, 4);
    assert_eq!(v.require_owner(OWNER), Err(VaultError::Unauthorized));
    assert_eq!(v.accept_admin(), Err(VaultError::NoAdminTransferPending));
    v.set_admin(OWNER, 6).unwrap();
    assert_eq!(v.get_pending_admin(), Some(6));
    v.accept_admin().unwrap();
    assert_eq!(v.get_admin(), Ok(6));
    assert_eq!(v.set_admin(OWNER, 7), Err(VaultError::Unauthorized));
}

#[test]
fn authorized_caller_rotation_uses_a_nonce() {
    let mut v = ready(100);
    assert_eq!(v.get_authorized_caller_nonce(), 0);
    assert_eq!(v.set_authorized_caller(Some(5), 1), Err(VaultError::StaleNonce));
    assert_eq!(
        v.set_authorized_caller(Some(VAULT), 0),
        Err(VaultError::AuthorizedCallerCannotBeVault)
    );
    v.set_authorized_caller(Some(5), 0).unwrap();
    assert_eq!(v.get_authorized_caller_nonce(), 1);
    assert_eq!(v.deduct(5, 10, None), Ok(90));
    v.set_authorized_caller(None, 1).unwrap();
    assert_eq!(v.deduct(5, 10, None), Err(VaultError::Unauthorized));
}

#[test]
fn revenue_pool_rotation() {
    let mut v = ready(0);
    assert_eq!(v.accept_revenue_pool(), Err(VaultError::NoRevenuePoolTransferPending));
    assert_eq!(v.propose_revenue_pool(Some(VAULT)), Err(VaultError::RevenuePoolCannotBeVault));
    v.propose_revenue_pool(Some(POOL)).unwrap();
    assert_eq!(v.get_pending_revenue_pool(), Some(POOL));
    assert_eq!(v.accept_revenue_pool(), Ok(None));
    assert_eq!(v.get_revenue_pool(), Some(POOL));
    assert_eq!(v.propose_revenue_pool(Some(POOL)), Err(VaultError::NewRevenuePoolSameAsCurrent));
    v.propose_revenue_pool(Some(31)).unwrap();
    v.cancel_revenue_pool().unwrap();
    assert_eq!(v.cancel_revenue_pool(), Err(VaultError::NoRevenuePoolTransferPending));
    assert_eq!(v.get_contract_addresses(), (Some(USDC), Some(SETTLEMENT), Some(POOL)));
}

#[test]
fn metadata_lifecycle() {
    let mut v = ready(0);
    assert_eq!(v.set_metadata(OWNER, b("api-1"), b("ipfs://x")), Ok(b("ipfs://x")));
    assert_eq!(v.get_metadata(&b("api-1")), Some(b("ipfs://x")));
    assert_eq!(v.update_metadata(OWNER, b("api-1"), b("ipfs://y")), Ok(b("ipfs://y")));
    assert_eq!(v.set_metadata(OWNER, b(" bad"), b("m")), Err(VaultError::OfferingIdInvalid));
    assert_eq!(v.set_metadata(OWNER, b("ok"), b("")), Err(VaultError::MetadataInvalid));
    assert_eq!(v.set_metadata(OWNER, vec![b'a'; 65], b("m")), Err(VaultError::OfferingIdTooLong));
    assert_eq!(v.set_metadata(STRANGER, b("api-1"), b("m")), Err(VaultError::Unauthorized));
    v.remove_metadata(OWNER, &b("api-1")).unwrap();
    assert_eq!(v.get_metadata(&b("api-1")), None);
}

#[test]
fn prices_are_listed_in_first_priced_order() {
    let mut v = ready(0);
    v.set_price(OWNER, b("b"), b("200")).unwrap();
    v.set_price(OWNER, b("a"), b("100")).unwrap();
    v.set_price(OWNER, b("b"), b("250")).unwrap();
    assert_eq!(v.set_price(OWNER, b("c"), b("0")), Err(VaultError::PriceParseError));
    assert_eq!(v.set_price(OWNER, b("c"), b("12x")), Err(VaultError::PriceParseError));
    assert_eq!(v.get_price(&b("b")), Some(b("250")));
    assert_eq!(v.list_prices(0, 10), vec![(b("b"), 250), (b("a"), 100)]);
    assert_eq!(v.list_prices(1, 10), vec![(b("a"), 100)]);
    assert!(v.list_prices(2, 10).is_empty());
    v.remove_price(OWNER, &b("b")).unwrap();
    assert_eq!(v.list_prices(0, 10), vec![(b("a"), 100)]);
}

#[test]
fn prune_removes_only_processed_ids() {
    let mut v = ready(100);
    v.deduct(OWNER, 1, Some(b("x"))).unwrap();
    v.deduct(OWNER, 1, Some(b("y"))).unwrap();
    let removed = v.prune_processed_requests(OWNER, &vec![b("y"), b("z"), b("y")]).unwrap();
    assert_eq!(removed, vec![b("y")]);
    assert!(!v.is_request_processed(&b("y")));
    assert!(v.is_request_processed(&b("x")));
    assert_eq!(v.prune_processed_requests(STRANGER, &vec![]), Err(VaultError::Unauthorized));
}

#[test]
fn upgrade_records_the_hash() {
    let mut v = ready(0);
    assert_eq!(v.upgrade(STRANGER, vec![1; 32]), Err(VaultError::Unauthorized));
    v.upgrade(OWNER, vec![2; 32]).unwrap();
    assert_eq!(v.get_version(), Some(vec![2; 32]));
}

#[test]
fn decimal_prices_parse() {
    assert_eq!(parse_i128(b"0"), Some(0));
    assert_eq!(parse_i128(b"-42"), Some(-42));
    assert_eq!(parse_i128(b"+7"), Some(7));
    assert_eq!(parse_i128(b"170141183460469231731687303715884105727"), Some(i128::MAX));
    assert_eq!(parse_i128(b"170141183460469231731687303715884105728"), None);
    assert_eq!(parse_i128(b"-170141183460469231731687303715884105728"), Some(i128::MIN));
    assert_eq!(parse_i128(b""), None);
    assert_eq!(parse_i128(b"-"), None);
    assert_eq!(parse_i128(b"1 2"), None);
}

#[test]
fn visible_ascii_policy() {
    assert!(is_visible_ascii_metadata(&b("hello world")));
    assert!(!is_visible_ascii_metadata(&b(" lead")));
    assert!(!is_visible_ascii_metadata(&b("trail ")));
    assert!(!is_visible_ascii_metadata(&b("tab\there")));
    assert!(!is_visible_ascii_metadata(&"é".as_bytes().to_vec()));
    assert!(!is_visible_ascii_metadata(&vec![b'a'; 257]));
    let buf = normalize_visible_ascii(&b("ab")).unwrap();
    assert_eq!(&buf[..3], &[b'a', b'b', 0]);
    assert_eq!(validate_vault_input(&b("x y")), Ok(()));
    assert_eq!(validate_vault_input(&b("x\u{7f}")), Err(()));
    assert_eq!(validate_vault_input(&"é".as_bytes().to_vec()), Ok(()));
}
