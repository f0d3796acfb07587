//! Settlement ledger operations, one behaviour per test.

use callora::errors::SettlementError;
use callora::settlement::{
    sorted_insert, CalloraSettlement, DeveloperClaimWindow, Severity, SettlementFailure,
    SettlementPanic, DEVELOPER_MIGRATION_TIMELOCK_SECONDS, MAX_DEVELOPER_BALANCES_PAGE_SIZE,
};
use callora::settlement_views::{StorageCategory, StorageClass};
use callora::settlement_withdraw::saturating_add_i128;

const CONTRACT: u64 = 900;
const ADMIN: u64 = 1;
const VAULT: u64 = 2;
const DEV: u64 = 30;
const DEV2: u64 = 31;
const USDC: u64 = 50;
const OTHER_TOKEN: u64 = 51;
const NOW: u64 = 1_000_000;

fn err(e: SettlementError) -> SettlementFailure {
    SettlementFailure::Error(e)
}

fn abort(p: SettlementPanic) -> SettlementFailure {
    SettlementFailure::Panic(p)
}

fn ready() -> CalloraSettlement {
    let mut s = CalloraSettlement::new(CONTRACT);
    s.init(ADMIN, VAULT, NOW).unwrap();
    s
}

fn funded(amount: i128) -> CalloraSettlement {
    let mut s = ready();
    s.set_usdc_token(ADMIN, USDC).unwrap();
    s.receive_payment(VAULT, amount, false, Some(DEV), USDC, NOW).unwrap();
    s
}

#[test]
fn init_sets_roles_and_an_empty_pool() {
    let s = ready();
    assert_eq!(s.get_admin(), Ok(ADMIN));
    assert_eq!(s.get_vault(), Ok(VAULT));
    let pool = s.get_global_pool().unwrap();
    assert_eq!(pool.total_balance, 0);
    assert_eq!(pool.last_updated, NOW);
}

#[test]
fn settlement_init_refusals() {
    let mut s = CalloraSettlement::new(CONTRACT);
    assert_eq!(s.get_admin(), Err(err(SettlementError::NotInitialized)));
    assert_eq!(s.init(ADMIN, ADMIN, NOW), Err(abort(SettlementPanic::AdminIsVault)));
    assert_eq!(s.init(CONTRACT, VAULT, NOW), Err(abort(SettlementPanic::AdminIsContract)));
    assert_eq!(s.init(ADMIN, CONTRACT, NOW), Err(abort(SettlementPanic::VaultAddressIsContract)));
    s.init(ADMIN, VAULT, NOW).unwrap();
    assert_eq!(s.init(ADMIN, VAULT, NOW), Err(err(SettlementError::AlreadyInitialized)));
}

#[test]
fn pool_accumulates_across_payments() {
    let mut s = ready();
    s.receive_payment(VAULT, 400, true, None, USDC, NOW + 1).unwrap();
    s.receive_payment(VAULT, 600, true, None, USDC, NOW + 2).unwrap();
    let pool = s.get_global_pool().unwrap();
    assert_eq!(pool.total_balance, 1000);
    assert_eq!(pool.last_updated, NOW + 2);
}

#[test]
fn developer_credit_is_per_token() {
    let mut s = ready();
    s.receive_payment(ADMIN, 200, false, Some(DEV), USDC, NOW).unwrap();
    s.receive_payment(VAULT, 50, false, Some(DEV), OTHER_TOKEN, NOW).unwrap();
    assert_eq!(s.get_developer_balance(DEV, USDC), Ok(200));
    assert_eq!(s.get_developer_balance(DEV, OTHER_TOKEN), Ok(50));
    assert_eq!(s.get_developer_balance(DEV2, USDC), Ok(0));
    assert_eq!(s.developer_index, vec![DEV]);
}

#[test]
fn receive_payment_refusals() {
    let mut s = ready();
    assert_eq!(
        s.receive_payment(77, 10, true, None, USDC, NOW),
        Err(err(SettlementError::Unauthorized))
    );
    assert_eq!(
        s.receive_payment(VAULT, 0, true, None, USDC, NOW),
        Err(err(SettlementError::AmountNotPositive))
    );
    assert_eq!(
        s.receive_payment(VAULT, 10, true, Some(DEV), USDC, NOW),
        Err(err(SettlementError::DeveloperMustBeNone))
    );
    assert_eq!(
        s.receive_payment(VAULT, 10, false, None, USDC, NOW),
        Err(err(SettlementError::DeveloperRequired))
    );
    s.receive_payment(VAULT, i128::MAX, true, None, USDC, NOW).unwrap();
    assert_eq!(
        s.receive_payment(VAULT, 1, true, None, USDC, NOW),
        Err(err(SettlementError::PoolOverflow))
    );
    s.receive_payment(VAULT, i128::MAX, false, Some(DEV), USDC, NOW).unwrap();
    assert_eq!(
        s.receive_payment(VAULT, 1, false, Some(DEV), USDC, NOW),
        Err(err(SettlementError::DeveloperOverflow))
    );
    let mut fresh = CalloraSettlement::new(CONTRACT);
    assert_eq!(
        fresh.receive_payment(VAULT, 1, true, None, USDC, NOW),
        Err(err(SettlementError::NotInitialized))
    );
}

#[test]
fn index_stays_ascending_and_unique() {
    let mut s = ready();
    for d in [40u64, 10, 30, 10, 20, 40] {
        s.receive_payment(VAULT, 1, false, Some(d), USDC, NOW).unwrap();
    }
    assert_eq!(s.developer_index, vec![10, 20, 30, 40]);
    let mut v = vec![5u64, 9];
    sorted_insert(&mut v, 7);
    sorted_insert(&mut v, 9);
    sorted_insert(&mut v, 1);
    assert_eq!(v, vec![1, 5, 7, 9]);
}

#[test]
fn batch_credits_sum_per_developer() {
    let mut s = ready();
    s.batch_receive_payment(VAULT, &vec![(DEV, 10), (DEV2, 5), (DEV, 7)], USDC).unwrap();
    assert_eq!(s.get_developer_balance(DEV, USDC), Ok(17));
    assert_eq!(s.get_developer_balance(DEV2, USDC), Ok(5));
    assert_eq!(s.developer_index, vec![DEV, DEV2]);
}

#[test]
fn batch_refusals_leave_state_unchanged() {
    let mut s = ready();
    assert_eq!(
        s.batch_receive_payment(VAULT, &vec![], USDC),
        Err(abort(SettlementPanic::EmptyBatch))
    );
    let big: Vec<(u64, i128)> = (0..51).map(|i| (100 + i, 1)).collect();
    assert_eq!(
        s.batch_receive_payment(VAULT, &big, USDC),
        Err(abort(SettlementPanic::BatchTooLarge))
    );
    assert_eq!(
        s.batch_receive_payment(VAULT, &vec![(DEV, 5), (DEV2, 0)], USDC),
        Err(abort(SettlementPanic::AmountNotPositive))
    );
    assert_eq!(
        s.batch_receive_payment(VAULT, &vec![(DEV, i128::MAX), (DEV, 1)], USDC),
        Err(err(SettlementError::DeveloperOverflow))
    );
    assert_eq!(s.get_developer_balance(DEV, USDC), Ok(0));
    assert!(s.developer_index.is_empty());
    assert_eq!(
        s.batch_receive_payment(77, &vec![(DEV, 5)], USDC),
        Err(err(SettlementError::Unauthorized))
    );
}

#[test]
fn withdraw_exact_balance() {
    let mut s = funded(100);
    let w = s.withdraw_developer_balance(DEV, 100, None, USDC, NOW, 100).unwrap();
    assert_eq!(w.recipient, DEV);
    assert_eq!(w.token, USDC);
    assert_eq!(w.amount, 100);
    assert_eq!(w.remaining_balance, 0);
    assert_eq!(s.get_developer_balance(DEV, USDC), Ok(0));
    assert_eq!(s.get_withdrawal_today(DEV, NOW), 100);
}

#[test]
fn withdraw_to_custodial_address() {
    let mut s = funded(300);
    let w = s.withdraw_developer_balance(DEV, 150, Some(77), USDC, NOW, 300).unwrap();
    assert_eq!(w.recipient, 77);
    assert_eq!(w.remaining_balance, 150);
}

#[test]
fn withdraw_refusals() {
    let mut s = funded(100);
    assert_eq!(
        s.withdraw_developer_balance(DEV, 0, None, USDC, NOW, 100),
        Err(err(SettlementError::AmountNotPositive))
    );
    assert_eq!(
        s.withdraw_developer_balance(DEV, 10, Some(CONTRACT), USDC, NOW, 100),
        Err(abort(SettlementPanic::RecipientIsContract))
    );
    assert_eq!(
        s.withdraw_developer_balance(DEV, 101, None, USDC, NOW, 1000),
        Err(err(SettlementError::InsufficientDeveloperBalance))
    );
    assert_eq!(
        s.withdraw_developer_balance(DEV, 50, None, USDC, NOW, 49),
        Err(err(SettlementError::InsufficientContractBalance))
    );
    let mut unconfigured = ready();
    unconfigured.receive_payment(VAULT, 10, false, Some(DEV), OTHER_TOKEN, NOW).unwrap();
    let w = unconfigured.withdraw_developer_balance(DEV, 5, None, OTHER_TOKEN, NOW, 10).unwrap();
    assert_eq!(w.token, OTHER_TOKEN);
    assert_eq!(s.get_developer_balance(DEV, USDC), Ok(100));
}

#[test]
fn daily_cap_accumulates_and_resets_next_day() {
    let mut s = funded(1000);
    s.set_daily_withdraw_cap(ADMIN, DEV, 500).unwrap();
    assert_eq!(s.get_daily_withdraw_cap(DEV), 500);
    s.withdraw_developer_balance(DEV, 200, None, USDC, NOW, 1000).unwrap();
    s.withdraw_developer_balance(DEV, 200, None, USDC, NOW, 800).unwrap();
    s.withdraw_developer_balance(DEV, 100, None, USDC, NOW, 600).unwrap();
    assert_eq!(s.get_withdrawal_today(DEV, NOW), 500);
    assert_eq!(
        s.withdraw_developer_balance(DEV, 1, None, USDC, NOW, 500),
        Err(err(SettlementError::DailyWithdrawCapExceeded))
    );
    let tomorrow = NOW + 86_400;
    assert_eq!(s.get_withdrawal_today(DEV, tomorrow), 0);
    s.withdraw_developer_balance(DEV, 300, None, USDC, tomorrow, 500).unwrap();
    assert_eq!(s.get_developer_balance(DEV, USDC), Ok(200));
    assert_eq!(s.get_withdrawal_today(DEV, tomorrow), 300);
}

#[test]
fn claim_window_is_inclusive() {
    let mut s = funded(100);
    assert_eq!(
        s.set_developer_claim_window(ADMIN, DEV, 20, 10),
        Err(err(SettlementError::InvalidClaimWindow))
    );
    s.set_developer_claim_window(ADMIN, DEV, NOW, NOW + 10).unwrap();
    assert_eq!(
        s.get_developer_claim_window(DEV),
        Some(DeveloperClaimWindow { start_ts: NOW, end_ts: NOW + 10 })
    );
    assert_eq!(
        s.withdraw_developer_balance(DEV, 1, None, USDC, NOW - 1, 100),
        Err(err(SettlementError::ClaimWindowClosed))
    );
    assert_eq!(
        s.withdraw_developer_balance(DEV, 1, None, USDC, NOW + 11, 100),
        Err(err(SettlementError::ClaimWindowClosed))
    );
    s.withdraw_developer_balance(DEV, 1, None, USDC, NOW + 10, 100).unwrap();
    s.clear_developer_claim_window(ADMIN, DEV).unwrap();
    assert_eq!(s.get_developer_claim_window(DEV), None);
    s.withdraw_developer_balance(DEV, 1, None, USDC, NOW + 100, 100).unwrap();
}

#[test]
fn admin_only_setters_refuse_others() {
    let mut s = ready();
    assert_eq!(s.set_daily_withdraw_cap(7, DEV, 1), Err(err(SettlementError::Unauthorized)));
    assert_eq!(s.set_minimum_balance(7, DEV, 1), Err(err(SettlementError::Unauthorized)));
    assert_eq!(
        s.set_developer_min_balance(ADMIN, DEV, -1),
        Err(abort(SettlementPanic::MinimumBalanceNegative))
    );
    s.set_minimum_balance(ADMIN, DEV, 25).unwrap();
    assert_eq!(s.get_developer_min_balance(DEV), 25);
    assert_eq!(s.set_usdc_token(7, USDC), Err(abort(SettlementPanic::NotAdmin)));
    assert_eq!(s.set_usdc_token(ADMIN, CONTRACT), Err(abort(SettlementPanic::UsdcIsContract)));
    assert_eq!(s.upgrade(7, vec![1; 32]), Err(err(SettlementError::Unauthorized)));
    s.upgrade(ADMIN, vec![9; 32]).unwrap();
    assert_eq!(s.get_version(), Some(vec![9; 32]));
}

#[test]
fn admin_handover_is_two_step() {
    let mut s = ready();
    assert_eq!(s.accept_admin(), Err(abort(SettlementPanic::NoAdminTransferPending)));
    s.set_admin(ADMIN, 5).unwrap();
    assert_eq!(s.get_pending_admin(), Some(5));
    assert_eq!(s.get_admin(), Ok(ADMIN));
    s.accept_admin().unwrap();
    assert_eq!(s.get_admin(), Ok(5));
    assert_eq!(s.get_pending_admin(), None);
    s.set_admin(5, 6).unwrap();
    s.cancel_admin_transfer(5).unwrap();
    assert_eq!(
        s.cancel_admin_transfer(5),
        Err(abort(SettlementPanic::NoAdminTransferPending))
    );
}

#[test]
fn vault_rotation() {
    let mut s = ready();
    assert_eq!(s.propose_vault(ADMIN, CONTRACT), Err(abort(SettlementPanic::ProposedVaultIsContract)));
    assert_eq!(s.accept_vault(ADMIN), Err(abort(SettlementPanic::NoVaultRotationPending)));
    s.set_vault(ADMIN, 8).unwrap();
    assert_eq!(s.accept_vault(9), Err(abort(SettlementPanic::NotPendingVaultOrAdmin)));
    s.accept_vault(8).unwrap();
    assert_eq!(s.get_vault(), Ok(8));
}

#[test]
fn force_credit_appends_new_developers() {
    let mut s = ready();
    s.receive_payment(VAULT, 1, false, Some(50), USDC, NOW).unwrap();
    s.force_credit_developer(ADMIN, 10, 70, USDC).unwrap();
    assert_eq!(s.get_developer_balance(10, USDC), Ok(70));
    assert_eq!(s.developer_index, vec![50, 10]);
    assert_eq!(s.force_credit_developer(ADMIN, 10, 0, USDC), Err(err(SettlementError::AmountNotPositive)));
    assert_eq!(s.force_credit_developer(3, 10, 1, USDC), Err(err(SettlementError::Unauthorized)));
}

#[test]
fn broadcast_checks_message_length() {
    let s = ready();
    assert_eq!(s.broadcast(ADMIN, Severity::Info, &vec![b'a'; 256]), Ok(()));
    assert_eq!(
        s.broadcast(ADMIN, Severity::Warn, &vec![]),
        Err(abort(SettlementPanic::MessageEmpty))
    );
    assert_eq!(
        s.broadcast(ADMIN, Severity::Crit, &vec![b'a'; 257]),
        Err(abort(SettlementPanic::MessageTooLong))
    );
    assert_eq!(
        SettlementPanic::MessageTooLong.message(),
        "message length exceeds maximum of 256 characters"
    );
}

#[test]
fn full_listing_and_offset_pages() {
    let mut s = ready();
    for d in 1..=5u64 {
        s.receive_payment(VAULT, (d * 10) as i128, false, Some(100 + d), USDC, NOW).unwrap();
    }
    let all = s.get_all_developer_balances(ADMIN, USDC).unwrap();
    assert_eq!(all.len(), 5);
    assert_eq!(all[0].address, 101);
    assert_eq!(all[4].balance, 50);
    let page = s.get_developer_balances_page(ADMIN, 1, 2, USDC).unwrap();
    assert_eq!(page.iter().map(|b| b.address).collect::<Vec<_>>(), vec![102, 103]);
    assert!(s.get_developer_balances_page(ADMIN, 5, 2, USDC).unwrap().is_empty());
    assert!(s.get_developer_balances_page(ADMIN, 0, 0, USDC).unwrap().is_empty());
    assert_eq!(
        s.get_developer_balances_page(VAULT, 0, 2, USDC),
        Err(abort(SettlementPanic::NotAdmin))
    );
    assert_eq!(
        s.get_all_developer_balances(VAULT, USDC),
        Err(err(SettlementError::Unauthorized))
    );
}

#[test]
fn full_listing_covers_a_large_index_while_pages_stay_capped() {
    let mut s = ready();
    for d in 0..(MAX_DEVELOPER_BALANCES_PAGE_SIZE as u64 + 1) {
        s.receive_payment(VAULT, 1, false, Some(1000 + d), USDC, NOW).unwrap();
    }
    let all = s.get_all_developer_balances(ADMIN, USDC).unwrap();
    assert_eq!(all.len(), MAX_DEVELOPER_BALANCES_PAGE_SIZE as usize + 1);
    assert_eq!(all[100].address, 1100);
    let page = s.get_developer_balances_page(ADMIN, 0, 500, USDC).unwrap();
    assert_eq!(page.len(), MAX_DEVELOPER_BALANCES_PAGE_SIZE as usize);
    let (cpage, next) = s.get_developer_balances_cursor(ADMIN, None, 500, USDC).unwrap();
    assert_eq!(cpage.len(), MAX_DEVELOPER_BALANCES_PAGE_SIZE as usize);
    assert_eq!(next, Some(1000 + 99));
}

#[test]
fn cursor_pages_cover_the_index_once() {
    let mut s = ready();
    for d in [7u64, 3, 9, 1, 5] {
        s.receive_payment(VAULT, 1, false, Some(d), USDC, NOW).unwrap();
    }
    let mut seen = Vec::new();
    let mut cursor = None;
    loop {
        let (page, next) = s.get_developer_balances_cursor(ADMIN, cursor, 2, USDC).unwrap();
        seen.extend(page.iter().map(|b| b.address));
        match next {
            Some(c) => cursor = Some(c),
            None => break,
        }
    }
    assert_eq!(seen, vec![1, 3, 5, 7, 9]);
    let (empty, none) = s.get_developer_balances_cursor(ADMIN, Some(9), 10, USDC).unwrap();
    assert!(empty.is_empty());
    assert_eq!(none, None);
    let (unknown, none2) = s.get_developer_balances_cursor(ADMIN, Some(4), 10, USDC).unwrap();
    assert!(unknown.is_empty());
    assert_eq!(none2, None);
    let (zero, none3) = s.get_developer_balances_cursor(ADMIN, None, 0, USDC).unwrap();
    assert!(zero.is_empty());
    assert_eq!(none3, None);
    assert_eq!(
        s.get_developer_balances_cursor(VAULT, None, 10, USDC),
        Err(err(SettlementError::Unauthorized))
    );
}

#[test]
fn balance_migration_waits_for_the_timelock() {
    let mut s = funded(300);
    let m = s.propose_balance_migration(ADMIN, DEV, DEV2, USDC, NOW).unwrap();
    assert_eq!(m.amount, 300);
    assert_eq!(m.execute_after, NOW + DEVELOPER_MIGRATION_TIMELOCK_SECONDS);
    assert_eq!(s.get_balance_migration(DEV), Some(m));
    assert_eq!(
        s.execute_balance_migration(ADMIN, DEV, NOW + DEVELOPER_MIGRATION_TIMELOCK_SECONDS - 1),
        Err(err(SettlementError::TimelockNotExpired))
    );
    s.receive_payment(VAULT, 25, false, Some(DEV), USDC, NOW).unwrap();
    let done = s
        .execute_balance_migration(ADMIN, DEV, NOW + DEVELOPER_MIGRATION_TIMELOCK_SECONDS)
        .unwrap();
    assert_eq!(done, m);
    assert_eq!(s.get_developer_balance(DEV, USDC), Ok(25));
    assert_eq!(s.get_developer_balance(DEV2, USDC), Ok(300));
    assert_eq!(s.get_balance_migration(DEV), None);
    assert_eq!(
        s.execute_balance_migration(ADMIN, DEV, NOW + DEVELOPER_MIGRATION_TIMELOCK_SECONDS),
        Err(err(SettlementError::MigrationNotFound))
    );
    assert_eq!(s.developer_index, vec![DEV, DEV2]);
}

#[test]
fn balance_migration_refusals() {
    let mut s = funded(300);
    assert_eq!(
        s.propose_balance_migration(7, DEV, DEV2, USDC, NOW),
        Err(err(SettlementError::Unauthorized))
    );
    assert_eq!(
        s.propose_balance_migration(ADMIN, DEV, DEV, USDC, NOW),
        Err(err(SettlementError::MigrationSameAddress))
    );
    assert_eq!(
        s.propose_balance_migration(ADMIN, DEV, CONTRACT, USDC, NOW),
        Err(err(SettlementError::InvalidMigrationTarget))
    );
    assert_eq!(
        s.propose_balance_migration(ADMIN, DEV2, DEV, USDC, NOW),
        Err(err(SettlementError::NoDeveloperBalance))
    );
    assert_eq!(
        s.propose_balance_migration(ADMIN, DEV, DEV2, USDC, u64::MAX),
        Err(err(SettlementError::TimelockOverflow))
    );
    s.propose_balance_migration(ADMIN, DEV, DEV2, USDC, NOW).unwrap();
    s.withdraw_developer_balance(DEV, 1, None, USDC, NOW, 300).unwrap();
    let after = NOW + DEVELOPER_MIGRATION_TIMELOCK_SECONDS;
    assert_eq!(
        s.execute_balance_migration(ADMIN, DEV, after),
        Err(err(SettlementError::MigrationBalanceChanged))
    );
    assert!(s.get_balance_migration(DEV).is_some());
}

#[test]
fn migration_target_overflow_reverts() {
    let mut s = funded(300);
    s.receive_payment(VAULT, i128::MAX, false, Some(DEV2), USDC, NOW).unwrap();
    s.propose_balance_migration(ADMIN, DEV, DEV2, USDC, NOW).unwrap();
    let after = NOW + DEVELOPER_MIGRATION_TIMELOCK_SECONDS;
    assert_eq!(
        s.execute_balance_migration(ADMIN, DEV, after),
        Err(err(SettlementError::DeveloperOverflow))
    );
    assert_eq!(s.get_developer_balance(DEV, USDC), Ok(300));
}

#[test]
fn layout_migration_merges_single_token_balances() {
    let mut s = ready();
    assert_eq!(s.migration_storage_version(), 1);
    assert_eq!(s.migrate_v1_to_v2(ADMIN), Err(err(SettlementError::UsdcTokenNotConfigured)));
    s.set_usdc_token(ADMIN, USDC).unwrap();
    s.receive_payment(VAULT, 5, false, Some(DEV), USDC, NOW).unwrap();
    s.receive_payment(VAULT, 1, false, Some(DEV2), USDC, NOW).unwrap();
    s.legacy_balances.insert(DEV, 40);
    assert_eq!(s.migrate_v1_to_v2(7), Err(err(SettlementError::Unauthorized)));
    s.migrate_v1_to_v2(ADMIN).unwrap();
    assert_eq!(s.get_developer_balance(DEV, USDC), Ok(45));
    assert_eq!(s.get_developer_balance(DEV2, USDC), Ok(1));
    assert!(s.legacy_balances.is_empty());
    assert_eq!(s.storage_version(), 2);
    s.migrate_v1_to_v2(ADMIN).unwrap();
    assert_eq!(s.migrate_v1_to_v2_page(ADMIN, 0, 10), Ok((0, true)));
}

#[test]
fn layout_migration_in_pages() {
    let mut s = ready();
    s.set_usdc_token(ADMIN, USDC).unwrap();
    for d in 1..=5u64 {
        s.receive_payment(VAULT, 1, false, Some(d), USDC, NOW).unwrap();
        s.legacy_balances.insert(d, 10);
    }
    assert_eq!(s.migrate_v1_to_v2_page(ADMIN, 0, 2), Ok((2, false)));
    assert_eq!(s.get_developer_balance(1, USDC), Ok(11));
    assert_eq!(s.get_developer_balance(3, USDC), Ok(1));
    assert_eq!(s.migrate_v1_to_v2_page(ADMIN, 2, 0), Ok((3, false)));
    assert_eq!(s.migrate_v1_to_v2_page(ADMIN, 3, 50), Ok((5, true)));
    assert_eq!(s.storage_version(), 2);
    assert_eq!(s.get_developer_balance(5, USDC), Ok(11));
}

#[test]
fn layout_migration_overflow_changes_nothing() {
    let mut s = ready();
    s.set_usdc_token(ADMIN, USDC).unwrap();
    s.receive_payment(VAULT, 1, false, Some(DEV), USDC, NOW).unwrap();
    s.receive_payment(VAULT, i128::MAX, false, Some(DEV2), USDC, NOW).unwrap();
    s.legacy_balances.insert(DEV, 3);
    s.legacy_balances.insert(DEV2, 1);
    assert_eq!(s.migrate_v1_to_v2(ADMIN), Err(err(SettlementError::DeveloperOverflow)));
    assert_eq!(s.get_developer_balance(DEV, USDC), Ok(1));
    assert_eq!(s.legacy_balances.len(), 2);
    assert_eq!(s.storage_version(), 1);
}

#[test]
fn storage_entries_follow_what_is_stored() {
    let mut s = funded(10);
    s.set_daily_withdraw_cap(ADMIN, DEV, 5).unwrap();
    let entries = s.get_storage_ttl(&vec![], USDC);
    assert_eq!(entries.len(), 3);
    assert_eq!(entries[0].category, StorageCategory::Instance);
    assert_eq!(entries[0].storage_type, StorageClass::Instance);
    assert_eq!(entries[0].ttl, 17_280 * 60);
    assert_eq!(entries[0].threshold, 17_280 * 30);
    assert_eq!(entries[1].category, StorageCategory::DeveloperBalance);
    assert_eq!(entries[1].developer, Some(DEV));
    assert_eq!(entries[1].bump_amount, 50_000);
    assert_eq!(entries[2].category, StorageCategory::DailyWithdrawCap);
    let only_other = s.get_storage_ttl(&vec![DEV2], USDC);
    assert_eq!(only_other.len(), 1);
}

#[test]
fn saturating_add_clamps() {
    assert_eq!(saturating_add_i128(i128::MAX, 1), i128::MAX);
    assert_eq!(saturating_add_i128(i128::MIN, -1), i128::MIN);
    assert_eq!(saturating_add_i128(2, 3), 5);
}
