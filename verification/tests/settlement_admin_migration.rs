//! Admin-proposed, timelocked migration of a developer's balance.

use callora::errors::SettlementError;
use callora::settlement::{
    ledger_key, CalloraSettlement, SettlementFailure, DEVELOPER_MIGRATION_TIMELOCK_SECONDS,
};

const CONTRACT: u64 = 900;
const ADMIN: u64 = 1;
const VAULT: u64 = 2;
const FROM: u64 = 30;
const TO: u64 = 31;
const USDC: u64 = 50;
const T0: u64 = 1_700_000_000;

fn setup() -> CalloraSettlement {
    let mut s = CalloraSettlement::new(CONTRACT);
    s.init(ADMIN, VAULT, T0).unwrap();
    s.receive_payment(VAULT, 500, false, Some(FROM), USDC, T0).unwrap();
    s
}

fn is_error<T>(r: Result<T, SettlementFailure>, expected: SettlementError) -> bool {
    r.err() == Some(SettlementFailure::Error(expected))
}

fn balance(s: &CalloraSettlement, d: u64) -> i128 {
    s.get_developer_balance(d, USDC).unwrap()
}

#[test]
fn proposal_stores_balance_snapshot_and_deadline() {
    let mut s = setup();
    s.propose_balance_migration(ADMIN, FROM, TO, USDC, T0).unwrap();
    let pending = s.get_balance_migration(FROM).unwrap();
    assert_eq!(pending.from, FROM);
    assert_eq!(pending.to, TO);
    assert_eq!(pending.amount, 500);
    assert_eq!(pending.proposed_at, 1_700_000_000);
    assert_eq!(pending.execute_after, 1_700_000_000 + DEVELOPER_MIGRATION_TIMELOCK_SECONDS);
}

#[test]
fn execution_requires_timelock_and_succeeds_at_boundary() {
    let mut s = setup();
    s.propose_balance_migration(ADMIN, FROM, TO, USDC, T0).unwrap();
    let early = s.execute_balance_migration(ADMIN, FROM, T0);
    assert!(is_error(early, SettlementError::TimelockNotExpired));
    assert_eq!(balance(&s, FROM), 500);
    assert_eq!(balance(&s, TO), 0);
    s.execute_balance_migration(ADMIN, FROM, T0 + DEVELOPER_MIGRATION_TIMELOCK_SECONDS).unwrap();
    assert_eq!(balance(&s, FROM), 0);
    assert_eq!(balance(&s, TO), 500);
    assert_eq!(s.get_balance_migration(FROM), None);
}

#[test]
fn execution_adds_to_destination_and_leaves_later_source_credits() {
    let mut s = setup();
    s.receive_payment(VAULT, 40, false, Some(TO), USDC, T0).unwrap();
    s.propose_balance_migration(ADMIN, FROM, TO, USDC, T0).unwrap();
    s.receive_payment(VAULT, 25, false, Some(FROM), USDC, T0).unwrap();
    s.execute_balance_migration(ADMIN, FROM, T0 + DEVELOPER_MIGRATION_TIMELOCK_SECONDS).unwrap();
    assert_eq!(balance(&s, FROM), 25);
    assert_eq!(balance(&s, TO), 540);
}

#[test]
fn execute_emits_admin_migration_event_and_cannot_replay() {
    let mut s = setup();
    s.propose_balance_migration(ADMIN, FROM, TO, USDC, T0).unwrap();
    let executed_at = 1_700_000_000 + DEVELOPER_MIGRATION_TIMELOCK_SECONDS + 1;
    let data = s.execute_balance_migration(ADMIN, FROM, executed_at).unwrap();
    assert_eq!(data.from, FROM);
    assert_eq!(data.to, TO);
    assert_eq!(data.amount, 500);
    assert!(data.execute_after <= executed_at);
    let replay = s.execute_balance_migration(ADMIN, FROM, executed_at);
    assert!(is_error(replay, SettlementError::MigrationNotFound));
}

#[test]
fn unauthorized_address_is_rejected_even_when_it_authorizes() {
    let mut s = setup();
    let result = s.propose_balance_migration(77, FROM, TO, USDC, T0);
    assert!(is_error(result, SettlementError::Unauthorized));
}

#[test]
fn invalid_proposals_are_rejected() {
    let mut s = setup();
    assert!(is_error(
        s.propose_balance_migration(ADMIN, FROM, FROM, USDC, T0),
        SettlementError::MigrationSameAddress
    ));
    assert!(is_error(
        s.propose_balance_migration(ADMIN, FROM, CONTRACT, USDC, T0),
        SettlementError::InvalidMigrationTarget
    ));
    assert!(is_error(
        s.propose_balance_migration(ADMIN, 60, 61, USDC, T0),
        SettlementError::NoDeveloperBalance
    ));
}

#[test]
fn reproposal_replaces_target_and_restarts_timelock() {
    let mut s = setup();
    let second_to = 32;
    s.propose_balance_migration(ADMIN, FROM, TO, USDC, T0).unwrap();
    s.propose_balance_migration(ADMIN, FROM, second_to, USDC, 1_700_000_100).unwrap();
    let pending = s.get_balance_migration(FROM).unwrap();
    assert_eq!(pending.to, second_to);
    assert_eq!(pending.execute_after, 1_700_000_100 + DEVELOPER_MIGRATION_TIMELOCK_SECONDS);
}

#[test]
fn proposal_rejects_timestamp_overflow() {
    let mut s = setup();
    let result = s.propose_balance_migration(ADMIN, FROM, TO, USDC, u64::MAX);
    assert!(is_error(result, SettlementError::TimelockOverflow));
    assert_eq!(s.get_balance_migration(FROM), None);
}

#[test]
fn execution_rejects_a_spent_snapshot_without_partial_writes() {
    let mut s = setup();
    s.propose_balance_migration(ADMIN, FROM, TO, USDC, T0).unwrap();
    s.balances.insert(ledger_key(FROM, USDC), 499);
    let result = s.execute_balance_migration(ADMIN, FROM, T0 + DEVELOPER_MIGRATION_TIMELOCK_SECONDS);
    assert!(is_error(result, SettlementError::MigrationBalanceChanged));
    assert_eq!(balance(&s, FROM), 499);
    assert_eq!(balance(&s, TO), 0);
    assert!(s.get_balance_migration(FROM).is_some());
}

#[test]
fn destination_overflow_reverts_all_migration_state() {
    let mut s = setup();
    s.propose_balance_migration(ADMIN, FROM, TO, USDC, T0).unwrap();
    s.balances.insert(ledger_key(TO, USDC), i128::MAX);
    let result = s.execute_balance_migration(ADMIN, FROM, T0 + DEVELOPER_MIGRATION_TIMELOCK_SECONDS);
    assert!(is_error(result, SettlementError::DeveloperOverflow));
    assert_eq!(balance(&s, FROM), 500);
    assert_eq!(balance(&s, TO), i128::MAX);
    assert!(s.get_balance_migration(FROM).is_some());
}
