//! The full fund cycle across vault, settlement and revenue pool, with the
//! token ledger simulated beside the three ledgers: every operation that the
//! contracts answer with a transfer moves the simulated USDC accordingly, and
//! every unit minted at the start stays accounted for.
//!
//! A credit that the settlement admin records for a developer moves no token
//! by itself, so the operator funds it with a transfer of the same amount.

use std::collections::HashMap;

use callora::revenue_pool::RevenuePool;
use callora::settlement::CalloraSettlement;
use callora::vault::{CalloraVault, DeductItem};

const INITIAL_MINT: i128 = 1_000_000_000;
const OWNER: u64 = 1;
const BACKEND: u64 = 2;
const DEV_A: u64 = 3;
const DEV_B: u64 = 4;
const USDC: u64 = 10;
const VAULT_ID: u64 = 100;
const SETTLEMENT_ID: u64 = 200;
const POOL_ID: u64 = 300;
const NOW: u64 = 1_700_000_000;

struct Harness {
    vault: CalloraVault,
    settlement: CalloraSettlement,
    pool: RevenuePool,
    usdc: HashMap<u64, i128>,
}

impl Harness {
    fn held(&self, who: u64) -> i128 {
        *self.usdc.get(&who).unwrap_or(&0)
    }

    fn transfer(&mut self, from: u64, to: u64, amount: i128) {
        assert!(self.held(from) >= amount, "token transfer beyond holdings");
        *self.usdc.entry(from).or_insert(0) -= amount;
        *self.usdc.entry(to).or_insert(0) += amount;
    }

    /// A deduct of the vault forwards the amount to the settlement pool.
    fn deduct(&mut self, amount: i128, request_id: Option<&str>) -> bool {
        let rid = request_id.map(|s| s.as_bytes().to_vec());
        if self.vault.deduct(BACKEND, amount, rid).is_err() {
            return false;
        }
        self.transfer(VAULT_ID, SETTLEMENT_ID, amount);
        self.settlement.receive_payment(VAULT_ID, amount, true, None, USDC, NOW).unwrap();
        true
    }

    fn settlement_total(&self) -> i128 {
        let pool = self.settlement.get_global_pool().unwrap().total_balance;
        let devs: i128 = [DEV_A, DEV_B].iter().map(|d| self.settlement.get_developer_balance(*d, USDC).unwrap()).sum();
        pool + devs
    }

    fn assert_conserved(&self) {
        let total = self.vault.balance().unwrap()
            + self.settlement_total()
            + self.held(POOL_ID)
            + self.held(OWNER)
            + self.held(DEV_A)
            + self.held(DEV_B);
        assert_eq!(total, INITIAL_MINT, "conservation violated");
    }
}

fn setup() -> Harness {
    let mut usdc = HashMap::new();
    usdc.insert(OWNER, INITIAL_MINT);
    let mut vault = CalloraVault::new(VAULT_ID);
    vault.init(OWNER, USDC, None, Some(BACKEND), None, Some(POOL_ID), None, 0).unwrap();
    vault.set_settlement(OWNER, SETTLEMENT_ID).unwrap();
    let mut settlement = CalloraSettlement::new(SETTLEMENT_ID);
    settlement.init(OWNER, VAULT_ID, NOW).unwrap();
    let mut pool = RevenuePool::new(POOL_ID);
    pool.init(OWNER, USDC).unwrap();
    Harness { vault, settlement, pool, usdc }
}

#[test]
fn full_fund_cycle_conserves_usdc() {
    let mut h = setup();
    h.assert_conserved();
    assert_eq!(h.held(OWNER), INITIAL_MINT);

    // Deposit.
    let deposit_amount: i128 = 600_000_000;
    h.vault.deposit(OWNER, deposit_amount).unwrap();
    h.transfer(OWNER, VAULT_ID, deposit_amount);
    assert_eq!(h.vault.balance(), Ok(deposit_amount));
    assert_eq!(h.held(OWNER), INITIAL_MINT - deposit_amount);
    h.assert_conserved();

    // Deducts, single and batched, all into the settlement pool.
    let single_deduct_amount: i128 = 10_000_000;
    assert!(h.deduct(single_deduct_amount, Some("req_single_1")));
    let batch_items = vec![
        DeductItem { amount: 5_000_000, request_id: Some(b"req_batch_1".to_vec()) },
        DeductItem { amount: 7_500_000, request_id: Some(b"req_batch_2".to_vec()) },
        DeductItem { amount: 2_500_000, request_id: None },
    ];
    let batch_total: i128 = batch_items.iter().map(|i| i.amount).sum();
    h.vault.batch_deduct(BACKEND, &batch_items).unwrap();
    for item in &batch_items {
        h.transfer(VAULT_ID, SETTLEMENT_ID, item.amount);
        h.settlement.receive_payment(VAULT_ID, item.amount, true, None, USDC, NOW).unwrap();
    }
    let total_deducted = single_deduct_amount + batch_total;
    assert_eq!(h.vault.balance(), Ok(deposit_amount - total_deducted));
    assert_eq!(h.settlement.get_global_pool().unwrap().total_balance, total_deducted);
    assert_eq!(h.held(SETTLEMENT_ID), total_deducted);
    h.assert_conserved();

    // A repeated request id moves nothing.
    assert!(!h.deduct(1, Some("req_single_1")), "duplicate request_id must be rejected");
    assert_eq!(h.vault.balance(), Ok(deposit_amount - total_deducted));
    h.assert_conserved();

    // An admin credit to a developer, who withdraws part of it.
    let dev_a_credit: i128 = 4_000_000;
    h.settlement.receive_payment(OWNER, dev_a_credit, false, Some(DEV_A), USDC, NOW).unwrap();
    h.transfer(OWNER, SETTLEMENT_ID, dev_a_credit);
    h.assert_conserved();
    assert_eq!(h.settlement.get_developer_balance(DEV_A, USDC), Ok(dev_a_credit));
    assert_eq!(h.settlement.get_global_pool().unwrap().total_balance, total_deducted);
    h.settlement.set_usdc_token(OWNER, USDC).unwrap();
    let dev_a_withdraw: i128 = 1_500_000;
    let held = h.held(SETTLEMENT_ID);
    let w = h.settlement.withdraw_developer_balance(DEV_A, dev_a_withdraw, None, USDC, NOW, held).unwrap();
    h.transfer(SETTLEMENT_ID, w.recipient, w.amount);
    assert_eq!(h.settlement.get_developer_balance(DEV_A, USDC), Ok(dev_a_credit - dev_a_withdraw));
    assert_eq!(h.held(DEV_A), dev_a_withdraw);
    h.assert_conserved();

    // Surplus on the vault's account is swept into the revenue pool, which
    // pays a developer.
    let surplus: i128 = 3_000_000;
    h.transfer(OWNER, VAULT_ID, surplus);
    let sweep_amount: i128 = 3_000_000;
    let vault_held = h.held(VAULT_ID);
    h.vault.distribute(OWNER, POOL_ID, sweep_amount, vault_held).unwrap();
    h.transfer(VAULT_ID, POOL_ID, sweep_amount);
    assert_eq!(h.held(POOL_ID), sweep_amount);
    let dev_b_payment: i128 = 2_000_000;
    let pool_held = h.held(POOL_ID);
    h.pool.batch_distribute(OWNER, &vec![(DEV_B, dev_b_payment)], pool_held).unwrap();
    h.transfer(POOL_ID, DEV_B, dev_b_payment);
    assert_eq!(h.held(DEV_B), dev_b_payment);
    assert_eq!(h.held(POOL_ID), sweep_amount - dev_b_payment);
    h.assert_conserved();

    // Paused vault: no inflows, withdrawals still allowed.
    h.vault.pause(OWNER).unwrap();
    assert!(h.vault.is_paused());
    assert!(h.vault.deposit(OWNER, 1_000).is_err(), "deposit must be blocked while paused");
    assert!(!h.deduct(1_000, None), "deduct must be blocked while paused");
    let pre_pause_vault_balance = h.vault.balance().unwrap();
    let withdraw_amount: i128 = 1_000_000;
    h.vault.withdraw(withdraw_amount).unwrap();
    h.transfer(VAULT_ID, OWNER, withdraw_amount);
    assert_eq!(h.vault.balance(), Ok(pre_pause_vault_balance - withdraw_amount));
    h.vault.unpause(OWNER).unwrap();
    assert!(!h.vault.is_paused());

    // Paused revenue pool: no distributions.
    h.pool.pause(OWNER).unwrap();
    assert!(h.pool.is_paused());
    let pool_held = h.held(POOL_ID);
    assert!(h.pool.distribute(OWNER, DEV_B, 1, true, pool_held).is_err());
    assert!(h.pool.batch_distribute(OWNER, &vec![(DEV_B, 1)], pool_held).is_err());
    h.pool.unpause(OWNER).unwrap();
    assert!(!h.pool.is_paused());

    // An oversized batch is refused whole.
    let pre_failure_pool_balance = h.held(POOL_ID);
    let oversized = vec![(DEV_A, pre_failure_pool_balance), (DEV_B, pre_failure_pool_balance)];
    assert!(h.pool.batch_distribute(OWNER, &oversized, pre_failure_pool_balance).is_err());
    assert_eq!(h.held(POOL_ID), pre_failure_pool_balance);

    // Every unit minted is still accounted for.
    h.assert_conserved();
    let vault_tracked = h.vault.balance().unwrap();
    assert_eq!(
        vault_tracked + h.settlement_total() + h.held(POOL_ID) + h.held(OWNER) + h.held(DEV_A) + h.held(DEV_B),
        INITIAL_MINT
    );
}
