//! Random vault operation sequences keep the tracked balance equal to the
//! vault's USDC holdings after every step.
//!
//! The token ledger is simulated next to the vault: every successful
//! operation moves the vault's holdings by the amount its contract says is
//! transferred, and after each step the tracked balance must match.

use callora::vault::{CalloraVault, DeductItem};

const TRACE_LENGTH: u32 = 32;
const SEED_COUNT: u64 = 64;
const INITIAL_BALANCE: i128 = 100_000;
const AMOUNT_CAP: i128 = 5_000;

const VAULT: u64 = 100;
const OWNER: u64 = 1;
const DEPOSITOR: u64 = 2;
const RECIPIENT: u64 = 3;
const USDC: u64 = 10;
const SETTLEMENT: u64 = 20;

struct Prng {
    state: u64,
}

impl Prng {
    fn new(seed: u64) -> Self {
        Self { state: seed.wrapping_add(0x9E37_79B9_7F4A_7C15) }
    }

    fn next_u64(&mut self) -> u64 {
        self.state = self.state.wrapping_mul(6_364_136_223_846_793_005).wrapping_add(1);
        self.state
    }

    fn gen_range_i128(&mut self, min: i128, max: i128) -> i128 {
        if min >= max {
            return min;
        }
        let span = (max - min) as u64 + 1;
        min + (self.next_u64() % span) as i128
    }

    fn gen_range_usize(&mut self, min: usize, max: usize) -> usize {
        if min >= max {
            return min;
        }
        min + (self.next_u64() as usize) % (max - min)
    }

    fn next_bool(&mut self) -> bool {
        self.next_u64() & 1 == 1
    }
}

fn make_request_id(counter: u32) -> Vec<u8> {
    format!("rid{:02}", counter % 64).into_bytes()
}

struct Harness {
    vault: CalloraVault,
    /// The vault's USDC holdings in the token ledger.
    ledger: i128,
}

impl Harness {
    fn assert_in_sync(&self, seed: u64, step: u32) {
        let kept = self.vault.balance().unwrap();
        assert_eq!(
            kept, self.ledger,
            "seed={} step={}: tracked balance {} != holdings {}",
            seed, step, kept, self.ledger
        );
    }
}

fn run_property_trace(seed: u64) {
    let mut rng = Prng::new(seed);
    let mut h = Harness { vault: CalloraVault::new(VAULT), ledger: INITIAL_BALANCE };
    h.vault
        .init(
            OWNER,
            USDC,
            Some(INITIAL_BALANCE),
            None,
            Some(1),
            None,
            Some(AMOUNT_CAP),
            h.ledger,
        )
        .unwrap();
    h.vault.set_settlement(OWNER, SETTLEMENT).unwrap();
    let reserve: i128 = INITIAL_BALANCE * 10;

    let mut paused = false;
    let mut depositor_allowed = false;
    let mut used_request_ids: Vec<Vec<u8>> = Vec::new();
    let mut rid_counter: u32 = 0;

    h.assert_in_sync(seed, 0);

    for step in 1..=TRACE_LENGTH {
        let op = rng.next_u64() % 9;
        let balance_before = h.vault.balance().unwrap();
        match op {
            0 => {
                let use_alt = depositor_allowed && rng.next_bool();
                let who = if use_alt { DEPOSITOR } else { OWNER };
                let max_amt = AMOUNT_CAP.min(balance_before + reserve);
                let amount = rng.gen_range_i128(1, max_amt);
                if paused {
                    assert!(h.vault.deposit(who, amount).is_err(), "deposit must fail while paused");
                } else {
                    h.vault.deposit(who, amount).unwrap();
                    h.ledger += amount;
                }
            }
            1 => {
                let amount = rng.gen_range_i128(1, AMOUNT_CAP);
                let with_id = rng.next_bool();
                let rid = if with_id {
                    let id = make_request_id(rid_counter);
                    rid_counter += 1;
                    Some(id)
                } else {
                    None
                };
                if paused {
                    assert!(h.vault.deduct(OWNER, amount, rid).is_err());
                } else if balance_before >= amount {
                    h.vault.deduct(OWNER, amount, rid.clone()).unwrap();
                    h.ledger -= amount;
                    if let Some(id) = rid {
                        used_request_ids.push(id);
                    }
                } else {
                    assert!(h.vault.deduct(OWNER, amount, rid).is_err());
                }
            }
            2 => {
                let n = rng.gen_range_usize(1, 5);
                let mut items: Vec<DeductItem> = Vec::new();
                let mut total: i128 = 0;
                let mut valid = true;
                for _ in 0..n {
                    let amt = rng.gen_range_i128(1, AMOUNT_CAP);
                    total = match total.checked_add(amt) {
                        Some(t) => t,
                        None => {
                            valid = false;
                            break;
                        }
                    };
                    let use_id = rng.next_bool();
                    let rid = if use_id {
                        let id = make_request_id(rid_counter);
                        rid_counter += 1;
                        Some(id)
                    } else {
                        None
                    };
                    items.push(DeductItem { amount: amt, request_id: rid });
                }
                if paused {
                    assert!(h.vault.batch_deduct(OWNER, &items).is_err());
                } else if valid && balance_before >= total {
                    h.vault.batch_deduct(OWNER, &items).unwrap();
                    h.ledger -= total;
                    for item in &items {
                        if let Some(id) = &item.request_id {
                            used_request_ids.push(id.clone());
                        }
                    }
                } else {
                    assert!(h.vault.batch_deduct(OWNER, &items).is_err());
                }
            }
            3 => {
                if balance_before > 0 {
                    let amount = rng.gen_range_i128(1, balance_before.min(AMOUNT_CAP));
                    h.vault.withdraw(amount).unwrap();
                    h.ledger -= amount;
                }
            }
            4 => {
                if balance_before > 0 {
                    let amount = rng.gen_range_i128(1, balance_before.min(AMOUNT_CAP));
                    h.vault.withdraw_to(RECIPIENT, amount).unwrap();
                    h.ledger -= amount;
                }
            }
            5 => {
                let meta = h.vault.balance().unwrap();
                let mut surplus = h.ledger.saturating_sub(meta);
                if surplus == 0 {
                    surplus = rng.gen_range_i128(1, AMOUNT_CAP);
                    h.ledger += surplus;
                }
                h.vault.distribute(OWNER, RECIPIENT, surplus, h.ledger).unwrap();
                h.ledger -= surplus;
            }
            6 => {
                if paused {
                    h.vault.unpause(OWNER).unwrap();
                    paused = false;
                } else {
                    h.vault.pause(OWNER).unwrap();
                    paused = true;
                }
            }
            7 => {
                if depositor_allowed {
                    h.vault.clear_allowed_depositors(OWNER).unwrap();
                    depositor_allowed = false;
                } else {
                    h.vault.set_allowed_depositor(OWNER, Some(DEPOSITOR)).unwrap();
                    depositor_allowed = true;
                }
            }
            8 => {
                if used_request_ids.is_empty() {
                    let amount = rng.gen_range_i128(1, AMOUNT_CAP.min(balance_before.max(1)));
                    if !paused && balance_before >= amount {
                        let rid = make_request_id(rid_counter);
                        rid_counter += 1;
                        h.vault.deduct(OWNER, amount, Some(rid.clone())).unwrap();
                        h.ledger -= amount;
                        let retry = h.vault.deduct(OWNER, amount, Some(rid.clone()));
                        assert!(retry.is_err(), "duplicate request_id must fail");
                        used_request_ids.push(rid);
                    }
                } else {
                    let idx = rng.gen_range_usize(0, used_request_ids.len());
                    let rid = used_request_ids[idx].clone();
                    let amount = rng.gen_range_i128(1, AMOUNT_CAP);
                    let retry = h.vault.deduct(OWNER, amount, Some(rid));
                    assert!(retry.is_err(), "reused request_id must fail");
                }
            }
            _ => unreachable!(),
        }
        h.assert_in_sync(seed, step);
    }

    if paused {
        h.vault.unpause(OWNER).unwrap();
        h.assert_in_sync(seed, TRACE_LENGTH + 1);
    }
}

#[test]
fn test_balance_property_seeded_traces() {
    for seed in 0..SEED_COUNT {
        run_property_trace(seed);
    }
}

fn harness(with_settlement: bool) -> Harness {
    let mut h = Harness { vault: CalloraVault::new(VAULT), ledger: INITIAL_BALANCE };
    h.vault
        .init(OWNER, USDC, Some(INITIAL_BALANCE), None, Some(1), None, Some(AMOUNT_CAP), h.ledger)
        .unwrap();
    if with_settlement {
        h.vault.set_settlement(OWNER, SETTLEMENT).unwrap();
    }
    h
}

#[test]
fn test_balance_property_pause_mid_sequence() {
    let mut h = harness(true);
    h.assert_in_sync(42, 0);
    h.vault.deposit(OWNER, 100).unwrap();
    h.ledger += 100;
    h.assert_in_sync(42, 1);
    h.vault.pause(OWNER).unwrap();
    assert!(h.vault.deposit(OWNER, 50).is_err());
    assert!(h.vault.deduct(OWNER, 10, None).is_err());
    h.assert_in_sync(42, 2);
    h.vault.withdraw(50).unwrap();
    h.ledger -= 50;
    h.assert_in_sync(42, 3);
    h.vault.unpause(OWNER).unwrap();
    h.vault.deduct(OWNER, 25, None).unwrap();
    h.ledger -= 25;
    h.assert_in_sync(42, 4);
}

#[test]
fn test_balance_property_depositor_flips() {
    let mut h = harness(false);
    h.vault.set_allowed_depositor(OWNER, Some(DEPOSITOR)).unwrap();
    h.vault.deposit(DEPOSITOR, 500).unwrap();
    h.ledger += 500;
    h.assert_in_sync(7, 1);
    h.vault.clear_allowed_depositors(OWNER).unwrap();
    assert!(h.vault.deposit(DEPOSITOR, 100).is_err());
    h.assert_in_sync(7, 2);
    h.vault.deposit(OWNER, 200).unwrap();
    h.ledger += 200;
    h.assert_in_sync(7, 3);
}

#[test]
fn test_balance_property_request_id_reuse() {
    let mut h = harness(true);
    let rid = b"reuse_test_id".to_vec();
    h.vault.deduct(OWNER, 100, Some(rid.clone())).unwrap();
    h.ledger -= 100;
    h.assert_in_sync(13, 1);
    assert!(h.vault.deduct(OWNER, 50, Some(rid)).is_err());
    h.assert_in_sync(13, 2);
    assert_eq!(h.vault.balance(), Ok(INITIAL_BALANCE - 100));
}
