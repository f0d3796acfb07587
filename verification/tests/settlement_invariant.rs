//! Settlement balance conservation over seeded operation traces:
//! credits in equal the developer balances plus the pool, after every step.

use callora::settlement::CalloraSettlement;

const TRACE_LENGTH: u32 = 48;
const SEED_COUNT: u64 = 64;
const AMOUNT_CAP: i128 = 10_000;
const MAX_BATCH: usize = 5;
const DEV_POOL_SIZE: usize = 4;

const CONTRACT: u64 = 900;
const ADMIN: u64 = 1;
const VAULT: u64 = 2;
const USDC: u64 = 50;

struct Prng {
    state: u64,
}

impl Prng {
    fn new(seed: u64) -> Self {
        Self { state: seed.wrapping_add(0x9E37_79B9_7F4A_7C15) }
    }

    fn next_u64(&mut self) -> u64 {
        self.state = self
            .state
            .wrapping_mul(6_364_136_223_846_793_005)
            .wrapping_add(1_442_695_040_888_963_407);
        self.state
    }

    fn gen_i128(&mut self, min: i128, max: i128) -> i128 {
        if min >= max {
            return min;
        }
        let span = (max - min) as u64 + 1;
        min + (self.next_u64() % span) as i128
    }

    fn gen_usize(&mut self, min: usize, max: usize) -> usize {
        if min >= max {
            return min;
        }
        min + (self.next_u64() as usize) % (max - min + 1)
    }
}

fn setup() -> CalloraSettlement {
    let mut s = CalloraSettlement::new(CONTRACT);
    s.init(ADMIN, VAULT, 0).unwrap();
    s.set_usdc_token(ADMIN, USDC).unwrap();
    s
}

fn dev_sum(s: &CalloraSettlement) -> i128 {
    s.get_all_developer_balances(ADMIN, USDC).unwrap().iter().map(|b| b.balance).sum()
}

fn pool(s: &CalloraSettlement) -> i128 {
    s.get_global_pool().unwrap().total_balance
}

fn run_trace(seed: u64) {
    let mut rng = Prng::new(seed);
    let mut s = setup();
    let mut held: i128 = AMOUNT_CAP * TRACE_LENGTH as i128 * MAX_BATCH as i128 * 2;
    let devs: Vec<u64> = (0..DEV_POOL_SIZE as u64).map(|i| 100 + i).collect();
    let mut expected_dev_total: i128 = 0;
    let mut expected_pool_total: i128 = 0;
    assert_eq!((dev_sum(&s), pool(&s)), (0, 0));
    for step in 1..=TRACE_LENGTH {
        let op = rng.next_u64() % 4;
        match op {
            0 => {
                let dev = devs[rng.gen_usize(0, DEV_POOL_SIZE - 1)];
                let amount = rng.gen_i128(1, AMOUNT_CAP);
                s.receive_payment(VAULT, amount, false, Some(dev), USDC, 0).unwrap();
                expected_dev_total += amount;
            }
            1 => {
                let amount = rng.gen_i128(1, AMOUNT_CAP);
                s.receive_payment(VAULT, amount, true, None, USDC, 0).unwrap();
                expected_pool_total += amount;
            }
            2 => {
                let n = rng.gen_usize(1, MAX_BATCH);
                let mut items: Vec<(u64, i128)> = Vec::new();
                let mut batch_total: i128 = 0;
                for _ in 0..n {
                    let dev = devs[rng.gen_usize(0, DEV_POOL_SIZE - 1)];
                    let amount = rng.gen_i128(1, AMOUNT_CAP);
                    items.push((dev, amount));
                    batch_total += amount;
                }
                s.batch_receive_payment(VAULT, &items, USDC).unwrap();
                expected_dev_total += batch_total;
            }
            3 => {
                let dev = devs[rng.gen_usize(0, DEV_POOL_SIZE - 1)];
                let current = s.get_developer_balance(dev, USDC).unwrap();
                if current > 0 {
                    let amount = rng.gen_i128(1, current.min(AMOUNT_CAP));
                    if s.withdraw_developer_balance(dev, amount, None, USDC, 0, held).is_ok() {
                        held -= amount;
                        expected_dev_total -= amount;
                    }
                }
            }
            _ => unreachable!(),
        }
        assert_eq!(
            (dev_sum(&s), pool(&s)),
            (expected_dev_total, expected_pool_total),
            "seed={} step={}",
            seed,
            step
        );
    }
}

#[test]
fn test_settlement_balance_invariant_seeded() {
    for seed in 0..SEED_COUNT {
        run_trace(seed);
    }
}

#[test]
fn test_invariant_pool_only() {
    let mut s = setup();
    let amounts = [100i128, 200, 300, 50, 1];
    let mut expected_pool: i128 = 0;
    for (i, &amount) in amounts.iter().enumerate() {
        s.receive_payment(VAULT, amount, true, None, USDC, 0).unwrap();
        expected_pool += amount;
        assert_eq!(pool(&s), expected_pool, "pool invariant failed at step {i}");
        assert_eq!(dev_sum(&s), 0, "no developer should have a balance (step {i})");
    }
}

#[test]
fn test_invariant_single_dev_full_withdraw() {
    let mut s = setup();
    let dev = 30;
    s.receive_payment(VAULT, 1_000, false, Some(dev), USDC, 0).unwrap();
    s.receive_payment(VAULT, 2_000, false, Some(dev), USDC, 0).unwrap();
    s.receive_payment(VAULT, 500, false, Some(dev), USDC, 0).unwrap();
    assert_eq!(s.get_developer_balance(dev, USDC), Ok(3_500));
    assert_eq!(dev_sum(&s), 3_500, "dev sum before withdraw");
    s.withdraw_developer_balance(dev, 3_500, None, USDC, 0, 10_000).unwrap();
    assert_eq!(dev_sum(&s), 0, "dev sum must be 0 after full withdraw");
    assert_eq!(pool(&s), 0, "pool must stay 0");
}

#[test]
fn test_invariant_batch_duplicate_dev() {
    let mut s = setup();
    let dev = 30;
    s.batch_receive_payment(VAULT, &vec![(dev, 100), (dev, 200)], USDC).unwrap();
    assert_eq!(dev_sum(&s), 300, "batch duplicate dev: expected 300");
    assert_eq!(s.get_developer_balance(dev, USDC), Ok(300));
}

#[test]
fn test_invariant_interleaved_dev_and_pool() {
    let mut s = setup();
    let (dev1, dev2) = (30u64, 31u64);
    let ops: &[(bool, i128, bool)] =
        &[(false, 100, true), (true, 50, false), (false, 200, false), (true, 75, false), (false, 300, true)];
    let mut exp_dev: i128 = 0;
    let mut exp_pool: i128 = 0;
    for &(to_pool, amount, is_dev1) in ops {
        if to_pool {
            s.receive_payment(VAULT, amount, true, None, USDC, 0).unwrap();
            exp_pool += amount;
        } else {
            let dev = if is_dev1 { dev1 } else { dev2 };
            s.receive_payment(VAULT, amount, false, Some(dev), USDC, 0).unwrap();
            exp_dev += amount;
        }
        assert_eq!(dev_sum(&s), exp_dev, "dev sum mismatch");
        assert_eq!(pool(&s), exp_pool, "pool mismatch");
    }
}
