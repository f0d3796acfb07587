//! Seeded traces of funding, scheduling, distributing and pausing keep the
//! pool's USDC holdings at least the total scheduled for payout.
//!
//! The token ledger is simulated next to the pool: a distribution that the
//! pool accepts moves its amount (or a batch's total) out of the holdings.

use callora::revenue_pool::RevenuePool;

const DEV_COUNT: usize = 10;
const ACTIONS_PER_TRACE: u32 = 75;

const POOL: u64 = 500;
const ADMIN: u64 = 1;
const USDC: u64 = 10;

struct SimpleRng(u64);

impl SimpleRng {
    fn new(seed: u64) -> Self {
        Self(seed)
    }

    fn next_u64(&mut self) -> u64 {
        self.0 = self.0.wrapping_mul(6364136223846793005).wrapping_add(1442695040888963407);
        self.0
    }

    fn gen_range(&mut self, lo: i128, hi: i128) -> i128 {
        assert!(hi > lo, "gen_range: hi must be > lo");
        let range = (hi - lo) as u64;
        lo + (self.next_u64() % range) as i128
    }

    fn gen_index(&mut self, max: usize) -> usize {
        if max == 0 {
            return 0;
        }
        (self.next_u64() % max as u64) as usize
    }
}

fn invariant_trace(seed: u64) {
    let mut pool = RevenuePool::new(POOL);
    pool.init(ADMIN, USDC).unwrap();
    let mut holdings: i128 = 0;
    let devs: Vec<u64> = (0..DEV_COUNT as u64).map(|i| 1000 + i).collect();

    let mut rng = SimpleRng::new(seed);
    let mut scheduled: i128 = 0;
    let mut paused = false;

    for step in 0..ACTIONS_PER_TRACE {
        let action = rng.next_u64() % 12;
        match action {
            0..=3 => {
                let amount = rng.gen_range(1_000, 1_000_000);
                holdings += amount;
            }
            4..=6 => {
                let amount = rng.gen_range(1_000, 500_000);
                holdings += amount;
                scheduled += amount;
            }
            7..=8 => {
                if scheduled > 0 {
                    let idx = rng.gen_index(DEV_COUNT);
                    let max_amt = core::cmp::min(scheduled, 200_000);
                    if max_amt > 0 {
                        let amt = rng.gen_range(1, max_amt + 1);
                        if pool.distribute(ADMIN, devs[idx], amt, true, holdings).is_ok() {
                            holdings -= amt;
                            scheduled -= amt;
                        }
                    }
                }
            }
            9 => {
                if scheduled > 0 {
                    let batch_size = rng.gen_index(6).max(1) as u32;
                    let mut payments: Vec<(u64, i128)> = Vec::new();
                    let mut batch_total: i128 = 0;
                    for _ in 0..batch_size {
                        let remaining = scheduled - batch_total;
                        if remaining <= 0 {
                            break;
                        }
                        let max_leg = core::cmp::min(remaining, 100_000);
                        if max_leg <= 0 {
                            break;
                        }
                        let leg_amt = rng.gen_range(1, max_leg + 1);
                        let idx = rng.gen_index(DEV_COUNT);
                        payments.push((devs[idx], leg_amt));
                        batch_total += leg_amt;
                    }
                    if !payments.is_empty() {
                        if let Ok(total) = pool.batch_distribute(ADMIN, &payments, holdings) {
                            assert_eq!(total, batch_total);
                            holdings -= total;
                            scheduled -= batch_total;
                        }
                    }
                }
            }
            10 => {
                if paused {
                    let _ = pool.unpause(ADMIN);
                    paused = false;
                } else {
                    let _ = pool.pause(ADMIN);
                    paused = true;
                }
            }
            11 => {
                let _ = pool.pause(ADMIN);
                if scheduled > 0 {
                    let idx = rng.gen_index(DEV_COUNT);
                    let max_amt = core::cmp::min(scheduled, 100_000);
                    if max_amt > 0 {
                        let amt = rng.gen_range(1, max_amt + 1);
                        assert!(pool.distribute(ADMIN, devs[idx], amt, true, holdings).is_err());
                    }
                }
                let _ = pool.unpause(ADMIN);
                paused = false;
            }
            _ => {}
        }
        assert!(
            holdings >= scheduled,
            "[seed={}, step={}] holdings {} < scheduled {}",
            seed,
            step,
            holdings,
            scheduled
        );
    }
}

#[test]
fn invariant_pool_balance_ge_scheduled_128_traces() {
    for seed in 0..128 {
        invariant_trace(seed as u64);
    }
}
