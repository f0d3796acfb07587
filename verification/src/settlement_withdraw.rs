//! Settlement withdrawals and developer balance migrations.
//!
//! A successful withdrawal is accompanied by a transfer of `amount` of the
//! withdrawn token from the settlement contract to the recipient; the
//! tracked balance and the day's withdrawal total move by exactly that
//! amount.

use vstd::prelude::*;
use crate::errors::SettlementError;
use crate::settlement_totals::{lemma_index_sum_listed, lemma_credit_one};
use crate::settlement::{
    Address, CalloraSettlement, DailyWithdrawState, PendingDeveloperMigration, SettlementFailure,
    SettlementPanic, balance_key, err, abort, settled, indexed, sorted_insert, lemma_indexed_grows,
    lemma_covered_grown, lemma_covered_insert, lemma_balance_key_injective,
    DEVELOPER_MIGRATION_TIMELOCK_SECONDS, SECONDS_PER_DAY,
};

verus! {

/// What a successful withdrawal hands to the token transfer.
#[derive(Clone, Copy, Debug, PartialEq, Eq)]
pub struct DeveloperWithdrawal {
    /// Receiver of the transfer.
    pub recipient: Address,
    /// Token in which the transfer is made.
    pub token: Address,
    /// Amount transferred.
    pub amount: i128,
    /// The developer's balance after the withdrawal.
    pub remaining_balance: i128,
}

/// `a + b`, clamped to the range of `i128`.
pub open spec fn saturated(a: int, b: int) -> i128 {
    if a + b > i128::MAX {
        i128::MAX
    } else if a + b < i128::MIN {
        i128::MIN
    } else {
        (a + b) as i128
    }
}

/// `a + b`, clamped to the range of `i128`.
pub fn saturating_add_i128(a: i128, b: i128) -> (r: i128)
    ensures
        r == saturated(a as int, b as int),
{
    match a.checked_add(b) {
        Some(s) => s,
        None => if b > 0 {
            i128::MAX
        } else {
            i128::MIN
        },
    }
}

impl CalloraSettlement {
    /// Whether a claim window of `developer` exists and excludes `now`.
    pub open spec fn window_closed(&self, developer: Address, now: u64) -> bool {
        self.claim_windows@.contains_key(developer) && (now < self.claim_windows@[developer].start_ts
            || now > self.claim_windows@[developer].end_ts)
    }

    /// The daily withdrawal cap of `developer` (zero: none).
    pub open spec fn cap_of(&self, developer: Address) -> i128 {
        if self.daily_caps@.contains_key(developer) {
            self.daily_caps@[developer]
        } else {
            0
        }
    }

    /// What `developer` has withdrawn on the day of ledger time `now`.
    pub open spec fn withdrawn_today(&self, developer: Address, now: u64) -> i128 {
        if self.withdrawals@.contains_key(developer) && self.withdrawals@[developer].day == now
            / SECONDS_PER_DAY {
            self.withdrawals@[developer].amount
        } else {
            0
        }
    }

    /// The recipient of a withdrawal: `to`, or the developer.
    pub open spec fn recipient_of(developer: Address, to: Option<Address>) -> Address {
        match to {
            Some(t) => t,
            None => developer,
        }
    }

    /// The first failing check of `withdraw_developer_balance`, given the
    /// contract's own holdings of the token.
    pub open spec fn withdraw_failure(
        &self,
        developer: Address,
        amount: i128,
        to: Option<Address>,
        token: Address,
        now: u64,
        contract_balance: i128,
    ) -> Option<SettlementFailure> {
        if amount <= 0 {
            err(SettlementError::AmountNotPositive)
        } else if Self::recipient_of(developer, to) == self.contract {
            abort(SettlementPanic::RecipientIsContract)
        } else if self.window_closed(developer, now) {
            err(SettlementError::ClaimWindowClosed)
        } else if amount > self.balance_of(developer, token) {
            err(SettlementError::InsufficientDeveloperBalance)
        } else if self.cap_of(developer) > 0 && self.withdrawn_today(developer, now) + amount
            > self.cap_of(developer) {
            err(SettlementError::DailyWithdrawCapExceeded)
        } else if contract_balance < amount {
            err(SettlementError::InsufficientContractBalance)
        } else {
            None
        }
    }

    /// `ClaimWindowClosed` when `developer` has a claim window and ledger
    /// time `now` lies outside it.
    fn require_claim_window_open(&self, developer: Address, now: u64) -> (r: Result<(), SettlementFailure>)
        ensures
            r == (if self.window_closed(developer, now) {
                Err(SettlementFailure::Error(SettlementError::ClaimWindowClosed))
            } else {
                Ok::<(), SettlementFailure>(())
            }),
    {
        match self.claim_windows.get(&developer) {
            Some(w) => {
                if now < w.start_ts || now > w.end_ts {
                    return Err(SettlementFailure::Error(SettlementError::ClaimWindowClosed));
                }
            },
            None => {},
        }
        Ok(())
    }

    /// Withdraw `amount` of the balance of `developer` in `token`, to `to`
    /// or to the developer, at ledger time `now`. `contract_balance` is the
    /// settlement contract's own holding of `token`, in which the transfer
    /// is made; no configured USDC token is needed, since the balance and
    /// the transfer are both in `token`. The withdrawal counts towards the
    /// developer's total for the day.
    pub fn withdraw_developer_balance(
        &mut self,
        developer: Address,
        amount: i128,
        to: Option<Address>,
        token: Address,
        now: u64,
        contract_balance: i128,
    ) -> (r: Result<DeveloperWithdrawal, SettlementFailure>)
        requires
            old(self).wf(),
        ensures
            final(self).wf(),
            old(self).withdraw_failure(developer, amount, to, token, now, contract_balance) matches Some(
                f,
            ) ==> r == Err::<DeveloperWithdrawal, SettlementFailure>(f) && *final(self) == *old(self),
            r is Ok ==> final(self).holdings(token) == old(self).holdings(token) - amount,
            old(self).withdraw_failure(developer, amount, to, token, now, contract_balance) is None
                ==> {
                let rest = (old(self).balance_of(developer, token) - amount) as i128;
                &&& r == Ok::<DeveloperWithdrawal, SettlementFailure>(
                    DeveloperWithdrawal {
                        recipient: Self::recipient_of(developer, to),
                        token,
                        amount,
                        remaining_balance: rest,
                    },
                )
                &&& *final(self) == (CalloraSettlement {
                    balances: final(self).balances,
                    withdrawals: final(self).withdrawals,
                    ..*old(self)
                })
                &&& final(self).balances@ == old(self).balances@.insert(
                    balance_key(developer, token),
                    rest,
                )
                &&& final(self).withdrawals@ == old(self).withdrawals@.insert(
                    developer,
                    DailyWithdrawState {
                        day: now / SECONDS_PER_DAY,
                        amount: saturated(
                            old(self).withdrawn_today(developer, now) as int,
                            amount as int,
                        ),
                    },
                )
            },
    {
        if amount <= 0 {
            return Err(SettlementFailure::Error(SettlementError::AmountNotPositive));
        }
        let recipient = match to {
            Some(t) => t,
            None => developer,
        };
        if recipient == self.contract {
            return Err(SettlementFailure::Panic(SettlementPanic::RecipientIsContract));
        }
        self.require_claim_window_open(developer, now)?;
        let current = self.read_balance(developer, token);
        if amount > current {
            return Err(SettlementFailure::Error(SettlementError::InsufficientDeveloperBalance));
        }
        let cap = self.get_daily_withdraw_cap(developer);
        let today_total = self.get_withdrawal_today(developer, now);
        if cap > 0 {
            let exceeded = match today_total.checked_add(amount) {
                Some(sum) => sum > cap,
                None => true,
            };
            if exceeded {
                return Err(SettlementFailure::Error(SettlementError::DailyWithdrawCapExceeded));
            }
        }
        let new_balance = match current.checked_sub(amount) {
            Some(b) => b,
            None => {
                return Err(SettlementFailure::Error(SettlementError::DeveloperBalanceUnderflow));
            },
        };
        if contract_balance < amount {
            return Err(SettlementFailure::Error(SettlementError::InsufficientContractBalance));
        }
        proof {
            assert(self.balances@.contains_key(balance_key(developer, token)));
            lemma_index_sum_listed(self.developer_index@, self.balances@, developer, token, new_balance);
        }
        self.write_balance(developer, token, new_balance);
        let day = now / SECONDS_PER_DAY;
        self.withdrawals.insert(
            developer,
            DailyWithdrawState { day, amount: saturating_add_i128(today_total, amount) },
        );
        Ok(DeveloperWithdrawal { recipient, token, amount, remaining_balance: new_balance })
    }

    // ------------------------------------------------------------------
    // Developer balance migration (admin recovery)
    // ------------------------------------------------------------------

    /// The first failing check of `propose_balance_migration`.
    pub open spec fn propose_migration_failure(
        &self,
        caller: Address,
        from: Address,
        to: Address,
        token: Address,
        now: u64,
    ) -> Option<SettlementFailure> {
        if self.admin_failure(caller) is Some {
            self.admin_failure(caller)
        } else if from == to {
            err(SettlementError::MigrationSameAddress)
        } else if to == self.contract {
            err(SettlementError::InvalidMigrationTarget)
        } else if self.balance_of(from, token) <= 0 {
            err(SettlementError::NoDeveloperBalance)
        } else if now + DEVELOPER_MIGRATION_TIMELOCK_SECONDS > u64::MAX {
            err(SettlementError::TimelockOverflow)
        } else {
            None
        }
    }

    /// Propose moving the whole current balance of `from` in `token` to `to`
    /// (admin only), executable once the timelock has passed after `now`.
    /// A new proposal for the same source replaces the previous one.
    pub fn propose_balance_migration(
        &mut self,
        caller: Address,
        from: Address,
        to: Address,
        token: Address,
        now: u64,
    ) -> (r: Result<PendingDeveloperMigration, SettlementFailure>)
        requires
            old(self).wf(),
        ensures
            final(self).wf(),
            old(self).propose_migration_failure(caller, from, to, token, now) matches Some(f) ==> r
                == Err::<PendingDeveloperMigration, SettlementFailure>(f) && *final(self) == *old(
                self,
            ),
            old(self).propose_migration_failure(caller, from, to, token, now) is None ==> {
                let m = PendingDeveloperMigration {
                    from,
                    to,
                    token,
                    amount: old(self).balance_of(from, token),
                    proposed_at: now,
                    execute_after: (now + DEVELOPER_MIGRATION_TIMELOCK_SECONDS) as u64,
                };
                &&& r == Ok::<PendingDeveloperMigration, SettlementFailure>(m)
                &&& *final(self) == (CalloraSettlement {
                    migrations: final(self).migrations,
                    ..*old(self)
                })
                &&& final(self).migrations@ == old(self).migrations@.insert(from, m)
            },
    {
        self.require_admin(caller)?;
        if from == to {
            return Err(SettlementFailure::Error(SettlementError::MigrationSameAddress));
        }
        if to == self.contract {
            return Err(SettlementFailure::Error(SettlementError::InvalidMigrationTarget));
        }
        let amount = self.read_balance(from, token);
        if amount <= 0 {
            return Err(SettlementFailure::Error(SettlementError::NoDeveloperBalance));
        }
        let execute_after = match now.checked_add(DEVELOPER_MIGRATION_TIMELOCK_SECONDS) {
            Some(t) => t,
            None => {
                return Err(SettlementFailure::Error(SettlementError::TimelockOverflow));
            },
        };
        let m = PendingDeveloperMigration { from, to, token, amount, proposed_at: now, execute_after };
        self.migrations.insert(from, m);
        Ok(m)
    }

    /// The pending migration of `from`, if any.
    pub fn get_balance_migration(&self, from: Address) -> (r: Option<PendingDeveloperMigration>)
        ensures
            r == if self.migrations@.contains_key(from) {
                Some(self.migrations@[from])
            } else {
                None::<PendingDeveloperMigration>
            },
    {
        match self.migrations.get(&from) {
            Some(m) => Some(*m),
            None => None,
        }
    }

    /// The first failing check of `execute_balance_migration`.
    pub open spec fn execute_migration_failure(&self, caller: Address, from: Address, now: u64) -> Option<
        SettlementFailure,
    > {
        if self.admin_failure(caller) is Some {
            self.admin_failure(caller)
        } else if !self.migrations@.contains_key(from) {
            err(SettlementError::MigrationNotFound)
        } else {
            let m = self.migrations@[from];
            if now < m.execute_after {
                err(SettlementError::TimelockNotExpired)
            } else if self.balance_of(from, m.token) < m.amount {
                err(SettlementError::MigrationBalanceChanged)
            } else if self.balance_of(m.to, m.token) + m.amount > i128::MAX {
                err(SettlementError::DeveloperOverflow)
            } else {
                None
            }
        }
    }

    /// Execute the matured migration of `from` (admin only): exactly the
    /// approved amount moves to the target, which is listed in the index;
    /// the proposal is consumed. Returns the executed proposal.
    pub fn execute_balance_migration(&mut self, caller: Address, from: Address, now: u64) -> (r:
        Result<PendingDeveloperMigration, SettlementFailure>)
        requires
            old(self).wf(),
        ensures
            final(self).wf(),
            old(self).execute_migration_failure(caller, from, now) matches Some(f) ==> r == Err::<
                PendingDeveloperMigration,
                SettlementFailure,
            >(f) && *final(self) == *old(self),
            r matches Ok(m) ==> final(self).holdings(m.token) == old(self).holdings(m.token),
            old(self).execute_migration_failure(caller, from, now) is None ==> {
                let m = old(self).migrations@[from];
                &&& r == Ok::<PendingDeveloperMigration, SettlementFailure>(m)
                &&& *final(self) == (CalloraSettlement {
                    balances: final(self).balances,
                    developer_index: final(self).developer_index,
                    migrations: final(self).migrations,
                    ..*old(self)
                })
                &&& final(self).balances@ == old(self).balances@.insert(
                    balance_key(from, m.token),
                    (old(self).balance_of(from, m.token) - m.amount) as i128,
                ).insert(
                    balance_key(m.to, m.token),
                    (old(self).balance_of(m.to, m.token) + m.amount) as i128,
                )
                &&& final(self).developer_index@ == indexed(old(self).developer_index@, m.to)
                &&& final(self).migrations@ == old(self).migrations@.remove(from)
            },
    {
        self.require_admin(caller)?;
        let m = match self.migrations.get(&from) {
            Some(m) => *m,
            None => {
                return Err(SettlementFailure::Error(SettlementError::MigrationNotFound));
            },
        };
        if now < m.execute_after {
            return Err(SettlementFailure::Error(SettlementError::TimelockNotExpired));
        }
        let source = self.read_balance(from, m.token);
        let new_source = match source.checked_sub(m.amount) {
            Some(b) => if b >= 0 {
                b
            } else {
                return Err(SettlementFailure::Error(SettlementError::MigrationBalanceChanged));
            },
            None => {
                return Err(SettlementFailure::Error(SettlementError::MigrationBalanceChanged));
            },
        };
        let destination = self.read_balance(m.to, m.token);
        let new_destination = match destination.checked_add(m.amount) {
            Some(b) => b,
            None => {
                return Err(SettlementFailure::Error(SettlementError::DeveloperOverflow));
            },
        };
        proof {
            assert(self.balances@.contains_key(balance_key(from, m.token)));
            assert(self.developer_index@.contains(from));
            lemma_indexed_grows(self.developer_index@, m.to);
            lemma_covered_grown(
                self.balances@,
                self.developer_index@,
                indexed(self.developer_index@, m.to),
            );
            let b1 = self.balances@.insert(balance_key(from, m.token), new_source);
            lemma_index_sum_listed(self.developer_index@, self.balances@, from, m.token, new_source);
            lemma_covered_insert(
                self.balances@,
                self.developer_index@,
                self.developer_index@,
                from,
                m.token,
                new_source,
            );
            lemma_balance_key_injective(from, m.token, m.to, m.token);
            lemma_credit_one(self.developer_index@, b1, m.to, m.token, m.amount as int);
        }
        sorted_insert(&mut self.developer_index, m.to);
        self.write_balance(from, m.token, new_source);
        self.write_balance(m.to, m.token, new_destination);
        self.migrations.remove(&from);
        Ok(m)
    }
}

} // verus!
