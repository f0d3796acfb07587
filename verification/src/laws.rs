//! Properties that span operations of the three contracts, stated over the
//! same spec functions as the operations' own contracts.

use vstd::prelude::*;
use crate::errors::VaultError;
use crate::vault::{CalloraVault, DeductItem, VaultMeta, Address, MAX_LIST_PRICES_LIMIT};
use crate::vault_funds::{batch_scan_failure, carries, items_total};
use crate::vault_offerings::{listing, price_page};
use crate::text::parse_i128_spec;
use crate::settlement::{
    CalloraSettlement, SettlementFailure, SettlementPanic, balance_key, credit_all,
    lemma_balance_key_injective, settled, err, abort, ascending, indexed_all,
    law_listing_keeps_index_sound,
};
use crate::settlement_withdraw::saturated;
use crate::settlement_totals::stored;
use crate::errors::SettlementError;
use crate::revenue_pool::{
    RevenuePool, PoolFailure, PoolPanic, batch_scan, chunk_end, lemma_batch_scan_ok,
    payments_total,
};

verus! {

// ----------------------------------------------------------------------
// Vault
// ----------------------------------------------------------------------

/// A deduct that passes its checks leaves a non-negative balance exactly
/// `amount` below the previous one, and never exceeds the deduct cap.
pub proof fn law_deduct_subtracts_exactly(
    v: CalloraVault,
    caller: Address,
    amount: i128,
    request_id: Option<Seq<u8>>,
)
    requires
        v.wf(),
        v.deduct_failure(caller, amount, request_id) is None,
    ensures
        v.meta is Some,
        0 < amount <= v.spec_max_deduct(),
        0 <= v.meta.unwrap().balance - amount < v.meta.unwrap().balance,
{
}

/// A deposit that passes its checks raises the balance by exactly `amount`
/// without overflow.
pub proof fn law_deposit_adds_exactly(v: CalloraVault, caller: Address, amount: i128)
    requires
        v.wf(),
        v.deposit_failure(caller, amount) is None,
    ensures
        v.meta is Some,
        v.meta.unwrap().balance < v.meta.unwrap().balance + amount <= i128::MAX,
{
}

/// A deduct above the deduct cap is always refused.
pub proof fn law_max_deduct_enforced(
    v: CalloraVault,
    caller: Address,
    amount: i128,
    request_id: Option<Seq<u8>>,
)
    requires
        amount > v.spec_max_deduct(),
    ensures
        v.deduct_failure(caller, amount, request_id) is Some,
{
}

/// Scanning a batch fails when one of its items carries an id already used.
proof fn lemma_batch_scan_refuses_used_id(
    items: Seq<DeductItem>,
    running: int,
    max_d: int,
    used: Set<Seq<u8>>,
    k: int,
    id: Seq<u8>,
)
    requires
        0 <= k < items.len(),
        carries(items[k], id),
        used.contains(id),
    ensures
        batch_scan_failure(items, running, max_d, used) is Some,
    decreases items.len(),
{
    let it = items[0];
    if it.amount > 0 && it.amount <= max_d && running >= it.amount && k > 0 {
        let rest = items.drop_first();
        assert(rest[k - 1] == items[k]);
        match it.request_id {
            Some(x) => {
                if !used.contains(x@) {
                    lemma_batch_scan_refuses_used_id(
                        rest,
                        running - it.amount,
                        max_d,
                        used.insert(x@),
                        k - 1,
                        id,
                    );
                }
            },
            None => {
                lemma_batch_scan_refuses_used_id(rest, running - it.amount, max_d, used, k - 1, id);
            },
        }
    }
}

/// A clean scan accepts only items of positive amount within the cap, and
/// their amounts together fit the running balance.
proof fn lemma_batch_scan_accepts_within_cap(
    items: Seq<DeductItem>,
    running: int,
    max_d: int,
    used: Set<Seq<u8>>,
)
    requires
        batch_scan_failure(items, running, max_d, used) is None,
        running >= 0,
    ensures
        forall|i: int| 0 <= i < items.len() ==> 0 < (#[trigger] items[i]).amount <= max_d,
        items_total(items) <= running,
    decreases items.len(),
{
    if items.len() > 0 {
        let it = items[0];
        let rest = items.drop_first();
        match it.request_id {
            Some(x) => lemma_batch_scan_accepts_within_cap(
                rest,
                running - it.amount,
                max_d,
                used.insert(x@),
            ),
            None => lemma_batch_scan_accepts_within_cap(rest, running - it.amount, max_d, used),
        }
        assert(items_total(rest) <= running - it.amount);
        assert(items_total(items) == it.amount + items_total(rest));
        assert forall|i: int| 0 <= i < items.len() implies 0 < (#[trigger] items[i]).amount <= max_d by {
            if i > 0 {
                assert(items[i] == rest[i - 1]);
            }
        }
    }
}

/// A batch deduct that passes its checks charges only items of positive
/// amount within the deduct cap in force, and no more in total than the
/// tracked balance: a batch holding an item above the cap is refused.
pub proof fn law_batch_deduct_within_cap(v: CalloraVault, caller: Address, items: Seq<DeductItem>)
    requires
        v.wf(),
        v.batch_deduct_failure(caller, items) is None,
    ensures
        forall|i: int| 0 <= i < items.len() ==> 0 < (#[trigger] items[i]).amount <= v.spec_max_deduct(),
        items_total(items) <= v.spec_balance(),
{
    lemma_batch_scan_accepts_within_cap(
        items,
        v.spec_balance() as int,
        v.spec_max_deduct() as int,
        v.processed.view().union(v.legacy_processed.view()),
    );
}

/// A deposit that passes its checks is positive, made by the owner or an
/// allowed depositor, and at least the minimum deposit, whoever makes it.
pub proof fn law_deposit_at_least_minimum(v: CalloraVault, caller: Address, amount: i128)
    requires
        v.deposit_failure(caller, amount) is None,
    ensures
        v.meta is Some,
        amount > 0,
        amount >= v.meta.unwrap().min_deposit,
        caller == v.meta.unwrap().owner || v.depositors@.contains(caller),
        !v.paused,
{
}

/// A price that `set_price` accepts parses to a positive amount.
pub proof fn law_accepted_price_positive(
    v: CalloraVault,
    caller: Address,
    offering_id: Seq<u8>,
    price: Seq<u8>,
)
    requires
        v.set_price_failure(caller, offering_id, price) is None,
    ensures
        parse_i128_spec(price) is Some,
        parse_i128_spec(price).unwrap() > 0,
{
}

/// Each entry of a listing is an offering of the listed range with a stored
/// price, paired with the amount that price parses to; the listing has no
/// more entries than the range has offerings, and exactly as many when every
/// offering of the range has a price that parses.
proof fn lemma_listing_entries(index: Seq<Seq<u8>>, prices: Map<Seq<u8>, Seq<u8>>, from: int, to: int)
    requires
        0 <= from <= to <= index.len(),
    ensures
        listing(index, prices, from, to).len() <= to - from,
        (forall|i: int| from <= i < to ==> prices.contains_key(#[trigger] index[i])
            && parse_i128_spec(prices[index[i]]) is Some) ==> listing(index, prices, from, to).len()
            == to - from,
        forall|j: int|
            0 <= j < listing(index, prices, from, to).len() ==> {
                let e = #[trigger] listing(index, prices, from, to)[j];
                &&& prices.contains_key(e.0)
                &&& parse_i128_spec(prices[e.0]) == Some(e.1)
                &&& exists|i: int| from <= i < to && index[i] == e.0
            },
    decreases to - from,
{
    if to > from {
        lemma_listing_entries(index, prices, from, to - 1);
        let l = listing(index, prices, from, to - 1);
        let full = listing(index, prices, from, to);
        assert(full == l + crate::vault_offerings::listing_entry(index[to - 1], prices));
        assert forall|j: int| 0 <= j < full.len() implies {
            let e = #[trigger] full[j];
            &&& prices.contains_key(e.0)
            &&& parse_i128_spec(prices[e.0]) == Some(e.1)
            &&& exists|i: int| from <= i < to && index[i] == e.0
        } by {
            if j < l.len() {
                assert(full[j] == l[j]);
                let i = choose|i: int| from <= i < to - 1 && index[i] == l[j].0;
                assert(from <= i < to && index[i] == full[j].0);
            } else {
                assert(full[j].0 == index[to - 1]);
            }
        }
    }
}

/// Every entry of a price listing names a priced offering and carries the
/// positive amount its stored price parses to.
pub proof fn law_listed_prices_positive(v: CalloraVault, start: u32, limit: u32)
    requires
        v.wf(),
    ensures
        ({
            let page = price_page(
                crate::bytes::views_of(v.offering_index@),
                v.prices.view(),
                start,
                limit,
            );
            forall|j: int|
                0 <= j < page.len() ==> {
                    &&& v.prices.view().contains_key((#[trigger] page[j]).0)
                    &&& parse_i128_spec(v.prices.view()[page[j].0]) == Some(page[j].1)
                    &&& page[j].1 > 0
                }
        }),
{
    let index = crate::bytes::views_of(v.offering_index@);
    let prices = v.prices.view();
    if start < index.len() {
        let cap: int = if limit > MAX_LIST_PRICES_LIMIT {
            MAX_LIST_PRICES_LIMIT as int
        } else {
            limit as int
        };
        let end: int = if start + cap > u32::MAX {
            u32::MAX as int
        } else {
            start + cap
        };
        let end = if end > index.len() {
            index.len() as int
        } else {
            end
        };
        lemma_listing_entries(index, prices, start as int, end);
    }
}

/// A price listing has at most `min(limit, MAX_LIST_PRICES_LIMIT)` entries;
/// when every offering from `start` on has a price that parses, it has
/// exactly that many, or as many offerings as follow `start` if fewer.
pub proof fn law_price_page_size(
    index: Seq<Seq<u8>>,
    prices: Map<Seq<u8>, Seq<u8>>,
    start: u32,
    limit: u32,
)
    ensures
        ({
            let page = price_page(index, prices, start, limit);
            let cap: int = if limit < MAX_LIST_PRICES_LIMIT {
                limit as int
            } else {
                MAX_LIST_PRICES_LIMIT as int
            };
            &&& page.len() <= cap
            &&& (index.len() <= u32::MAX && forall|i: int|
                start <= i < index.len() ==> prices.contains_key(#[trigger] index[i])
                    && parse_i128_spec(prices[index[i]]) is Some) ==> page.len() == if start
                >= index.len() {
                0
            } else if cap < index.len() - start {
                cap
            } else {
                index.len() - start
            }
        }),
{
    if start < index.len() {
        let cap: int = if limit > MAX_LIST_PRICES_LIMIT {
            MAX_LIST_PRICES_LIMIT as int
        } else {
            limit as int
        };
        let end: int = if start + cap > u32::MAX {
            u32::MAX as int
        } else {
            start + cap
        };
        let end = if end > index.len() {
            index.len() as int
        } else {
            end
        };
        lemma_listing_entries(index, prices, start as int, end);
    }
}

/// Once a request id is processed, every deduct and every batch that
/// carries it is refused.
pub proof fn law_processed_request_id_refused(
    v: CalloraVault,
    id: Seq<u8>,
    caller: Address,
    amount: i128,
    items: Seq<DeductItem>,
)
    requires
        v.spec_processed(id),
        exists|k: int| 0 <= k < items.len() && carries(#[trigger] items[k], id),
    ensures
        v.deduct_failure(caller, amount, Some(id)) is Some,
        v.batch_deduct_failure(caller, items) is Some,
{
    let k = choose|k: int| 0 <= k < items.len() && carries(#[trigger] items[k], id);
    lemma_batch_scan_refuses_used_id(
        items,
        v.spec_balance() as int,
        v.spec_max_deduct() as int,
        v.processed.view().union(v.legacy_processed.view()),
        k,
        id,
    );
}

/// A deduct that succeeded with a request id cannot be replayed: any later
/// deduct carrying the same id is refused.
pub proof fn law_deduct_replay_refused(
    before: CalloraVault,
    after: CalloraVault,
    caller: Address,
    amount: i128,
    id: Seq<u8>,
    caller2: Address,
    amount2: i128,
)
    requires
        before.wf(),
        before.deduct_failure(caller, amount, Some(id)) is None,
        after.processed.view() == before.processed.view().insert(id),
    ensures
        after.deduct_failure(caller2, amount2, Some(id)) is Some,
{
    assert(after.spec_processed(id));
}

/// While the vault is paused, deposits, deducts and batch deducts are
/// refused with `Paused`.
pub proof fn law_pause_blocks_inflows_and_deducts(
    v: CalloraVault,
    caller: Address,
    amount: i128,
    request_id: Option<Seq<u8>>,
    items: Seq<DeductItem>,
)
    requires
        v.paused,
    ensures
        v.deposit_failure(caller, amount) == Some(VaultError::Paused),
        v.deduct_failure(caller, amount, request_id) == Some(VaultError::Paused),
        v.batch_deduct_failure(caller, items) == Some(VaultError::Paused),
{
}

/// Pausing affects neither the owner's withdrawals nor the admin's
/// distributions: they pass or fail the same way either way.
pub proof fn law_withdrawal_ignores_pause(
    v: CalloraVault,
    amount: i128,
    caller: Address,
    on_ledger_balance: i128,
)
    ensures
        v.withdraw_failure(amount) == (CalloraVault { paused: !v.paused, ..v }).withdraw_failure(
            amount,
        ),
        v.distribute_failure(caller, amount, on_ledger_balance) == (CalloraVault {
            paused: !v.paused,
            ..v
        }).distribute_failure(caller, amount, on_ledger_balance),
{
}

/// Withdrawing what was just deposited succeeds and restores the vault.
pub proof fn law_deposit_then_withdraw_restores(v: CalloraVault, caller: Address, amount: i128)
    requires
        v.wf(),
        v.deposit_failure(caller, amount) is None,
    ensures
        ({
            let m = v.meta.unwrap();
            let v1 = CalloraVault {
                meta: Some(VaultMeta { balance: (m.balance + amount) as i128, ..m }),
                ..v
            };
            &&& v1.withdraw_failure(amount) is None
            &&& v1.with_meta(
                VaultMeta { balance: (v1.meta.unwrap().balance - amount) as i128, ..v1.meta.unwrap() },
            ) == v
        }),
{
}

/// Pausing and then unpausing a running vault gives back the same vault:
/// both steps pass for an admin or owner, and nothing else changes.
pub proof fn law_vault_pause_round_trip(v: CalloraVault, caller: Address)
    requires
        !v.paused,
        v.admin_or_owner_failure(caller) is None,
    ensures
        ({
            let paused = CalloraVault { paused: true, ..v };
            &&& paused.admin_or_owner_failure(caller) is None
            &&& paused.paused
            &&& (CalloraVault { paused: false, ..paused }) == v
        }),
{
}

/// The vault's tracked balance stays equal to its USDC holding. Take a run
/// of vault operations, each moving the tracked balance by the signed
/// amount that its token transfer moves into the vault: `+amount` for a
/// deposit, `-amount` for a deduct, a withdraw or a withdraw_to,
/// `-items_total` for a batch deduct, and nothing for a refused call, as
/// their contracts state. If the holding moves only by those transfers and
/// the two agree at the start, they agree after every step.
pub proof fn law_balance_tracks_holding(
    states: Seq<CalloraVault>,
    holdings: Seq<int>,
    moved: Seq<int>,
)
    requires
        states.len() == holdings.len(),
        states.len() == moved.len() + 1,
        states.len() > 0,
        states[0].spec_balance() == holdings[0],
        forall|i: int|
            1 <= i < states.len() ==> #[trigger] states[i].spec_balance() == states[i
                - 1].spec_balance() + moved[i - 1],
        forall|i: int| 1 <= i < holdings.len() ==> #[trigger] holdings[i] == holdings[i - 1] + moved[i - 1],
    ensures
        forall|i: int| 0 <= i < states.len() ==> #[trigger] states[i].spec_balance() == holdings[i],
    decreases states.len(),
{
    if states.len() > 1 {
        let s2 = states.drop_last();
        let h2 = holdings.drop_last();
        let m2 = moved.drop_last();
        assert forall|i: int| 1 <= i < s2.len() implies #[trigger] s2[i].spec_balance() == s2[i
            - 1].spec_balance() + m2[i - 1] by {
            assert(s2[i] == states[i] && s2[i - 1] == states[i - 1] && m2[i - 1] == moved[i - 1]);
            assert(states[i].spec_balance() == states[i - 1].spec_balance() + moved[i - 1]);
        }
        assert forall|i: int| 1 <= i < h2.len() implies #[trigger] h2[i] == h2[i - 1] + m2[i - 1] by {
            assert(h2[i] == holdings[i] && h2[i - 1] == holdings[i - 1] && m2[i - 1] == moved[i - 1]);
            assert(holdings[i] == holdings[i - 1] + moved[i - 1]);
        }
        law_balance_tracks_holding(s2, h2, m2);
        let n = states.len() - 1;
        assert(states[n].spec_balance() == states[n - 1].spec_balance() + moved[n - 1]);
        assert(holdings[n] == holdings[n - 1] + moved[n - 1]);
        assert(s2[n - 1] == states[n - 1] && h2[n - 1] == holdings[n - 1]);
        assert forall|i: int| 0 <= i < states.len() implies #[trigger] states[i].spec_balance()
            == holdings[i] by {
            if i < n {
                assert(s2[i] == states[i] && h2[i] == holdings[i]);
            }
        }
    }
}

// ----------------------------------------------------------------------
// Settlement
// ----------------------------------------------------------------------

/// A withdrawal that passes its checks takes a positive amount no larger
/// than the developer's balance or the contract's holdings, and keeps the
/// day's total within a configured cap.
pub proof fn law_withdrawal_within_balance_and_cap(
    s: CalloraSettlement,
    developer: Address,
    amount: i128,
    to: Option<Address>,
    token: Address,
    now: u64,
    contract_balance: i128,
)
    requires
        s.wf(),
        s.withdraw_failure(developer, amount, to, token, now, contract_balance) is None,
    ensures
        0 < amount <= s.balance_of(developer, token),
        amount <= contract_balance,
        s.cap_of(developer) > 0 ==> saturated(s.withdrawn_today(developer, now) as int, amount as int)
            <= s.cap_of(developer),
        CalloraSettlement::recipient_of(developer, to) != s.contract,
{
}

/// Executing a balance migration moves exactly the approved amount: the
/// source loses it, the target gains it, their sum is unchanged.
pub proof fn law_migration_conserves_balance(
    s: CalloraSettlement,
    caller: Address,
    from: Address,
    now: u64,
)
    requires
        s.wf(),
        s.execute_migration_failure(caller, from, now) is None,
    ensures
        ({
            let m = s.migrations@[from];
            let kf = balance_key(from, m.token);
            let kt = balance_key(m.to, m.token);
            let b = s.balances@.insert(kf, (s.balance_of(from, m.token) - m.amount) as i128).insert(
                kt,
                (s.balance_of(m.to, m.token) + m.amount) as i128,
            );
            &&& kf != kt
            &&& b[kf] == s.balance_of(from, m.token) - m.amount
            &&& b[kt] == s.balance_of(m.to, m.token) + m.amount
            &&& b[kf] + b[kt] == s.balance_of(from, m.token) + s.balance_of(m.to, m.token)
            &&& b[kf] >= 0
        }),
{
    let m = s.migrations@[from];
    lemma_balance_key_injective(from, m.token, m.to, m.token);
}

/// The amount a batch credits to developer `d`.
pub open spec fn amount_for(items: Seq<(Address, i128)>, d: Address) -> int
    decreases items.len(),
{
    if items.len() == 0 {
        0
    } else {
        amount_for(items.drop_last(), d) + if items.last().0 == d {
            items.last().1 as int
        } else {
            0
        }
    }
}

/// A batch credit of positive amounts conserves value: each developer's
/// balance in the token grows by exactly the sum of that developer's items,
/// and no other balance changes.
pub proof fn law_batch_credit_conserves(
    b: Map<u128, i128>,
    items: Seq<(Address, i128)>,
    token: Address,
)
    requires
        credit_all(b, items, token) is Some,
        forall|i: int| 0 <= i < items.len() ==> (#[trigger] items[i]).1 > 0,
    ensures
        forall|d: Address|
            stored(credit_all(b, items, token).unwrap(), #[trigger] balance_key(d, token)) == stored(
                b,
                balance_key(d, token),
            ) + amount_for(items, d),
        forall|k: u128|
            (forall|d: Address| k != #[trigger] balance_key(d, token)) ==> stored(
                credit_all(b, items, token).unwrap(),
                k,
            ) == stored(b, k),
    decreases items.len(),
{
    if items.len() > 0 {
        let init = items.drop_last();
        assert forall|i: int| 0 <= i < init.len() implies (#[trigger] init[i]).1 > 0 by {
            assert(init[i] == items[i]);
        }
        assert(items.last() == items[items.len() - 1]);
        law_batch_credit_conserves(b, init, token);
        let prev = credit_all(b, init, token).unwrap();
        let (x, a) = items.last();
        assert forall|d: Address|
            stored(credit_all(b, items, token).unwrap(), #[trigger] balance_key(d, token)) == stored(
                b,
                balance_key(d, token),
            ) + amount_for(items, d) by {
            lemma_balance_key_injective(x, token, d, token);
            assert(stored(prev, balance_key(d, token)) == stored(b, balance_key(d, token))
                + amount_for(init, d));
            let kx = balance_key(x, token);
            assert(credit_all(b, items, token).unwrap() == prev.insert(
                kx,
                (stored(prev, kx) + a) as i128,
            ));
            assert(amount_for(items, d) == amount_for(init, d) + if x == d {
                a as int
            } else {
                0
            });
        }
        assert forall|k: u128| (forall|d: Address| k != #[trigger] balance_key(d, token)) implies stored(
            credit_all(b, items, token).unwrap(),
            k,
        ) == stored(b, k) by {
            assert(k != balance_key(x, token));
        }
    }
}

/// Listing a batch's developers in turn keeps the index free of
/// repetition, keeps an ascending index ascending, and adds exactly the
/// batch's developers to it.
pub proof fn law_batch_listing_keeps_index_sound(
    index: Seq<Address>,
    items: Seq<(Address, i128)>,
    n: int,
)
    requires
        index.no_duplicates(),
        0 <= n <= items.len(),
    ensures
        indexed_all(index, items, n).no_duplicates(),
        ascending(index) ==> ascending(indexed_all(index, items, n)),
        forall|x: Address|
            #[trigger] indexed_all(index, items, n).contains(x) <==> (index.contains(x) || exists|j: int|
                0 <= j < n && items[j].0 == x),
    decreases n,
{
    if n > 0 {
        law_batch_listing_keeps_index_sound(index, items, n - 1);
        let prev = indexed_all(index, items, n - 1);
        let d = items[n - 1].0;
        law_listing_keeps_index_sound(prev, d);
        let next = indexed_all(index, items, n);
        assert forall|x: Address| #[trigger] next.contains(x) <==> (index.contains(x) || exists|j: int|
            0 <= j < n && items[j].0 == x) by {
            assert(next.to_set().contains(x) == next.contains(x));
            assert(prev.to_set().contains(x) == prev.contains(x));
            if x != d && !prev.contains(x) {
                if exists|j: int| 0 <= j < n && items[j].0 == x {
                    let j = choose|j: int| 0 <= j < n && items[j].0 == x;
                    assert(j != n - 1);
                }
            }
            if x == d {
                assert(items[n - 1].0 == x);
            }
        }
    }
}

/// The amounts of a run of credits, added up.
pub open spec fn amounts_total(amounts: Seq<int>) -> int
    decreases amounts.len(),
{
    if amounts.len() == 0 {
        0
    } else {
        amounts_total(amounts.drop_last()) + amounts.last()
    }
}

/// Every unit credited is accounted for exactly once: starting from a
/// ledger that holds nothing in `token` (as a new one), after a run of
/// accepted credits, each raising what the ledger holds in the token by its
/// amount (as `receive_payment`, `batch_receive_payment` and
/// `force_credit_developer` state), the global pool plus the listed
/// developers' balances in the token add up to the total credited.
pub proof fn law_credits_accounted(states: Seq<CalloraSettlement>, amounts: Seq<int>, token: Address)
    requires
        states.len() == amounts.len() + 1,
        states[0].holdings(token) == 0,
        forall|i: int|
            1 <= i < states.len() ==> #[trigger] states[i].holdings(token) == states[i
                - 1].holdings(token) + amounts[i - 1],
    ensures
        states.last().holdings(token) == amounts_total(amounts),
    decreases amounts.len(),
{
    if amounts.len() > 0 {
        let s2 = states.drop_last();
        let a2 = amounts.drop_last();
        assert forall|i: int| 1 <= i < s2.len() implies #[trigger] s2[i].holdings(token) == s2[i
            - 1].holdings(token) + a2[i - 1] by {
            assert(s2[i] == states[i] && s2[i - 1] == states[i - 1] && a2[i - 1] == amounts[i - 1]);
            assert(states[i].holdings(token) == states[i - 1].holdings(token) + amounts[i - 1]);
        }
        law_credits_accounted(s2, a2, token);
        let n = states.len() - 1;
        assert(states[n].holdings(token) == states[n - 1].holdings(token) + amounts[n - 1]);
        assert(s2.last() == states[n - 1]);
    }
}

/// After the admin nominates a successor, the successor's acceptance goes
/// through and hands over the role.
pub proof fn law_settlement_admin_handover(s: CalloraSettlement, caller: Address, new_admin: Address)
    requires
        s.admin_failure(caller) is None,
    ensures
        ({
            let s1 = CalloraSettlement { pending_admin: Some(new_admin), ..s };
            &&& settled(
                match (s1.pending_admin, s1.admin) {
                    (None, _) => abort(SettlementPanic::NoAdminTransferPending),
                    (_, None) => err(SettlementError::NotInitialized),
                    _ => None::<SettlementFailure>,
                },
            ) is Ok
            &&& (CalloraSettlement { admin: s1.pending_admin, pending_admin: None, ..s1 }).admin
                == Some(new_admin)
        }),
{
}

// ----------------------------------------------------------------------
// Revenue pool
// ----------------------------------------------------------------------

/// A distribution that passes its checks never asks for more than the
/// pool holds, nor more than the cap.
pub proof fn law_distribution_within_holdings(
    p: RevenuePool,
    caller: Address,
    to: Address,
    amount: i128,
    has_trustline: bool,
    pool_balance: i128,
)
    requires
        p.distribute_failure(caller, to, amount, has_trustline, pool_balance) is None,
    ensures
        0 < amount <= pool_balance,
        amount <= p.max_distribute,
        to != p.contract,
{
}

/// A batch that passes its checks pays distinct recipients, none of them
/// the pool, positive amounts within the cap, and in total no more than
/// the pool holds.
pub proof fn law_batch_within_holdings(
    p: RevenuePool,
    caller: Address,
    payments: Seq<(Address, i128)>,
    pool_balance: i128,
)
    requires
        p.batch_distribute_failure(caller, payments, pool_balance) is None,
    ensures
        0 < payments_total(payments) <= pool_balance,
        forall|i: int| 0 <= i < payments.len() ==> 0 < (#[trigger] payments[i]).1 <= p.max_distribute,
        forall|i: int, j: int|
            0 <= i < j < payments.len() ==> (#[trigger] payments[i]).0 != (#[trigger] payments[j]).0,
        forall|i: int| 0 <= i < payments.len() ==> (#[trigger] payments[i]).0 != p.contract,
{
    lemma_batch_scan_ok(payments, p.max_distribute);
    assert(payments[0].1 > 0);
    lemma_payments_total_ge_first(payments, p.max_distribute);
}

/// The total of a batch that scans cleanly is at least its first amount.
proof fn lemma_payments_total_ge_first(payments: Seq<(Address, i128)>, max: i128)
    requires
        payments.len() > 0,
        forall|i: int| 0 <= i < payments.len() ==> 0 < (#[trigger] payments[i]).1,
    ensures
        payments_total(payments) >= payments[0].1,
    decreases payments.len(),
{
    let init = payments.drop_last();
    assert(payments_total(payments) == payments_total(init) + payments.last().1);
    assert(payments.last() == payments[payments.len() - 1]);
    if payments.len() > 1 {
        assert forall|i: int| 0 <= i < init.len() implies 0 < (#[trigger] init[i]).1 by {
            assert(init[i] == payments[i]);
        }
        lemma_payments_total_ge_first(init, max);
        assert(init[0] == payments[0]);
    } else {
        assert(payments_total(init) == 0);
    }
}

/// While the pool is paused, every distribution is refused with `Paused`.
pub proof fn law_paused_pool_refuses_distributions(
    p: RevenuePool,
    caller: Address,
    to: Address,
    amount: i128,
    has_trustline: bool,
    payments: Seq<(Address, i128)>,
    pool_balance: i128,
)
    requires
        p.paused,
    ensures
        p.distribute_failure(caller, to, amount, has_trustline, pool_balance) == Some(
            PoolPanic::Paused,
        ),
        p.batch_distribute_failure(caller, payments, pool_balance) == Some(
            PoolFailure::Panic(PoolPanic::Paused),
        ),
{
}

/// Pausing and then unpausing a running pool gives back the same pool.
pub proof fn law_pool_pause_round_trip(p: RevenuePool, caller: Address)
    requires
        !p.paused,
        p.admin_failure(caller) is None,
    ensures
        ({
            let paused = RevenuePool { paused: true, ..p };
            &&& paused.admin_failure(caller) is None
            &&& (RevenuePool { paused: false, ..paused }) == p
        }),
{
}

/// After the admin nominates a successor, the successor can claim the role.
pub proof fn law_pool_admin_handover(p: RevenuePool, caller: Address, new_admin: Address)
    requires
        p.admin_failure(caller) is None,
    ensures
        (RevenuePool { pending_admin: Some(new_admin), ..p }).accept_admin_failure(new_admin) is None,
{
}

/// Chunks cut as `chunk_iter` cuts them put back together give back
/// the whole list.
pub proof fn law_chunks_reassemble(
    payments: Seq<(Address, i128)>,
    c: int,
    chunks: Seq<Seq<(Address, i128)>>,
)
    requires
        c > 0,
        chunks.len() == (payments.len() + c - 1) / c,
        forall|k: int|
            0 <= k < chunks.len() ==> #[trigger] chunks[k] == payments.subrange(
                k * c,
                chunk_end(payments.len() as int, c, k),
            ),
    ensures
        chunks.flatten() == payments,
{
    let n = payments.len() as int;
    let m = chunks.len() as int;
    assert(m * c >= n) by (nonlinear_arith)
        requires
            c > 0,
            m == (n + c - 1) / c,
            n >= 0,
    ;
    lemma_chunk_prefix(payments, c, chunks, m);
    assert(chunks.subrange(0, m) =~= chunks);
    assert(payments.subrange(0, n) =~= payments);
    chunks.lemma_flatten_and_flatten_alt_are_equivalent();
}

/// The first `j` chunks put back together give the first `min(j * c, n)`
/// items.
proof fn lemma_chunk_prefix(
    payments: Seq<(Address, i128)>,
    c: int,
    chunks: Seq<Seq<(Address, i128)>>,
    j: int,
)
    requires
        c > 0,
        0 <= j <= chunks.len(),
        chunks.len() == (payments.len() + c - 1) / c,
        forall|k: int|
            0 <= k < chunks.len() ==> #[trigger] chunks[k] == payments.subrange(
                k * c,
                chunk_end(payments.len() as int, c, k),
            ),
    ensures
        chunks.subrange(0, j).flatten_alt() == payments.subrange(
            0,
            if j * c < payments.len() {
                j * c
            } else {
                payments.len() as int
            },
        ),
    decreases j,
{
    let n = payments.len() as int;
    if j == 0 {
        assert(0 * c == 0);
        assert(chunks.subrange(0, 0) =~= Seq::<Seq<(Address, i128)>>::empty());
        assert(payments.subrange(0, 0) =~= Seq::<(Address, i128)>::empty());
    } else {
        lemma_chunk_prefix(payments, c, chunks, j - 1);
        let m = chunks.len() as int;
        assert((j - 1) * c < n) by (nonlinear_arith)
            requires
                c > 0,
                j <= m,
                m == (n + c - 1) / c,
                n >= 0,
        ;
        assert((j - 1) * c + c == j * c) by (nonlinear_arith);
        assert(chunks.subrange(0, j).drop_last() =~= chunks.subrange(0, j - 1));
        assert(chunks.subrange(0, j).last() == chunks[j - 1]);
        let e = chunk_end(n, c, j - 1);
        let pre = chunks.subrange(0, j);
        assert(pre.flatten_alt() == pre.drop_last().flatten_alt() + pre.last());
        assert(chunks[j - 1] == payments.subrange((j - 1) * c, e));
        assert(payments.subrange(0, (j - 1) * c) + payments.subrange((j - 1) * c, e)
            =~= payments.subrange(0, e));
    }
}

} // verus!
