//! What the settlement ledger holds in a token: the global pool plus the
//! balances of the listed developers. Every credit raises it by exactly
//! the amount credited, every withdrawal lowers it by exactly the amount
//! paid out, and a balance migration leaves it unchanged.

use vstd::prelude::*;
use crate::settlement::{
    Address, CalloraSettlement, balance_key, covered, credit_all, first_greater, indexed,
    indexed_all, law_listing_keeps_index_sound, lemma_balance_key_injective, lemma_covered_insert,
    lemma_credit_all_nonneg, lemma_first_greater, lemma_indexed_grows,
};

verus! {

/// The balance stored under `k` (zero when none is).
pub open spec fn stored(b: Map<u128, i128>, k: u128) -> int {
    if b.contains_key(k) {
        b[k] as int
    } else {
        0
    }
}

/// The balances in `token` of the developers of `index`, added up.
pub open spec fn index_sum(index: Seq<Address>, b: Map<u128, i128>, token: Address) -> int
    decreases index.len(),
{
    if index.len() == 0 {
        0
    } else {
        index_sum(index.drop_last(), b, token) + stored(b, balance_key(index.last(), token))
    }
}

/// The amounts of `items`, added up.
pub open spec fn items_total(items: Seq<(Address, i128)>) -> int
    decreases items.len(),
{
    if items.len() == 0 {
        0
    } else {
        items_total(items.drop_last()) + items.last().1
    }
}

impl CalloraSettlement {
    /// What the ledger holds in `token`: the global pool plus the balance
    /// in `token` of every listed developer.
    pub open spec fn holdings(&self, token: Address) -> int {
        let pool: int = match self.global_pool {
            Some(p) => p.total_balance as int,
            None => 0,
        };
        pool + index_sum(self.developer_index@, self.balances@, token)
    }
}

/// The sum over two listings put together is the sum of their sums.
proof fn lemma_index_sum_concat(a: Seq<Address>, c: Seq<Address>, b: Map<u128, i128>, token: Address)
    ensures
        index_sum(a + c, b, token) == index_sum(a, b, token) + index_sum(c, b, token),
    decreases c.len(),
{
    if c.len() == 0 {
        assert(a + c =~= a);
    } else {
        assert((a + c).drop_last() =~= a + c.drop_last());
        assert((a + c).last() == c.last());
        lemma_index_sum_concat(a, c.drop_last(), b, token);
    }
}

/// Storing a balance of an unlisted developer leaves the sum alone.
proof fn lemma_index_sum_unlisted(
    index: Seq<Address>,
    b: Map<u128, i128>,
    d: Address,
    token: Address,
    v: i128,
)
    requires
        !index.contains(d),
    ensures
        index_sum(index, b.insert(balance_key(d, token), v), token) == index_sum(index, b, token),
    decreases index.len(),
{
    if index.len() > 0 {
        let x = index.last();
        assert(index.drop_last().contains(d) ==> index.contains(d)) by {
            if index.drop_last().contains(d) {
                let j = choose|j: int| 0 <= j < index.drop_last().len() && index.drop_last()[j] == d;
                assert(index[j] == d);
            }
        }
        assert(x == index[index.len() - 1]);
        lemma_balance_key_injective(x, token, d, token);
        lemma_index_sum_unlisted(index.drop_last(), b, d, token, v);
    }
}

/// Storing `v` as the balance of a developer listed once replaces its
/// share of the sum.
pub proof fn lemma_index_sum_listed(
    index: Seq<Address>,
    b: Map<u128, i128>,
    d: Address,
    token: Address,
    v: i128,
)
    requires
        index.no_duplicates(),
        index.contains(d),
    ensures
        index_sum(index, b.insert(balance_key(d, token), v), token) == index_sum(index, b, token)
            - stored(b, balance_key(d, token)) + v,
    decreases index.len(),
{
    let init = index.drop_last();
    let x = index.last();
    assert(x == index[index.len() - 1]);
    assert(init.no_duplicates()) by {
        assert forall|i: int, j: int| 0 <= i < init.len() && 0 <= j < init.len() && i != j implies init[i]
            != init[j] by {
            assert(init[i] == index[i] && init[j] == index[j]);
        }
    }
    if x == d {
        assert(!init.contains(d)) by {
            if init.contains(d) {
                let j = choose|j: int| 0 <= j < init.len() && init[j] == d;
                assert(index[j] == index[index.len() - 1]);
            }
        }
        lemma_index_sum_unlisted(init, b, d, token, v);
    } else {
        assert(init.contains(d)) by {
            let j = choose|j: int| 0 <= j < index.len() && index[j] == d;
            assert(j != index.len() - 1);
            assert(init[j] == d);
        }
        lemma_balance_key_injective(x, token, d, token);
        lemma_index_sum_listed(init, b, d, token, v);
    }
}

/// Listing a developer that was not listed adds its balance to the sum.
proof fn lemma_index_sum_indexed(index: Seq<Address>, b: Map<u128, i128>, d: Address, token: Address)
    requires
        !index.contains(d),
    ensures
        index_sum(indexed(index, d), b, token) == index_sum(index, b, token) + stored(
            b,
            balance_key(d, token),
        ),
{
    let p = first_greater(index, d);
    lemma_first_greater(index, d);
    let front = index.subrange(0, p);
    let back = index.subrange(p, index.len() as int);
    assert(indexed(index, d) == front.push(d) + back);
    lemma_index_sum_concat(front.push(d), back, b, token);
    assert(front.push(d).drop_last() =~= front);
    lemma_index_sum_concat(front, back, b, token);
    assert(front + back =~= index);
}

/// Crediting `amount` to a developer of a ledger whose balance holders are
/// all listed, and listing the developer, raises the sum by exactly the
/// amount; the listing stays free of repetition and covering.
pub proof fn lemma_credit_one(
    index: Seq<Address>,
    b: Map<u128, i128>,
    d: Address,
    token: Address,
    amount: int,
)
    requires
        index.no_duplicates(),
        covered(b, index),
        i128::MIN <= stored(b, balance_key(d, token)) + amount <= i128::MAX,
    ensures
        ({
            let b2 = b.insert(
                balance_key(d, token),
                (stored(b, balance_key(d, token)) + amount) as i128,
            );
            &&& index_sum(indexed(index, d), b2, token) == index_sum(index, b, token) + amount
            &&& indexed(index, d).no_duplicates()
            &&& covered(b2, indexed(index, d))
        }),
{
    let key = balance_key(d, token);
    let v = (stored(b, key) + amount) as i128;
    let b2 = b.insert(key, v);
    law_listing_keeps_index_sound(index, d);
    lemma_indexed_grows(index, d);
    lemma_covered_insert(b, index, indexed(index, d), d, token, v);
    if index.contains(d) {
        lemma_index_sum_listed(index, b, d, token, v);
    } else {
        assert(!b.contains_key(key));
        lemma_index_sum_indexed(index, b2, d, token);
        lemma_index_sum_unlisted(index, b, d, token, v);
    }
}

/// Crediting `amount` to an unlisted developer of a ledger whose balance
/// holders are all listed, and appending the developer to the listing,
/// raises the sum by exactly the amount.
pub proof fn lemma_credit_appended(
    index: Seq<Address>,
    b: Map<u128, i128>,
    d: Address,
    token: Address,
    amount: int,
)
    requires
        covered(b, index),
        !index.contains(d),
        i128::MIN <= amount <= i128::MAX,
    ensures
        index_sum(index.push(d), b.insert(balance_key(d, token), amount as i128), token) == index_sum(
            index,
            b,
            token,
        ) + amount,
{
    let b2 = b.insert(balance_key(d, token), amount as i128);
    assert(!b.contains_key(balance_key(d, token)));
    lemma_index_sum_push(index, b2, d, token);
    lemma_index_sum_unlisted(index, b, d, token, amount as i128);
}

/// Appending an unlisted developer adds its balance to the sum.
pub proof fn lemma_index_sum_push(index: Seq<Address>, b: Map<u128, i128>, d: Address, token: Address)
    ensures
        index_sum(index.push(d), b, token) == index_sum(index, b, token) + stored(
            b,
            balance_key(d, token),
        ),
{
    assert(index.push(d).drop_last() =~= index);
}

/// Crediting a batch, listing its developers in turn, raises the sum by
/// exactly the batch total; the listing stays free of repetition and
/// covering.
pub proof fn lemma_credit_batch(
    index: Seq<Address>,
    b: Map<u128, i128>,
    items: Seq<(Address, i128)>,
    token: Address,
    k: int,
)
    requires
        index.no_duplicates(),
        covered(b, index),
        forall|kk: u128| #[trigger] b.contains_key(kk) ==> b[kk] >= 0,
        forall|j: int| 0 <= j < items.len() ==> (#[trigger] items[j]).1 > 0,
        0 <= k <= items.len(),
    ensures
        credit_all(b, items.subrange(0, k), token) matches Some(bk) ==> {
            &&& index_sum(indexed_all(index, items, k), bk, token) == index_sum(index, b, token)
                + items_total(items.subrange(0, k))
            &&& indexed_all(index, items, k).no_duplicates()
            &&& covered(bk, indexed_all(index, items, k))
        },
    decreases k,
{
    if k == 0 {
        assert(items.subrange(0, 0) =~= Seq::<(Address, i128)>::empty());
    } else {
        let p = items.subrange(0, k);
        assert(p.drop_last() =~= items.subrange(0, k - 1));
        assert(p.last() == items[k - 1]);
        lemma_credit_batch(index, b, items, token, k - 1);
        let q = items.subrange(0, k - 1);
        assert forall|j: int| 0 <= j < q.len() implies (#[trigger] q[j]).1 > 0 by {
            assert(q[j] == items[j]);
        }
        lemma_credit_all_nonneg(b, q, token);
        match credit_all(b, items.subrange(0, k - 1), token) {
            None => {},
            Some(bp) => {
                let (x, a) = items[k - 1];
                let key = balance_key(x, token);
                let cur: int = if bp.contains_key(key) {
                    bp[key] as int
                } else {
                    0
                };
                if cur + a <= i128::MAX && cur + a >= i128::MIN {
                    lemma_credit_one(indexed_all(index, items, k - 1), bp, x, token, a as int);
                }
            },
        }
    }
}

} // verus!
