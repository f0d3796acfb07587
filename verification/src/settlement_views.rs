//! Admin views over the developer index: the full listing, offset pages
//! and cursor pages of developer balances in one token, and the storage
//! entries whose lifetimes the contract extends.

use vstd::prelude::*;
use crate::errors::SettlementError;
use crate::settlement::{
    Address, CalloraSettlement, DeveloperBalance, SettlementFailure, SettlementPanic,
    MAX_DEVELOPER_BALANCES_PAGE_SIZE,
};

verus! {

/// The smaller of `a` and `b`.
pub open spec fn min_int(a: int, b: int) -> int {
    if a < b {
        a
    } else {
        b
    }
}

/// Where a cursor page starts: at the beginning for no cursor, right after
/// the cursor when it is listed, nowhere (`None`) when it is not.
pub open spec fn cursor_start(index: Seq<Address>, cursor: Option<Address>) -> Option<int> {
    match cursor {
        None => Some(0),
        Some(c) => if index.contains(c) {
            Some((choose|p: int| 0 <= p < index.len() && index[p] == c) + 1)
        } else {
            None
        },
    }
}

/// Where a page that starts at `start` ends, for a requested `limit`.
pub open spec fn page_end(len: int, start: int, limit: int) -> int {
    min_int(start + min_int(limit, MAX_DEVELOPER_BALANCES_PAGE_SIZE as int), len)
}

/// The cursor to resume after a page `start..end` of `index` cut for at
/// most `cap` records: its last address when the page is full, none when it
/// is empty or shorter.
pub open spec fn next_cursor(index: Seq<Address>, start: int, end: int, cap: int) -> Option<Address> {
    if start < end && end - start == cap {
        Some(index[end - 1])
    } else {
        None
    }
}

impl CalloraSettlement {
    /// The balance records of `addrs` in `token`, in the same order.
    pub open spec fn balance_records(&self, addrs: Seq<Address>, token: Address) -> Seq<
        DeveloperBalance,
    > {
        Seq::new(
            addrs.len(),
            |i: int| DeveloperBalance { address: addrs[i], token, balance: self.balance_of(addrs[i], token) },
        )
    }

    /// The records of index positions `lo..hi`.
    fn collect_records(&self, lo: usize, hi: usize, token: Address) -> (r: Vec<DeveloperBalance>)
        requires
            lo <= hi <= self.developer_index@.len(),
        ensures
            r@ == self.balance_records(self.developer_index@.subrange(lo as int, hi as int), token),
    {
        let mut out: Vec<DeveloperBalance> = Vec::new();
        let mut i: usize = lo;
        while i < hi
            invariant
                lo <= i <= hi <= self.developer_index@.len(),
                out@ == self.balance_records(
                    self.developer_index@.subrange(lo as int, i as int),
                    token,
                ),
            decreases hi - i,
        {
            let a = self.developer_index[i];
            let b = self.read_balance(a, token);
            out.push(DeveloperBalance { address: a, token, balance: b });
            i = i + 1;
            proof {
                assert(out@ =~= self.balance_records(
                    self.developer_index@.subrange(lo as int, i as int),
                    token,
                ));
            }
        }
        out
    }

    /// All developer balances in `token`, in index order (admin only),
    /// however many developers the index lists.
    pub fn get_all_developer_balances(&self, caller: Address, token: Address) -> (r: Result<
        Vec<DeveloperBalance>,
        SettlementFailure,
    >)
        ensures
            self.admin_failure(caller) matches Some(f) ==> (r matches Err(e) && e == f),
            self.admin_failure(caller) is None ==> (r matches Ok(v) && v@ == self.balance_records(
                self.developer_index@,
                token,
            )),
    {
        self.require_admin(caller)?;
        let n = self.developer_index.len();
        let v = self.collect_records(0, n, token);
        proof {
            assert(self.developer_index@.subrange(0, n as int) =~= self.developer_index@);
        }
        Ok(v)
    }

    /// At most `limit` (capped at a page) developer balances in `token`,
    /// from index position `start` (admin only).
    pub fn get_developer_balances_page(
        &self,
        caller: Address,
        start: u32,
        limit: u32,
        token: Address,
    ) -> (r: Result<Vec<DeveloperBalance>, SettlementFailure>)
        ensures
            self.admin == None::<Address> ==> r == Err::<Vec<DeveloperBalance>, SettlementFailure>(
                SettlementFailure::Error(SettlementError::NotInitialized),
            ),
            self.admin matches Some(a) && caller != a ==> r == Err::<
                Vec<DeveloperBalance>,
                SettlementFailure,
            >(SettlementFailure::Panic(SettlementPanic::NotAdmin)),
            self.admin == Some(caller) ==> (r matches Ok(v) && v@ == if limit == 0 || start
                >= self.developer_index@.len() {
                Seq::<DeveloperBalance>::empty()
            } else {
                self.balance_records(
                    self.developer_index@.subrange(
                        start as int,
                        page_end(self.developer_index@.len() as int, start as int, limit as int),
                    ),
                    token,
                )
            }),
    {
        let admin = match self.admin {
            Some(a) => a,
            None => {
                return Err(SettlementFailure::Error(SettlementError::NotInitialized));
            },
        };
        if caller != admin {
            return Err(SettlementFailure::Panic(SettlementPanic::NotAdmin));
        }
        let n = self.developer_index.len();
        if limit == 0 || start as usize >= n {
            return Ok(Vec::new());
        }
        let capped: usize = if limit < 100 {
            limit as usize
        } else {
            100
        };
        let s = start as usize;
        let end: usize = if n - s < capped {
            n
        } else {
            s + capped
        };
        Ok(self.collect_records(s, end, token))
    }

    /// Position of `x` in the developer index, if listed.
    fn index_position(&self, x: Address) -> (r: Option<usize>)
        ensures
            r matches Some(p) ==> p < self.developer_index@.len() && self.developer_index@[p as int]
                == x,
            r is None ==> !self.developer_index@.contains(x),
    {
        let mut i: usize = 0;
        while i < self.developer_index.len()
            invariant
                0 <= i <= self.developer_index@.len(),
                forall|j: int| 0 <= j < i ==> self.developer_index@[j] != x,
            decreases self.developer_index@.len() - i,
        {
            if self.developer_index[i] == x {
                return Some(i);
            }
            i = i + 1;
        }
        None
    }

    /// At most `limit` (capped at a page) developer balances in `token`
    /// that follow `cursor` in the index (from the start for no cursor),
    /// with the cursor of the next page (admin only). A cursor that is not
    /// listed yields an empty page.
    pub fn get_developer_balances_cursor(
        &self,
        caller: Address,
        cursor: Option<Address>,
        limit: u32,
        token: Address,
    ) -> (r: Result<(Vec<DeveloperBalance>, Option<Address>), SettlementFailure>)
        requires
            self.wf(),
        ensures
            self.admin_failure(caller) matches Some(f) ==> (r matches Err(e) && e == f),
            self.admin_failure(caller) is None ==> (r matches Ok(out) && {
                let index = self.developer_index@;
                match cursor_start(index, cursor) {
                    Some(s) => if limit == 0 {
                        out.0@.len() == 0 && out.1 is None
                    } else {
                        let e = page_end(index.len() as int, s, limit as int);
                        &&& out.0@ == self.balance_records(index.subrange(s, e), token)
                        &&& out.1 == next_cursor(
                            index,
                            s,
                            e,
                            min_int(limit as int, MAX_DEVELOPER_BALANCES_PAGE_SIZE as int),
                        )
                    },
                    None => out.0@.len() == 0 && out.1 is None,
                }
            }),
    {
        self.require_admin(caller)?;
        let n = self.developer_index.len();
        let start: usize = match cursor {
            None => 0,
            Some(c) => match self.index_position(c) {
                Some(p) => {
                    proof {
                        let index = self.developer_index@;
                        assert(index.contains(c));
                        let q = choose|q: int| 0 <= q < index.len() && index[q] == c;
                        assert(q == p) by {
                            if q != p {
                                assert(index[q] == index[p as int]);
                            }
                        }
                    }
                    p + 1
                },
                None => {
                    return Ok((Vec::new(), None));
                },
            },
        };
        if limit == 0 {
            return Ok((Vec::new(), None));
        }
        let capped: usize = if limit < 100 {
            limit as usize
        } else {
            100
        };
        let end: usize = if n - start < capped {
            n
        } else {
            start + capped
        };
        let page = self.collect_records(start, end, token);
        let next = if start < end && end - start == capped {
            Some(self.developer_index[end - 1])
        } else {
            None
        };
        Ok((page, next))
    }
}

/// Kind of a stored entry.
#[derive(Clone, Copy, Debug, PartialEq, Eq)]
pub enum StorageCategory {
    Instance,
    DeveloperBalance,
    WithdrawalToday,
    DailyWithdrawCap,
}

/// Storage class of an entry.
#[derive(Clone, Copy, Debug, PartialEq, Eq)]
pub enum StorageClass {
    Instance,
    Persistent,
}

/// A stored entry with its time to live and the extension policy applied
/// to it (all in ledgers).
#[derive(Clone, Copy, Debug, PartialEq, Eq)]
pub struct StorageEntryTtl {
    pub category: StorageCategory,
    pub storage_type: StorageClass,
    /// The developer the entry belongs to (none for the instance entry).
    pub developer: Option<Address>,
    pub ttl: u32,
    pub threshold: u32,
    pub bump_amount: u32,
}

/// Ledgers per day.
pub const LEDGERS_PER_DAY: u32 = 17280;

/// Lifetime given to persistent entries.
pub const PERSISTENT_BUMP: u32 = 50000;

/// The instance entry: extended by 60 days once below 30 days.
pub open spec fn instance_entry() -> StorageEntryTtl {
    StorageEntryTtl {
        category: StorageCategory::Instance,
        storage_type: StorageClass::Instance,
        developer: None,
        ttl: (LEDGERS_PER_DAY * 60) as u32,
        threshold: (LEDGERS_PER_DAY * 30) as u32,
        bump_amount: (LEDGERS_PER_DAY * 60) as u32,
    }
}

/// A persistent entry of `developer`.
pub open spec fn persistent_entry(category: StorageCategory, developer: Address) -> StorageEntryTtl {
    StorageEntryTtl {
        category,
        storage_type: StorageClass::Persistent,
        developer: Some(developer),
        ttl: PERSISTENT_BUMP,
        threshold: PERSISTENT_BUMP,
        bump_amount: PERSISTENT_BUMP,
    }
}

/// `e` when `present`, else nothing.
pub open spec fn entry_if(present: bool, e: StorageEntryTtl) -> Seq<StorageEntryTtl> {
    if present {
        seq![e]
    } else {
        Seq::empty()
    }
}

impl CalloraSettlement {
    /// The persistent entries stored for `d`: its balance in `token`, its
    /// withdrawals of the day, its daily cap; each only if stored.
    pub open spec fn developer_entries(&self, d: Address, token: Address) -> Seq<StorageEntryTtl> {
        entry_if(
            self.balances@.contains_key(crate::settlement::balance_key(d, token)),
            persistent_entry(StorageCategory::DeveloperBalance, d),
        ) + entry_if(
            self.withdrawals@.contains_key(d),
            persistent_entry(StorageCategory::WithdrawalToday, d),
        ) + entry_if(
            self.daily_caps@.contains_key(d),
            persistent_entry(StorageCategory::DailyWithdrawCap, d),
        )
    }

    /// The entries of the developers `devs`, in order.
    pub open spec fn entries_of(&self, devs: Seq<Address>, token: Address) -> Seq<StorageEntryTtl>
        decreases devs.len(),
    {
        if devs.len() == 0 {
            Seq::empty()
        } else {
            self.entries_of(devs.drop_last(), token) + self.developer_entries(devs.last(), token)
        }
    }

    /// Append the entries of `d` to `out`.
    fn push_developer_entries(&self, out: &mut Vec<StorageEntryTtl>, d: Address, token: Address)
        ensures
            final(out)@ == old(out)@ + self.developer_entries(d, token),
    {
        let ghost start = out@;
        let p = PERSISTENT_BUMP;
        if self.balances.contains_key(&crate::settlement::ledger_key(d, token)) {
            out.push(
                StorageEntryTtl {
                    category: StorageCategory::DeveloperBalance,
                    storage_type: StorageClass::Persistent,
                    developer: Some(d),
                    ttl: p,
                    threshold: p,
                    bump_amount: p,
                },
            );
        }
        let ghost mid1 = out@;
        if self.withdrawals.contains_key(&d) {
            out.push(
                StorageEntryTtl {
                    category: StorageCategory::WithdrawalToday,
                    storage_type: StorageClass::Persistent,
                    developer: Some(d),
                    ttl: p,
                    threshold: p,
                    bump_amount: p,
                },
            );
        }
        let ghost mid2 = out@;
        if self.daily_caps.contains_key(&d) {
            out.push(
                StorageEntryTtl {
                    category: StorageCategory::DailyWithdrawCap,
                    storage_type: StorageClass::Persistent,
                    developer: Some(d),
                    ttl: p,
                    threshold: p,
                    bump_amount: p,
                },
            );
        }
        proof {
            let e1 = entry_if(
                self.balances@.contains_key(crate::settlement::balance_key(d, token)),
                persistent_entry(StorageCategory::DeveloperBalance, d),
            );
            let e2 = entry_if(
                self.withdrawals@.contains_key(d),
                persistent_entry(StorageCategory::WithdrawalToday, d),
            );
            let e3 = entry_if(
                self.daily_caps@.contains_key(d),
                persistent_entry(StorageCategory::DailyWithdrawCap, d),
            );
            assert(mid1 =~= start + e1);
            assert(mid2 =~= mid1 + e2);
            assert(out@ =~= mid2 + e3);
            assert(out@ =~= start + (e1 + e2 + e3));
        }
    }

    /// The stored entries and their lifetimes: the instance entry, then for
    /// each of `developer_addresses` (the whole index when that list is
    /// empty) its balance in `token`, its withdrawals of the day and its
    /// daily cap, each when stored.
    pub fn get_storage_ttl(&self, developer_addresses: &Vec<Address>, token: Address) -> (r: Vec<
        StorageEntryTtl,
    >)
        ensures
            r@ == seq![instance_entry()] + self.entries_of(
                if developer_addresses@.len() > 0 {
                    developer_addresses@
                } else {
                    self.developer_index@
                },
                token,
            ),
    {
        let day = LEDGERS_PER_DAY;
        let mut out: Vec<StorageEntryTtl> = Vec::new();
        out.push(
            StorageEntryTtl {
                category: StorageCategory::Instance,
                storage_type: StorageClass::Instance,
                developer: None,
                ttl: day * 60,
                threshold: day * 30,
                bump_amount: day * 60,
            },
        );
        let devs: &Vec<Address> = if developer_addresses.len() > 0 {
            developer_addresses
        } else {
            &self.developer_index
        };
        let mut i: usize = 0;
        proof {
            assert(devs@.subrange(0, 0) =~= Seq::<Address>::empty());
        }
        while i < devs.len()
            invariant
                0 <= i <= devs@.len(),
                out@ == seq![instance_entry()] + self.entries_of(devs@.subrange(0, i as int), token),
            decreases devs@.len() - i,
        {
            self.push_developer_entries(&mut out, devs[i], token);
            proof {
                let pre = devs@.subrange(0, i + 1);
                assert(pre.drop_last() =~= devs@.subrange(0, i as int));
                assert(pre.last() == devs@[i as int]);
                assert(out@ =~= seq![instance_entry()] + self.entries_of(pre, token));
            }
            i = i + 1;
        }
        proof {
            assert(devs@.subrange(0, devs@.len() as int) =~= devs@);
        }
        out
    }
}

/// Resuming from the cursor that a full page hands back continues exactly
/// where that page ended: the next page starts at the following index
/// position.
pub proof fn law_cursor_resumes_after_page(index: Seq<Address>, start: int, end: int)
    requires
        index.no_duplicates(),
        0 <= start < end <= index.len(),
    ensures
        next_cursor(index, start, end, end - start) == Some(index[end - 1]),
        cursor_start(index, next_cursor(index, start, end, end - start)) == Some(end),
{
    let c = index[end - 1];
    assert(index.contains(c));
    let q = choose|q: int| 0 <= q < index.len() && index[q] == c;
    assert(q == end - 1) by {
        if q != end - 1 {
            assert(index[q] == index[end - 1]);
        }
    }
}

} // verus!
