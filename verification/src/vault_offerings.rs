//! Offering metadata and prices kept by the vault.
//!
//! Offering ids and metadata are byte strings; a price is stored as the
//! decimal string it was given and must parse to a positive `i128`. Priced
//! offerings are also listed, in the order they were first priced, so that
//! prices can be paged through.

use vstd::prelude::*;
use crate::bytes::{distinct_bytes, position_of, views_of};
use crate::errors::VaultError;
use crate::text::{
    is_visible_ascii_metadata, parse_i128, parse_i128_spec, validate_vault_input, vault_input_ok,
    visible_ascii_ok,
};
use crate::vault::{Address, CalloraVault, MAX_LIST_PRICES_LIMIT};

verus! {

/// The listing entry for offering `id`: present when its stored price parses.
pub open spec fn listing_entry(id: Seq<u8>, prices: Map<Seq<u8>, Seq<u8>>) -> Seq<(Seq<u8>, i128)> {
    if prices.contains_key(id) && parse_i128_spec(prices[id]) is Some {
        seq![(id, parse_i128_spec(prices[id]).unwrap())]
    } else {
        Seq::empty()
    }
}

/// The listing of the offerings at positions `from .. to` of `index`.
pub open spec fn listing(
    index: Seq<Seq<u8>>,
    prices: Map<Seq<u8>, Seq<u8>>,
    from: int,
    to: int,
) -> Seq<(Seq<u8>, i128)>
    decreases to - from,
{
    if to <= from {
        Seq::empty()
    } else {
        listing(index, prices, from, to - 1) + listing_entry(index[to - 1], prices)
    }
}

/// The page of `list_prices(start, limit)`: at most [`MAX_LIST_PRICES_LIMIT`]
/// positions from `start` on.
pub open spec fn price_page(
    index: Seq<Seq<u8>>,
    prices: Map<Seq<u8>, Seq<u8>>,
    start: u32,
    limit: u32,
) -> Seq<(Seq<u8>, i128)> {
    if start >= index.len() {
        Seq::empty()
    } else {
        let cap: int = if limit > MAX_LIST_PRICES_LIMIT {
            MAX_LIST_PRICES_LIMIT as int
        } else {
            limit as int
        };
        let end: int = if start + cap > u32::MAX {
            u32::MAX as int
        } else {
            start + cap
        };
        let end = if end > index.len() {
            index.len() as int
        } else {
            end
        };
        listing(index, prices, start as int, end)
    }
}

/// Keeps every byte string but `k`.
pub open spec fn other_than(k: Seq<u8>) -> spec_fn(Seq<u8>) -> bool {
    |x: Seq<u8>| x != k
}

/// Views of listed `(offering id, price)` pairs.
pub open spec fn pair_views(s: Seq<(Vec<u8>, i128)>) -> Seq<(Seq<u8>, i128)> {
    s.map_values(|p: (Vec<u8>, i128)| (p.0@, p.1))
}

impl CalloraVault {
    /// The first failing check of `set_metadata`.
    pub open spec fn set_metadata_failure(
        &self,
        caller: Address,
        offering_id: Seq<u8>,
        metadata: Seq<u8>,
    ) -> Option<VaultError> {
        if self.owner_failure(caller) is Some {
            self.owner_failure(caller)
        } else if !visible_ascii_ok(offering_id) {
            Some(VaultError::OfferingIdInvalid)
        } else if !visible_ascii_ok(metadata) {
            Some(VaultError::MetadataInvalid)
        } else if offering_id.len() > 64 {
            Some(VaultError::OfferingIdTooLong)
        } else if metadata.len() > 256 {
            Some(VaultError::MetadataTooLong)
        } else {
            None
        }
    }

    /// The first failing check of `update_metadata`.
    pub open spec fn update_metadata_failure(
        &self,
        caller: Address,
        offering_id: Seq<u8>,
        metadata: Seq<u8>,
    ) -> Option<VaultError> {
        if self.owner_failure(caller) is Some {
            self.owner_failure(caller)
        } else if offering_id.len() > 64 {
            Some(VaultError::OfferingIdTooLong)
        } else if metadata.len() > 256 {
            Some(VaultError::MetadataTooLong)
        } else if !visible_ascii_ok(offering_id) {
            Some(VaultError::OfferingIdInvalid)
        } else if !visible_ascii_ok(metadata) {
            Some(VaultError::MetadataInvalid)
        } else {
            None
        }
    }

    /// Store metadata for an offering (owner only); returns the metadata.
    /// Both strings must meet the visible-ASCII metadata policy.
    pub fn set_metadata(&mut self, caller: Address, offering_id: Vec<u8>, metadata: Vec<u8>) -> (r:
        Result<Vec<u8>, VaultError>)
        requires
            old(self).wf(),
        ensures
            final(self).wf(),
            match old(self).set_metadata_failure(caller, offering_id@, metadata@) {
                Some(e) => r matches Err(x) && x == e && *final(self) == *old(self),
                None => {
                    &&& r matches Ok(m) && m@ == metadata@
                    &&& *final(self) == (CalloraVault { metadata: final(self).metadata, ..*old(self) })
                    &&& final(self).metadata.view() == old(self).metadata.view().insert(
                        offering_id@,
                        metadata@,
                    )
                },
            },
    {
        self.require_owner(caller)?;
        if !is_visible_ascii_metadata(&offering_id) {
            return Err(VaultError::OfferingIdInvalid);
        }
        if !is_visible_ascii_metadata(&metadata) {
            return Err(VaultError::MetadataInvalid);
        }
        if offering_id.len() > 64 {
            return Err(VaultError::OfferingIdTooLong);
        }
        if metadata.len() > 256 {
            return Err(VaultError::MetadataTooLong);
        }
        let result = metadata.clone();
        self.metadata.insert(offering_id, metadata);
        Ok(result)
    }

    /// Replace the metadata of an offering (owner only); returns the metadata.
    /// Both strings must meet the visible-ASCII metadata policy.
    pub fn update_metadata(&mut self, caller: Address, offering_id: Vec<u8>, metadata: Vec<u8>) -> (r:
        Result<Vec<u8>, VaultError>)
        requires
            old(self).wf(),
        ensures
            final(self).wf(),
            match old(self).update_metadata_failure(caller, offering_id@, metadata@) {
                Some(e) => r matches Err(x) && x == e && *final(self) == *old(self),
                None => {
                    &&& r matches Ok(m) && m@ == metadata@
                    &&& *final(self) == (CalloraVault { metadata: final(self).metadata, ..*old(self) })
                    &&& final(self).metadata.view() == old(self).metadata.view().insert(
                        offering_id@,
                        metadata@,
                    )
                },
            },
    {
        self.require_owner(caller)?;
        if offering_id.len() > 64 {
            return Err(VaultError::OfferingIdTooLong);
        }
        if metadata.len() > 256 {
            return Err(VaultError::MetadataTooLong);
        }
        if !is_visible_ascii_metadata(&offering_id) {
            return Err(VaultError::OfferingIdInvalid);
        }
        if !is_visible_ascii_metadata(&metadata) {
            return Err(VaultError::MetadataInvalid);
        }
        let result = metadata.clone();
        self.metadata.insert(offering_id, metadata);
        Ok(result)
    }

    /// Delete the metadata of an offering (owner only); succeeds when there
    /// is none.
    pub fn remove_metadata(&mut self, caller: Address, offering_id: &Vec<u8>) -> (r: Result<
        (),
        VaultError,
    >)
        requires
            old(self).wf(),
        ensures
            final(self).wf(),
            match (if old(self).owner_failure(caller) is Some {
                old(self).owner_failure(caller)
            } else if offering_id@.len() > 64 {
                Some(VaultError::OfferingIdTooLong)
            } else {
                None
            }) {
                Some(e) => r == Err::<(), VaultError>(e) && *final(self) == *old(self),
                None => {
                    &&& r is Ok
                    &&& *final(self) == (CalloraVault { metadata: final(self).metadata, ..*old(self) })
                    &&& final(self).metadata.view() == old(self).metadata.view().remove(offering_id@)
                },
            },
    {
        self.require_owner(caller)?;
        if offering_id.len() > 64 {
            return Err(VaultError::OfferingIdTooLong);
        }
        self.metadata.remove(offering_id);
        Ok(())
    }

    /// The metadata of an offering, if set.
    pub fn get_metadata(&self, offering_id: &Vec<u8>) -> (r: Option<Vec<u8>>)
        requires
            self.wf(),
        ensures
            match r {
                Some(v) => self.metadata.view().contains_key(offering_id@)
                    && self.metadata.view()[offering_id@] == v@,
                None => !self.metadata.view().contains_key(offering_id@),
            },
    {
        self.metadata.get(offering_id)
    }

    /// The stored price string of an offering, if set.
    pub fn get_price(&self, offering_id: &Vec<u8>) -> (r: Option<Vec<u8>>)
        requires
            self.wf(),
        ensures
            match r {
                Some(v) => self.prices.view().contains_key(offering_id@) && self.prices.view()[offering_id@]
                    == v@,
                None => !self.prices.view().contains_key(offering_id@),
            },
    {
        self.prices.get(offering_id)
    }

    /// The first failing check of `set_price`.
    pub open spec fn set_price_failure(&self, caller: Address, offering_id: Seq<u8>, price: Seq<u8>) -> Option<
        VaultError,
    > {
        if self.owner_failure(caller) is Some {
            self.owner_failure(caller)
        } else if !vault_input_ok(offering_id) {
            Some(VaultError::OfferingIdInvalid)
        } else if offering_id.len() > 64 {
            Some(VaultError::OfferingIdTooLong)
        } else if !(parse_i128_spec(price) matches Some(p) && p > 0) {
            Some(VaultError::PriceParseError)
        } else {
            None
        }
    }

    /// Set the price of an offering (owner only): a decimal string that must
    /// parse to a positive `i128`. The offering is listed when first priced.
    ///
    /// The offering id is copied into a 256-byte buffer and the price into a
    /// 64-byte buffer, so longer inputs are outside the contract's domain.
    pub fn set_price(&mut self, caller: Address, offering_id: Vec<u8>, price: Vec<u8>) -> (r: Result<
        (),
        VaultError,
    >)
        requires
            old(self).wf(),
            offering_id@.len() <= 256,
            price@.len() <= 64,
        ensures
            final(self).wf(),
            r is Ok ==> parse_i128_spec(price@) is Some && parse_i128_spec(price@).unwrap() > 0,
            match old(self).set_price_failure(caller, offering_id@, price@) {
                Some(e) => r == Err::<(), VaultError>(e) && *final(self) == *old(self),
                None => {
                    &&& r is Ok
                    &&& *final(self) == (CalloraVault {
                        prices: final(self).prices,
                        offering_index: final(self).offering_index,
                        ..*old(self)
                    })
                    &&& final(self).prices.view() == old(self).prices.view().insert(
                        offering_id@,
                        price@,
                    )
                    &&& views_of(final(self).offering_index@) == if views_of(
                        old(self).offering_index@,
                    ).contains(offering_id@) {
                        views_of(old(self).offering_index@)
                    } else {
                        views_of(old(self).offering_index@).push(offering_id@)
                    }
                },
            },
    {
        self.require_owner(caller)?;
        if validate_vault_input(&offering_id).is_err() {
            return Err(VaultError::OfferingIdInvalid);
        }
        if offering_id.len() > 64 {
            return Err(VaultError::OfferingIdTooLong);
        }
        let parsed = parse_i128(price.as_slice());
        match parsed {
            Some(p) => {
                if p <= 0 {
                    return Err(VaultError::PriceParseError);
                }
            },
            None => {
                return Err(VaultError::PriceParseError);
            },
        }
        self.prices.insert(offering_id.clone(), price);
        self.add_offering_index(offering_id);
        Ok(())
    }

    /// Delete the price of an offering and unlist it (owner only).
    pub fn remove_price(&mut self, caller: Address, offering_id: &Vec<u8>) -> (r: Result<
        (),
        VaultError,
    >)
        requires
            old(self).wf(),
        ensures
            final(self).wf(),
            match (if old(self).owner_failure(caller) is Some {
                old(self).owner_failure(caller)
            } else if offering_id@.len() > 64 {
                Some(VaultError::OfferingIdTooLong)
            } else {
                None
            }) {
                Some(e) => r == Err::<(), VaultError>(e) && *final(self) == *old(self),
                None => {
                    &&& r is Ok
                    &&& *final(self) == (CalloraVault {
                        prices: final(self).prices,
                        offering_index: final(self).offering_index,
                        ..*old(self)
                    })
                    &&& final(self).prices.view() == old(self).prices.view().remove(offering_id@)
                    &&& views_of(final(self).offering_index@) == views_of(
                        old(self).offering_index@,
                    ).filter(other_than(offering_id@))
                },
            },
    {
        self.require_owner(caller)?;
        if offering_id.len() > 64 {
            return Err(VaultError::OfferingIdTooLong);
        }
        self.prices.remove(offering_id);
        self.remove_offering_index(offering_id);
        Ok(())
    }

    /// List `(offering id, price)` for up to [`MAX_LIST_PRICES_LIMIT`]
    /// listed offerings from position `start`, skipping offerings whose
    /// stored price does not parse.
    pub fn list_prices(&self, start: u32, limit: u32) -> (r: Vec<(Vec<u8>, i128)>)
        requires
            self.wf(),
        ensures
            r@.len() <= limit,
            r@.len() <= MAX_LIST_PRICES_LIMIT,
            forall|j: int| 0 <= j < r@.len() ==> (#[trigger] r@[j]).1 > 0,
            pair_views(r@) == price_page(
                views_of(self.offering_index@),
                self.prices.view(),
                start,
                limit,
            ),
    {
        let len = self.offering_index.len();
        let mut result: Vec<(Vec<u8>, i128)> = Vec::new();
        if start as usize >= len {
            assert(pair_views(result@) =~= Seq::<(Seq<u8>, i128)>::empty());
            return result;
        }
        let cap: u32 = if limit > MAX_LIST_PRICES_LIMIT {
            MAX_LIST_PRICES_LIMIT
        } else {
            limit
        };
        let sum: u32 = start.saturating_add(cap);
        let end: usize = if sum as usize > len {
            len
        } else {
            sum as usize
        };
        let ghost index = views_of(self.offering_index@);
        let mut i: usize = start as usize;
        proof {
            assert(pair_views(result@) =~= listing(index, self.prices.view(), start as int, start as int));
        }
        while i < end
            invariant
                start <= i <= end,
                end <= len,
                len == self.offering_index@.len(),
                index == views_of(self.offering_index@),
                self.wf(),
                pair_views(result@) == listing(index, self.prices.view(), start as int, i as int),
            decreases end - i,
        {
            let id = &self.offering_index[i];
            let ghost before = pair_views(result@);
            if let Some(price) = self.get_price(id) {
                if let Some(p) = parse_i128(price.as_slice()) {
                    result.push((id.clone(), p));
                    proof {
                        assert(pair_views(result@) =~= before.push((id@, p)));
                    }
                }
            }
            proof {
                assert(index[i as int] == id@);
                assert(listing(index, self.prices.view(), start as int, i + 1) == listing(
                    index,
                    self.prices.view(),
                    start as int,
                    i as int,
                ) + listing_entry(index[i as int], self.prices.view()));
                assert(pair_views(result@) =~= listing(
                    index,
                    self.prices.view(),
                    start as int,
                    i + 1,
                ));
            }
            i = i + 1;
        }
        proof {
            let page = price_page(views_of(self.offering_index@), self.prices.view(), start, limit);
            crate::laws::law_price_page_size(views_of(self.offering_index@), self.prices.view(), start, limit);
            crate::laws::law_listed_prices_positive(*self, start, limit);
            assert(pair_views(result@) == page);
            assert(result@.len() == page.len());
            assert forall|j: int| 0 <= j < result@.len() implies (#[trigger] result@[j]).1 > 0 by {
                assert(pair_views(result@)[j] == (result@[j].0@, result@[j].1));
                assert(page[j].1 > 0);
            }
        }
        result
    }

    /// List `offering_id` unless it is listed already.
    fn add_offering_index(&mut self, offering_id: Vec<u8>)
        requires
            old(self).wf(),
        ensures
            final(self).wf(),
            *final(self) == (CalloraVault { offering_index: final(self).offering_index, ..*old(self) }),
            views_of(final(self).offering_index@) == if views_of(old(self).offering_index@).contains(
                offering_id@,
            ) {
                views_of(old(self).offering_index@)
            } else {
                views_of(old(self).offering_index@).push(offering_id@)
            },
    {
        let ghost k = offering_id@;
        match position_of(&self.offering_index, &offering_id) {
            Some(i) => {
                proof {
                    assert(views_of(old(self).offering_index@)[i as int] == k);
                }
            },
            None => {
                self.offering_index.push(offering_id);
                proof {
                    assert(views_of(self.offering_index@) =~= views_of(old(self).offering_index@).push(k));
                    assert(!views_of(old(self).offering_index@).contains(k)) by {
                        if views_of(old(self).offering_index@).contains(k) {
                            let j = choose|j: int|
                                0 <= j < views_of(old(self).offering_index@).len() && views_of(
                                    old(self).offering_index@,
                                )[j] == k;
                            assert(old(self).offering_index@[j]@ == k);
                        }
                    }
                    assert(distinct_bytes(self.offering_index@)) by {
                        assert forall|a: int, b: int| 0 <= a < b < self.offering_index@.len() implies
                            self.offering_index@[a]@ != self.offering_index@[b]@ by {
                            if b < old(self).offering_index@.len() {
                                assert(self.offering_index@[a] == old(self).offering_index@[a]);
                                assert(self.offering_index@[b] == old(self).offering_index@[b]);
                            } else {
                                assert(self.offering_index@[a] == old(self).offering_index@[a]);
                            }
                        }
                    }
                }
            },
        }
    }

    /// Unlist `offering_id`.
    fn remove_offering_index(&mut self, offering_id: &Vec<u8>)
        requires
            old(self).wf(),
        ensures
            final(self).wf(),
            *final(self) == (CalloraVault { offering_index: final(self).offering_index, ..*old(self) }),
            views_of(final(self).offering_index@) == views_of(old(self).offering_index@).filter(other_than(offering_id@)),
    {
        let ghost k = offering_id@;
        let ghost f = other_than(k);
        let ghost ov = views_of(old(self).offering_index@);
        match position_of(&self.offering_index, offering_id) {
            Some(i) => {
                self.offering_index.remove(i);
                proof {
                    let nv = views_of(self.offering_index@);
                    assert(nv =~= ov.subrange(0, i as int) + ov.subrange(i + 1, ov.len() as int));
                    assert(ov =~= ov.subrange(0, i as int) + seq![k] + ov.subrange(
                        i + 1,
                        ov.len() as int,
                    ));
                    lemma_filter_keeps_all(ov.subrange(0, i as int), k);
                    let tail = ov.subrange(i + 1, ov.len() as int);
                    assert forall|j: int| 0 <= j < tail.len() implies #[trigger] tail[j] != k by {
                        assert(tail[j] == ov[i + 1 + j]);
                        assert(old(self).offering_index@[i as int]@ != old(self).offering_index@[i + 1 + j]@);
                    }
                    lemma_filter_keeps_all(ov.subrange(i + 1, ov.len() as int), k);
                    lemma_filter_concat(ov.subrange(0, i as int) + seq![k], ov.subrange(i + 1, ov.len() as int), f);
                    lemma_filter_concat(ov.subrange(0, i as int), seq![k], f);
                    assert(seq![k].filter(f) =~= Seq::<Seq<u8>>::empty()) by {
                        reveal_with_fuel(Seq::filter, 2);
                        assert(seq![k].drop_last() =~= Seq::<Seq<u8>>::empty());
                    }
                    assert(ov.subrange(0, i as int) + seq![k] + ov.subrange(i + 1, ov.len() as int)
                        == ov);
                    assert(nv =~= ov.filter(f));
                    assert(distinct_bytes(self.offering_index@)) by {
                        assert forall|a: int, b: int| 0 <= a < b < self.offering_index@.len() implies
                            self.offering_index@[a]@ != self.offering_index@[b]@ by {
                            let oa = if a < i { a } else { a + 1 };
                            let ob = if b < i { b } else { b + 1 };
                            assert(self.offering_index@[a] == old(self).offering_index@[oa]);
                            assert(self.offering_index@[b] == old(self).offering_index@[ob]);
                        }
                    }
                }
            },
            None => {
                proof {
                    assert forall|j: int| 0 <= j < ov.len() implies ov[j] != k by {
                        assert(old(self).offering_index@[j]@ != k);
                    }
                    lemma_filter_keeps_all(ov, k);
                }
            },
        }
    }
}

/// Filtering out a value that does not occur leaves a sequence unchanged.
proof fn lemma_filter_keeps_all(s: Seq<Seq<u8>>, k: Seq<u8>)
    requires
        forall|j: int| 0 <= j < s.len() ==> s[j] != k,
    ensures
        s.filter(other_than(k)) == s,
    decreases s.len(),
{
    reveal_with_fuel(Seq::filter, 1);
    if s.len() > 0 {
        lemma_filter_keeps_all(s.drop_last(), k);
        assert(s.drop_last().push(s.last()) =~= s);
    } else {
        assert(s.filter(other_than(k)) =~= s);
    }
}

/// Filtering distributes over concatenation.
proof fn lemma_filter_concat(a: Seq<Seq<u8>>, b: Seq<Seq<u8>>, f: spec_fn(Seq<u8>) -> bool)
    ensures
        (a + b).filter(f) == a.filter(f) + b.filter(f),
    decreases b.len(),
{
    reveal_with_fuel(Seq::filter, 1);
    if b.len() == 0 {
        assert(a + b =~= a);
        assert(a.filter(f) + b.filter(f) =~= a.filter(f));
    } else {
        lemma_filter_concat(a, b.drop_last(), f);
        assert((a + b).drop_last() =~= a + b.drop_last());
        assert((a + b).last() == b.last());
        if f(b.last()) {
            assert(a.filter(f) + b.drop_last().filter(f).push(b.last()) =~= (a.filter(f)
                + b.drop_last().filter(f)).push(b.last()));
        }
    }
}

} // verus!
