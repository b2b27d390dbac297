//! Provider registry operations. The host authenticates the acting provider
//! before calling anything here; the clock is likewise the host's, passed in
//! as `now_ts`.

use vstd::prelude::*;

use crate::market::lemma_wf_after_provider_update;
use crate::market::lemma_wf_unaffected_by_parties;
use crate::market::window;
use crate::market::Marketplace;
use crate::types::is_engaged;
use crate::types::AccountId;
use crate::types::DealKey;
use crate::types::MarketError;
use crate::types::Provider;

verus! {

/// A freshly registered provider: default reputation, no buckets, no deals.
pub open spec fn is_fresh_provider(
    p: Provider,
    id: AccountId,
    description: String,
    now_ts: u64,
) -> bool {
    &&& p.provider_id == id
    &&& p.description == description
    &&& p.reputation == 50
    &&& p.registered_ts == now_ts
    &&& p.last_update_ts == now_ts
    &&& p.units_count == 0
    &&& p.buckets@ == Seq::<crate::types::BucketKey>::empty()
    &&& p.deals@ == Seq::<DealKey>::empty()
    &&& p.active_deals@ == Seq::<DealKey>::empty()
}

impl Marketplace {
    /// Register a new provider under its account id. Fails when the id is
    /// already registered.
    pub fn register_provider(
        &mut self,
        provider_id: AccountId,
        description: String,
        now_ts: u64,
    ) -> (r: Result<(), MarketError>)
        requires
            old(self).wf(),
            old(self).providers@.len() < u32::MAX,
        ensures
            final(self).wf(),
            match r {
                Ok(()) => !old(self).has_provider(provider_id) && final(self).providers@
                    == old(self).providers@.push(final(self).providers@.last())
                    && is_fresh_provider(
                    final(self).providers@.last(),
                    provider_id,
                    description,
                    now_ts,
                ) && final(self).consumers@ == old(self).consumers@ && final(self).buckets@
                    == old(self).buckets@ && final(self).deals@ == old(self).deals@
                    && final(self).bucket_count == old(self).bucket_count
                    && final(self).deal_count == old(self).deal_count,
                Err(e) => e == MarketError::ProviderAlreadyExists && old(self).has_provider(
                    provider_id,
                ) && *final(self) == *old(self),
            },
    {
        if self.find_provider(provider_id).is_some() {
            return Err(MarketError::ProviderAlreadyExists);
        }
        let ghost m0 = *self;
        let fresh = Provider {
            provider_id: provider_id,
            description: description,
            reputation: 50,
            registered_ts: now_ts,
            last_update_ts: now_ts,
            units_count: 0,
            buckets: Vec::new(),
            deals: Vec::new(),
            active_deals: Vec::new(),
        };
        proof {
            assert(fresh.active_deals@.len() == 0);
        }
        self.providers.push(fresh);
        proof {
            let m1 = *self;
            lemma_wf_unaffected_by_parties(m0, m1);
            let n = m0.providers@.len() as int;
            assert(forall|a: int| 0 <= a < n ==> #[trigger] m1.providers@[a] == m0.providers@[a]);
            assert forall|a: int, b: int|
                #![trigger m1.providers@[a], m1.providers@[b]]
                0 <= a < b < m1.providers@.len() implies m1.providers@[a].provider_id
                != m1.providers@[b].provider_id by {
                if b < n {
                    assert(m0.providers@[a].provider_id != m0.providers@[b].provider_id);
                } else {
                    assert(m0.providers@[a].provider_id != provider_id);
                }
            }
            assert forall|a: int, b: int|
                #![trigger m1.consumers@[a], m1.consumers@[b]]
                0 <= a < b < m1.consumers@.len() implies m1.consumers@[a].consumer_id
                != m1.consumers@[b].consumer_id by {
                assert(m0.consumers@[a].consumer_id != m0.consumers@[b].consumer_id);
            }
            assert forall|pi: int, k: DealKey|
                #![trigger m1.providers@[pi].active_deals@.contains(k)]
                0 <= pi < m1.providers@.len()
                implies (m1.providers@[pi].active_deals@.contains(k) <==> (
                m1.has_engaged_deal(k) && k.provider_id == m1.providers@[pi].provider_id)) by {
                if pi < n {
                    assert(m0.providers@[pi].active_deals@.contains(k) <==> (
                    m0.has_engaged_deal(k) && k.provider_id == m0.providers@[pi].provider_id));
                } else {
                    assert(!m1.providers@[pi].active_deals@.contains(k));
                    if m1.has_engaged_deal(k) && k.provider_id == provider_id {
                        let w = choose|i: int|
                            0 <= i < m0.deals@.len() && crate::types::deal_key_of(
                                #[trigger] m0.deals@[i],
                            ) == k && is_engaged(m0.deals@[i].status);
                        assert(m0.has_provider(m0.deals@[w].provider_id));
                        assert(false);
                    }
                }
            }
            assert forall|ci: int, k: DealKey|
                #![trigger m1.consumers@[ci].active_deals@.contains(k)]
                0 <= ci < m1.consumers@.len()
                implies (m1.consumers@[ci].active_deals@.contains(k) <==> (
                m1.has_engaged_deal(k) && k.consumer_id == m1.consumers@[ci].consumer_id)) by {
                assert(m0.consumers@[ci].active_deals@.contains(k) <==> (m0.has_engaged_deal(k)
                    && k.consumer_id == m0.consumers@[ci].consumer_id));
            }
            assert forall|a: int|
                0 <= a < m1.deals@.len() && is_engaged((#[trigger] m1.deals@[a]).status)
                implies m1.has_provider(m1.deals@[a].provider_id) && m1.has_consumer(
                m1.deals@[a].consumer_id,
            ) by {
                assert(is_engaged(m0.deals@[a].status));
                assert(m0.has_provider(m0.deals@[a].provider_id));
                let w = choose|p: int|
                    0 <= p < m0.providers@.len() && (#[trigger] m0.providers@[p]).provider_id
                        == m0.deals@[a].provider_id;
                assert(m1.providers@[w].provider_id == m1.deals@[a].provider_id);
                assert(m0.has_consumer(m0.deals@[a].consumer_id));
                let w2 = choose|c: int|
                    0 <= c < m0.consumers@.len() && (#[trigger] m0.consumers@[c]).consumer_id
                        == m0.deals@[a].consumer_id;
                assert(m1.consumers@[w2].consumer_id == m1.deals@[a].consumer_id);
            }
        }
        Ok(())
    }

    /// Update a provider's description. Fails when the provider is unknown.
    pub fn update_provider(
        &mut self,
        provider_id: AccountId,
        description: String,
        now_ts: u64,
    ) -> (r: Result<bool, MarketError>)
        requires
            old(self).wf(),
        ensures
            final(self).wf(),
            match r {
                Ok(b) => b && old(self).has_provider(provider_id) && final(self).providers@
                    == old(self).providers@.update(
                    old(self).provider_idx(provider_id),
                    updated_provider_spec(
                        old(self).provider_at(provider_id),
                        description,
                        now_ts,
                    ),
                ) && final(self).consumers@ == old(self).consumers@ && final(self).buckets@
                    == old(self).buckets@ && final(self).deals@ == old(self).deals@
                    && final(self).bucket_count == old(self).bucket_count
                    && final(self).deal_count == old(self).deal_count,
                Err(e) => e == MarketError::ProviderNotFound && !old(self).has_provider(
                    provider_id,
                ) && *final(self) == *old(self),
            },
    {
        let idx = match self.find_provider(provider_id) {
            Some(i) => i,
            None => {
                return Err(MarketError::ProviderNotFound);
            },
        };
        let ghost m0 = *self;
        let p = &mut self.providers[idx];
        p.description = description;
        p.last_update_ts = now_ts;
        proof {
            let m1 = *self;
            assert(m1.providers@ == m0.providers@.update(idx as int, m1.providers@[idx as int]));
            assert(m1.providers@[idx as int] == updated_provider_spec(
                m0.provider_at(provider_id),
                description,
                now_ts,
            ));
            lemma_wf_after_provider_update(m0, m1, idx as int);
        }
        Ok(true)
    }

    /// Remove a provider's registration. Refused (`Ok(false)`) while any of
    /// its deals is still engaged, so that active-deal bookkeeping cannot be
    /// orphaned; fails when the provider is unknown.
    pub fn delete_provider(&mut self, provider_id: AccountId) -> (r: Result<
        bool,
        MarketError,
    >)
        requires
            old(self).wf(),
        ensures
            final(self).wf(),
            match r {
                Ok(true) => old(self).has_provider(provider_id) && old(self).provider_at(
                    provider_id,
                ).active_deals@.len() == 0 && final(self).providers@
                    == old(self).providers@.remove(old(self).provider_idx(provider_id))
                    && final(self).consumers@ == old(self).consumers@ && final(self).buckets@
                    == old(self).buckets@ && final(self).deals@ == old(self).deals@
                    && final(self).bucket_count == old(self).bucket_count
                    && final(self).deal_count == old(self).deal_count,
                Ok(false) => old(self).has_provider(provider_id) && old(self).provider_at(
                    provider_id,
                ).active_deals@.len() != 0 && *final(self) == *old(self),
                Err(e) => e == MarketError::ProviderNotFound && !old(self).has_provider(
                    provider_id,
                ) && *final(self) == *old(self),
            },
    {
        let idx = match self.find_provider(provider_id) {
            Some(i) => i,
            None => {
                return Err(MarketError::ProviderNotFound);
            },
        };
        if self.providers[idx].active_deals.len() > 0 {
            return Ok(false);
        }
        let ghost m0 = *self;
        self.providers.remove(idx);
        proof {
            let m1 = *self;
            let n = m0.providers@.len() as int;
            let i = idx as int;
            lemma_wf_unaffected_by_parties(m0, m1);
            assert(m1.providers@ == m0.providers@.remove(i));
            assert(forall|a: int| 0 <= a < i ==> #[trigger] m1.providers@[a] == m0.providers@[a]);
            assert(forall|a: int|
                i <= a < n - 1 ==> #[trigger] m1.providers@[a] == m0.providers@[a + 1]);
            assert forall|a: int, b: int|
                #![trigger m1.providers@[a], m1.providers@[b]]
                0 <= a < b < m1.providers@.len() implies m1.providers@[a].provider_id
                != m1.providers@[b].provider_id by {
                let a0: int = if a < i {
                    a
                } else {
                    a + 1
                };
                let b0: int = if b < i {
                    b
                } else {
                    b + 1
                };
                assert(m0.providers@[a0].provider_id != m0.providers@[b0].provider_id);
            }
            assert forall|a: int, b: int|
                #![trigger m1.consumers@[a], m1.consumers@[b]]
                0 <= a < b < m1.consumers@.len() implies m1.consumers@[a].consumer_id
                != m1.consumers@[b].consumer_id by {
                assert(m0.consumers@[a].consumer_id != m0.consumers@[b].consumer_id);
            }
            assert forall|pi: int, k: DealKey|
                #![trigger m1.providers@[pi].active_deals@.contains(k)]
                0 <= pi < m1.providers@.len()
                implies (m1.providers@[pi].active_deals@.contains(k) <==> (
                m1.has_engaged_deal(k) && k.provider_id == m1.providers@[pi].provider_id)) by {
                let pi0: int = if pi < i {
                    pi
                } else {
                    pi + 1
                };
                assert(m1.providers@[pi] == m0.providers@[pi0]);
                assert(m0.providers@[pi0].active_deals@.contains(k) <==> (m0.has_engaged_deal(k)
                    && k.provider_id == m0.providers@[pi0].provider_id));
            }
            assert forall|ci: int, k: DealKey|
                #![trigger m1.consumers@[ci].active_deals@.contains(k)]
                0 <= ci < m1.consumers@.len()
                implies (m1.consumers@[ci].active_deals@.contains(k) <==> (
                m1.has_engaged_deal(k) && k.consumer_id == m1.consumers@[ci].consumer_id)) by {
                assert(m0.consumers@[ci].active_deals@.contains(k) <==> (m0.has_engaged_deal(k)
                    && k.consumer_id == m0.consumers@[ci].consumer_id));
            }
            assert forall|a: int|
                0 <= a < m1.deals@.len() && is_engaged((#[trigger] m1.deals@[a]).status)
                implies m1.has_provider(m1.deals@[a].provider_id) && m1.has_consumer(
                m1.deals@[a].consumer_id,
            ) by {
                assert(is_engaged(m0.deals@[a].status));
                assert(m0.has_provider(m0.deals@[a].provider_id));
                let w = choose|p: int|
                    0 <= p < m0.providers@.len() && (#[trigger] m0.providers@[p]).provider_id
                        == m0.deals@[a].provider_id;
                if w == i {
                    // The removed provider had no engaged deals: its
                    // active-deal collection was empty.
                    let k = crate::types::deal_key_of(m0.deals@[a]);
                    assert(m0.has_engaged_deal(k));
                    assert(m0.providers@[i].active_deals@.contains(k));
                    assert(false);
                } else {
                    let w1: int = if w < i {
                        w
                    } else {
                        w - 1
                    };
                    assert(m1.providers@[w1].provider_id == m1.deals@[a].provider_id);
                }
                assert(m0.has_consumer(m0.deals@[a].consumer_id));
                let w2 = choose|c: int|
                    0 <= c < m0.consumers@.len() && (#[trigger] m0.consumers@[c]).consumer_id
                        == m0.deals@[a].consumer_id;
                assert(m1.consumers@[w2].consumer_id == m1.deals@[a].consumer_id);
            }
        }
        Ok(true)
    }

    /// Look a provider up by account id.
    pub fn get_provider(&self, provider_id: AccountId) -> (r: Option<&Provider>)
        requires
            self.wf(),
        ensures
            match r {
                Some(p) => self.has_provider(provider_id) && *p == self.provider_at(provider_id),
                None => !self.has_provider(provider_id),
            },
    {
        match self.find_provider(provider_id) {
            Some(i) => Some(&self.providers[i]),
            None => None,
        }
    }

    /// The number of registered providers.
    pub fn get_provider_count(&self) -> (r: u32)
        requires
            self.wf(),
        ensures
            r == self.providers@.len(),
    {
        self.providers.len() as u32
    }

    /// At most `take` providers, in registration order, after skipping the
    /// first `skip`.
    pub fn get_providers(&self, skip: u32, take: u32) -> (r: Vec<&Provider>)
        requires
            self.wf(),
        ensures
            r@.map_values(|p: &Provider| *p) == window(
                self.providers@,
                skip as int,
                take as int,
            ),
    {
        let n: usize = self.providers.len();
        let mut out: Vec<&Provider> = Vec::new();
        let start: usize = if (skip as usize) < n {
            skip as usize
        } else {
            n
        };
        let mut i: usize = start;
        let mut count: u32 = 0;
        while i < n && count < take
            invariant
                n == self.providers@.len(),
                start <= i <= n,
                count == i - start,
                count <= take,
                start == if (skip as int) < n {
                    skip as int
                } else {
                    n as int
                },
                out@.map_values(|p: &Provider| *p) =~= self.providers@.subrange(
                    start as int,
                    i as int,
                ),
            decreases n - i,
        {
            let ghost before = out@.map_values(|p: &Provider| *p);
            out.push(&self.providers[i]);
            proof {
                assert(out@.map_values(|p: &Provider| *p) =~= before.push(
                    self.providers@[i as int],
                ));
                assert(self.providers@.subrange(start as int, i as int + 1)
                    =~= self.providers@.subrange(start as int, i as int).push(
                    self.providers@[i as int],
                ));
            }
            i = i + 1;
            count = count + 1;
        }
        proof {
            assert(out@.map_values(|p: &Provider| *p) =~= window(
                self.providers@,
                skip as int,
                take as int,
            ));
        }
        out
    }
}

/// A provider record after a description update.
pub open spec fn updated_provider_spec(p: Provider, description: String, now_ts: u64) -> Provider {
    Provider { description: description, last_update_ts: now_ts, ..p }
}

} // verus!
