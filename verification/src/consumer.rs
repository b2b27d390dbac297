//! Consumer registry operations. The host authenticates the acting consumer
//! before calling anything here; the clock is the host's, passed in as
//! `now_ts`.

use vstd::prelude::*;

use crate::market::lemma_wf_after_consumer_update;
use crate::market::lemma_wf_unaffected_by_parties;
use crate::market::window;
use crate::market::Marketplace;
use crate::types::is_engaged;
use crate::types::AccountId;
use crate::types::Consumer;
use crate::types::DealKey;
use crate::types::MarketError;

verus! {

/// A freshly registered consumer: default reputation, no deals.
pub open spec fn is_fresh_consumer(
    c: Consumer,
    id: AccountId,
    description: String,
    now_ts: u64,
) -> bool {
    &&& c.consumer_id == id
    &&& c.description == description
    &&& c.reputation == 50
    &&& c.registered_ts == now_ts
    &&& c.last_update_ts == now_ts
    &&& c.deals@ == Seq::<DealKey>::empty()
    &&& c.active_deals@ == Seq::<DealKey>::empty()
}

/// A consumer record after a description update.
pub open spec fn updated_consumer_spec(c: Consumer, description: String, now_ts: u64) -> Consumer {
    Consumer { description: description, last_update_ts: now_ts, ..c }
}

impl Marketplace {
    /// Register a new consumer under its account id. Fails when the id is
    /// already registered.
    pub fn register_consumer(
        &mut self,
        consumer_id: AccountId,
        description: String,
        now_ts: u64,
    ) -> (r: Result<(), MarketError>)
        requires
            old(self).wf(),
            old(self).consumers@.len() < u32::MAX,
        ensures
            final(self).wf(),
            match r {
                Ok(()) => !old(self).has_consumer(consumer_id) && final(self).consumers@
                    == old(self).consumers@.push(final(self).consumers@.last())
                    && is_fresh_consumer(
                    final(self).consumers@.last(),
                    consumer_id,
                    description,
                    now_ts,
                ) && final(self).providers@ == old(self).providers@ && final(self).buckets@
                    == old(self).buckets@ && final(self).deals@ == old(self).deals@
                    && final(self).bucket_count == old(self).bucket_count
                    && final(self).deal_count == old(self).deal_count,
                Err(e) => e == MarketError::ConsumerAlreadyExists && old(self).has_consumer(
                    consumer_id,
                ) && *final(self) == *old(self),
            },
    {
        if self.find_consumer(consumer_id).is_some() {
            return Err(MarketError::ConsumerAlreadyExists);
        }
        let ghost m0 = *self;
        let fresh = Consumer {
            consumer_id: consumer_id,
            description: description,
            reputation: 50,
            registered_ts: now_ts,
            last_update_ts: now_ts,
            deals: Vec::new(),
            active_deals: Vec::new(),
        };
        proof {
            assert(fresh.active_deals@.len() == 0);
        }
        self.consumers.push(fresh);
        proof {
            let m1 = *self;
            lemma_wf_unaffected_by_parties(m0, m1);
            let n = m0.consumers@.len() as int;
            assert(forall|a: int| 0 <= a < n ==> #[trigger] m1.consumers@[a] == m0.consumers@[a]);
            assert forall|a: int, b: int|
                #![trigger m1.consumers@[a], m1.consumers@[b]]
                0 <= a < b < m1.consumers@.len() implies m1.consumers@[a].consumer_id
                != m1.consumers@[b].consumer_id by {
                if b < n {
                    assert(m0.consumers@[a].consumer_id != m0.consumers@[b].consumer_id);
                } else {
                    assert(m0.consumers@[a].consumer_id != consumer_id);
                }
            }
            assert forall|a: int, b: int|
                #![trigger m1.providers@[a], m1.providers@[b]]
                0 <= a < b < m1.providers@.len() implies m1.providers@[a].provider_id
                != m1.providers@[b].provider_id by {
                assert(m0.providers@[a].provider_id != m0.providers@[b].provider_id);
            }
            assert forall|ci: int, k: DealKey|
                #![trigger m1.consumers@[ci].active_deals@.contains(k)]
                0 <= ci < m1.consumers@.len()
                implies (m1.consumers@[ci].active_deals@.contains(k) <==> (
                m1.has_engaged_deal(k) && k.consumer_id == m1.consumers@[ci].consumer_id)) by {
                if ci < n {
                    assert(m0.consumers@[ci].active_deals@.contains(k) <==> (
                    m0.has_engaged_deal(k) && k.consumer_id == m0.consumers@[ci].consumer_id));
                } else {
                    assert(!m1.consumers@[ci].active_deals@.contains(k));
                    if m1.has_engaged_deal(k) && k.consumer_id == consumer_id {
                        let w = choose|i: int|
                            0 <= i < m0.deals@.len() && crate::types::deal_key_of(
                                #[trigger] m0.deals@[i],
                            ) == k && is_engaged(m0.deals@[i].status);
                        assert(m0.has_consumer(m0.deals@[w].consumer_id));
                        assert(false);
                    }
                }
            }
            assert forall|pi: int, k: DealKey|
                #![trigger m1.providers@[pi].active_deals@.contains(k)]
                0 <= pi < m1.providers@.len()
                implies (m1.providers@[pi].active_deals@.contains(k) <==> (
                m1.has_engaged_deal(k) && k.provider_id == m1.providers@[pi].provider_id)) by {
                assert(m0.providers@[pi].active_deals@.contains(k) <==> (m0.has_engaged_deal(k)
                    && k.provider_id == m0.providers@[pi].provider_id));
            }
            assert forall|a: int|
                0 <= a < m1.deals@.len() && is_engaged((#[trigger] m1.deals@[a]).status)
                implies m1.has_provider(m1.deals@[a].provider_id) && m1.has_consumer(
                m1.deals@[a].consumer_id,
            ) by {
                assert(is_engaged(m0.deals@[a].status));
                assert(m0.has_provider(m0.deals@[a].provider_id));
                let w = choose|p: int|
                    0 <= p < m0.providers@.len() && (#[trigger] m0.providers@[p]).provider_id
                        == m0.deals@[a].provider_id;
                assert(m1.providers@[w].provider_id == m1.deals@[a].provider_id);
                assert(m0.has_consumer(m0.deals@[a].consumer_id));
                let w2 = choose|c: int|
                    0 <= c < m0.consumers@.len() && (#[trigger] m0.consumers@[c]).consumer_id
                        == m0.deals@[a].consumer_id;
                assert(m1.consumers@[w2].consumer_id == m1.deals@[a].consumer_id);
            }
        }
        Ok(())
    }

    /// Update a consumer's description. Fails when the consumer is unknown.
    pub fn update_consumer(
        &mut self,
        consumer_id: AccountId,
        description: String,
        now_ts: u64,
    ) -> (r: Result<bool, MarketError>)
        requires
            old(self).wf(),
        ensures
            final(self).wf(),
            match r {
                Ok(b) => b && old(self).has_consumer(consumer_id) && final(self).consumers@
                    == old(self).consumers@.update(
                    old(self).consumer_idx(consumer_id),
                    updated_consumer_spec(
                        old(self).consumer_at(consumer_id),
                        description,
                        now_ts,
                    ),
                ) && final(self).providers@ == old(self).providers@ && final(self).buckets@
                    == old(self).buckets@ && final(self).deals@ == old(self).deals@
                    && final(self).bucket_count == old(self).bucket_count
                    && final(self).deal_count == old(self).deal_count,
                Err(e) => e == MarketError::ConsumerNotFound && !old(self).has_consumer(
                    consumer_id,
                ) && *final(self) == *old(self),
            },
    {
        let idx = match self.find_consumer(consumer_id) {
            Some(i) => i,
            None => {
                return Err(MarketError::ConsumerNotFound);
            },
        };
        let ghost m0 = *self;
        let c = &mut self.consumers[idx];
        c.description = description;
        c.last_update_ts = now_ts;
        proof {
            let m1 = *self;
            assert(m1.consumers@ == m0.consumers@.update(idx as int, m1.consumers@[idx as int]));
            assert(m1.consumers@[idx as int] == updated_consumer_spec(
                m0.consumer_at(consumer_id),
                description,
                now_ts,
            ));
            lemma_wf_after_consumer_update(m0, m1, idx as int);
        }
        Ok(true)
    }

    /// Remove a consumer's registration. Refused (`Ok(false)`) while any of
    /// its deals is still engaged; fails when the consumer is unknown.
    pub fn delete_consumer(&mut self, consumer_id: AccountId) -> (r: Result<bool, MarketError>)
        requires
            old(self).wf(),
        ensures
            final(self).wf(),
            match r {
                Ok(true) => old(self).has_consumer(consumer_id) && old(self).consumer_at(
                    consumer_id,
                ).active_deals@.len() == 0 && final(self).consumers@
                    == old(self).consumers@.remove(old(self).consumer_idx(consumer_id))
                    && final(self).providers@ == old(self).providers@ && final(self).buckets@
                    == old(self).buckets@ && final(self).deals@ == old(self).deals@
                    && final(self).bucket_count == old(self).bucket_count
                    && final(self).deal_count == old(self).deal_count,
                Ok(false) => old(self).has_consumer(consumer_id) && old(self).consumer_at(
                    consumer_id,
                ).active_deals@.len() != 0 && *final(self) == *old(self),
                Err(e) => e == MarketError::ConsumerNotFound && !old(self).has_consumer(
                    consumer_id,
                ) && *final(self) == *old(self),
            },
    {
        let idx = match self.find_consumer(consumer_id) {
            Some(i) => i,
            None => {
                return Err(MarketError::ConsumerNotFound);
            },
        };
        if self.consumers[idx].active_deals.len() > 0 {
            return Ok(false);
        }
        let ghost m0 = *self;
        self.consumers.remove(idx);
        proof {
            let m1 = *self;
            let n = m0.consumers@.len() as int;
            let i = idx as int;
            lemma_wf_unaffected_by_parties(m0, m1);
            assert(m1.consumers@ == m0.consumers@.remove(i));
            assert(forall|a: int| 0 <= a < i ==> #[trigger] m1.consumers@[a] == m0.consumers@[a]);
            assert(forall|a: int|
                i <= a < n - 1 ==> #[trigger] m1.consumers@[a] == m0.consumers@[a + 1]);
            assert forall|a: int, b: int|
                #![trigger m1.consumers@[a], m1.consumers@[b]]
                0 <= a < b < m1.consumers@.len() implies m1.consumers@[a].consumer_id
                != m1.consumers@[b].consumer_id by {
                let a0: int = if a < i {
                    a
                } else {
                    a + 1
                };
                let b0: int = if b < i {
                    b
                } else {
                    b + 1
                };
                assert(m0.consumers@[a0].consumer_id != m0.consumers@[b0].consumer_id);
            }
            assert forall|a: int, b: int|
                #![trigger m1.providers@[a], m1.providers@[b]]
                0 <= a < b < m1.providers@.len() implies m1.providers@[a].provider_id
                != m1.providers@[b].provider_id by {
                assert(m0.providers@[a].provider_id != m0.providers@[b].provider_id);
            }
            assert forall|ci: int, k: DealKey|
                #![trigger m1.consumers@[ci].active_deals@.contains(k)]
                0 <= ci < m1.consumers@.len()
                implies (m1.consumers@[ci].active_deals@.contains(k) <==> (
                m1.has_engaged_deal(k) && k.consumer_id == m1.consumers@[ci].consumer_id)) by {
                let ci0: int = if ci < i {
                    ci
                } else {
                    ci + 1
                };
                assert(m1.consumers@[ci] == m0.consumers@[ci0]);
                assert(m0.consumers@[ci0].active_deals@.contains(k) <==> (m0.has_engaged_deal(k)
                    && k.consumer_id == m0.consumers@[ci0].consumer_id));
            }
            assert forall|pi: int, k: DealKey|
                #![trigger m1.providers@[pi].active_deals@.contains(k)]
                0 <= pi < m1.providers@.len()
                implies (m1.providers@[pi].active_deals@.contains(k) <==> (
                m1.has_engaged_deal(k) && k.provider_id == m1.providers@[pi].provider_id)) by {
                assert(m0.providers@[pi].active_deals@.contains(k) <==> (m0.has_engaged_deal(k)
                    && k.provider_id == m0.providers@[pi].provider_id));
            }
            assert forall|a: int|
                0 <= a < m1.deals@.len() && is_engaged((#[trigger] m1.deals@[a]).status)
                implies m1.has_provider(m1.deals@[a].provider_id) && m1.has_consumer(
                m1.deals@[a].consumer_id,
            ) by {
                assert(is_engaged(m0.deals@[a].status));
                assert(m0.has_consumer(m0.deals@[a].consumer_id));
                let w = choose|c: int|
                    0 <= c < m0.consumers@.len() && (#[trigger] m0.consumers@[c]).consumer_id
                        == m0.deals@[a].consumer_id;
                if w == i {
                    let k = crate::types::deal_key_of(m0.deals@[a]);
                    assert(m0.has_engaged_deal(k));
                    assert(m0.consumers@[i].active_deals@.contains(k));
                    assert(false);
                } else {
                    let w1: int = if w < i {
                        w
                    } else {
                        w - 1
                    };
                    assert(m1.consumers@[w1].consumer_id == m1.deals@[a].consumer_id);
                }
                assert(m0.has_provider(m0.deals@[a].provider_id));
                let w2 = choose|p: int|
                    0 <= p < m0.providers@.len() && (#[trigger] m0.providers@[p]).provider_id
                        == m0.deals@[a].provider_id;
                assert(m1.providers@[w2].provider_id == m1.deals@[a].provider_id);
            }
        }
        Ok(true)
    }

    /// Look a consumer up by account id.
    pub fn get_consumer(&self, consumer_id: AccountId) -> (r: Option<&Consumer>)
        requires
            self.wf(),
        ensures
            match r {
                Some(c) => self.has_consumer(consumer_id) && *c == self.consumer_at(consumer_id),
                None => !self.has_consumer(consumer_id),
            },
    {
        match self.find_consumer(consumer_id) {
            Some(i) => Some(&self.consumers[i]),
            None => None,
        }
    }

    /// The number of registered consumers.
    pub fn get_consumer_count(&self) -> (r: u32)
        requires
            self.wf(),
        ensures
            r == self.consumers@.len(),
    {
        self.consumers.len() as u32
    }

    /// At most `take` consumers, in registration order, after skipping the
    /// first `skip`.
    pub fn get_consumers(&self, skip: u32, take: u32) -> (r: Vec<&Consumer>)
        requires
            self.wf(),
        ensures
            r@.map_values(|c: &Consumer| *c) == window(
                self.consumers@,
                skip as int,
                take as int,
            ),
    {
        let n: usize = self.consumers.len();
        let mut out: Vec<&Consumer> = Vec::new();
        let start: usize = if (skip as usize) < n {
            skip as usize
        } else {
            n
        };
        let mut i: usize = start;
        let mut count: u32 = 0;
        while i < n && count < take
            invariant
                n == self.consumers@.len(),
                start <= i <= n,
                count == i - start,
                count <= take,
                start == if (skip as int) < n {
                    skip as int
                } else {
                    n as int
                },
                out@.map_values(|c: &Consumer| *c) =~= self.consumers@.subrange(
                    start as int,
                    i as int,
                ),
            decreases n - i,
        {
            let ghost before = out@.map_values(|c: &Consumer| *c);
            out.push(&self.consumers[i]);
            proof {
                assert(out@.map_values(|c: &Consumer| *c) =~= before.push(
                    self.consumers@[i as int],
                ));
                assert(self.consumers@.subrange(start as int, i as int + 1)
                    =~= self.consumers@.subrange(start as int, i as int).push(
                    self.consumers@[i as int],
                ));
            }
            i = i + 1;
            count = count + 1;
        }
        proof {
            assert(out@.map_values(|c: &Consumer| *c) =~= window(
                self.consumers@,
                skip as int,
                take as int,
            ));
        }
        out
    }
}

} // verus!
