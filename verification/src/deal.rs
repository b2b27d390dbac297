//! The deal lifecycle: creation against an unreserved bucket, acceptance,
//! escrow funding, metered consumption, settlement, breach marks, terminal
//! resolution, and the administrative delete. The host authenticates the
//! acting party before each call; which party may trigger which transition
//! is noted on each operation.

use vstd::prelude::*;

use crate::market::key_list_without;
use crate::market::lemma_bucket_lookup;
use crate::market::lemma_deal_lookup;
use crate::market::lemma_same_parties;
use crate::market::lemma_wf_after_consumer_update;
use crate::market::lemma_wf_after_deal_update;
use crate::market::lemma_wf_after_provider_update;
use crate::market::window;
use crate::market::Marketplace;
use crate::settlement::settle;
use crate::settlement::settle_spec;
use crate::settlement::lemma_settle_frame;
use crate::types::bucket_key_of;
use crate::types::bucket_ref_of;
use crate::types::consumer_fields_except_active;
use crate::types::consumer_fields_except_deals;
use crate::types::deal_key_of;
use crate::types::is_engaged;
use crate::types::is_terminal;
use crate::types::provider_fields_except_active;
use crate::types::provider_fields_except_deals;
use crate::types::AccountId;
use crate::types::BucketKey;
use crate::types::Deal;
use crate::types::DealKey;
use crate::types::DealStatus;
use crate::types::MarketError;
use crate::types::SettlementReceipt;

verus! {

/// A freshly created deal: no consumption, no escrow, default realized SLA,
/// pending the provider's acceptance.
pub open spec fn fresh_deal(
    deal_id: u32,
    consumer_id: AccountId,
    provider_id: AccountId,
    bucket_id: u32,
    duration_secs: u64,
    agreed_storage_gb: u32,
    agreed_egress_gb: u32,
    fb_repo_id: String,
    api_compatibility: String,
    now_ts: u64,
) -> Deal {
    Deal {
        deal_id: deal_id,
        consumer_id: consumer_id,
        provider_id: provider_id,
        bucket_id: bucket_id,
        fb_repo_id: fb_repo_id,
        api_compatibility: api_compatibility,
        start_ts: now_ts,
        duration_secs: duration_secs,
        agreed_storage_gb: agreed_storage_gb,
        agreed_egress_gb: agreed_egress_gb,
        unpaid_storage_gb: 0,
        unpaid_egress_gb: 0,
        paid_storage_gb: 0,
        paid_egress_gb: 0,
        balance_consumer: 0,
        balance_provider: 0,
        sla_avg_latency_ms: 0,
        sla_avg_uptime_pct: 9990,
        slash_amount_usd: 0,
        slash_storage_gb: 0,
        slash_egress_gb: 0,
        status: DealStatus::Pending,
    }
}

/// A deal with its status replaced.
pub open spec fn with_status(d: Deal, s: DealStatus) -> Deal {
    Deal { status: s, ..d }
}

/// A deal with additional metered consumption.
pub open spec fn with_consumption(d: Deal, storage_gb: u32, egress_gb: u32) -> Deal {
    Deal {
        unpaid_storage_gb: (d.unpaid_storage_gb + storage_gb) as u32,
        unpaid_egress_gb: (d.unpaid_egress_gb + egress_gb) as u32,
        ..d
    }
}

/// A deal with its realized SLA averages replaced.
pub open spec fn with_realized_sla(
    d: Deal,
    sla_avg_latency_ms: u32,
    sla_avg_uptime_pct: u32,
) -> Deal {
    Deal {
        sla_avg_latency_ms: sla_avg_latency_ms,
        sla_avg_uptime_pct: sla_avg_uptime_pct,
        ..d
    }
}

impl Marketplace {
    /// Open a new deal against an unreserved bucket (consumer-authorized):
    /// the deal starts `Pending`, its key joins both parties' deal
    /// collections, and the bucket is locked for the deal's lifetime.
    /// Returns the new deal's identifier.
    pub fn create_deal(
        &mut self,
        consumer_id: AccountId,
        provider_id: AccountId,
        bucket_id: u32,
        duration_secs: u64,
        agreed_storage_gb: u32,
        agreed_egress_gb: u32,
        fb_repo_id: String,
        api_compatibility: String,
        now_ts: u64,
    ) -> (r: Result<u32, MarketError>)
        requires
            old(self).wf(),
            old(self).deal_count < u32::MAX,
        ensures
            final(self).wf(),
            match r {
                Ok(id) => {
                    let k = DealKey { consumer_id, provider_id, deal_id: id };
                    let bk = BucketKey { provider_id, bucket_id };
                    let pi = old(self).provider_idx(provider_id);
                    let ci = old(self).consumer_idx(consumer_id);
                    &&& old(self).has_provider(provider_id)
                    &&& old(self).has_consumer(consumer_id)
                    &&& old(self).has_bucket(bk)
                    &&& !old(self).bucket_at(bk).locked
                    &&& id == old(self).deal_count
                    &&& final(self).deal_count == old(self).deal_count + 1
                    &&& final(self).bucket_count == old(self).bucket_count
                    &&& final(self).deals@ == old(self).deals@.push(
                        fresh_deal(
                            id,
                            consumer_id,
                            provider_id,
                            bucket_id,
                            duration_secs,
                            agreed_storage_gb,
                            agreed_egress_gb,
                            fb_repo_id,
                            api_compatibility,
                            now_ts,
                        ),
                    )
                    &&& final(self).buckets@ == old(self).buckets@.update(
                        old(self).bucket_idx(bk),
                        final(self).buckets@[old(self).bucket_idx(bk)],
                    )
                    &&& final(self).buckets@[old(self).bucket_idx(bk)] == locked_bucket(
                        old(self).bucket_at(bk),
                    )
                    &&& final(self).providers@ == old(self).providers@.update(
                        pi,
                        final(self).providers@[pi],
                    )
                    &&& provider_fields_except_deals(
                        old(self).provider_at(provider_id),
                        final(self).providers@[pi],
                    )
                    &&& final(self).providers@[pi].deals@ == old(self).provider_at(
                        provider_id,
                    ).deals@.push(k)
                    &&& final(self).consumers@ == old(self).consumers@.update(
                        ci,
                        final(self).consumers@[ci],
                    )
                    &&& consumer_fields_except_deals(
                        old(self).consumer_at(consumer_id),
                        final(self).consumers@[ci],
                    )
                    &&& final(self).consumers@[ci].deals@ == old(self).consumer_at(
                        consumer_id,
                    ).deals@.push(k)
                },
                Err(e) => {
                    let bk = BucketKey { provider_id, bucket_id };
                    &&& *final(self) == *old(self)
                    &&& (e == MarketError::ProviderNotFound || e == MarketError::ConsumerNotFound
                        || e == MarketError::BucketNotFound || e == MarketError::BucketLocked)
                    &&& (e == MarketError::ProviderNotFound <==> !old(self).has_provider(
                        provider_id,
                    ))
                    &&& (e == MarketError::ConsumerNotFound <==> old(self).has_provider(
                        provider_id,
                    ) && !old(self).has_consumer(consumer_id))
                    &&& (e == MarketError::BucketNotFound <==> old(self).has_provider(provider_id)
                        && old(self).has_consumer(consumer_id) && !old(self).has_bucket(bk))
                    &&& (e == MarketError::BucketLocked <==> old(self).has_provider(provider_id)
                        && old(self).has_consumer(consumer_id) && old(self).has_bucket(bk) && old(
                        self,
                    ).bucket_at(bk).locked)
                },
            },
    {
        let pidx = match self.find_provider(provider_id) {
            Some(i) => i,
            None => {
                return Err(MarketError::ProviderNotFound);
            },
        };
        let cidx = match self.find_consumer(consumer_id) {
            Some(i) => i,
            None => {
                return Err(MarketError::ConsumerNotFound);
            },
        };
        let bk = BucketKey { provider_id, bucket_id };
        let bidx = match self.find_bucket(bk) {
            Some(i) => i,
            None => {
                return Err(MarketError::BucketNotFound);
            },
        };
        if self.buckets[bidx].locked {
            return Err(MarketError::BucketLocked);
        }
        let deal_id = self.deal_count;
        let k = DealKey { consumer_id, provider_id, deal_id };
        if self.find_deal(k).is_some() {
            proof {
                let w = self.deal_idx(k);
                assert(self.deals@[w].deal_id < self.deal_count);
                assert(false);
            }
            return Err(MarketError::DealAlreadyExists);
        }
        let fresh = Deal {
            deal_id: deal_id,
            consumer_id: consumer_id,
            provider_id: provider_id,
            bucket_id: bucket_id,
            fb_repo_id: fb_repo_id,
            api_compatibility: api_compatibility,
            start_ts: now_ts,
            duration_secs: duration_secs,
            agreed_storage_gb: agreed_storage_gb,
            agreed_egress_gb: agreed_egress_gb,
            unpaid_storage_gb: 0,
            unpaid_egress_gb: 0,
            paid_storage_gb: 0,
            paid_egress_gb: 0,
            balance_consumer: 0,
            balance_provider: 0,
            sla_avg_latency_ms: 0,
            sla_avg_uptime_pct: 9990,
            slash_amount_usd: 0,
            slash_storage_gb: 0,
            slash_egress_gb: 0,
            status: DealStatus::Pending,
        };
        let ghost m0 = *self;
        self.deals.push(fresh);
        self.deal_count = deal_id + 1;
        let b = &mut self.buckets[bidx];
        b.locked = true;
        proof {
            let m1 = *self;
            assert(m1.buckets@ == m0.buckets@.update(bidx as int, m1.buckets@[bidx as int]));
            assert(m1.buckets@[bidx as int] == locked_bucket(m0.bucket_at(bk)));
            lemma_wf_after_deal_created(m0, m1, bidx as int);
        }
        let ghost m1 = *self;
        let p = &mut self.providers[pidx];
        p.deals.push(k);
        proof {
            let m2 = *self;
            assert(m2.providers@ == m1.providers@.update(pidx as int, m2.providers@[pidx as int]));
            lemma_wf_after_provider_update(m1, m2, pidx as int);
        }
        let ghost m2 = *self;
        let c = &mut self.consumers[cidx];
        c.deals.push(k);
        proof {
            let m3 = *self;
            assert(m3.consumers@ == m2.consumers@.update(cidx as int, m3.consumers@[cidx as int]));
            lemma_wf_after_consumer_update(m2, m3, cidx as int);
        }
        Ok(deal_id)
    }

    /// Accept a pending deal (provider-authorized). Any other status is
    /// rejected with `Ok(false)` and no change.
    pub fn set_deal_accepted(
        &mut self,
        consumer_id: AccountId,
        provider_id: AccountId,
        deal_id: u32,
    ) -> (r: Result<bool, MarketError>)
        requires
            old(self).wf(),
        ensures
            final(self).wf(),
            deal_transition_outcome(
                *old(self),
                *final(self),
                (DealKey { consumer_id, provider_id, deal_id }),
                r,
                DealStatus::Accepted,
                old(self).deal_at(
                    (DealKey { consumer_id, provider_id, deal_id }),
                ).status == DealStatus::Pending,
            ),
    {
        let k = DealKey { consumer_id, provider_id, deal_id };
        let didx = match self.find_deal(k) {
            Some(i) => i,
            None => {
                return Err(MarketError::DealNotFound);
            },
        };
        if !matches!(self.deals[didx].status, DealStatus::Pending) {
            return Ok(false);
        }
        let ghost m0 = *self;
        let d = &mut self.deals[didx];
        d.status = DealStatus::Accepted;
        proof {
            let m1 = *self;
            assert(m1.deals@ == m0.deals@.update(didx as int, m1.deals@[didx as int]));
            assert(m1.deals@[didx as int] == with_status(m0.deal_at(k), DealStatus::Accepted));
            assert(m0.deals@[didx as int].balance_consumer == 0);
            lemma_wf_after_deal_update(m0, m1, didx as int);
        }
        Ok(true)
    }

    /// Mark an engaged deal breached on the consumer side
    /// (provider-authorized): an administrative override independent of
    /// settlement. Rejected with `Ok(false)` unless the deal is engaged.
    pub fn set_deal_breached_consumer(
        &mut self,
        provider_id: AccountId,
        consumer_id: AccountId,
        deal_id: u32,
    ) -> (r: Result<bool, MarketError>)
        requires
            old(self).wf(),
        ensures
            final(self).wf(),
            deal_transition_outcome(
                *old(self),
                *final(self),
                (DealKey { consumer_id, provider_id, deal_id }),
                r,
                DealStatus::BreachedConsumer,
                is_engaged(
                    old(self).deal_at((DealKey { consumer_id, provider_id, deal_id })).status,
                ),
            ),
    {
        let k = DealKey { consumer_id, provider_id, deal_id };
        let didx = match self.find_deal(k) {
            Some(i) => i,
            None => {
                return Err(MarketError::DealNotFound);
            },
        };
        let engaged = matches!(
            self.deals[didx].status,
            DealStatus::Funded | DealStatus::BreachedConsumer | DealStatus::BreachedProvider
        );
        if !engaged {
            return Ok(false);
        }
        let ghost m0 = *self;
        let d = &mut self.deals[didx];
        d.status = DealStatus::BreachedConsumer;
        proof {
            let m1 = *self;
            assert(m1.deals@ == m0.deals@.update(didx as int, m1.deals@[didx as int]));
            assert(m1.deals@[didx as int] == with_status(
                m0.deal_at(k),
                DealStatus::BreachedConsumer,
            ));
            lemma_wf_after_deal_update(m0, m1, didx as int);
        }
        Ok(true)
    }

    /// Mark an engaged deal breached on the provider side
    /// (consumer-authorized): an administrative override independent of
    /// settlement. Rejected with `Ok(false)` unless the deal is engaged.
    pub fn set_deal_breached_provider(
        &mut self,
        provider_id: AccountId,
        consumer_id: AccountId,
        deal_id: u32,
    ) -> (r: Result<bool, MarketError>)
        requires
            old(self).wf(),
        ensures
            final(self).wf(),
            deal_transition_outcome(
                *old(self),
                *final(self),
                (DealKey { consumer_id, provider_id, deal_id }),
                r,
                DealStatus::BreachedProvider,
                is_engaged(
                    old(self).deal_at((DealKey { consumer_id, provider_id, deal_id })).status,
                ),
            ),
    {
        let k = DealKey { consumer_id, provider_id, deal_id };
        let didx = match self.find_deal(k) {
            Some(i) => i,
            None => {
                return Err(MarketError::DealNotFound);
            },
        };
        let engaged = matches!(
            self.deals[didx].status,
            DealStatus::Funded | DealStatus::BreachedConsumer | DealStatus::BreachedProvider
        );
        if !engaged {
            return Ok(false);
        }
        let ghost m0 = *self;
        let d = &mut self.deals[didx];
        d.status = DealStatus::BreachedProvider;
        proof {
            let m1 = *self;
            assert(m1.deals@ == m0.deals@.update(didx as int, m1.deals@[didx as int]));
            assert(m1.deals@[didx as int] == with_status(
                m0.deal_at(k),
                DealStatus::BreachedProvider,
            ));
            lemma_wf_after_deal_update(m0, m1, didx as int);
        }
        Ok(true)
    }

    /// Add metered consumption to a deal's unpaid counters (privileged: the
    /// metering oracle). A sum that would overflow a counter is rejected
    /// with `Ok(false)` and no change.
    pub fn update_deal_consumption(
        &mut self,
        provider_id: AccountId,
        consumer_id: AccountId,
        deal_id: u32,
        storage_gb: u32,
        egress_gb: u32,
    ) -> (r: Result<bool, MarketError>)
        requires
            old(self).wf(),
        ensures
            final(self).wf(),
            match r {
                Ok(true) => {
                    let k = DealKey { consumer_id, provider_id, deal_id };
                    &&& old(self).has_deal(k)
                    &&& old(self).deal_at(k).unpaid_storage_gb + storage_gb <= u32::MAX
                    &&& old(self).deal_at(k).unpaid_egress_gb + egress_gb <= u32::MAX
                    &&& final(self).deals@ == old(self).deals@.update(
                        old(self).deal_idx(k),
                        with_consumption(old(self).deal_at(k), storage_gb, egress_gb),
                    )
                    &&& final(self).providers@ == old(self).providers@
                    &&& final(self).consumers@ == old(self).consumers@
                    &&& final(self).buckets@ == old(self).buckets@
                    &&& final(self).bucket_count == old(self).bucket_count
                    &&& final(self).deal_count == old(self).deal_count
                },
                Ok(false) => {
                    let k = DealKey { consumer_id, provider_id, deal_id };
                    &&& old(self).has_deal(k)
                    &&& (old(self).deal_at(k).unpaid_storage_gb + storage_gb > u32::MAX || old(
                        self,
                    ).deal_at(k).unpaid_egress_gb + egress_gb > u32::MAX)
                    &&& *final(self) == *old(self)
                },
                Err(e) => e == MarketError::DealNotFound && !old(self).has_deal(
                    (DealKey { consumer_id, provider_id, deal_id }),
                ) && *final(self) == *old(self),
            },
    {
        let k = DealKey { consumer_id, provider_id, deal_id };
        let didx = match self.find_deal(k) {
            Some(i) => i,
            None => {
                return Err(MarketError::DealNotFound);
            },
        };
        let new_storage: u32 = match self.deals[didx].unpaid_storage_gb.checked_add(storage_gb) {
            Some(x) => x,
            None => {
                return Ok(false);
            },
        };
        let new_egress: u32 = match self.deals[didx].unpaid_egress_gb.checked_add(egress_gb) {
            Some(x) => x,
            None => {
                return Ok(false);
            },
        };
        let ghost m0 = *self;
        let d = &mut self.deals[didx];
        d.unpaid_storage_gb = new_storage;
        d.unpaid_egress_gb = new_egress;
        proof {
            let m1 = *self;
            assert(m1.deals@ == m0.deals@.update(didx as int, m1.deals@[didx as int]));
            assert(m1.deals@[didx as int] == with_consumption(
                m0.deal_at(k),
                storage_gb,
                egress_gb,
            ));
            assert(!is_engaged(m0.deals@[didx as int].status) ==> m0.deals@[
                didx as int
            ].balance_consumer == 0);
            lemma_wf_after_deal_update(m0, m1, didx as int);
        }
        Ok(true)
    }

    /// Replace a deal's realized SLA averages (privileged: the metering
    /// oracle).
    pub fn update_deal_sla(
        &mut self,
        provider_id: AccountId,
        consumer_id: AccountId,
        deal_id: u32,
        sla_avg_latency_ms: u32,
        sla_avg_uptime_pct: u32,
    ) -> (r: Result<bool, MarketError>)
        requires
            old(self).wf(),
        ensures
            final(self).wf(),
            match r {
                Ok(b) => {
                    let k = DealKey { consumer_id, provider_id, deal_id };
                    &&& b
                    &&& old(self).has_deal(k)
                    &&& final(self).deals@ == old(self).deals@.update(
                        old(self).deal_idx(k),
                        with_realized_sla(
                            old(self).deal_at(k),
                            sla_avg_latency_ms,
                            sla_avg_uptime_pct,
                        ),
                    )
                    &&& final(self).providers@ == old(self).providers@
                    &&& final(self).consumers@ == old(self).consumers@
                    &&& final(self).buckets@ == old(self).buckets@
                    &&& final(self).bucket_count == old(self).bucket_count
                    &&& final(self).deal_count == old(self).deal_count
                },
                Err(e) => e == MarketError::DealNotFound && !old(self).has_deal(
                    (DealKey { consumer_id, provider_id, deal_id }),
                ) && *final(self) == *old(self),
            },
    {
        let k = DealKey { consumer_id, provider_id, deal_id };
        let didx = match self.find_deal(k) {
            Some(i) => i,
            None => {
                return Err(MarketError::DealNotFound);
            },
        };
        let ghost m0 = *self;
        let d = &mut self.deals[didx];
        d.sla_avg_latency_ms = sla_avg_latency_ms;
        d.sla_avg_uptime_pct = sla_avg_uptime_pct;
        proof {
            let m1 = *self;
            assert(m1.deals@ == m0.deals@.update(didx as int, m1.deals@[didx as int]));
            assert(m1.deals@[didx as int] == with_realized_sla(
                m0.deal_at(k),
                sla_avg_latency_ms,
                sla_avg_uptime_pct,
            ));
            assert(!is_engaged(m0.deals@[didx as int].status) ==> m0.deals@[
                didx as int
            ].balance_consumer == 0);
            lemma_wf_after_deal_update(m0, m1, didx as int);
        }
        Ok(true)
    }

    /// Fund an accepted deal (consumer-authorized): `consumer_balance` is
    /// the consumer's balance on the payment rail as the host read it. When
    /// the result is `Ok(true)` the deal's escrow is set to `amount_usd`,
    /// the deal joins both parties' active-deal collections, and the host
    /// must transfer `amount_usd` from the consumer to the escrow account as
    /// part of the same atomic operation. An insufficient balance or a deal
    /// not awaiting funding reports `Ok(false)` with no change — an expected
    /// outcome, not a fault.
    pub fn set_deal_funded(
        &mut self,
        consumer_id: AccountId,
        provider_id: AccountId,
        deal_id: u32,
        amount_usd: u128,
        consumer_balance: u128,
    ) -> (r: Result<bool, MarketError>)
        requires
            old(self).wf(),
        ensures
            final(self).wf(),
            match r {
                Ok(true) => {
                    let k = DealKey { consumer_id, provider_id, deal_id };
                    let pi = old(self).provider_idx(provider_id);
                    let ci = old(self).consumer_idx(consumer_id);
                    &&& old(self).has_deal(k)
                    &&& old(self).has_provider(provider_id)
                    &&& old(self).has_consumer(consumer_id)
                    &&& old(self).deal_at(k).status == DealStatus::Accepted
                    &&& consumer_balance >= amount_usd
                    &&& final(self).deals@ == old(self).deals@.update(
                        old(self).deal_idx(k),
                        funded_deal(old(self).deal_at(k), amount_usd),
                    )
                    &&& final(self).providers@ == old(self).providers@.update(
                        pi,
                        final(self).providers@[pi],
                    )
                    &&& crate::types::provider_fields_except_active(
                        old(self).provider_at(provider_id),
                        final(self).providers@[pi],
                    )
                    &&& final(self).providers@[pi].active_deals@ == old(self).provider_at(
                        provider_id,
                    ).active_deals@.push(k)
                    &&& final(self).consumers@ == old(self).consumers@.update(
                        ci,
                        final(self).consumers@[ci],
                    )
                    &&& crate::types::consumer_fields_except_active(
                        old(self).consumer_at(consumer_id),
                        final(self).consumers@[ci],
                    )
                    &&& final(self).consumers@[ci].active_deals@ == old(self).consumer_at(
                        consumer_id,
                    ).active_deals@.push(k)
                    &&& final(self).buckets@ == old(self).buckets@
                    &&& final(self).bucket_count == old(self).bucket_count
                    &&& final(self).deal_count == old(self).deal_count
                },
                Ok(false) => {
                    let k = DealKey { consumer_id, provider_id, deal_id };
                    &&& old(self).has_deal(k)
                    &&& old(self).has_provider(provider_id)
                    &&& old(self).has_consumer(consumer_id)
                    &&& (old(self).deal_at(k).status != DealStatus::Accepted || consumer_balance
                        < amount_usd)
                    &&& *final(self) == *old(self)
                },
                Err(e) => {
                    let k = DealKey { consumer_id, provider_id, deal_id };
                    &&& *final(self) == *old(self)
                    &&& (e == MarketError::DealNotFound || e == MarketError::ProviderNotFound
                        || e == MarketError::ConsumerNotFound)
                    &&& (e == MarketError::DealNotFound <==> !old(self).has_deal(k))
                    &&& (e == MarketError::ProviderNotFound <==> old(self).has_deal(k) && !old(
                        self,
                    ).has_provider(provider_id))
                    &&& (e == MarketError::ConsumerNotFound <==> old(self).has_deal(k) && old(
                        self,
                    ).has_provider(provider_id) && !old(self).has_consumer(consumer_id))
                },
            },
    {
        let k = DealKey { consumer_id, provider_id, deal_id };
        let didx = match self.find_deal(k) {
            Some(i) => i,
            None => {
                return Err(MarketError::DealNotFound);
            },
        };
        let pidx = match self.find_provider(provider_id) {
            Some(i) => i,
            None => {
                return Err(MarketError::ProviderNotFound);
            },
        };
        let cidx = match self.find_consumer(consumer_id) {
            Some(i) => i,
            None => {
                return Err(MarketError::ConsumerNotFound);
            },
        };
        if !matches!(self.deals[didx].status, DealStatus::Accepted) {
            return Ok(false);
        }
        if consumer_balance < amount_usd {
            return Ok(false);
        }
        let ghost m0 = *self;
        let d = &mut self.deals[didx];
        d.status = DealStatus::Funded;
        d.balance_consumer = amount_usd;
        d.balance_provider = 0;
        let p = &mut self.providers[pidx];
        p.active_deals.push(k);
        let c = &mut self.consumers[cidx];
        c.active_deals.push(k);
        proof {
            let m1 = *self;
            assert(m1.deals@ == m0.deals@.update(didx as int, m1.deals@[didx as int]));
            assert(m1.deals@[didx as int] == funded_deal(m0.deal_at(k), amount_usd));
            assert(m1.providers@ == m0.providers@.update(pidx as int, m1.providers@[pidx as int]));
            assert(m1.consumers@ == m0.consumers@.update(cidx as int, m1.consumers@[cidx as int]));
            lemma_wf_after_deal_engaged(m0, m1, didx as int, pidx as int, cidx as int);
        }
        Ok(true)
    }

    /// Settle a deal's pending consumption against its escrow (privileged).
    /// The returned receipt carries the transfer the host must perform on
    /// the payment rail as part of the same atomic operation; the settlement
    /// arithmetic itself is [`settle_spec`].
    pub fn pay_pending_consumption(
        &mut self,
        provider_id: AccountId,
        consumer_id: AccountId,
        deal_id: u32,
    ) -> (r: Result<SettlementReceipt, MarketError>)
        requires
            old(self).wf(),
        ensures
            final(self).wf(),
            match r {
                Ok(receipt) => {
                    let k = DealKey { consumer_id, provider_id, deal_id };
                    let out = settle_spec(
                        old(self).deal_at(k),
                        old(self).bucket_at(bucket_ref_of(old(self).deal_at(k))),
                    );
                    &&& old(self).has_deal(k)
                    &&& old(self).has_bucket(bucket_ref_of(old(self).deal_at(k)))
                    &&& receipt.settled == out.settled
                    &&& receipt.pay_provider == out.pay_provider
                    &&& final(self).deals@ == old(self).deals@.update(
                        old(self).deal_idx(k),
                        out.deal,
                    )
                    &&& final(self).providers@ == old(self).providers@
                    &&& final(self).consumers@ == old(self).consumers@
                    &&& final(self).buckets@ == old(self).buckets@
                    &&& final(self).bucket_count == old(self).bucket_count
                    &&& final(self).deal_count == old(self).deal_count
                },
                Err(e) => {
                    let k = DealKey { consumer_id, provider_id, deal_id };
                    &&& *final(self) == *old(self)
                    &&& (e == MarketError::DealNotFound || e == MarketError::BucketNotFound)
                    &&& (e == MarketError::DealNotFound <==> !old(self).has_deal(k))
                    &&& (e == MarketError::BucketNotFound <==> old(self).has_deal(k) && !old(
                        self,
                    ).has_bucket(bucket_ref_of(old(self).deal_at(k))))
                },
            },
    {
        let k = DealKey { consumer_id, provider_id, deal_id };
        let didx = match self.find_deal(k) {
            Some(i) => i,
            None => {
                return Err(MarketError::DealNotFound);
            },
        };
        let bk = BucketKey { provider_id, bucket_id: self.deals[didx].bucket_id };
        proof {
            assert(bk == bucket_ref_of(self.deal_at(k)));
        }
        let bidx = match self.find_bucket(bk) {
            Some(i) => i,
            None => {
                return Err(MarketError::BucketNotFound);
            },
        };
        let outcome = settle(&self.deals[didx], &self.buckets[bidx]);
        let receipt = SettlementReceipt {
            settled: outcome.settled,
            pay_provider: outcome.pay_provider,
        };
        let ghost m0 = *self;
        self.deals[didx] = outcome.deal;
        proof {
            let m1 = *self;
            let d0 = m0.deals@[didx as int];
            let b0 = m0.bucket_at(bk);
            lemma_settle_frame(d0, b0);
            assert(m1.deals@ == m0.deals@.update(didx as int, m1.deals@[didx as int]));
            assert(m1.deals@[didx as int] == settle_spec(d0, b0).deal);
            assert(!is_engaged(d0.status) ==> d0.balance_consumer == 0);
            lemma_wf_after_deal_update(m0, m1, didx as int);
        }
        Ok(receipt)
    }

    /// Close a deal as completed (consumer-authorized): allowed from
    /// `Funded` or `BreachedProvider`, any other status reports a receipt
    /// with `closed == false` and no change. A final settlement runs first;
    /// the residual escrow is refunded to the consumer; the deal leaves both
    /// parties' active-deal collections and releases its bucket, all as one
    /// atomic operation whose payment-rail transfers the receipt carries.
    pub fn set_deal_completed(
        &mut self,
        provider_id: AccountId,
        consumer_id: AccountId,
        deal_id: u32,
    ) -> (r: Result<crate::types::TerminalReceipt, MarketError>)
        requires
            old(self).wf(),
        ensures
            final(self).wf(),
            terminal_outcome(
                *old(self),
                *final(self),
                (DealKey { consumer_id, provider_id, deal_id }),
                r,
                DealStatus::Completed,
                old(self).deal_at(
                    (DealKey { consumer_id, provider_id, deal_id }),
                ).status == DealStatus::Funded || old(self).deal_at(
                    (DealKey { consumer_id, provider_id, deal_id }),
                ).status == DealStatus::BreachedProvider,
            ),
    {
        let k = DealKey { consumer_id, provider_id, deal_id };
        let didx = match self.find_deal(k) {
            Some(i) => i,
            None => {
                return Err(MarketError::DealNotFound);
            },
        };
        let allowed = matches!(
            self.deals[didx].status,
            DealStatus::Funded | DealStatus::BreachedProvider
        );
        if !allowed {
            return Ok(
                crate::types::TerminalReceipt {
                    closed: false,
                    pay_provider: 0,
                    refund_consumer: 0,
                },
            );
        }
        self.close_deal(k, didx, DealStatus::Completed)
    }

    /// Close a deal as cancelled (provider-authorized): allowed only from
    /// `BreachedConsumer`, any other status reports a receipt with
    /// `closed == false` and no change. Settlement, refund, release, and
    /// removal behave as in completion.
    pub fn set_deal_cancelled(
        &mut self,
        provider_id: AccountId,
        consumer_id: AccountId,
        deal_id: u32,
    ) -> (r: Result<crate::types::TerminalReceipt, MarketError>)
        requires
            old(self).wf(),
        ensures
            final(self).wf(),
            terminal_outcome(
                *old(self),
                *final(self),
                (DealKey { consumer_id, provider_id, deal_id }),
                r,
                DealStatus::Cancelled,
                old(self).deal_at(
                    (DealKey { consumer_id, provider_id, deal_id }),
                ).status == DealStatus::BreachedConsumer,
            ),
    {
        let k = DealKey { consumer_id, provider_id, deal_id };
        let didx = match self.find_deal(k) {
            Some(i) => i,
            None => {
                return Err(MarketError::DealNotFound);
            },
        };
        let allowed = matches!(self.deals[didx].status, DealStatus::BreachedConsumer);
        if !allowed {
            return Ok(
                crate::types::TerminalReceipt {
                    closed: false,
                    pay_provider: 0,
                    refund_consumer: 0,
                },
            );
        }
        self.close_deal(k, didx, DealStatus::Cancelled)
    }

    /// The shared terminal path: settle, refund the residual escrow, move
    /// the deal to `terminal`, drop its key from both active-deal
    /// collections, and release its bucket.
    fn close_deal(&mut self, k: DealKey, didx: usize, terminal: DealStatus) -> (r: Result<
        crate::types::TerminalReceipt,
        MarketError,
    >)
        requires
            old(self).wf(),
            didx < old(self).deals@.len(),
            deal_key_of(old(self).deals@[didx as int]) == k,
            is_engaged(old(self).deals@[didx as int].status),
            is_terminal(terminal),
        ensures
            final(self).wf(),
            r matches Ok(receipt) && closed_state(*old(self), *final(self), k, receipt, terminal),
    {
        proof {
            lemma_deal_lookup(*self, k, didx as int);
            assert(self.has_bucket(bucket_ref_of(self.deals@[didx as int])));
            assert(self.has_provider(self.deals@[didx as int].provider_id));
            assert(self.has_consumer(self.deals@[didx as int].consumer_id));
        }
        let bk = BucketKey { provider_id: k.provider_id, bucket_id: self.deals[didx].bucket_id };
        let bidx = match self.find_bucket(bk) {
            Some(i) => i,
            None => {
                proof {
                    assert(false);
                }
                return Err(MarketError::BucketNotFound);
            },
        };
        let pidx = match self.find_provider(k.provider_id) {
            Some(i) => i,
            None => {
                proof {
                    assert(false);
                }
                return Err(MarketError::ProviderNotFound);
            },
        };
        let cidx = match self.find_consumer(k.consumer_id) {
            Some(i) => i,
            None => {
                proof {
                    assert(false);
                }
                return Err(MarketError::ConsumerNotFound);
            },
        };
        let outcome = settle(&self.deals[didx], &self.buckets[bidx]);
        let refund = outcome.deal.balance_consumer;
        let pay = outcome.pay_provider;
        let ghost m0 = *self;
        let mut nd = outcome.deal;
        nd.balance_consumer = 0;
        nd.status = terminal;
        self.deals[didx] = nd;
        let trimmed_p = key_list_without(&self.providers[pidx].active_deals, k);
        let p = &mut self.providers[pidx];
        p.active_deals = trimmed_p;
        let trimmed_c = key_list_without(&self.consumers[cidx].active_deals, k);
        let c = &mut self.consumers[cidx];
        c.active_deals = trimmed_c;
        let b = &mut self.buckets[bidx];
        b.locked = false;
        proof {
            let m1 = *self;
            let d0 = m0.deals@[didx as int];
            lemma_settle_frame(d0, m0.bucket_at(bk));
            assert(m1.deals@ == m0.deals@.update(didx as int, m1.deals@[didx as int]));
            assert(m1.providers@ == m0.providers@.update(pidx as int, m1.providers@[pidx as int]));
            assert(m1.consumers@ == m0.consumers@.update(cidx as int, m1.consumers@[cidx as int]));
            assert(m1.buckets@ == m0.buckets@.update(bidx as int, m1.buckets@[bidx as int]));
            lemma_wf_after_deal_closed(
                m0,
                m1,
                didx as int,
                pidx as int,
                cidx as int,
                bidx as int,
            );
        }
        Ok(
            crate::types::TerminalReceipt {
                closed: true,
                pay_provider: pay,
                refund_consumer: refund,
            },
        )
    }

    /// Remove a deal record outright (privileged): an administrative escape
    /// hatch, not a lifecycle step. The deal first leaves both parties'
    /// active-deal collections and releases its bucket when it still holds
    /// the reservation; no settlement or refund runs. The record's key stays
    /// in both parties' deal collections, as a trace that the deal existed.
    pub fn delete_deal(
        &mut self,
        consumer_id: AccountId,
        provider_id: AccountId,
        deal_id: u32,
    ) -> (r: Result<bool, MarketError>)
        requires
            old(self).wf(),
        ensures
            final(self).wf(),
            match r {
                Ok(b) => {
                    let k = DealKey { consumer_id, provider_id, deal_id };
                    let d = old(self).deal_at(k);
                    let bk = bucket_ref_of(d);
                    let pi = old(self).provider_idx(k.provider_id);
                    let ci = old(self).consumer_idx(k.consumer_id);
                    &&& b
                    &&& old(self).has_deal(k)
                    &&& final(self).deals@ == old(self).deals@.remove(old(self).deal_idx(k))
                    &&& final(self).bucket_count == old(self).bucket_count
                    &&& final(self).deal_count == old(self).deal_count
                    &&& (is_terminal(d.status) ==> final(self).buckets@ == old(self).buckets@)
                    &&& (!is_terminal(d.status) ==> old(self).has_bucket(bk)
                        && final(self).buckets@ == old(self).buckets@.update(
                        old(self).bucket_idx(bk),
                        unlocked_bucket(old(self).bucket_at(bk)),
                    ))
                    &&& (!is_engaged(d.status) ==> final(self).providers@ == old(self).providers@
                        && final(self).consumers@ == old(self).consumers@)
                    &&& (is_engaged(d.status) ==> {
                        &&& final(self).providers@ == old(self).providers@.update(
                            pi,
                            final(self).providers@[pi],
                        )
                        &&& provider_fields_except_active(
                            old(self).provider_at(k.provider_id),
                            final(self).providers@[pi],
                        )
                        &&& forall|x: DealKey|
                            #[trigger] final(self).providers@[pi].active_deals@.contains(x) <==> (
                            old(self).provider_at(k.provider_id).active_deals@.contains(x) && x
                                != k)
                        &&& final(self).consumers@ == old(self).consumers@.update(
                            ci,
                            final(self).consumers@[ci],
                        )
                        &&& consumer_fields_except_active(
                            old(self).consumer_at(k.consumer_id),
                            final(self).consumers@[ci],
                        )
                        &&& forall|x: DealKey|
                            #[trigger] final(self).consumers@[ci].active_deals@.contains(x) <==> (
                            old(self).consumer_at(k.consumer_id).active_deals@.contains(x) && x
                                != k)
                    })
                },
                Err(e) => e == MarketError::DealNotFound && !old(self).has_deal(
                    (DealKey { consumer_id, provider_id, deal_id }),
                ) && *final(self) == *old(self),
            },
    {
        let k = DealKey { consumer_id, provider_id, deal_id };
        let didx = match self.find_deal(k) {
            Some(i) => i,
            None => {
                return Err(MarketError::DealNotFound);
            },
        };
        if matches!(self.deals[didx].status, DealStatus::Completed | DealStatus::Cancelled) {
            let ghost m0 = *self;
            self.deals.remove(didx);
            proof {
                lemma_wf_after_terminal_deal_removed(m0, *self, didx as int);
            }
            return Ok(true);
        }
        proof {
            assert(self.has_bucket(bucket_ref_of(self.deals@[didx as int])));
        }
        let bk = BucketKey { provider_id: k.provider_id, bucket_id: self.deals[didx].bucket_id };
        let bidx = match self.find_bucket(bk) {
            Some(i) => i,
            None => {
                proof {
                    assert(false);
                }
                return Err(MarketError::BucketNotFound);
            },
        };
        if matches!(
            self.deals[didx].status,
            DealStatus::Funded | DealStatus::BreachedConsumer | DealStatus::BreachedProvider
        ) {
            proof {
                assert(self.has_provider(self.deals@[didx as int].provider_id));
                assert(self.has_consumer(self.deals@[didx as int].consumer_id));
            }
            let pidx = match self.find_provider(k.provider_id) {
                Some(i) => i,
                None => {
                    proof {
                        assert(false);
                    }
                    return Err(MarketError::ProviderNotFound);
                },
            };
            let cidx = match self.find_consumer(k.consumer_id) {
                Some(i) => i,
                None => {
                    proof {
                        assert(false);
                    }
                    return Err(MarketError::ConsumerNotFound);
                },
            };
            let ghost m0 = *self;
            let d = &mut self.deals[didx];
            d.status = DealStatus::Cancelled;
            d.balance_consumer = 0;
            let trimmed_p = key_list_without(&self.providers[pidx].active_deals, k);
            let p = &mut self.providers[pidx];
            p.active_deals = trimmed_p;
            let trimmed_c = key_list_without(&self.consumers[cidx].active_deals, k);
            let c = &mut self.consumers[cidx];
            c.active_deals = trimmed_c;
            let b = &mut self.buckets[bidx];
            b.locked = false;
            proof {
                let m1 = *self;
                assert(m1.deals@ == m0.deals@.update(didx as int, m1.deals@[didx as int]));
                assert(m1.providers@ == m0.providers@.update(
                    pidx as int,
                    m1.providers@[pidx as int],
                ));
                assert(m1.consumers@ == m0.consumers@.update(
                    cidx as int,
                    m1.consumers@[cidx as int],
                ));
                assert(m1.buckets@ == m0.buckets@.update(bidx as int, m1.buckets@[bidx as int]));
                lemma_wf_after_deal_closed(
                    m0,
                    m1,
                    didx as int,
                    pidx as int,
                    cidx as int,
                    bidx as int,
                );
            }
            let ghost m1 = *self;
            self.deals.remove(didx);
            proof {
                let m2 = *self;
                lemma_wf_after_terminal_deal_removed(m1, m2, didx as int);
                assert(m2.deals@ =~= m0.deals@.remove(didx as int));
            }
            return Ok(true);
        }
        let ghost m0 = *self;
        let b = &mut self.buckets[bidx];
        b.locked = false;
        self.deals.remove(didx);
        proof {
            let m1 = *self;
            assert(m1.buckets@ == m0.buckets@.update(bidx as int, m1.buckets@[bidx as int]));
            lemma_wf_after_idle_deal_removed(m0, m1, didx as int, bidx as int);
        }
        Ok(true)
    }

    /// Look a deal up by its key.
    pub fn get_deal(&self, consumer_id: AccountId, provider_id: AccountId, deal_id: u32) -> (r:
        Option<Deal>)
        requires
            self.wf(),
        ensures
            match r {
                Some(d) => self.has_deal((DealKey { consumer_id, provider_id, deal_id })) && d
                    == self.deal_at((DealKey { consumer_id, provider_id, deal_id })),
                None => !self.has_deal((DealKey { consumer_id, provider_id, deal_id })),
            },
    {
        let k = DealKey { consumer_id, provider_id, deal_id };
        match self.find_deal(k) {
            Some(i) => Some(self.deals[i].clone()),
            None => None,
        }
    }

    /// The number of deals ever created.
    pub fn get_deal_count(&self) -> (r: u32)
        ensures
            r == self.deal_count,
    {
        self.deal_count
    }

    /// At most `take` deal records, in store order, after skipping the
    /// first `skip`.
    pub fn get_deals(&self, skip: u32, take: u32) -> (r: Vec<Deal>)
        requires
            self.wf(),
        ensures
            r@ == window(self.deals@, skip as int, take as int),
    {
        let n: usize = self.deals.len();
        let mut out: Vec<Deal> = Vec::new();
        let start: usize = if (skip as usize) < n {
            skip as usize
        } else {
            n
        };
        let mut i: usize = start;
        let mut count: u32 = 0;
        while i < n && count < take
            invariant
                n == self.deals@.len(),
                start <= i <= n,
                count == i - start,
                count <= take,
                out@ =~= self.deals@.subrange(start as int, i as int),
            decreases n - i,
        {
            out.push(self.deals[i].clone());
            proof {
                assert(self.deals@.subrange(start as int, i as int + 1) =~= self.deals@.subrange(
                    start as int,
                    i as int,
                ).push(self.deals@[i as int]));
            }
            i = i + 1;
            count = count + 1;
        }
        proof {
            assert(out@ =~= window(self.deals@, skip as int, take as int));
        }
        out
    }

    /// At most `take` engaged deals, in store order, after skipping the
    /// first `skip` engaged ones.
    pub fn get_active_deals(&self, skip: u32, take: u32) -> (r: Vec<Deal>)
        requires
            self.wf(),
        ensures
            r@ == window(crate::market::engaged_in(self.deals@), skip as int, take as int),
    {
        let n: usize = self.deals.len();
        let mut out: Vec<Deal> = Vec::new();
        let mut skipped: u32 = 0;
        let mut i: usize = 0;
        while i < n
            invariant
                n == self.deals@.len(),
                0 <= i <= n,
                skipped == if (skip as int) <= crate::market::engaged_in(
                    self.deals@.subrange(0, i as int),
                ).len() {
                    skip as int
                } else {
                    crate::market::engaged_in(self.deals@.subrange(0, i as int)).len() as int
                },
                out@ =~= window(
                    crate::market::engaged_in(self.deals@.subrange(0, i as int)),
                    skip as int,
                    take as int,
                ),
                out@.len() <= take,
            decreases n - i,
        {
            let ghost pre = crate::market::engaged_in(self.deals@.subrange(0, i as int));
            let ghost pre1 = crate::market::engaged_in(self.deals@.subrange(0, i as int + 1));
            proof {
                assert(self.deals@.subrange(0, i as int + 1).drop_last() =~= self.deals@.subrange(
                    0,
                    i as int,
                ));
                assert(self.deals@.subrange(0, i as int + 1).last() == self.deals@[i as int]);
            }
            if matches!(
                self.deals[i].status,
                DealStatus::Funded | DealStatus::BreachedConsumer | DealStatus::BreachedProvider
            ) {
                proof {
                    assert(pre1 == pre.push(self.deals@[i as int]));
                }
                if skipped < skip {
                    skipped = skipped + 1;
                    proof {
                        assert(pre.len() == skipped - 1);
                        assert(window(pre1, skip as int, take as int) =~= window(
                            pre,
                            skip as int,
                            take as int,
                        ));
                    }
                } else if (out.len() as u32) < take {
                    out.push(self.deals[i].clone());
                    proof {
                        let s = skip as int;
                        let t = take as int;
                        assert(s <= pre.len());
                        if s == pre.len() {
                            assert(window(pre, s, t).len() == 0);
                            assert(window(pre1, s, t) =~= window(pre, s, t).push(
                                self.deals@[i as int],
                            ));
                        } else {
                            let e = if pre.len() <= s + t {
                                pre.len() as int
                            } else {
                                s + t
                            };
                            assert(window(pre, s, t) == pre.subrange(s, e));
                            assert(e == pre.len());
                            assert(window(pre1, s, t) =~= window(pre, s, t).push(
                                self.deals@[i as int],
                            ));
                        }
                    }
                } else {
                    proof {
                        let s = skip as int;
                        let t = take as int;
                        assert(out@.len() == t);
                        assert(s + t <= pre.len());
                        assert(window(pre1, s, t) =~= window(pre, s, t));
                    }
                }
            }
            i = i + 1;
        }
        proof {
            assert(self.deals@.subrange(0, n as int) =~= self.deals@);
        }
        out
    }

    /// Every existing deal whose key stands in the consumer's collection, in
    /// collection order; keys of deleted deals are passed over.
    pub fn get_deals_by_consumer(&self, consumer_id: AccountId) -> (r: Result<
        Vec<Deal>,
        MarketError,
    >)
        requires
            self.wf(),
        ensures
            match r {
                Ok(v) => self.has_consumer(consumer_id) && v@ == resolved_deals(
                    *self,
                    self.consumer_at(consumer_id).deals@,
                ),
                Err(e) => e == MarketError::ConsumerNotFound && !self.has_consumer(consumer_id),
            },
    {
        let cidx = match self.find_consumer(consumer_id) {
            Some(i) => i,
            None => {
                return Err(MarketError::ConsumerNotFound);
            },
        };
        let keys = &self.consumers[cidx].deals;
        let n: usize = keys.len();
        let mut out: Vec<Deal> = Vec::new();
        let mut i: usize = 0;
        while i < n
            invariant
                self.wf(),
                n == keys@.len(),
                keys@ == self.consumer_at(consumer_id).deals@,
                0 <= i <= n,
                out@ =~= resolved_deals(*self, keys@.subrange(0, i as int)),
            decreases n - i,
        {
            proof {
                assert(keys@.subrange(0, i as int + 1).drop_last() =~= keys@.subrange(
                    0,
                    i as int,
                ));
                assert(keys@.subrange(0, i as int + 1).last() == keys@[i as int]);
            }
            if let Some(j) = self.find_deal(keys[i]) {
                out.push(self.deals[j].clone());
            }
            i = i + 1;
        }
        proof {
            assert(keys@.subrange(0, n as int) =~= keys@);
        }
        Ok(out)
    }

    /// Every existing deal whose key stands in the provider's collection, in
    /// collection order; keys of deleted deals are passed over.
    pub fn get_deals_by_provider(&self, provider_id: AccountId) -> (r: Result<
        Vec<Deal>,
        MarketError,
    >)
        requires
            self.wf(),
        ensures
            match r {
                Ok(v) => self.has_provider(provider_id) && v@ == resolved_deals(
                    *self,
                    self.provider_at(provider_id).deals@,
                ),
                Err(e) => e == MarketError::ProviderNotFound && !self.has_provider(provider_id),
            },
    {
        let pidx = match self.find_provider(provider_id) {
            Some(i) => i,
            None => {
                return Err(MarketError::ProviderNotFound);
            },
        };
        let keys = &self.providers[pidx].deals;
        let n: usize = keys.len();
        let mut out: Vec<Deal> = Vec::new();
        let mut i: usize = 0;
        while i < n
            invariant
                self.wf(),
                n == keys@.len(),
                keys@ == self.provider_at(provider_id).deals@,
                0 <= i <= n,
                out@ =~= resolved_deals(*self, keys@.subrange(0, i as int)),
            decreases n - i,
        {
            proof {
                assert(keys@.subrange(0, i as int + 1).drop_last() =~= keys@.subrange(
                    0,
                    i as int,
                ));
                assert(keys@.subrange(0, i as int + 1).last() == keys@[i as int]);
            }
            if let Some(j) = self.find_deal(keys[i]) {
                out.push(self.deals[j].clone());
            }
            i = i + 1;
        }
        proof {
            assert(keys@.subrange(0, n as int) =~= keys@);
        }
        Ok(out)
    }
}

/// The deals that a key collection resolves to, in collection order; keys of
/// deleted deals are passed over.
pub open spec fn resolved_deals(m: Marketplace, keys: Seq<DealKey>) -> Seq<Deal>
    decreases keys.len(),
{
    if keys.len() == 0 {
        Seq::empty()
    } else {
        let rest = resolved_deals(m, keys.drop_last());
        if m.has_deal(keys.last()) {
            rest.push(m.deal_at(keys.last()))
        } else {
            rest
        }
    }
}

/// A bucket with its reservation flag set.
pub open spec fn locked_bucket(b: crate::types::Bucket) -> crate::types::Bucket {
    crate::types::Bucket { locked: true, ..b }
}

/// A bucket with its reservation flag cleared.
pub open spec fn unlocked_bucket(b: crate::types::Bucket) -> crate::types::Bucket {
    crate::types::Bucket { locked: false, ..b }
}

/// The outcome every bare status transition reports: `Ok(true)` with only
/// the status replaced when the deal exists and `allowed` holds of it,
/// `Ok(false)` and no change when it exists and `allowed` fails, and
/// `DealNotFound` otherwise.
pub open spec fn deal_transition_outcome(
    m0: Marketplace,
    m1: Marketplace,
    k: DealKey,
    r: Result<bool, MarketError>,
    target: DealStatus,
    allowed: bool,
) -> bool {
    match r {
        Ok(true) => {
            &&& m0.has_deal(k)
            &&& allowed
            &&& m1.deals@ == m0.deals@.update(m0.deal_idx(k), with_status(m0.deal_at(k), target))
            &&& m1.providers@ == m0.providers@
            &&& m1.consumers@ == m0.consumers@
            &&& m1.buckets@ == m0.buckets@
            &&& m1.bucket_count == m0.bucket_count
            &&& m1.deal_count == m0.deal_count
        },
        Ok(false) => m0.has_deal(k) && !allowed && m1 == m0,
        Err(e) => e == MarketError::DealNotFound && !m0.has_deal(k) && m1 == m0,
    }
}

/// A deal the instant it is funded: the prefunded escrow replaces the
/// consumer balance, the provider balance starts at zero.
pub open spec fn funded_deal(d: Deal, amount_usd: u128) -> Deal {
    Deal {
        status: DealStatus::Funded,
        balance_consumer: amount_usd,
        balance_provider: 0,
        ..d
    }
}

/// Moving a pending or accepted deal into an engaged status while pushing
/// its key onto both parties' active-deal collections, as one step,
/// preserves the whole invariant.
proof fn lemma_wf_after_deal_engaged(
    m0: Marketplace,
    m1: Marketplace,
    didx: int,
    pidx: int,
    cidx: int,
)
    requires
        m0.wf(),
        0 <= didx < m0.deals@.len(),
        0 <= pidx < m0.providers@.len(),
        0 <= cidx < m0.consumers@.len(),
        !is_engaged(m0.deals@[didx].status),
        !is_terminal(m0.deals@[didx].status),
        m1.deals@ == m0.deals@.update(didx, m1.deals@[didx]),
        deal_key_of(m1.deals@[didx]) == deal_key_of(m0.deals@[didx]),
        m1.deals@[didx].bucket_id == m0.deals@[didx].bucket_id,
        is_engaged(m1.deals@[didx].status),
        m0.providers@[pidx].provider_id == m0.deals@[didx].provider_id,
        m0.consumers@[cidx].consumer_id == m0.deals@[didx].consumer_id,
        m1.providers@ == m0.providers@.update(pidx, m1.providers@[pidx]),
        crate::types::provider_fields_except_active(m0.providers@[pidx], m1.providers@[pidx]),
        m1.providers@[pidx].active_deals@ == m0.providers@[pidx].active_deals@.push(
            deal_key_of(m0.deals@[didx]),
        ),
        m1.consumers@ == m0.consumers@.update(cidx, m1.consumers@[cidx]),
        crate::types::consumer_fields_except_active(m0.consumers@[cidx], m1.consumers@[cidx]),
        m1.consumers@[cidx].active_deals@ == m0.consumers@[cidx].active_deals@.push(
            deal_key_of(m0.deals@[didx]),
        ),
        m1.buckets@ == m0.buckets@,
        m1.bucket_count == m0.bucket_count,
        m1.deal_count == m0.deal_count,
    ensures
        m1.wf(),
{
    let k = deal_key_of(m0.deals@[didx]);
    let n = m0.deals@.len() as int;
    crate::market::lemma_same_buckets(m0, m1);
    crate::market::lemma_key_push_contains(m0.providers@[pidx].active_deals@, k);
    crate::market::lemma_key_push_contains(m0.consumers@[cidx].active_deals@, k);
    assert(forall|a: int| 0 <= a < n && a != didx ==> #[trigger] m1.deals@[a] == m0.deals@[a]);
    assert(forall|a: int|
        0 <= a < m0.providers@.len() && a != pidx ==> #[trigger] m1.providers@[a]
            == m0.providers@[a]);
    assert(forall|a: int|
        0 <= a < m0.consumers@.len() && a != cidx ==> #[trigger] m1.consumers@[a]
            == m0.consumers@[a]);

    // The key was not engaged before: the deal under it is the one at didx.
    assert(!m0.has_engaged_deal(k)) by {
        if m0.has_engaged_deal(k) {
            let w = choose|a: int|
                0 <= a < m0.deals@.len() && deal_key_of(#[trigger] m0.deals@[a]) == k
                    && is_engaged(m0.deals@[a].status);
            if w != didx {
                if w < didx {
                    assert(m0.deals@[w].deal_id != m0.deals@[didx].deal_id);
                } else {
                    assert(m0.deals@[didx].deal_id != m0.deals@[w].deal_id);
                }
            }
            assert(false);
        }
    }

    // registry_wf
    assert forall|a: int, b: int|
        #![trigger m1.providers@[a], m1.providers@[b]]
        0 <= a < b < m1.providers@.len() implies m1.providers@[a].provider_id
        != m1.providers@[b].provider_id by {
        assert(m0.providers@[a].provider_id != m0.providers@[b].provider_id);
        assert(m1.providers@[a].provider_id == m0.providers@[a].provider_id);
        assert(m1.providers@[b].provider_id == m0.providers@[b].provider_id);
    }
    assert forall|a: int, b: int|
        #![trigger m1.consumers@[a], m1.consumers@[b]]
        0 <= a < b < m1.consumers@.len() implies m1.consumers@[a].consumer_id
        != m1.consumers@[b].consumer_id by {
        assert(m0.consumers@[a].consumer_id != m0.consumers@[b].consumer_id);
        assert(m1.consumers@[a].consumer_id == m0.consumers@[a].consumer_id);
        assert(m1.consumers@[b].consumer_id == m0.consumers@[b].consumer_id);
    }

    // deals_wf
    assert forall|a: int| 0 <= a < m1.deals@.len() implies (#[trigger] m1.deals@[a]).deal_id
        < m1.deal_count by {
        assert(m0.deals@[a].deal_id < m0.deal_count);
    }
    assert forall|a: int, b: int|
        #![trigger m1.deals@[a], m1.deals@[b]]
        0 <= a < b < m1.deals@.len() implies m1.deals@[a].deal_id != m1.deals@[b].deal_id by {
        assert(m0.deals@[a].deal_id != m0.deals@[b].deal_id);
    }

    // reservation_wf
    assert(bucket_ref_of(m1.deals@[didx]) == bucket_ref_of(m0.deals@[didx]));
    assert forall|a: int, b: int|
        #![trigger m1.deals@[a], m1.deals@[b]]
        0 <= a < b < m1.deals@.len() && !is_terminal(m1.deals@[a].status) && !is_terminal(
            m1.deals@[b].status,
        ) implies bucket_ref_of(m1.deals@[a]) != bucket_ref_of(m1.deals@[b]) by {
        assert(!is_terminal(m0.deals@[a].status) && !is_terminal(m0.deals@[b].status));
        assert(bucket_ref_of(m0.deals@[a]) != bucket_ref_of(m0.deals@[b]));
        assert(bucket_ref_of(m1.deals@[a]) == bucket_ref_of(m0.deals@[a]));
        assert(bucket_ref_of(m1.deals@[b]) == bucket_ref_of(m0.deals@[b]));
    }
    assert forall|a: int|
        0 <= a < m1.deals@.len() && !is_terminal((#[trigger] m1.deals@[a]).status)
        implies m1.has_bucket(bucket_ref_of(m1.deals@[a])) && m1.bucket_at(
        bucket_ref_of(m1.deals@[a]),
    ).locked by {
        assert(!is_terminal(m0.deals@[a].status));
        assert(bucket_ref_of(m1.deals@[a]) == bucket_ref_of(m0.deals@[a]));
        assert(m0.has_bucket(bucket_ref_of(m0.deals@[a])));
        assert(m0.bucket_at(bucket_ref_of(m0.deals@[a])).locked);
    }
    assert forall|bi: int|
        0 <= bi < m1.buckets@.len() && (#[trigger] m1.buckets@[bi]).locked
        implies exists|a: int|
            0 <= a < m1.deals@.len() && !is_terminal((#[trigger] m1.deals@[a]).status)
                && bucket_ref_of(m1.deals@[a]) == bucket_key_of(m1.buckets@[bi]) by {
        assert(m0.buckets@[bi].locked);
        let a = choose|a: int|
            0 <= a < m0.deals@.len() && !is_terminal((#[trigger] m0.deals@[a]).status)
                && bucket_ref_of(m0.deals@[a]) == bucket_key_of(m0.buckets@[bi]);
        assert(!is_terminal(m1.deals@[a].status));
        assert(bucket_ref_of(m1.deals@[a]) == bucket_key_of(m1.buckets@[bi]));
    }

    // engagement_wf
    assert forall|x: DealKey| #[trigger] m1.has_engaged_deal(x) <==> (m0.has_engaged_deal(x) || x
        == k) by {
        if m1.has_engaged_deal(x) {
            let w = choose|a: int|
                0 <= a < m1.deals@.len() && deal_key_of(#[trigger] m1.deals@[a]) == x
                    && is_engaged(m1.deals@[a].status);
            if w != didx {
                assert(deal_key_of(m0.deals@[w]) == x && is_engaged(m0.deals@[w].status));
            }
        }
        if m0.has_engaged_deal(x) {
            let w = choose|a: int|
                0 <= a < m0.deals@.len() && deal_key_of(#[trigger] m0.deals@[a]) == x
                    && is_engaged(m0.deals@[a].status);
            assert(w != didx);
            assert(deal_key_of(m1.deals@[w]) == x && is_engaged(m1.deals@[w].status));
        }
        if x == k {
            assert(deal_key_of(m1.deals@[didx]) == x && is_engaged(m1.deals@[didx].status));
        }
    }
    assert forall|pi: int, x: DealKey|
        #![trigger m1.providers@[pi].active_deals@.contains(x)]
        0 <= pi < m1.providers@.len()
        implies (m1.providers@[pi].active_deals@.contains(x) <==> (m1.has_engaged_deal(x)
            && x.provider_id == m1.providers@[pi].provider_id)) by {
        assert(m0.providers@[pi].active_deals@.contains(x) <==> (m0.has_engaged_deal(x)
            && x.provider_id == m0.providers@[pi].provider_id));
        if pi == pidx {
            assert(m1.providers@[pi].active_deals@.contains(x) <==> (
            m0.providers@[pidx].active_deals@.contains(x) || x == k));
            assert(k.provider_id == m0.providers@[pidx].provider_id);
        } else {
            assert(m1.providers@[pi] == m0.providers@[pi]);
            if x == k {
                assert(m0.providers@[pidx].provider_id != m0.providers@[pi].provider_id) by {
                    if pi < pidx {
                        assert(m0.providers@[pi].provider_id != m0.providers@[pidx].provider_id);
                    } else {
                        assert(m0.providers@[pidx].provider_id != m0.providers@[pi].provider_id);
                    }
                }
            }
        }
    }
    assert forall|ci: int, x: DealKey|
        #![trigger m1.consumers@[ci].active_deals@.contains(x)]
        0 <= ci < m1.consumers@.len()
        implies (m1.consumers@[ci].active_deals@.contains(x) <==> (m1.has_engaged_deal(x)
            && x.consumer_id == m1.consumers@[ci].consumer_id)) by {
        assert(m0.consumers@[ci].active_deals@.contains(x) <==> (m0.has_engaged_deal(x)
            && x.consumer_id == m0.consumers@[ci].consumer_id));
        if ci == cidx {
            assert(m1.consumers@[ci].active_deals@.contains(x) <==> (
            m0.consumers@[cidx].active_deals@.contains(x) || x == k));
            assert(k.consumer_id == m0.consumers@[cidx].consumer_id);
        } else {
            assert(m1.consumers@[ci] == m0.consumers@[ci]);
            if x == k {
                assert(m0.consumers@[cidx].consumer_id != m0.consumers@[ci].consumer_id) by {
                    if ci < cidx {
                        assert(m0.consumers@[ci].consumer_id != m0.consumers@[cidx].consumer_id);
                    } else {
                        assert(m0.consumers@[cidx].consumer_id != m0.consumers@[ci].consumer_id);
                    }
                }
            }
        }
    }
    assert forall|a: int|
        0 <= a < m1.deals@.len() && is_engaged((#[trigger] m1.deals@[a]).status)
        implies m1.has_provider(m1.deals@[a].provider_id) && m1.has_consumer(
        m1.deals@[a].consumer_id,
    ) by {
        if a == didx {
            assert(m1.providers@[pidx].provider_id == m1.deals@[didx].provider_id);
            assert(m1.consumers@[cidx].consumer_id == m1.deals@[didx].consumer_id);
        } else {
            assert(is_engaged(m0.deals@[a].status));
            assert(m0.has_provider(m0.deals@[a].provider_id));
            let w = choose|p: int|
                0 <= p < m0.providers@.len() && (#[trigger] m0.providers@[p]).provider_id
                    == m0.deals@[a].provider_id;
            assert(m1.providers@[w].provider_id == m1.deals@[a].provider_id);
            assert(m0.has_consumer(m0.deals@[a].consumer_id));
            let w2 = choose|c: int|
                0 <= c < m0.consumers@.len() && (#[trigger] m0.consumers@[c]).consumer_id
                    == m0.deals@[a].consumer_id;
            assert(m1.consumers@[w2].consumer_id == m1.deals@[a].consumer_id);
        }
    }

    // balances_wf
    assert forall|a: int|
        0 <= a < m1.deals@.len() && !is_engaged((#[trigger] m1.deals@[a]).status)
        implies m1.deals@[a].balance_consumer == 0 by {
        assert(a != didx);
        assert(m0.deals@[a].balance_consumer == 0);
    }
}

/// A deal after its terminal refund: the residual escrow has been returned
/// to the consumer and the deal no longer accepts transitions.
pub open spec fn closed_deal(d: Deal, terminal: DealStatus) -> Deal {
    Deal { status: terminal, balance_consumer: 0, ..d }
}

/// The state change a successful terminal transition makes: the deal is
/// settled one last time, its residual escrow refunded and zeroed, its
/// status moved to `terminal`, its key dropped from both parties'
/// active-deal collections, and its bucket released.
pub open spec fn closed_state(
    m0: Marketplace,
    m1: Marketplace,
    k: DealKey,
    receipt: crate::types::TerminalReceipt,
    terminal: DealStatus,
) -> bool {
    let d = m0.deal_at(k);
    let bk = bucket_ref_of(d);
    let out = settle_spec(d, m0.bucket_at(bk));
    let pi = m0.provider_idx(k.provider_id);
    let ci = m0.consumer_idx(k.consumer_id);
    &&& receipt.closed
    &&& m0.has_deal(k)
    &&& is_engaged(d.status)
    &&& m0.has_bucket(bk)
    &&& m0.has_provider(k.provider_id)
    &&& m0.has_consumer(k.consumer_id)
    &&& receipt.pay_provider == out.pay_provider
    &&& receipt.refund_consumer == out.deal.balance_consumer
    &&& m1.deals@ == m0.deals@.update(m0.deal_idx(k), closed_deal(out.deal, terminal))
    &&& m1.buckets@ == m0.buckets@.update(
        m0.bucket_idx(bk),
        unlocked_bucket(m0.bucket_at(bk)),
    )
    &&& m1.providers@ == m0.providers@.update(pi, m1.providers@[pi])
    &&& provider_fields_except_active(m0.provider_at(k.provider_id), m1.providers@[pi])
    &&& forall|x: DealKey|
        #[trigger] m1.providers@[pi].active_deals@.contains(x) <==> (m0.provider_at(
            k.provider_id,
        ).active_deals@.contains(x) && x != k)
    &&& m1.consumers@ == m0.consumers@.update(ci, m1.consumers@[ci])
    &&& consumer_fields_except_active(m0.consumer_at(k.consumer_id), m1.consumers@[ci])
    &&& forall|x: DealKey|
        #[trigger] m1.consumers@[ci].active_deals@.contains(x) <==> (m0.consumer_at(
            k.consumer_id,
        ).active_deals@.contains(x) && x != k)
    &&& m1.bucket_count == m0.bucket_count
    &&& m1.deal_count == m0.deal_count
}

/// The outcome a terminal transition reports: when the deal exists and
/// `allowed` holds, a closing receipt and [`closed_state`]; when it exists
/// and `allowed` fails, a receipt with `closed == false` and no change; and
/// `DealNotFound` otherwise.
pub open spec fn terminal_outcome(
    m0: Marketplace,
    m1: Marketplace,
    k: DealKey,
    r: Result<crate::types::TerminalReceipt, MarketError>,
    terminal: DealStatus,
    allowed: bool,
) -> bool {
    match r {
        Ok(receipt) => {
            if receipt.closed {
                allowed && closed_state(m0, m1, k, receipt, terminal)
            } else {
                &&& m0.has_deal(k)
                &&& !allowed
                &&& m1 == m0
                &&& receipt.pay_provider == 0
                &&& receipt.refund_consumer == 0
            }
        },
        Err(e) => e == MarketError::DealNotFound && !m0.has_deal(k) && m1 == m0,
    }
}

/// Closing an engaged deal — terminal status, emptied escrow, key dropped
/// from both active-deal collections, bucket released — preserves the whole
/// invariant.
proof fn lemma_wf_after_deal_closed(
    m0: Marketplace,
    m1: Marketplace,
    didx: int,
    pidx: int,
    cidx: int,
    bidx: int,
)
    requires
        m0.wf(),
        0 <= didx < m0.deals@.len(),
        0 <= pidx < m0.providers@.len(),
        0 <= cidx < m0.consumers@.len(),
        0 <= bidx < m0.buckets@.len(),
        is_engaged(m0.deals@[didx].status),
        m1.deals@ == m0.deals@.update(didx, m1.deals@[didx]),
        deal_key_of(m1.deals@[didx]) == deal_key_of(m0.deals@[didx]),
        m1.deals@[didx].bucket_id == m0.deals@[didx].bucket_id,
        is_terminal(m1.deals@[didx].status),
        m1.deals@[didx].balance_consumer == 0,
        m0.providers@[pidx].provider_id == m0.deals@[didx].provider_id,
        m0.consumers@[cidx].consumer_id == m0.deals@[didx].consumer_id,
        m1.providers@ == m0.providers@.update(pidx, m1.providers@[pidx]),
        crate::types::provider_fields_except_active(m0.providers@[pidx], m1.providers@[pidx]),
        forall|x: DealKey|
            #[trigger] m1.providers@[pidx].active_deals@.contains(x) <==> (
            m0.providers@[pidx].active_deals@.contains(x) && x != deal_key_of(m0.deals@[didx])),
        m1.consumers@ == m0.consumers@.update(cidx, m1.consumers@[cidx]),
        crate::types::consumer_fields_except_active(m0.consumers@[cidx], m1.consumers@[cidx]),
        forall|x: DealKey|
            #[trigger] m1.consumers@[cidx].active_deals@.contains(x) <==> (
            m0.consumers@[cidx].active_deals@.contains(x) && x != deal_key_of(m0.deals@[didx])),
        bucket_key_of(m0.buckets@[bidx]) == bucket_ref_of(m0.deals@[didx]),
        m1.buckets@ == m0.buckets@.update(bidx, m1.buckets@[bidx]),
        bucket_key_of(m1.buckets@[bidx]) == bucket_key_of(m0.buckets@[bidx]),
        !m1.buckets@[bidx].locked,
        m1.bucket_count == m0.bucket_count,
        m1.deal_count == m0.deal_count,
    ensures
        m1.wf(),
{
    let k = deal_key_of(m0.deals@[didx]);
    let n = m0.deals@.len() as int;
    assert(forall|a: int| 0 <= a < n && a != didx ==> #[trigger] m1.deals@[a] == m0.deals@[a]);
    assert(forall|a: int|
        0 <= a < m0.providers@.len() && a != pidx ==> #[trigger] m1.providers@[a]
            == m0.providers@[a]);
    assert(forall|a: int|
        0 <= a < m0.consumers@.len() && a != cidx ==> #[trigger] m1.consumers@[a]
            == m0.consumers@[a]);
    assert(forall|a: int|
        0 <= a < m0.buckets@.len() && a != bidx ==> #[trigger] m1.buckets@[a] == m0.buckets@[a]);

    // Only the deal at didx carries key k.
    assert forall|a: int|
        0 <= a < n && deal_key_of(#[trigger] m0.deals@[a]) == k implies a == didx by {
        if a != didx {
            if a < didx {
                assert(m0.deals@[a].deal_id != m0.deals@[didx].deal_id);
            } else {
                assert(m0.deals@[didx].deal_id != m0.deals@[a].deal_id);
            }
        }
    }

    // registry_wf
    assert forall|a: int, b: int|
        #![trigger m1.providers@[a], m1.providers@[b]]
        0 <= a < b < m1.providers@.len() implies m1.providers@[a].provider_id
        != m1.providers@[b].provider_id by {
        assert(m0.providers@[a].provider_id != m0.providers@[b].provider_id);
        assert(m1.providers@[a].provider_id == m0.providers@[a].provider_id);
        assert(m1.providers@[b].provider_id == m0.providers@[b].provider_id);
    }
    assert forall|a: int, b: int|
        #![trigger m1.consumers@[a], m1.consumers@[b]]
        0 <= a < b < m1.consumers@.len() implies m1.consumers@[a].consumer_id
        != m1.consumers@[b].consumer_id by {
        assert(m0.consumers@[a].consumer_id != m0.consumers@[b].consumer_id);
        assert(m1.consumers@[a].consumer_id == m0.consumers@[a].consumer_id);
        assert(m1.consumers@[b].consumer_id == m0.consumers@[b].consumer_id);
    }

    // buckets_wf
    assert forall|a: int| 0 <= a < m1.buckets@.len() implies (#[trigger] m1.buckets@[a]).bucket_id
        < m1.bucket_count by {
        assert(m0.buckets@[a].bucket_id < m0.bucket_count);
        assert(m1.buckets@[a].bucket_id == m0.buckets@[a].bucket_id);
    }
    assert forall|a: int, b: int|
        #![trigger m1.buckets@[a], m1.buckets@[b]]
        0 <= a < b < m1.buckets@.len() implies m1.buckets@[a].bucket_id
        != m1.buckets@[b].bucket_id by {
        assert(m0.buckets@[a].bucket_id != m0.buckets@[b].bucket_id);
        assert(m1.buckets@[a].bucket_id == m0.buckets@[a].bucket_id);
        assert(m1.buckets@[b].bucket_id == m0.buckets@[b].bucket_id);
    }

    // deals_wf
    assert forall|a: int| 0 <= a < m1.deals@.len() implies (#[trigger] m1.deals@[a]).deal_id
        < m1.deal_count by {
        assert(m0.deals@[a].deal_id < m0.deal_count);
    }
    assert forall|a: int, b: int|
        #![trigger m1.deals@[a], m1.deals@[b]]
        0 <= a < b < m1.deals@.len() implies m1.deals@[a].deal_id != m1.deals@[b].deal_id by {
        assert(m0.deals@[a].deal_id != m0.deals@[b].deal_id);
    }

    // reservation_wf
    assert forall|a: int, b: int|
        #![trigger m1.deals@[a], m1.deals@[b]]
        0 <= a < b < m1.deals@.len() && !is_terminal(m1.deals@[a].status) && !is_terminal(
            m1.deals@[b].status,
        ) implies bucket_ref_of(m1.deals@[a]) != bucket_ref_of(m1.deals@[b]) by {
        assert(a != didx && b != didx);
        assert(bucket_ref_of(m0.deals@[a]) != bucket_ref_of(m0.deals@[b]));
    }
    assert forall|a: int|
        0 <= a < m1.deals@.len() && !is_terminal((#[trigger] m1.deals@[a]).status)
        implies m1.has_bucket(bucket_ref_of(m1.deals@[a])) && m1.bucket_at(
        bucket_ref_of(m1.deals@[a]),
    ).locked by {
        assert(a != didx);
        let ka = bucket_ref_of(m0.deals@[a]);
        assert(m0.has_bucket(ka) && m0.bucket_at(ka).locked);
        let w = m0.bucket_idx(ka);
        assert(0 <= w < m0.buckets@.len() && bucket_key_of(m0.buckets@[w]) == ka);
        // The released bucket belongs to the closed deal alone.
        assert(w != bidx) by {
            if w == bidx {
                assert(ka == bucket_ref_of(m0.deals@[didx]));
                if a < didx {
                    assert(bucket_ref_of(m0.deals@[a]) != bucket_ref_of(m0.deals@[didx]));
                } else {
                    assert(bucket_ref_of(m0.deals@[didx]) != bucket_ref_of(m0.deals@[a]));
                }
            }
        }
        assert(m1.buckets@[w] == m0.buckets@[w]);
        lemma_bucket_lookup(m1, ka, w);
    }
    assert forall|bi: int|
        0 <= bi < m1.buckets@.len() && (#[trigger] m1.buckets@[bi]).locked
        implies exists|a: int|
            0 <= a < m1.deals@.len() && !is_terminal((#[trigger] m1.deals@[a]).status)
                && bucket_ref_of(m1.deals@[a]) == bucket_key_of(m1.buckets@[bi]) by {
        assert(bi != bidx);
        assert(m0.buckets@[bi].locked);
        let a = choose|a: int|
            0 <= a < m0.deals@.len() && !is_terminal((#[trigger] m0.deals@[a]).status)
                && bucket_ref_of(m0.deals@[a]) == bucket_key_of(m0.buckets@[bi]);
        assert(a != didx) by {
            if a == didx {
                assert(bucket_key_of(m0.buckets@[bi]) == bucket_key_of(m0.buckets@[bidx]));
                assert(m0.buckets@[bi].bucket_id == m0.buckets@[bidx].bucket_id);
                if bi < bidx {
                    assert(m0.buckets@[bi].bucket_id != m0.buckets@[bidx].bucket_id);
                } else {
                    assert(m0.buckets@[bidx].bucket_id != m0.buckets@[bi].bucket_id);
                }
            }
        }
        assert(0 <= a < m1.deals@.len() && !is_terminal(m1.deals@[a].status)
            && bucket_ref_of(m1.deals@[a]) == bucket_key_of(m1.buckets@[bi]));
    }

    // engagement_wf
    assert forall|x: DealKey| #[trigger] m1.has_engaged_deal(x) <==> (m0.has_engaged_deal(x) && x
        != k) by {
        if m1.has_engaged_deal(x) {
            let w = choose|a: int|
                0 <= a < m1.deals@.len() && deal_key_of(#[trigger] m1.deals@[a]) == x
                    && is_engaged(m1.deals@[a].status);
            assert(w != didx);
            assert(deal_key_of(m0.deals@[w]) == x && is_engaged(m0.deals@[w].status));
            assert(x != k);
        }
        if m0.has_engaged_deal(x) && x != k {
            let w = choose|a: int|
                0 <= a < m0.deals@.len() && deal_key_of(#[trigger] m0.deals@[a]) == x
                    && is_engaged(m0.deals@[a].status);
            assert(w != didx);
            assert(deal_key_of(m1.deals@[w]) == x && is_engaged(m1.deals@[w].status));
        }
    }
    assert forall|pi: int, x: DealKey|
        #![trigger m1.providers@[pi].active_deals@.contains(x)]
        0 <= pi < m1.providers@.len()
        implies (m1.providers@[pi].active_deals@.contains(x) <==> (m1.has_engaged_deal(x)
            && x.provider_id == m1.providers@[pi].provider_id)) by {
        assert(m0.providers@[pi].active_deals@.contains(x) <==> (m0.has_engaged_deal(x)
            && x.provider_id == m0.providers@[pi].provider_id));
        if pi != pidx {
            assert(m1.providers@[pi] == m0.providers@[pi]);
        }
    }
    assert forall|ci: int, x: DealKey|
        #![trigger m1.consumers@[ci].active_deals@.contains(x)]
        0 <= ci < m1.consumers@.len()
        implies (m1.consumers@[ci].active_deals@.contains(x) <==> (m1.has_engaged_deal(x)
            && x.consumer_id == m1.consumers@[ci].consumer_id)) by {
        assert(m0.consumers@[ci].active_deals@.contains(x) <==> (m0.has_engaged_deal(x)
            && x.consumer_id == m0.consumers@[ci].consumer_id));
        if ci != cidx {
            assert(m1.consumers@[ci] == m0.consumers@[ci]);
        }
    }
    assert forall|a: int|
        0 <= a < m1.deals@.len() && is_engaged((#[trigger] m1.deals@[a]).status)
        implies m1.has_provider(m1.deals@[a].provider_id) && m1.has_consumer(
        m1.deals@[a].consumer_id,
    ) by {
        assert(a != didx);
        assert(is_engaged(m0.deals@[a].status));
        assert(m0.has_provider(m0.deals@[a].provider_id));
        let w = choose|p: int|
            0 <= p < m0.providers@.len() && (#[trigger] m0.providers@[p]).provider_id
                == m0.deals@[a].provider_id;
        assert(m1.providers@[w].provider_id == m1.deals@[a].provider_id);
        assert(m0.has_consumer(m0.deals@[a].consumer_id));
        let w2 = choose|c: int|
            0 <= c < m0.consumers@.len() && (#[trigger] m0.consumers@[c]).consumer_id
                == m0.deals@[a].consumer_id;
        assert(m1.consumers@[w2].consumer_id == m1.deals@[a].consumer_id);
    }

    // balances_wf
    assert forall|a: int|
        0 <= a < m1.deals@.len() && !is_engaged((#[trigger] m1.deals@[a]).status)
        implies m1.deals@[a].balance_consumer == 0 by {
        if a != didx {
            assert(m0.deals@[a].balance_consumer == 0);
        }
    }
}

/// Removing a terminal deal record preserves the whole invariant: it holds
/// no reservation, no escrow, and no active-deal membership.
proof fn lemma_wf_after_terminal_deal_removed(m0: Marketplace, m1: Marketplace, didx: int)
    requires
        m0.wf(),
        0 <= didx < m0.deals@.len(),
        is_terminal(m0.deals@[didx].status),
        m1.deals@ == m0.deals@.remove(didx),
        m1.providers@ == m0.providers@,
        m1.consumers@ == m0.consumers@,
        m1.buckets@ == m0.buckets@,
        m1.bucket_count == m0.bucket_count,
        m1.deal_count == m0.deal_count,
    ensures
        m1.wf(),
{
    let n = m0.deals@.len() as int;
    lemma_same_parties(m0, m1);
    crate::market::lemma_same_buckets(m0, m1);
    assert(forall|a: int| 0 <= a < didx ==> #[trigger] m1.deals@[a] == m0.deals@[a]);
    assert(forall|a: int| didx <= a < n - 1 ==> #[trigger] m1.deals@[a] == m0.deals@[a + 1]);

    assert forall|a: int| 0 <= a < m1.deals@.len() implies (#[trigger] m1.deals@[a]).deal_id
        < m1.deal_count by {
        let a0: int = if a < didx {
            a
        } else {
            a + 1
        };
        assert(m0.deals@[a0].deal_id < m0.deal_count);
    }
    assert forall|a: int, b: int|
        #![trigger m1.deals@[a], m1.deals@[b]]
        0 <= a < b < m1.deals@.len() implies m1.deals@[a].deal_id != m1.deals@[b].deal_id by {
        let a0: int = if a < didx {
            a
        } else {
            a + 1
        };
        let b0: int = if b < didx {
            b
        } else {
            b + 1
        };
        assert(m0.deals@[a0].deal_id != m0.deals@[b0].deal_id);
    }

    assert forall|a: int, b: int|
        #![trigger m1.deals@[a], m1.deals@[b]]
        0 <= a < b < m1.deals@.len() && !is_terminal(m1.deals@[a].status) && !is_terminal(
            m1.deals@[b].status,
        ) implies bucket_ref_of(m1.deals@[a]) != bucket_ref_of(m1.deals@[b]) by {
        let a0: int = if a < didx {
            a
        } else {
            a + 1
        };
        let b0: int = if b < didx {
            b
        } else {
            b + 1
        };
        assert(bucket_ref_of(m0.deals@[a0]) != bucket_ref_of(m0.deals@[b0]));
    }
    assert forall|a: int|
        0 <= a < m1.deals@.len() && !is_terminal((#[trigger] m1.deals@[a]).status)
        implies m1.has_bucket(bucket_ref_of(m1.deals@[a])) && m1.bucket_at(
        bucket_ref_of(m1.deals@[a]),
    ).locked by {
        let a0: int = if a < didx {
            a
        } else {
            a + 1
        };
        assert(m0.has_bucket(bucket_ref_of(m0.deals@[a0])));
        assert(m0.bucket_at(bucket_ref_of(m0.deals@[a0])).locked);
    }
    assert forall|bi: int|
        0 <= bi < m1.buckets@.len() && (#[trigger] m1.buckets@[bi]).locked
        implies exists|a: int|
            0 <= a < m1.deals@.len() && !is_terminal((#[trigger] m1.deals@[a]).status)
                && bucket_ref_of(m1.deals@[a]) == bucket_key_of(m1.buckets@[bi]) by {
        assert(m0.buckets@[bi].locked);
        let a = choose|a: int|
            0 <= a < m0.deals@.len() && !is_terminal((#[trigger] m0.deals@[a]).status)
                && bucket_ref_of(m0.deals@[a]) == bucket_key_of(m0.buckets@[bi]);
        assert(a != didx);
        let a1: int = if a < didx {
            a
        } else {
            a - 1
        };
        assert(0 <= a1 < m1.deals@.len() && !is_terminal(m1.deals@[a1].status)
            && bucket_ref_of(m1.deals@[a1]) == bucket_key_of(m1.buckets@[bi]));
    }

    assert forall|x: DealKey| #[trigger] m1.has_engaged_deal(x) <==> m0.has_engaged_deal(x) by {
        if m1.has_engaged_deal(x) {
            let w = choose|a: int|
                0 <= a < m1.deals@.len() && deal_key_of(#[trigger] m1.deals@[a]) == x
                    && is_engaged(m1.deals@[a].status);
            let w0: int = if w < didx {
                w
            } else {
                w + 1
            };
            assert(deal_key_of(m0.deals@[w0]) == x && is_engaged(m0.deals@[w0].status));
        }
        if m0.has_engaged_deal(x) {
            let w = choose|a: int|
                0 <= a < m0.deals@.len() && deal_key_of(#[trigger] m0.deals@[a]) == x
                    && is_engaged(m0.deals@[a].status);
            assert(w != didx);
            let w1: int = if w < didx {
                w
            } else {
                w - 1
            };
            assert(deal_key_of(m1.deals@[w1]) == x && is_engaged(m1.deals@[w1].status));
        }
    }
    assert forall|pi: int, x: DealKey|
        #![trigger m1.providers@[pi].active_deals@.contains(x)]
        0 <= pi < m1.providers@.len()
        implies (m1.providers@[pi].active_deals@.contains(x) <==> (m1.has_engaged_deal(x)
            && x.provider_id == m1.providers@[pi].provider_id)) by {
        assert(m0.providers@[pi].active_deals@.contains(x) <==> (m0.has_engaged_deal(x)
            && x.provider_id == m0.providers@[pi].provider_id));
    }
    assert forall|ci: int, x: DealKey|
        #![trigger m1.consumers@[ci].active_deals@.contains(x)]
        0 <= ci < m1.consumers@.len()
        implies (m1.consumers@[ci].active_deals@.contains(x) <==> (m1.has_engaged_deal(x)
            && x.consumer_id == m1.consumers@[ci].consumer_id)) by {
        assert(m0.consumers@[ci].active_deals@.contains(x) <==> (m0.has_engaged_deal(x)
            && x.consumer_id == m0.consumers@[ci].consumer_id));
    }
    assert forall|a: int|
        0 <= a < m1.deals@.len() && is_engaged((#[trigger] m1.deals@[a]).status)
        implies m1.has_provider(m1.deals@[a].provider_id) && m1.has_consumer(
        m1.deals@[a].consumer_id,
    ) by {
        let a0: int = if a < didx {
            a
        } else {
            a + 1
        };
        assert(is_engaged(m0.deals@[a0].status));
        assert(m0.has_provider(m0.deals@[a0].provider_id));
        assert(m0.has_consumer(m0.deals@[a0].consumer_id));
    }

    assert forall|a: int|
        0 <= a < m1.deals@.len() && !is_engaged((#[trigger] m1.deals@[a]).status)
        implies m1.deals@[a].balance_consumer == 0 by {
        let a0: int = if a < didx {
            a
        } else {
            a + 1
        };
        assert(m0.deals@[a0].balance_consumer == 0);
    }
}

/// Removing a pending or accepted deal while releasing its bucket, as one
/// step, preserves the whole invariant: such a deal holds the reservation
/// but no escrow and no active-deal membership.
proof fn lemma_wf_after_idle_deal_removed(
    m0: Marketplace,
    m1: Marketplace,
    didx: int,
    bidx: int,
)
    requires
        m0.wf(),
        0 <= didx < m0.deals@.len(),
        0 <= bidx < m0.buckets@.len(),
        !is_terminal(m0.deals@[didx].status),
        !is_engaged(m0.deals@[didx].status),
        bucket_key_of(m0.buckets@[bidx]) == bucket_ref_of(m0.deals@[didx]),
        m1.deals@ == m0.deals@.remove(didx),
        m1.providers@ == m0.providers@,
        m1.consumers@ == m0.consumers@,
        m1.buckets@ == m0.buckets@.update(bidx, m1.buckets@[bidx]),
        bucket_key_of(m1.buckets@[bidx]) == bucket_key_of(m0.buckets@[bidx]),
        !m1.buckets@[bidx].locked,
        m1.bucket_count == m0.bucket_count,
        m1.deal_count == m0.deal_count,
    ensures
        m1.wf(),
{
    let n = m0.deals@.len() as int;
    lemma_same_parties(m0, m1);
    assert(forall|a: int| 0 <= a < didx ==> #[trigger] m1.deals@[a] == m0.deals@[a]);
    assert(forall|a: int| didx <= a < n - 1 ==> #[trigger] m1.deals@[a] == m0.deals@[a + 1]);
    assert(forall|a: int|
        0 <= a < m0.buckets@.len() && a != bidx ==> #[trigger] m1.buckets@[a] == m0.buckets@[a]);

    // buckets_wf
    assert forall|a: int| 0 <= a < m1.buckets@.len() implies (#[trigger] m1.buckets@[a]).bucket_id
        < m1.bucket_count by {
        assert(m0.buckets@[a].bucket_id < m0.bucket_count);
        assert(m1.buckets@[a].bucket_id == m0.buckets@[a].bucket_id);
    }
    assert forall|a: int, b: int|
        #![trigger m1.buckets@[a], m1.buckets@[b]]
        0 <= a < b < m1.buckets@.len() implies m1.buckets@[a].bucket_id
        != m1.buckets@[b].bucket_id by {
        assert(m0.buckets@[a].bucket_id != m0.buckets@[b].bucket_id);
        assert(m1.buckets@[a].bucket_id == m0.buckets@[a].bucket_id);
        assert(m1.buckets@[b].bucket_id == m0.buckets@[b].bucket_id);
    }

    // deals_wf
    assert forall|a: int| 0 <= a < m1.deals@.len() implies (#[trigger] m1.deals@[a]).deal_id
        < m1.deal_count by {
        let a0: int = if a < didx {
            a
        } else {
            a + 1
        };
        assert(m0.deals@[a0].deal_id < m0.deal_count);
    }
    assert forall|a: int, b: int|
        #![trigger m1.deals@[a], m1.deals@[b]]
        0 <= a < b < m1.deals@.len() implies m1.deals@[a].deal_id != m1.deals@[b].deal_id by {
        let a0: int = if a < didx {
            a
        } else {
            a + 1
        };
        let b0: int = if b < didx {
            b
        } else {
            b + 1
        };
        assert(m0.deals@[a0].deal_id != m0.deals@[b0].deal_id);
    }

    // reservation_wf
    assert forall|a: int, b: int|
        #![trigger m1.deals@[a], m1.deals@[b]]
        0 <= a < b < m1.deals@.len() && !is_terminal(m1.deals@[a].status) && !is_terminal(
            m1.deals@[b].status,
        ) implies bucket_ref_of(m1.deals@[a]) != bucket_ref_of(m1.deals@[b]) by {
        let a0: int = if a < didx {
            a
        } else {
            a + 1
        };
        let b0: int = if b < didx {
            b
        } else {
            b + 1
        };
        assert(bucket_ref_of(m0.deals@[a0]) != bucket_ref_of(m0.deals@[b0]));
    }
    assert forall|a: int|
        0 <= a < m1.deals@.len() && !is_terminal((#[trigger] m1.deals@[a]).status)
        implies m1.has_bucket(bucket_ref_of(m1.deals@[a])) && m1.bucket_at(
        bucket_ref_of(m1.deals@[a]),
    ).locked by {
        let a0: int = if a < didx {
            a
        } else {
            a + 1
        };
        let ka = bucket_ref_of(m0.deals@[a0]);
        assert(m0.has_bucket(ka) && m0.bucket_at(ka).locked);
        let w = m0.bucket_idx(ka);
        assert(0 <= w < m0.buckets@.len() && bucket_key_of(m0.buckets@[w]) == ka);
        assert(w != bidx) by {
            if w == bidx {
                assert(ka == bucket_ref_of(m0.deals@[didx]));
                if a0 < didx {
                    assert(bucket_ref_of(m0.deals@[a0]) != bucket_ref_of(m0.deals@[didx]));
                } else {
                    assert(bucket_ref_of(m0.deals@[didx]) != bucket_ref_of(m0.deals@[a0]));
                }
            }
        }
        assert(m1.buckets@[w] == m0.buckets@[w]);
        crate::market::lemma_bucket_lookup(m1, ka, w);
    }
    assert forall|bi: int|
        0 <= bi < m1.buckets@.len() && (#[trigger] m1.buckets@[bi]).locked
        implies exists|a: int|
            0 <= a < m1.deals@.len() && !is_terminal((#[trigger] m1.deals@[a]).status)
                && bucket_ref_of(m1.deals@[a]) == bucket_key_of(m1.buckets@[bi]) by {
        assert(bi != bidx);
        assert(m0.buckets@[bi].locked);
        let a = choose|a: int|
            0 <= a < m0.deals@.len() && !is_terminal((#[trigger] m0.deals@[a]).status)
                && bucket_ref_of(m0.deals@[a]) == bucket_key_of(m0.buckets@[bi]);
        assert(a != didx) by {
            if a == didx {
                assert(bucket_key_of(m0.buckets@[bi]) == bucket_key_of(m0.buckets@[bidx]));
                if bi < bidx {
                    assert(m0.buckets@[bi].bucket_id != m0.buckets@[bidx].bucket_id);
                } else {
                    assert(m0.buckets@[bidx].bucket_id != m0.buckets@[bi].bucket_id);
                }
            }
        }
        let a1: int = if a < didx {
            a
        } else {
            a - 1
        };
        assert(0 <= a1 < m1.deals@.len() && !is_terminal(m1.deals@[a1].status)
            && bucket_ref_of(m1.deals@[a1]) == bucket_key_of(m1.buckets@[bi]));
    }

    // engagement_wf
    assert forall|x: DealKey| #[trigger] m1.has_engaged_deal(x) <==> m0.has_engaged_deal(x) by {
        if m1.has_engaged_deal(x) {
            let w = choose|a: int|
                0 <= a < m1.deals@.len() && deal_key_of(#[trigger] m1.deals@[a]) == x
                    && is_engaged(m1.deals@[a].status);
            let w0: int = if w < didx {
                w
            } else {
                w + 1
            };
            assert(deal_key_of(m0.deals@[w0]) == x && is_engaged(m0.deals@[w0].status));
        }
        if m0.has_engaged_deal(x) {
            let w = choose|a: int|
                0 <= a < m0.deals@.len() && deal_key_of(#[trigger] m0.deals@[a]) == x
                    && is_engaged(m0.deals@[a].status);
            assert(w != didx);
            let w1: int = if w < didx {
                w
            } else {
                w - 1
            };
            assert(deal_key_of(m1.deals@[w1]) == x && is_engaged(m1.deals@[w1].status));
        }
    }
    assert forall|pi: int, x: DealKey|
        #![trigger m1.providers@[pi].active_deals@.contains(x)]
        0 <= pi < m1.providers@.len()
        implies (m1.providers@[pi].active_deals@.contains(x) <==> (m1.has_engaged_deal(x)
            && x.provider_id == m1.providers@[pi].provider_id)) by {
        assert(m0.providers@[pi].active_deals@.contains(x) <==> (m0.has_engaged_deal(x)
            && x.provider_id == m0.providers@[pi].provider_id));
    }
    assert forall|ci: int, x: DealKey|
        #![trigger m1.consumers@[ci].active_deals@.contains(x)]
        0 <= ci < m1.consumers@.len()
        implies (m1.consumers@[ci].active_deals@.contains(x) <==> (m1.has_engaged_deal(x)
            && x.consumer_id == m1.consumers@[ci].consumer_id)) by {
        assert(m0.consumers@[ci].active_deals@.contains(x) <==> (m0.has_engaged_deal(x)
            && x.consumer_id == m0.consumers@[ci].consumer_id));
    }
    assert forall|a: int|
        0 <= a < m1.deals@.len() && is_engaged((#[trigger] m1.deals@[a]).status)
        implies m1.has_provider(m1.deals@[a].provider_id) && m1.has_consumer(
        m1.deals@[a].consumer_id,
    ) by {
        let a0: int = if a < didx {
            a
        } else {
            a + 1
        };
        assert(is_engaged(m0.deals@[a0].status));
        assert(m0.has_provider(m0.deals@[a0].provider_id));
        assert(m0.has_consumer(m0.deals@[a0].consumer_id));
    }

    // balances_wf
    assert forall|a: int|
        0 <= a < m1.deals@.len() && !is_engaged((#[trigger] m1.deals@[a]).status)
        implies m1.deals@[a].balance_consumer == 0 by {
        let a0: int = if a < didx {
            a
        } else {
            a + 1
        };
        assert(m0.deals@[a0].balance_consumer == 0);
    }
}

/// Creating a pending deal and locking its (previously unreserved) bucket,
/// as one step, preserves the whole invariant.
proof fn lemma_wf_after_deal_created(m0: Marketplace, m1: Marketplace, bidx: int)
    requires
        m0.wf(),
        m0.deal_count < u32::MAX,
        0 <= bidx < m0.buckets@.len(),
        !m0.buckets@[bidx].locked,
        m1.providers@ == m0.providers@,
        m1.consumers@ == m0.consumers@,
        m1.bucket_count == m0.bucket_count,
        m1.deal_count == m0.deal_count + 1,
        m1.deals@ == m0.deals@.push(m1.deals@.last()),
        m1.deals@.last().deal_id == m0.deal_count,
        m1.deals@.last().status == DealStatus::Pending,
        m1.deals@.last().balance_consumer == 0,
        bucket_ref_of(m1.deals@.last()) == bucket_key_of(m0.buckets@[bidx]),
        m1.buckets@ == m0.buckets@.update(bidx, m1.buckets@[bidx]),
        bucket_key_of(m1.buckets@[bidx]) == bucket_key_of(m0.buckets@[bidx]),
        m1.buckets@[bidx].locked,
    ensures
        m1.wf(),
{
    lemma_same_parties(m0, m1);
    let n = m0.deals@.len() as int;
    let d = m1.deals@.last();
    let k = bucket_ref_of(d);
    lemma_bucket_lookup(m0, k, bidx);
    assert(forall|a: int| 0 <= a < n ==> #[trigger] m1.deals@[a] == m0.deals@[a]);
    assert(forall|a: int|
        0 <= a < m1.buckets@.len() && a != bidx ==> #[trigger] m1.buckets@[a] == m0.buckets@[a]);

    // buckets_wf
    assert forall|a: int| 0 <= a < m1.buckets@.len() implies (#[trigger] m1.buckets@[a]).bucket_id
        < m1.bucket_count by {
        assert(m0.buckets@[a].bucket_id < m0.bucket_count);
        assert(m1.buckets@[a].bucket_id == m0.buckets@[a].bucket_id);
    }
    assert forall|a: int, b: int|
        #![trigger m1.buckets@[a], m1.buckets@[b]]
        0 <= a < b < m1.buckets@.len() implies m1.buckets@[a].bucket_id
        != m1.buckets@[b].bucket_id by {
        assert(m0.buckets@[a].bucket_id != m0.buckets@[b].bucket_id);
        assert(m1.buckets@[a].bucket_id == m0.buckets@[a].bucket_id);
        assert(m1.buckets@[b].bucket_id == m0.buckets@[b].bucket_id);
    }

    // deals_wf
    assert forall|a: int| 0 <= a < m1.deals@.len() implies (#[trigger] m1.deals@[a]).deal_id
        < m1.deal_count by {
        if a < n {
            assert(m0.deals@[a].deal_id < m0.deal_count);
        }
    }
    assert forall|a: int, b: int|
        #![trigger m1.deals@[a], m1.deals@[b]]
        0 <= a < b < m1.deals@.len() implies m1.deals@[a].deal_id != m1.deals@[b].deal_id by {
        if b < n {
            assert(m0.deals@[a].deal_id != m0.deals@[b].deal_id);
        } else {
            assert(m0.deals@[a].deal_id < m0.deal_count);
        }
    }

    // No old non-terminal deal references the freshly locked bucket.
    assert forall|a: int|
        0 <= a < n && !is_terminal((#[trigger] m0.deals@[a]).status) implies bucket_ref_of(
        m0.deals@[a],
    ) != k by {
        if bucket_ref_of(m0.deals@[a]) == k {
            assert(m0.bucket_at(k).locked);
            assert(false);
        }
    }

    // reservation_wf
    assert forall|a: int, b: int|
        #![trigger m1.deals@[a], m1.deals@[b]]
        0 <= a < b < m1.deals@.len() && !is_terminal(m1.deals@[a].status) && !is_terminal(
            m1.deals@[b].status,
        ) implies bucket_ref_of(m1.deals@[a]) != bucket_ref_of(m1.deals@[b]) by {
        if b < n {
            assert(bucket_ref_of(m0.deals@[a]) != bucket_ref_of(m0.deals@[b]));
        } else {
            assert(bucket_ref_of(m0.deals@[a]) != k);
        }
    }
    assert forall|a: int|
        0 <= a < m1.deals@.len() && !is_terminal((#[trigger] m1.deals@[a]).status)
        implies m1.has_bucket(bucket_ref_of(m1.deals@[a])) && m1.bucket_at(
        bucket_ref_of(m1.deals@[a]),
    ).locked by {
        if a < n {
            let ka = bucket_ref_of(m0.deals@[a]);
            assert(m0.has_bucket(ka) && m0.bucket_at(ka).locked);
            let w = m0.bucket_idx(ka);
            assert(0 <= w < m0.buckets@.len() && bucket_key_of(m0.buckets@[w]) == ka);
            assert(w != bidx);
            assert(bucket_key_of(m1.buckets@[w]) == ka);
            lemma_bucket_lookup(m1, ka, w);
        } else {
            lemma_bucket_lookup(m1, k, bidx);
        }
    }
    assert forall|bi: int|
        0 <= bi < m1.buckets@.len() && (#[trigger] m1.buckets@[bi]).locked
        implies exists|a: int|
            0 <= a < m1.deals@.len() && !is_terminal((#[trigger] m1.deals@[a]).status)
                && bucket_ref_of(m1.deals@[a]) == bucket_key_of(m1.buckets@[bi]) by {
        if bi == bidx {
            assert(0 <= n < m1.deals@.len() && !is_terminal(m1.deals@[n].status)
                && bucket_ref_of(m1.deals@[n]) == bucket_key_of(m1.buckets@[bidx]));
        } else {
            assert(m0.buckets@[bi].locked);
            let a = choose|a: int|
                0 <= a < m0.deals@.len() && !is_terminal((#[trigger] m0.deals@[a]).status)
                    && bucket_ref_of(m0.deals@[a]) == bucket_key_of(m0.buckets@[bi]);
            assert(0 <= a < m1.deals@.len() && !is_terminal(m1.deals@[a].status)
                && bucket_ref_of(m1.deals@[a]) == bucket_key_of(m1.buckets@[bi]));
        }
    }

    // engagement_wf
    assert forall|x: DealKey| #[trigger] m1.has_engaged_deal(x) <==> m0.has_engaged_deal(x) by {
        if m1.has_engaged_deal(x) {
            let w = choose|a: int|
                0 <= a < m1.deals@.len() && deal_key_of(#[trigger] m1.deals@[a]) == x
                    && is_engaged(m1.deals@[a].status);
            assert(w < n);
            assert(deal_key_of(m0.deals@[w]) == x && is_engaged(m0.deals@[w].status));
        }
        if m0.has_engaged_deal(x) {
            let w = choose|a: int|
                0 <= a < m0.deals@.len() && deal_key_of(#[trigger] m0.deals@[a]) == x
                    && is_engaged(m0.deals@[a].status);
            assert(deal_key_of(m1.deals@[w]) == x && is_engaged(m1.deals@[w].status));
        }
    }
    assert forall|pi: int, x: DealKey|
        #![trigger m1.providers@[pi].active_deals@.contains(x)]
        0 <= pi < m1.providers@.len()
        implies (m1.providers@[pi].active_deals@.contains(x) <==> (m1.has_engaged_deal(x)
            && x.provider_id == m1.providers@[pi].provider_id)) by {
        assert(m0.providers@[pi].active_deals@.contains(x) <==> (m0.has_engaged_deal(x)
            && x.provider_id == m0.providers@[pi].provider_id));
    }
    assert forall|ci: int, x: DealKey|
        #![trigger m1.consumers@[ci].active_deals@.contains(x)]
        0 <= ci < m1.consumers@.len()
        implies (m1.consumers@[ci].active_deals@.contains(x) <==> (m1.has_engaged_deal(x)
            && x.consumer_id == m1.consumers@[ci].consumer_id)) by {
        assert(m0.consumers@[ci].active_deals@.contains(x) <==> (m0.has_engaged_deal(x)
            && x.consumer_id == m0.consumers@[ci].consumer_id));
    }
    assert forall|a: int|
        0 <= a < m1.deals@.len() && is_engaged((#[trigger] m1.deals@[a]).status)
        implies m1.has_provider(m1.deals@[a].provider_id) && m1.has_consumer(
        m1.deals@[a].consumer_id,
    ) by {
        assert(a < n);
        assert(is_engaged(m0.deals@[a].status));
        assert(m0.has_provider(m0.deals@[a].provider_id));
        assert(m0.has_consumer(m0.deals@[a].consumer_id));
    }

    // balances_wf
    assert forall|a: int|
        0 <= a < m1.deals@.len() && !is_engaged((#[trigger] m1.deals@[a]).status)
        implies m1.deals@[a].balance_consumer == 0 by {
        if a < n {
            assert(m0.deals@[a].balance_consumer == 0);
        }
    }
}

} // verus!
