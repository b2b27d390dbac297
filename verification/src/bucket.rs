//! Bucket registry operations: publishing priced buckets, updating their
//! descriptive, pricing, and SLA terms while they are unreserved, and
//! deleting them. The host authenticates the acting provider before calling
//! anything here.

use vstd::prelude::*;
use vstd::string::StringExecFns;

use crate::market::bucket_key_list_without;
use crate::market::lemma_bucket_lookup;
use crate::market::lemma_same_deals;
use crate::market::lemma_same_parties;
use crate::market::lemma_wf_after_bucket_update;
use crate::market::lemma_wf_after_provider_update;
use crate::market::window;
use crate::market::Marketplace;
use crate::types::bucket_key_of;
use crate::types::bucket_ref_of;
use crate::types::is_engaged;
use crate::types::is_terminal;
use crate::types::provider_fields_except_buckets;
use crate::types::AccountId;
use crate::types::Bucket;
use crate::types::BucketKey;
use crate::types::DealKey;
use crate::types::MarketError;

verus! {

/// A freshly published bucket: unlocked, default SLA targets (no latency
/// bound published yet, 99.90% uptime), no capacity caps, private scope.
pub open spec fn is_fresh_bucket(
    b: Bucket,
    provider_id: AccountId,
    bucket_id: u32,
    name: String,
    region: String,
    country: String,
    versioning_enabled: bool,
    fb_bucket_id: String,
    api_compatibility: String,
    price_per_gb_storage: u128,
    price_per_gb_egress: u128,
    now_ts: u64,
) -> bool {
    &&& b.provider_id == provider_id
    &&& b.bucket_id == bucket_id
    &&& b.name == name
    &&& b.region == region
    &&& b.country == country
    &&& b.fb_bucket_id == fb_bucket_id
    &&& b.api_compatibility == api_compatibility
    &&& b.access_scope@ == "private"@
    &&& b.versioning_enabled == versioning_enabled
    &&& !b.encryption_at_rest
    &&& !b.encryption_in_transit
    &&& !b.object_locking
    &&& b.price_per_gb_storage == price_per_gb_storage
    &&& b.price_per_gb_egress == price_per_gb_egress
    &&& b.max_storage_gb == 0
    &&& b.max_egress_gb == 0
    &&& b.sla_avg_latency_ms == 0
    &&& b.sla_avg_uptime_pct == 9990
    &&& b.created_ts == now_ts
    &&& !b.locked
}

/// A bucket after a descriptive update: each given field replaces the old
/// one.
pub open spec fn with_basic(
    b: Bucket,
    name: Option<String>,
    region: Option<String>,
    country: Option<String>,
) -> Bucket {
    Bucket {
        name: match name {
            Some(n) => n,
            None => b.name,
        },
        region: match region {
            Some(r) => r,
            None => b.region,
        },
        country: match country {
            Some(c) => c,
            None => b.country,
        },
        ..b
    }
}

/// A bucket after a pricing update: each given field replaces the old one.
pub open spec fn with_pricing(
    b: Bucket,
    price_per_gb_storage: Option<u128>,
    price_per_gb_egress: Option<u128>,
    max_storage_gb: Option<u32>,
    max_egress_gb: Option<u32>,
) -> Bucket {
    Bucket {
        price_per_gb_storage: match price_per_gb_storage {
            Some(p) => p,
            None => b.price_per_gb_storage,
        },
        price_per_gb_egress: match price_per_gb_egress {
            Some(p) => p,
            None => b.price_per_gb_egress,
        },
        max_storage_gb: match max_storage_gb {
            Some(m) => m,
            None => b.max_storage_gb,
        },
        max_egress_gb: match max_egress_gb {
            Some(m) => m,
            None => b.max_egress_gb,
        },
        ..b
    }
}

/// A bucket after an SLA update: each given field replaces the old one.
pub open spec fn with_sla(
    b: Bucket,
    sla_avg_latency_ms: Option<u32>,
    sla_avg_uptime_pct: Option<u32>,
) -> Bucket {
    Bucket {
        sla_avg_latency_ms: match sla_avg_latency_ms {
            Some(s) => s,
            None => b.sla_avg_latency_ms,
        },
        sla_avg_uptime_pct: match sla_avg_uptime_pct {
            Some(s) => s,
            None => b.sla_avg_uptime_pct,
        },
        ..b
    }
}

/// The buckets that a key collection resolves to, in collection order; keys
/// of deleted buckets are passed over.
pub open spec fn resolved_buckets(m: Marketplace, keys: Seq<BucketKey>) -> Seq<Bucket>
    decreases keys.len(),
{
    if keys.len() == 0 {
        Seq::empty()
    } else {
        let rest = resolved_buckets(m, keys.drop_last());
        if m.has_bucket(keys.last()) {
            rest.push(m.bucket_at(keys.last()))
        } else {
            rest
        }
    }
}

impl Marketplace {
    /// Publish a new bucket for a registered provider. Returns the new
    /// bucket's identifier.
    pub fn create_bucket(
        &mut self,
        provider_id: AccountId,
        name: String,
        region: String,
        country: String,
        versioning_enabled: bool,
        fb_bucket_id: String,
        api_compatibility: String,
        price_per_gb_storage: u128,
        price_per_gb_egress: u128,
        now_ts: u64,
    ) -> (r: Result<u32, MarketError>)
        requires
            old(self).wf(),
            old(self).bucket_count < u32::MAX,
        ensures
            final(self).wf(),
            match r {
                Ok(id) => {
                    let pi = old(self).provider_idx(provider_id);
                    &&& old(self).has_provider(provider_id)
                    &&& id == old(self).bucket_count
                    &&& final(self).bucket_count == old(self).bucket_count + 1
                    &&& final(self).deal_count == old(self).deal_count
                    &&& final(self).buckets@ == old(self).buckets@.push(
                        final(self).buckets@.last(),
                    )
                    &&& is_fresh_bucket(
                        final(self).buckets@.last(),
                        provider_id,
                        id,
                        name,
                        region,
                        country,
                        versioning_enabled,
                        fb_bucket_id,
                        api_compatibility,
                        price_per_gb_storage,
                        price_per_gb_egress,
                        now_ts,
                    )
                    &&& final(self).consumers@ == old(self).consumers@
                    &&& final(self).deals@ == old(self).deals@
                    &&& final(self).providers@ == old(self).providers@.update(
                        pi,
                        final(self).providers@[pi],
                    )
                    &&& provider_fields_except_buckets(
                        old(self).provider_at(provider_id),
                        final(self).providers@[pi],
                    )
                    &&& final(self).providers@[pi].buckets@ == old(self).provider_at(
                        provider_id,
                    ).buckets@.push((BucketKey { provider_id, bucket_id: id }))
                },
                Err(e) => e == MarketError::ProviderNotFound && !old(self).has_provider(
                    provider_id,
                ) && *final(self) == *old(self),
            },
    {
        let pidx = match self.find_provider(provider_id) {
            Some(i) => i,
            None => {
                return Err(MarketError::ProviderNotFound);
            },
        };
        let bucket_id = self.bucket_count;
        let fresh = Bucket {
            provider_id: provider_id,
            bucket_id: bucket_id,
            name: name,
            region: region,
            country: country,
            fb_bucket_id: fb_bucket_id,
            api_compatibility: api_compatibility,
            access_scope: String::from_str("private"),
            versioning_enabled: versioning_enabled,
            encryption_at_rest: false,
            encryption_in_transit: false,
            object_locking: false,
            price_per_gb_storage: price_per_gb_storage,
            price_per_gb_egress: price_per_gb_egress,
            max_storage_gb: 0,
            max_egress_gb: 0,
            sla_avg_latency_ms: 0,
            sla_avg_uptime_pct: 9990,
            created_ts: now_ts,
            locked: false,
        };
        let ghost m0 = *self;
        self.buckets.push(fresh);
        self.bucket_count = bucket_id + 1;
        proof {
            let m1 = *self;
            lemma_wf_after_fresh_bucket(m0, m1);
        }
        let ghost m1 = *self;
        let p = &mut self.providers[pidx];
        p.buckets.push(BucketKey { provider_id, bucket_id });
        proof {
            let m2 = *self;
            assert(m2.providers@ == m1.providers@.update(pidx as int, m2.providers@[pidx as int]));
            lemma_wf_after_provider_update(m1, m2, pidx as int);
        }
        Ok(bucket_id)
    }

    /// Publish a new bucket from an existing record, reusing its identity,
    /// descriptive, and pricing fields; everything else takes the defaults of
    /// a fresh bucket.
    pub fn create_from_bucket(&mut self, bucket: Bucket, now_ts: u64) -> (r: Result<
        u32,
        MarketError,
    >)
        requires
            old(self).wf(),
            old(self).bucket_count < u32::MAX,
        ensures
            final(self).wf(),
            match r {
                Ok(id) => old(self).has_provider(bucket.provider_id) && id == old(
                    self,
                ).bucket_count && final(self).bucket_count == old(self).bucket_count + 1
                    && final(self).buckets@ == old(self).buckets@.push(
                    final(self).buckets@.last(),
                ) && is_fresh_bucket(
                    final(self).buckets@.last(),
                    bucket.provider_id,
                    id,
                    bucket.name,
                    bucket.region,
                    bucket.country,
                    bucket.versioning_enabled,
                    bucket.fb_bucket_id,
                    bucket.api_compatibility,
                    bucket.price_per_gb_storage,
                    bucket.price_per_gb_egress,
                    now_ts,
                ),
                Err(e) => e == MarketError::ProviderNotFound && !old(self).has_provider(
                    bucket.provider_id,
                ) && *final(self) == *old(self),
            },
    {
        self.create_bucket(
            bucket.provider_id,
            bucket.name,
            bucket.region,
            bucket.country,
            bucket.versioning_enabled,
            bucket.fb_bucket_id,
            bucket.api_compatibility,
            bucket.price_per_gb_storage,
            bucket.price_per_gb_egress,
            now_ts,
        )
    }

    /// Update a bucket's descriptive fields. Fails while the bucket is
    /// reserved by a deal.
    pub fn update_bucket_basic(
        &mut self,
        provider_id: AccountId,
        bucket_id: u32,
        name: Option<String>,
        region: Option<String>,
        country: Option<String>,
    ) -> (r: Result<bool, MarketError>)
        requires
            old(self).wf(),
        ensures
            final(self).wf(),
            bucket_update_outcome(
                *old(self),
                *final(self),
                (BucketKey { provider_id, bucket_id }),
                r,
                with_basic(
                    old(self).bucket_at((BucketKey { provider_id, bucket_id })),
                    name,
                    region,
                    country,
                ),
            ),
    {
        let k = BucketKey { provider_id, bucket_id };
        let idx = match self.find_bucket(k) {
            Some(i) => i,
            None => {
                return Err(MarketError::BucketNotFound);
            },
        };
        if self.buckets[idx].locked {
            return Err(MarketError::BucketLocked);
        }
        let ghost m0 = *self;
        let b = &mut self.buckets[idx];
        if let Some(n) = name {
            b.name = n;
        }
        if let Some(rg) = region {
            b.region = rg;
        }
        if let Some(c) = country {
            b.country = c;
        }
        proof {
            let m1 = *self;
            assert(m1.buckets@ == m0.buckets@.update(idx as int, m1.buckets@[idx as int]));
            assert(m1.buckets@[idx as int] == with_basic(m0.bucket_at(k), name, region, country));
            lemma_wf_after_bucket_update(m0, m1, idx as int);
        }
        Ok(true)
    }

    /// Update a bucket's pricing and capacity caps. Fails while the bucket
    /// is reserved by a deal.
    pub fn update_bucket_pricing(
        &mut self,
        provider_id: AccountId,
        bucket_id: u32,
        price_per_gb_storage: Option<u128>,
        price_per_gb_egress: Option<u128>,
        max_storage_gb: Option<u32>,
        max_egress_gb: Option<u32>,
    ) -> (r: Result<bool, MarketError>)
        requires
            old(self).wf(),
        ensures
            final(self).wf(),
            bucket_update_outcome(
                *old(self),
                *final(self),
                (BucketKey { provider_id, bucket_id }),
                r,
                with_pricing(
                    old(self).bucket_at((BucketKey { provider_id, bucket_id })),
                    price_per_gb_storage,
                    price_per_gb_egress,
                    max_storage_gb,
                    max_egress_gb,
                ),
            ),
    {
        let k = BucketKey { provider_id, bucket_id };
        let idx = match self.find_bucket(k) {
            Some(i) => i,
            None => {
                return Err(MarketError::BucketNotFound);
            },
        };
        if self.buckets[idx].locked {
            return Err(MarketError::BucketLocked);
        }
        let ghost m0 = *self;
        let b = &mut self.buckets[idx];
        if let Some(p) = price_per_gb_storage {
            b.price_per_gb_storage = p;
        }
        if let Some(p) = price_per_gb_egress {
            b.price_per_gb_egress = p;
        }
        if let Some(m) = max_storage_gb {
            b.max_storage_gb = m;
        }
        if let Some(m) = max_egress_gb {
            b.max_egress_gb = m;
        }
        proof {
            let m1 = *self;
            assert(m1.buckets@ == m0.buckets@.update(idx as int, m1.buckets@[idx as int]));
            assert(m1.buckets@[idx as int] == with_pricing(
                m0.bucket_at(k),
                price_per_gb_storage,
                price_per_gb_egress,
                max_storage_gb,
                max_egress_gb,
            ));
            lemma_wf_after_bucket_update(m0, m1, idx as int);
        }
        Ok(true)
    }

    /// Update a bucket's published SLA targets. Fails while the bucket is
    /// reserved by a deal.
    pub fn update_bucket_sla(
        &mut self,
        provider_id: AccountId,
        bucket_id: u32,
        sla_avg_latency_ms: Option<u32>,
        sla_avg_uptime_pct: Option<u32>,
    ) -> (r: Result<bool, MarketError>)
        requires
            old(self).wf(),
        ensures
            final(self).wf(),
            bucket_update_outcome(
                *old(self),
                *final(self),
                (BucketKey { provider_id, bucket_id }),
                r,
                with_sla(
                    old(self).bucket_at((BucketKey { provider_id, bucket_id })),
                    sla_avg_latency_ms,
                    sla_avg_uptime_pct,
                ),
            ),
    {
        let k = BucketKey { provider_id, bucket_id };
        let idx = match self.find_bucket(k) {
            Some(i) => i,
            None => {
                return Err(MarketError::BucketNotFound);
            },
        };
        if self.buckets[idx].locked {
            return Err(MarketError::BucketLocked);
        }
        let ghost m0 = *self;
        let b = &mut self.buckets[idx];
        if let Some(s) = sla_avg_latency_ms {
            b.sla_avg_latency_ms = s;
        }
        if let Some(s) = sla_avg_uptime_pct {
            b.sla_avg_uptime_pct = s;
        }
        proof {
            let m1 = *self;
            assert(m1.buckets@ == m0.buckets@.update(idx as int, m1.buckets@[idx as int]));
            assert(m1.buckets@[idx as int] == with_sla(
                m0.bucket_at(k),
                sla_avg_latency_ms,
                sla_avg_uptime_pct,
            ));
            lemma_wf_after_bucket_update(m0, m1, idx as int);
        }
        Ok(true)
    }

    /// Delete an unreserved bucket and drop its key from the provider's
    /// collection. Fails while the bucket is reserved by a deal.
    pub fn delete_bucket(&mut self, provider_id: AccountId, bucket_id: u32) -> (r: Result<
        bool,
        MarketError,
    >)
        requires
            old(self).wf(),
        ensures
            final(self).wf(),
            match r {
                Ok(b) => {
                    let k = BucketKey { provider_id, bucket_id };
                    let pi = old(self).provider_idx(provider_id);
                    &&& b
                    &&& old(self).has_bucket(k)
                    &&& !old(self).bucket_at(k).locked
                    &&& old(self).has_provider(provider_id)
                    &&& final(self).buckets@ == old(self).buckets@.remove(old(self).bucket_idx(k))
                    &&& final(self).providers@ == old(self).providers@.update(
                        pi,
                        final(self).providers@[pi],
                    )
                    &&& provider_fields_except_buckets(
                        old(self).provider_at(provider_id),
                        final(self).providers@[pi],
                    )
                    &&& forall|x: BucketKey|
                        #[trigger] final(self).providers@[pi].buckets@.contains(x) <==> (old(
                            self,
                        ).provider_at(provider_id).buckets@.contains(x) && x != k)
                    &&& final(self).consumers@ == old(self).consumers@
                    &&& final(self).deals@ == old(self).deals@
                    &&& final(self).bucket_count == old(self).bucket_count
                    &&& final(self).deal_count == old(self).deal_count
                },
                Err(e) => {
                    let k = BucketKey { provider_id, bucket_id };
                    &&& *final(self) == *old(self)
                    &&& (e == MarketError::BucketNotFound || e == MarketError::BucketLocked
                        || e == MarketError::ProviderNotFound)
                    &&& (e == MarketError::BucketNotFound <==> !old(self).has_bucket(k))
                    &&& (e == MarketError::BucketLocked <==> old(self).has_bucket(k) && old(
                        self,
                    ).bucket_at(k).locked)
                    &&& (e == MarketError::ProviderNotFound <==> old(self).has_bucket(k) && !old(
                        self,
                    ).bucket_at(k).locked && !old(self).has_provider(provider_id))
                },
            },
    {
        let k = BucketKey { provider_id, bucket_id };
        let bidx = match self.find_bucket(k) {
            Some(i) => i,
            None => {
                return Err(MarketError::BucketNotFound);
            },
        };
        if self.buckets[bidx].locked {
            return Err(MarketError::BucketLocked);
        }
        let pidx = match self.find_provider(provider_id) {
            Some(i) => i,
            None => {
                return Err(MarketError::ProviderNotFound);
            },
        };
        let ghost m0 = *self;
        let trimmed = bucket_key_list_without(&self.providers[pidx].buckets, k);
        let p = &mut self.providers[pidx];
        p.buckets = trimmed;
        proof {
            let m1 = *self;
            assert(m1.providers@ == m0.providers@.update(pidx as int, m1.providers@[pidx as int]));
            lemma_wf_after_provider_update(m0, m1, pidx as int);
        }
        let ghost m1 = *self;
        self.buckets.remove(bidx);
        proof {
            let m2 = *self;
            lemma_wf_after_bucket_removed(m1, m2, bidx as int);
        }
        Ok(true)
    }

    /// Look a bucket up by its key.
    pub fn get_bucket(&self, provider_id: AccountId, bucket_id: u32) -> (r: Option<Bucket>)
        requires
            self.wf(),
        ensures
            match r {
                Some(b) => self.has_bucket((BucketKey { provider_id, bucket_id })) && b
                    == self.bucket_at((BucketKey { provider_id, bucket_id })),
                None => !self.has_bucket((BucketKey { provider_id, bucket_id })),
            },
    {
        let k = BucketKey { provider_id, bucket_id };
        match self.find_bucket(k) {
            Some(i) => Some(self.buckets[i].clone()),
            None => None,
        }
    }

    /// The number of buckets ever created.
    pub fn get_bucket_count(&self) -> (r: u32)
        ensures
            r == self.bucket_count,
    {
        self.bucket_count
    }

    /// At most `take` buckets, in creation order, after skipping the first
    /// `skip`.
    pub fn get_buckets(&self, skip: u32, take: u32) -> (r: Vec<Bucket>)
        requires
            self.wf(),
        ensures
            r@ == window(self.buckets@, skip as int, take as int),
    {
        let n: usize = self.buckets.len();
        let mut out: Vec<Bucket> = Vec::new();
        let start: usize = if (skip as usize) < n {
            skip as usize
        } else {
            n
        };
        let mut i: usize = start;
        let mut count: u32 = 0;
        while i < n && count < take
            invariant
                n == self.buckets@.len(),
                start <= i <= n,
                count == i - start,
                count <= take,
                out@ =~= self.buckets@.subrange(start as int, i as int),
            decreases n - i,
        {
            out.push(self.buckets[i].clone());
            proof {
                assert(self.buckets@.subrange(start as int, i as int + 1)
                    =~= self.buckets@.subrange(start as int, i as int).push(
                    self.buckets@[i as int],
                ));
            }
            i = i + 1;
            count = count + 1;
        }
        proof {
            assert(out@ =~= window(self.buckets@, skip as int, take as int));
        }
        out
    }

    /// Every existing bucket whose key stands in the provider's collection,
    /// in collection order.
    pub fn get_buckets_by_provider(&self, provider_id: AccountId) -> (r: Result<
        Vec<Bucket>,
        MarketError,
    >)
        requires
            self.wf(),
        ensures
            match r {
                Ok(v) => self.has_provider(provider_id) && v@ == resolved_buckets(
                    *self,
                    self.provider_at(provider_id).buckets@,
                ),
                Err(e) => e == MarketError::ProviderNotFound && !self.has_provider(provider_id),
            },
    {
        let pidx = match self.find_provider(provider_id) {
            Some(i) => i,
            None => {
                return Err(MarketError::ProviderNotFound);
            },
        };
        let keys = &self.providers[pidx].buckets;
        let n: usize = keys.len();
        let mut out: Vec<Bucket> = Vec::new();
        let mut i: usize = 0;
        while i < n
            invariant
                self.wf(),
                n == keys@.len(),
                keys@ == self.provider_at(provider_id).buckets@,
                0 <= i <= n,
                out@ =~= resolved_buckets(*self, keys@.subrange(0, i as int)),
            decreases n - i,
        {
            proof {
                assert(keys@.subrange(0, i as int + 1).drop_last() =~= keys@.subrange(
                    0,
                    i as int,
                ));
                assert(keys@.subrange(0, i as int + 1).last() == keys@[i as int]);
            }
            if let Some(j) = self.find_bucket(keys[i]) {
                out.push(self.buckets[j].clone());
            }
            i = i + 1;
        }
        proof {
            assert(keys@.subrange(0, n as int) =~= keys@);
        }
        Ok(out)
    }
}

/// The outcome every bucket-update operation reports: `Ok(true)` with the
/// bucket replaced by `updated` when it exists and is unreserved,
/// `BucketNotFound` or `BucketLocked` (and no change) otherwise.
pub open spec fn bucket_update_outcome(
    m0: Marketplace,
    m1: Marketplace,
    k: BucketKey,
    r: Result<bool, MarketError>,
    updated: Bucket,
) -> bool {
    match r {
        Ok(b) => {
            &&& b
            &&& m0.has_bucket(k)
            &&& !m0.bucket_at(k).locked
            &&& m1.buckets@ == m0.buckets@.update(m0.bucket_idx(k), updated)
            &&& m1.providers@ == m0.providers@
            &&& m1.consumers@ == m0.consumers@
            &&& m1.deals@ == m0.deals@
            &&& m1.bucket_count == m0.bucket_count
            &&& m1.deal_count == m0.deal_count
        },
        Err(e) => {
            &&& m1 == m0
            &&& (e == MarketError::BucketNotFound <==> !m0.has_bucket(k))
            &&& (e == MarketError::BucketLocked <==> m0.has_bucket(k) && m0.bucket_at(k).locked)
            &&& (e == MarketError::BucketNotFound || e == MarketError::BucketLocked)
        },
    }
}

/// Pushing a fresh unlocked bucket with the next identifier, and advancing
/// the identifier counter, preserves the whole invariant.
proof fn lemma_wf_after_fresh_bucket(m0: Marketplace, m1: Marketplace)
    requires
        m0.wf(),
        m0.bucket_count < u32::MAX,
        m1.providers@ == m0.providers@,
        m1.consumers@ == m0.consumers@,
        m1.deals@ == m0.deals@,
        m1.deal_count == m0.deal_count,
        m1.bucket_count == m0.bucket_count + 1,
        m1.buckets@ == m0.buckets@.push(m1.buckets@.last()),
        m1.buckets@.last().bucket_id == m0.bucket_count,
        !m1.buckets@.last().locked,
    ensures
        m1.wf(),
{
    lemma_same_parties(m0, m1);
    lemma_same_deals(m0, m1);
    let n = m0.buckets@.len() as int;
    assert(forall|a: int| 0 <= a < n ==> #[trigger] m1.buckets@[a] == m0.buckets@[a]);

    assert forall|a: int| 0 <= a < m1.buckets@.len() implies (#[trigger] m1.buckets@[a]).bucket_id
        < m1.bucket_count by {
        if a < n {
            assert(m0.buckets@[a].bucket_id < m0.bucket_count);
        }
    }
    assert forall|a: int, b: int|
        #![trigger m1.buckets@[a], m1.buckets@[b]]
        0 <= a < b < m1.buckets@.len() implies m1.buckets@[a].bucket_id
        != m1.buckets@[b].bucket_id by {
        if b < n {
            assert(m0.buckets@[a].bucket_id != m0.buckets@[b].bucket_id);
        } else {
            assert(m0.buckets@[a].bucket_id < m0.bucket_count);
        }
    }

    assert forall|a: int|
        0 <= a < m1.deals@.len() && !is_terminal((#[trigger] m1.deals@[a]).status)
        implies m1.has_bucket(bucket_ref_of(m1.deals@[a])) && m1.bucket_at(
        bucket_ref_of(m1.deals@[a]),
    ).locked by {
        let k = bucket_ref_of(m0.deals@[a]);
        assert(m0.has_bucket(k) && m0.bucket_at(k).locked);
        let w = m0.bucket_idx(k);
        assert(0 <= w < n && bucket_key_of(m0.buckets@[w]) == k);
        assert(bucket_key_of(m1.buckets@[w]) == k);
        lemma_bucket_lookup(m1, k, w);
    }
    assert forall|bi: int|
        0 <= bi < m1.buckets@.len() && (#[trigger] m1.buckets@[bi]).locked
        implies exists|a: int|
            0 <= a < m1.deals@.len() && !is_terminal((#[trigger] m1.deals@[a]).status)
                && bucket_ref_of(m1.deals@[a]) == bucket_key_of(m1.buckets@[bi]) by {
        assert(bi < n);
        assert(m0.buckets@[bi].locked);
        let a = choose|a: int|
            0 <= a < m0.deals@.len() && !is_terminal((#[trigger] m0.deals@[a]).status)
                && bucket_ref_of(m0.deals@[a]) == bucket_key_of(m0.buckets@[bi]);
        assert(0 <= a < m1.deals@.len() && !is_terminal(m1.deals@[a].status)
            && bucket_ref_of(m1.deals@[a]) == bucket_key_of(m1.buckets@[bi]));
    }

    assert forall|pi: int, k: DealKey|
        #![trigger m1.providers@[pi].active_deals@.contains(k)]
        0 <= pi < m1.providers@.len()
        implies (m1.providers@[pi].active_deals@.contains(k) <==> (m1.has_engaged_deal(k)
            && k.provider_id == m1.providers@[pi].provider_id)) by {
        assert(m0.providers@[pi].active_deals@.contains(k) <==> (m0.has_engaged_deal(k)
            && k.provider_id == m0.providers@[pi].provider_id));
    }
    assert forall|ci: int, k: DealKey|
        #![trigger m1.consumers@[ci].active_deals@.contains(k)]
        0 <= ci < m1.consumers@.len()
        implies (m1.consumers@[ci].active_deals@.contains(k) <==> (m1.has_engaged_deal(k)
            && k.consumer_id == m1.consumers@[ci].consumer_id)) by {
        assert(m0.consumers@[ci].active_deals@.contains(k) <==> (m0.has_engaged_deal(k)
            && k.consumer_id == m0.consumers@[ci].consumer_id));
    }
    assert forall|a: int|
        0 <= a < m1.deals@.len() && is_engaged((#[trigger] m1.deals@[a]).status)
        implies m1.has_provider(m1.deals@[a].provider_id) && m1.has_consumer(
        m1.deals@[a].consumer_id,
    ) by {
        assert(is_engaged(m0.deals@[a].status));
        assert(m0.has_provider(m0.deals@[a].provider_id));
        assert(m0.has_consumer(m0.deals@[a].consumer_id));
    }
}

/// Removing an unreserved bucket preserves the whole invariant.
proof fn lemma_wf_after_bucket_removed(m0: Marketplace, m1: Marketplace, i: int)
    requires
        m0.wf(),
        0 <= i < m0.buckets@.len(),
        !m0.buckets@[i].locked,
        m1.providers@ == m0.providers@,
        m1.consumers@ == m0.consumers@,
        m1.deals@ == m0.deals@,
        m1.deal_count == m0.deal_count,
        m1.bucket_count == m0.bucket_count,
        m1.buckets@ == m0.buckets@.remove(i),
    ensures
        m1.wf(),
{
    lemma_same_parties(m0, m1);
    lemma_same_deals(m0, m1);
    let n = m0.buckets@.len() as int;
    assert(forall|a: int| 0 <= a < i ==> #[trigger] m1.buckets@[a] == m0.buckets@[a]);
    assert(forall|a: int| i <= a < n - 1 ==> #[trigger] m1.buckets@[a] == m0.buckets@[a + 1]);

    assert forall|a: int| 0 <= a < m1.buckets@.len() implies (#[trigger] m1.buckets@[a]).bucket_id
        < m1.bucket_count by {
        let a0: int = if a < i {
            a
        } else {
            a + 1
        };
        assert(m0.buckets@[a0].bucket_id < m0.bucket_count);
    }
    assert forall|a: int, b: int|
        #![trigger m1.buckets@[a], m1.buckets@[b]]
        0 <= a < b < m1.buckets@.len() implies m1.buckets@[a].bucket_id
        != m1.buckets@[b].bucket_id by {
        let a0: int = if a < i {
            a
        } else {
            a + 1
        };
        let b0: int = if b < i {
            b
        } else {
            b + 1
        };
        assert(m0.buckets@[a0].bucket_id != m0.buckets@[b0].bucket_id);
    }

    assert forall|a: int|
        0 <= a < m1.deals@.len() && !is_terminal((#[trigger] m1.deals@[a]).status)
        implies m1.has_bucket(bucket_ref_of(m1.deals@[a])) && m1.bucket_at(
        bucket_ref_of(m1.deals@[a]),
    ).locked by {
        let k = bucket_ref_of(m0.deals@[a]);
        assert(m0.has_bucket(k) && m0.bucket_at(k).locked);
        let w = m0.bucket_idx(k);
        assert(0 <= w < n && bucket_key_of(m0.buckets@[w]) == k);
        assert(w != i);
        let w1: int = if w < i {
            w
        } else {
            w - 1
        };
        assert(m1.buckets@[w1] == m0.buckets@[w]);
        lemma_bucket_lookup(m1, k, w1);
    }
    assert forall|bi: int|
        0 <= bi < m1.buckets@.len() && (#[trigger] m1.buckets@[bi]).locked
        implies exists|a: int|
            0 <= a < m1.deals@.len() && !is_terminal((#[trigger] m1.deals@[a]).status)
                && bucket_ref_of(m1.deals@[a]) == bucket_key_of(m1.buckets@[bi]) by {
        let bi0: int = if bi < i {
            bi
        } else {
            bi + 1
        };
        assert(m1.buckets@[bi] == m0.buckets@[bi0]);
        assert(m0.buckets@[bi0].locked);
        let a = choose|a: int|
            0 <= a < m0.deals@.len() && !is_terminal((#[trigger] m0.deals@[a]).status)
                && bucket_ref_of(m0.deals@[a]) == bucket_key_of(m0.buckets@[bi0]);
        assert(0 <= a < m1.deals@.len() && !is_terminal(m1.deals@[a].status)
            && bucket_ref_of(m1.deals@[a]) == bucket_key_of(m1.buckets@[bi]));
    }

    assert forall|pi: int, k: DealKey|
        #![trigger m1.providers@[pi].active_deals@.contains(k)]
        0 <= pi < m1.providers@.len()
        implies (m1.providers@[pi].active_deals@.contains(k) <==> (m1.has_engaged_deal(k)
            && k.provider_id == m1.providers@[pi].provider_id)) by {
        assert(m0.providers@[pi].active_deals@.contains(k) <==> (m0.has_engaged_deal(k)
            && k.provider_id == m0.providers@[pi].provider_id));
    }
    assert forall|ci: int, k: DealKey|
        #![trigger m1.consumers@[ci].active_deals@.contains(k)]
        0 <= ci < m1.consumers@.len()
        implies (m1.consumers@[ci].active_deals@.contains(k) <==> (m1.has_engaged_deal(k)
            && k.consumer_id == m1.consumers@[ci].consumer_id)) by {
        assert(m0.consumers@[ci].active_deals@.contains(k) <==> (m0.has_engaged_deal(k)
            && k.consumer_id == m0.consumers@[ci].consumer_id));
    }
    assert forall|a: int|
        0 <= a < m1.deals@.len() && is_engaged((#[trigger] m1.deals@[a]).status)
        implies m1.has_provider(m1.deals@[a].provider_id) && m1.has_consumer(
        m1.deals@[a].consumer_id,
    ) by {
        assert(is_engaged(m0.deals@[a].status));
        assert(m0.has_provider(m0.deals@[a].provider_id));
        assert(m0.has_consumer(m0.deals@[a].consumer_id));
    }
}

} // verus!
