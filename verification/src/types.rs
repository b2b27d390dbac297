//! The records of the marketplace — buckets, deals, providers, consumers —
//! their keys, statuses, and the errors the operations report.

use vstd::prelude::*;

verus! {

/// A participant's account identifier on the ledger.
pub type AccountId = u64;

/// The lifecycle status of a deal.
#[derive(Clone, Copy, PartialEq, Eq, Structural, Debug)]
pub enum DealStatus {
    /// Created by the consumer, awaiting the provider's acceptance.
    Pending,
    /// Accepted by the provider, awaiting the consumer's escrow funding.
    Accepted,
    /// Escrow funded; consumption is being metered and settled.
    Funded,
    /// Escrow ran short of the amount due; settlement was prorated.
    BreachedConsumer,
    /// The provider missed the bucket's SLA terms; its claim was slashed.
    BreachedProvider,
    /// Terminal: closed by the consumer after full service.
    Completed,
    /// Terminal: closed by the provider after a consumer-side breach.
    Cancelled,
}

/// A deal in `Completed` or `Cancelled` no longer reserves its bucket and
/// accepts no further transition.
pub open spec fn is_terminal(s: DealStatus) -> bool {
    s == DealStatus::Completed || s == DealStatus::Cancelled
}

/// A deal is engaged (holds a funded escrow and stands in both parties'
/// active-deal collections) in `Funded` and in either breached status.
pub open spec fn is_engaged(s: DealStatus) -> bool {
    s == DealStatus::Funded || s == DealStatus::BreachedConsumer
        || s == DealStatus::BreachedProvider
}

/// Identifies a bucket: buckets belong to exactly one provider.
#[derive(Clone, Copy, PartialEq, Eq, Structural, Debug)]
pub struct BucketKey {
    pub provider_id: AccountId,
    pub bucket_id: u32,
}

/// Identifies a deal: a deal is jointly referenced by one consumer and one
/// provider.
#[derive(Clone, Copy, PartialEq, Eq, Structural, Debug)]
pub struct DealKey {
    pub consumer_id: AccountId,
    pub provider_id: AccountId,
    pub deal_id: u32,
}

/// Fatal precondition violations: the operation aborts with no state change.
/// Expected business outcomes (insufficient escrow, an invalid transition,
/// arithmetic that would overflow a counter) are reported in the operations'
/// ordinary return values instead.
#[derive(Clone, Copy, PartialEq, Eq, Structural, Debug)]
pub enum MarketError {
    ProviderNotFound,
    ConsumerNotFound,
    BucketNotFound,
    DealNotFound,
    ProviderAlreadyExists,
    ConsumerAlreadyExists,
    DealAlreadyExists,
    BucketLocked,
}

/// What a settlement run asks of the payment rail: whether the attempt
/// succeeded, and the amount to move from the escrow account to the
/// provider's account.
#[derive(Clone, Copy, PartialEq, Eq, Structural, Debug)]
pub struct SettlementReceipt {
    pub settled: bool,
    pub pay_provider: u128,
}

/// What a terminal transition asks of the payment rail: whether the
/// transition happened, the amount the final settlement moves to the
/// provider, and the residual escrow refunded to the consumer.
#[derive(Clone, Copy, PartialEq, Eq, Structural, Debug)]
pub struct TerminalReceipt {
    pub closed: bool,
    pub pay_provider: u128,
    pub refund_consumer: u128,
}

/// A priced storage bucket published by a provider.
pub struct Bucket {
    pub provider_id: AccountId,
    pub bucket_id: u32,
    pub name: String,
    pub region: String,
    pub country: String,
    pub fb_bucket_id: String,
    pub api_compatibility: String,
    pub access_scope: String,
    pub versioning_enabled: bool,
    pub encryption_at_rest: bool,
    pub encryption_in_transit: bool,
    pub object_locking: bool,
    /// Price per storage-GB, in the stable asset's smallest unit.
    pub price_per_gb_storage: u128,
    /// Price per egress-GB, in the stable asset's smallest unit.
    pub price_per_gb_egress: u128,
    pub max_storage_gb: u32,
    pub max_egress_gb: u32,
    /// SLA target: the highest average latency the provider promises.
    pub sla_avg_latency_ms: u32,
    /// SLA target: the lowest average uptime the provider promises, in basis
    /// points.
    pub sla_avg_uptime_pct: u32,
    pub created_ts: u64,
    /// True exactly while one non-terminal deal reserves this bucket.
    pub locked: bool,
}

/// A deal between one consumer and one provider over one bucket.
pub struct Deal {
    pub deal_id: u32,
    pub consumer_id: AccountId,
    pub provider_id: AccountId,
    pub bucket_id: u32,
    pub fb_repo_id: String,
    pub api_compatibility: String,
    pub start_ts: u64,
    pub duration_secs: u64,
    pub agreed_storage_gb: u32,
    pub agreed_egress_gb: u32,
    /// Storage-GB consumed since the last settlement.
    pub unpaid_storage_gb: u32,
    /// Egress-GB consumed since the last settlement.
    pub unpaid_egress_gb: u32,
    /// Lifetime settled storage-GB.
    pub paid_storage_gb: u32,
    /// Lifetime settled egress-GB.
    pub paid_egress_gb: u32,
    /// Escrow prefunded by the consumer, spendable by settlement.
    pub balance_consumer: u128,
    /// Amount settled to the provider over the deal's lifetime.
    pub balance_provider: u128,
    /// Realized average latency, reported by the metering oracle.
    pub sla_avg_latency_ms: u32,
    /// Realized average uptime in basis points, reported by the metering
    /// oracle.
    pub sla_avg_uptime_pct: u32,
    /// Value of consumption forfeited by the provider on its latest SLA
    /// breach.
    pub slash_amount_usd: u128,
    /// Storage-GB forfeited across all of the provider's SLA breaches.
    pub slash_storage_gb: u32,
    /// Egress-GB forfeited across all of the provider's SLA breaches.
    pub slash_egress_gb: u32,
    pub status: DealStatus,
}

/// A registered storage provider and the keys of its buckets and deals.
pub struct Provider {
    pub provider_id: AccountId,
    pub description: String,
    pub reputation: u32,
    pub registered_ts: u64,
    pub last_update_ts: u64,
    pub units_count: u32,
    /// Keys of the buckets this provider created.
    pub buckets: Vec<BucketKey>,
    /// Keys of the deals opened against this provider's buckets.
    pub deals: Vec<DealKey>,
    /// Keys of this provider's deals currently in an engaged status.
    pub active_deals: Vec<DealKey>,
}

/// A registered consumer and the keys of its deals.
pub struct Consumer {
    pub consumer_id: AccountId,
    pub description: String,
    pub reputation: u32,
    pub registered_ts: u64,
    pub last_update_ts: u64,
    /// Keys of the deals this consumer opened.
    pub deals: Vec<DealKey>,
    /// Keys of this consumer's deals currently in an engaged status.
    pub active_deals: Vec<DealKey>,
}

/// The key under which a deal is stored.
pub open spec fn deal_key_of(d: Deal) -> DealKey {
    DealKey { consumer_id: d.consumer_id, provider_id: d.provider_id, deal_id: d.deal_id }
}

/// The key of the bucket a deal reserves.
pub open spec fn bucket_ref_of(d: Deal) -> BucketKey {
    BucketKey { provider_id: d.provider_id, bucket_id: d.bucket_id }
}

/// The key under which a bucket is stored.
pub open spec fn bucket_key_of(b: Bucket) -> BucketKey {
    BucketKey { provider_id: b.provider_id, bucket_id: b.bucket_id }
}

/// The provider records agree on everything but the bucket-key collection.
pub open spec fn provider_fields_except_buckets(p0: Provider, p1: Provider) -> bool {
    &&& p1.provider_id == p0.provider_id
    &&& p1.description == p0.description
    &&& p1.reputation == p0.reputation
    &&& p1.registered_ts == p0.registered_ts
    &&& p1.last_update_ts == p0.last_update_ts
    &&& p1.units_count == p0.units_count
    &&& p1.deals@ == p0.deals@
    &&& p1.active_deals@ == p0.active_deals@
}

/// The provider records agree on everything but the deal-key collection.
pub open spec fn provider_fields_except_deals(p0: Provider, p1: Provider) -> bool {
    &&& p1.provider_id == p0.provider_id
    &&& p1.description == p0.description
    &&& p1.reputation == p0.reputation
    &&& p1.registered_ts == p0.registered_ts
    &&& p1.last_update_ts == p0.last_update_ts
    &&& p1.units_count == p0.units_count
    &&& p1.buckets@ == p0.buckets@
    &&& p1.active_deals@ == p0.active_deals@
}

/// The provider records agree on everything but the active-deal collection.
pub open spec fn provider_fields_except_active(p0: Provider, p1: Provider) -> bool {
    &&& p1.provider_id == p0.provider_id
    &&& p1.description == p0.description
    &&& p1.reputation == p0.reputation
    &&& p1.registered_ts == p0.registered_ts
    &&& p1.last_update_ts == p0.last_update_ts
    &&& p1.units_count == p0.units_count
    &&& p1.buckets@ == p0.buckets@
    &&& p1.deals@ == p0.deals@
}

/// The consumer records agree on everything but the deal-key collection.
pub open spec fn consumer_fields_except_deals(c0: Consumer, c1: Consumer) -> bool {
    &&& c1.consumer_id == c0.consumer_id
    &&& c1.description == c0.description
    &&& c1.reputation == c0.reputation
    &&& c1.registered_ts == c0.registered_ts
    &&& c1.last_update_ts == c0.last_update_ts
    &&& c1.active_deals@ == c0.active_deals@
}

/// The consumer records agree on everything but the active-deal collection.
pub open spec fn consumer_fields_except_active(c0: Consumer, c1: Consumer) -> bool {
    &&& c1.consumer_id == c0.consumer_id
    &&& c1.description == c0.description
    &&& c1.reputation == c0.reputation
    &&& c1.registered_ts == c0.registered_ts
    &&& c1.last_update_ts == c0.last_update_ts
    &&& c1.deals@ == c0.deals@
}

impl Clone for Deal {
    fn clone(&self) -> (r: Self)
        ensures
            r == *self,
    {
        Deal {
            deal_id: self.deal_id,
            consumer_id: self.consumer_id,
            provider_id: self.provider_id,
            bucket_id: self.bucket_id,
            fb_repo_id: self.fb_repo_id.clone(),
            api_compatibility: self.api_compatibility.clone(),
            start_ts: self.start_ts,
            duration_secs: self.duration_secs,
            agreed_storage_gb: self.agreed_storage_gb,
            agreed_egress_gb: self.agreed_egress_gb,
            unpaid_storage_gb: self.unpaid_storage_gb,
            unpaid_egress_gb: self.unpaid_egress_gb,
            paid_storage_gb: self.paid_storage_gb,
            paid_egress_gb: self.paid_egress_gb,
            balance_consumer: self.balance_consumer,
            balance_provider: self.balance_provider,
            sla_avg_latency_ms: self.sla_avg_latency_ms,
            sla_avg_uptime_pct: self.sla_avg_uptime_pct,
            slash_amount_usd: self.slash_amount_usd,
            slash_storage_gb: self.slash_storage_gb,
            slash_egress_gb: self.slash_egress_gb,
            status: self.status,
        }
    }
}

impl Clone for Bucket {
    fn clone(&self) -> (r: Self)
        ensures
            r == *self,
    {
        Bucket {
            provider_id: self.provider_id,
            bucket_id: self.bucket_id,
            name: self.name.clone(),
            region: self.region.clone(),
            country: self.country.clone(),
            fb_bucket_id: self.fb_bucket_id.clone(),
            api_compatibility: self.api_compatibility.clone(),
            access_scope: self.access_scope.clone(),
            versioning_enabled: self.versioning_enabled,
            encryption_at_rest: self.encryption_at_rest,
            encryption_in_transit: self.encryption_in_transit,
            object_locking: self.object_locking,
            price_per_gb_storage: self.price_per_gb_storage,
            price_per_gb_egress: self.price_per_gb_egress,
            max_storage_gb: self.max_storage_gb,
            max_egress_gb: self.max_egress_gb,
            sla_avg_latency_ms: self.sla_avg_latency_ms,
            sla_avg_uptime_pct: self.sla_avg_uptime_pct,
            created_ts: self.created_ts,
            locked: self.locked,
        }
    }
}

} // verus!
