//! The marketplace state: the registered providers and consumers, the
//! published buckets, and the deals, together with the well-formedness
//! invariant every operation preserves — unique keys, exclusive bucket
//! reservation, and the agreement between each deal's status and both
//! parties' active-deal collections.

use vstd::prelude::*;

use crate::types::is_engaged;
use crate::types::is_terminal;
use crate::types::bucket_key_of;
use crate::types::bucket_ref_of;
use crate::types::deal_key_of;
use crate::types::AccountId;
use crate::types::Bucket;
use crate::types::BucketKey;
use crate::types::Consumer;
use crate::types::Deal;
use crate::types::DealKey;
use crate::types::Provider;

verus! {

/// The whole marketplace. The host's durable store holds one value of this
/// shape; every operation is a serialized read-modify-write of it.
pub struct Marketplace {
    pub providers: Vec<Provider>,
    pub consumers: Vec<Consumer>,
    pub buckets: Vec<Bucket>,
    pub deals: Vec<Deal>,
    /// Monotone identifier source for buckets; also the lifetime count of
    /// buckets ever created.
    pub bucket_count: u32,
    /// Monotone identifier source for deals; also the lifetime count of
    /// deals ever created.
    pub deal_count: u32,
}

/// At most `take` elements of `s` starting after the first `skip`.
pub open spec fn window<T>(s: Seq<T>, skip: int, take: int) -> Seq<T> {
    if skip >= s.len() || take <= 0 {
        Seq::empty()
    } else if skip + take >= s.len() {
        s.subrange(skip, s.len() as int)
    } else {
        s.subrange(skip, skip + take)
    }
}

/// The subsequence of deals in an engaged status, in store order.
pub open spec fn engaged_in(s: Seq<Deal>) -> Seq<Deal>
    decreases s.len(),
{
    if s.len() == 0 {
        Seq::empty()
    } else if is_engaged(s.last().status) {
        engaged_in(s.drop_last()).push(s.last())
    } else {
        engaged_in(s.drop_last())
    }
}

impl Marketplace {
    /// An empty marketplace, as deployed.
    pub fn new() -> (r: Marketplace)
        ensures
            r.wf(),
            r.providers@.len() == 0,
            r.consumers@.len() == 0,
            r.buckets@.len() == 0,
            r.deals@.len() == 0,
            r.bucket_count == 0,
            r.deal_count == 0,
    {
        Marketplace {
            providers: Vec::new(),
            consumers: Vec::new(),
            buckets: Vec::new(),
            deals: Vec::new(),
            bucket_count: 0,
            deal_count: 0,
        }
    }

    // ----- spec-level lookups -----

    pub open spec fn has_provider(self, id: AccountId) -> bool {
        exists|i: int|
            0 <= i < self.providers@.len() && (#[trigger] self.providers@[i]).provider_id == id
    }

    pub open spec fn provider_idx(self, id: AccountId) -> int {
        choose|i: int|
            0 <= i < self.providers@.len() && (#[trigger] self.providers@[i]).provider_id == id
    }

    pub open spec fn provider_at(self, id: AccountId) -> Provider {
        self.providers@[self.provider_idx(id)]
    }

    pub open spec fn has_consumer(self, id: AccountId) -> bool {
        exists|i: int|
            0 <= i < self.consumers@.len() && (#[trigger] self.consumers@[i]).consumer_id == id
    }

    pub open spec fn consumer_idx(self, id: AccountId) -> int {
        choose|i: int|
            0 <= i < self.consumers@.len() && (#[trigger] self.consumers@[i]).consumer_id == id
    }

    pub open spec fn consumer_at(self, id: AccountId) -> Consumer {
        self.consumers@[self.consumer_idx(id)]
    }

    pub open spec fn has_bucket(self, k: BucketKey) -> bool {
        exists|i: int|
            0 <= i < self.buckets@.len() && bucket_key_of(#[trigger] self.buckets@[i]) == k
    }

    pub open spec fn bucket_idx(self, k: BucketKey) -> int {
        choose|i: int|
            0 <= i < self.buckets@.len() && bucket_key_of(#[trigger] self.buckets@[i]) == k
    }

    pub open spec fn bucket_at(self, k: BucketKey) -> Bucket {
        self.buckets@[self.bucket_idx(k)]
    }

    pub open spec fn has_deal(self, k: DealKey) -> bool {
        exists|i: int| 0 <= i < self.deals@.len() && deal_key_of(#[trigger] self.deals@[i]) == k
    }

    pub open spec fn deal_idx(self, k: DealKey) -> int {
        choose|i: int| 0 <= i < self.deals@.len() && deal_key_of(#[trigger] self.deals@[i]) == k
    }

    pub open spec fn deal_at(self, k: DealKey) -> Deal {
        self.deals@[self.deal_idx(k)]
    }

    /// Some deal stored under key `k` is in an engaged status.
    pub open spec fn has_engaged_deal(self, k: DealKey) -> bool {
        exists|i: int|
            0 <= i < self.deals@.len() && deal_key_of(#[trigger] self.deals@[i]) == k
                && is_engaged(self.deals@[i].status)
    }

    // ----- the well-formedness invariant -----

    /// Each party is registered at most once, and the registries fit the
    /// 32-bit counts the interface reports.
    pub open spec fn registry_wf(self) -> bool {
        &&& forall|i: int, j: int|
            #![trigger self.providers@[i], self.providers@[j]]
            0 <= i < j < self.providers@.len()
                ==> self.providers@[i].provider_id != self.providers@[j].provider_id
        &&& forall|i: int, j: int|
            #![trigger self.consumers@[i], self.consumers@[j]]
            0 <= i < j < self.consumers@.len()
                ==> self.consumers@[i].consumer_id != self.consumers@[j].consumer_id
        &&& self.providers@.len() <= u32::MAX
        &&& self.consumers@.len() <= u32::MAX
    }

    /// Bucket identifiers are drawn from the monotone counter, so bucket
    /// keys are unique.
    pub open spec fn buckets_wf(self) -> bool {
        &&& forall|i: int|
            0 <= i < self.buckets@.len()
                ==> (#[trigger] self.buckets@[i]).bucket_id < self.bucket_count
        &&& forall|i: int, j: int|
            #![trigger self.buckets@[i], self.buckets@[j]]
            0 <= i < j < self.buckets@.len()
                ==> self.buckets@[i].bucket_id != self.buckets@[j].bucket_id
    }

    /// Deal identifiers are drawn from the monotone counter, so deal keys
    /// are unique.
    pub open spec fn deals_wf(self) -> bool {
        &&& forall|i: int|
            0 <= i < self.deals@.len() ==> (#[trigger] self.deals@[i]).deal_id < self.deal_count
        &&& forall|i: int, j: int|
            #![trigger self.deals@[i], self.deals@[j]]
            0 <= i < j < self.deals@.len()
                ==> self.deals@[i].deal_id != self.deals@[j].deal_id
    }

    /// Exclusive bucket reservation: at most one non-terminal deal
    /// references any bucket; every non-terminal deal's bucket exists and is
    /// locked; and every locked bucket is referenced by a non-terminal deal.
    pub open spec fn reservation_wf(self) -> bool {
        &&& forall|i: int, j: int|
            #![trigger self.deals@[i], self.deals@[j]]
            0 <= i < j < self.deals@.len() && !is_terminal(self.deals@[i].status)
                && !is_terminal(self.deals@[j].status)
                ==> bucket_ref_of(self.deals@[i]) != bucket_ref_of(self.deals@[j])
        &&& forall|i: int|
            0 <= i < self.deals@.len() && !is_terminal((#[trigger] self.deals@[i]).status)
                ==> self.has_bucket(bucket_ref_of(self.deals@[i]))
                    && self.bucket_at(bucket_ref_of(self.deals@[i])).locked
        &&& forall|bi: int|
            0 <= bi < self.buckets@.len() && (#[trigger] self.buckets@[bi]).locked
                ==> exists|i: int|
                    0 <= i < self.deals@.len() && !is_terminal((#[trigger] self.deals@[i]).status)
                        && bucket_ref_of(self.deals@[i]) == bucket_key_of(self.buckets@[bi])
    }

    /// Both parties' active-deal collections list exactly the keys of their
    /// engaged deals, and both parties of an engaged deal are registered.
    pub open spec fn engagement_wf(self) -> bool {
        &&& forall|pi: int, k: DealKey|
            #![trigger self.providers@[pi].active_deals@.contains(k)]
            0 <= pi < self.providers@.len()
                ==> (self.providers@[pi].active_deals@.contains(k) <==> (self.has_engaged_deal(k)
                    && k.provider_id == self.providers@[pi].provider_id))
        &&& forall|ci: int, k: DealKey|
            #![trigger self.consumers@[ci].active_deals@.contains(k)]
            0 <= ci < self.consumers@.len()
                ==> (self.consumers@[ci].active_deals@.contains(k) <==> (self.has_engaged_deal(k)
                    && k.consumer_id == self.consumers@[ci].consumer_id))
        &&& forall|i: int|
            0 <= i < self.deals@.len() && is_engaged((#[trigger] self.deals@[i]).status)
                ==> self.has_provider(self.deals@[i].provider_id)
                    && self.has_consumer(self.deals@[i].consumer_id)
    }

    /// Escrow is held only by engaged deals: before funding and after a
    /// terminal refund the consumer balance is zero.
    pub open spec fn balances_wf(self) -> bool {
        forall|i: int|
            0 <= i < self.deals@.len() && !is_engaged((#[trigger] self.deals@[i]).status)
                ==> self.deals@[i].balance_consumer == 0
    }

    /// The invariant every operation requires and preserves.
    pub open spec fn wf(self) -> bool {
        &&& self.registry_wf()
        &&& self.buckets_wf()
        &&& self.deals_wf()
        &&& self.reservation_wf()
        &&& self.engagement_wf()
        &&& self.balances_wf()
    }

    // ----- exec lookups -----

    pub(crate) fn find_provider(&self, id: AccountId) -> (r: Option<usize>)
        requires
            self.wf(),
        ensures
            match r {
                Some(i) => self.has_provider(id) && i == self.provider_idx(id),
                None => !self.has_provider(id),
            },
    {
        let n: usize = self.providers.len();
        let mut i: usize = 0;
        while i < n
            invariant
                n == self.providers@.len(),
                self.registry_wf(),
                0 <= i <= n,
                forall|j: int| 0 <= j < i ==> (#[trigger] self.providers@[j]).provider_id != id,
            decreases n - i,
        {
            if self.providers[i].provider_id == id {
                proof {
                    assert(self.has_provider(id));
                    let w = self.provider_idx(id);
                    assert(0 <= w < self.providers@.len()
                        && self.providers@[w].provider_id == id);
                    if w != i {
                        assert(self.providers@[w as int].provider_id
                            != self.providers@[i as int].provider_id);
                    }
                }
                return Some(i);
            }
            i = i + 1;
        }
        None
    }

    pub(crate) fn find_consumer(&self, id: AccountId) -> (r: Option<usize>)
        requires
            self.wf(),
        ensures
            match r {
                Some(i) => self.has_consumer(id) && i == self.consumer_idx(id),
                None => !self.has_consumer(id),
            },
    {
        let n: usize = self.consumers.len();
        let mut i: usize = 0;
        while i < n
            invariant
                n == self.consumers@.len(),
                self.registry_wf(),
                0 <= i <= n,
                forall|j: int| 0 <= j < i ==> (#[trigger] self.consumers@[j]).consumer_id != id,
            decreases n - i,
        {
            if self.consumers[i].consumer_id == id {
                proof {
                    assert(self.has_consumer(id));
                    let w = self.consumer_idx(id);
                    assert(0 <= w < self.consumers@.len()
                        && self.consumers@[w].consumer_id == id);
                    if w != i {
                        assert(self.consumers@[w as int].consumer_id
                            != self.consumers@[i as int].consumer_id);
                    }
                }
                return Some(i);
            }
            i = i + 1;
        }
        None
    }

    pub(crate) fn find_bucket(&self, k: BucketKey) -> (r: Option<usize>)
        requires
            self.wf(),
        ensures
            match r {
                Some(i) => self.has_bucket(k) && i == self.bucket_idx(k),
                None => !self.has_bucket(k),
            },
    {
        let n: usize = self.buckets.len();
        let mut i: usize = 0;
        while i < n
            invariant
                n == self.buckets@.len(),
                self.buckets_wf(),
                0 <= i <= n,
                forall|j: int| 0 <= j < i ==> bucket_key_of(#[trigger] self.buckets@[j]) != k,
            decreases n - i,
        {
            if self.buckets[i].provider_id == k.provider_id
                && self.buckets[i].bucket_id == k.bucket_id {
                proof {
                    assert(bucket_key_of(self.buckets@[i as int]) == k);
                    assert(self.has_bucket(k));
                    let w = self.bucket_idx(k);
                    assert(0 <= w < self.buckets@.len()
                        && bucket_key_of(self.buckets@[w]) == k);
                    if w != i {
                        assert(self.buckets@[w as int].bucket_id
                            != self.buckets@[i as int].bucket_id);
                    }
                }
                return Some(i);
            }
            i = i + 1;
        }
        None
    }

    pub(crate) fn find_deal(&self, k: DealKey) -> (r: Option<usize>)
        requires
            self.wf(),
        ensures
            match r {
                Some(i) => self.has_deal(k) && i == self.deal_idx(k),
                None => !self.has_deal(k),
            },
    {
        let n: usize = self.deals.len();
        let mut i: usize = 0;
        while i < n
            invariant
                n == self.deals@.len(),
                self.deals_wf(),
                0 <= i <= n,
                forall|j: int| 0 <= j < i ==> deal_key_of(#[trigger] self.deals@[j]) != k,
            decreases n - i,
        {
            if self.deals[i].consumer_id == k.consumer_id
                && self.deals[i].provider_id == k.provider_id
                && self.deals[i].deal_id == k.deal_id {
                proof {
                    assert(deal_key_of(self.deals@[i as int]) == k);
                    assert(self.has_deal(k));
                    let w = self.deal_idx(k);
                    assert(0 <= w < self.deals@.len() && deal_key_of(self.deals@[w]) == k);
                    if w != i {
                        assert(self.deals@[w as int].deal_id != self.deals@[i as int].deal_id);
                    }
                }
                return Some(i);
            }
            i = i + 1;
        }
        None
    }
}

/// A bucket found at an index is the one every lookup spec denotes: bucket
/// keys are unique.
pub proof fn lemma_bucket_lookup(m: Marketplace, k: BucketKey, bi: int)
    requires
        m.buckets_wf(),
        0 <= bi < m.buckets@.len(),
        bucket_key_of(m.buckets@[bi]) == k,
    ensures
        m.has_bucket(k),
        m.bucket_idx(k) == bi,
        m.bucket_at(k) == m.buckets@[bi],
{
    assert(m.has_bucket(k));
    let w = m.bucket_idx(k);
    assert(0 <= w < m.buckets@.len() && bucket_key_of(m.buckets@[w]) == k);
    if w < bi {
        assert(m.buckets@[w].bucket_id != m.buckets@[bi].bucket_id);
    } else if bi < w {
        assert(m.buckets@[bi].bucket_id != m.buckets@[w].bucket_id);
    }
}

/// A deal found at an index is the one every lookup spec denotes: deal keys
/// are unique.
pub proof fn lemma_deal_lookup(m: Marketplace, k: DealKey, i: int)
    requires
        m.deals_wf(),
        0 <= i < m.deals@.len(),
        deal_key_of(m.deals@[i]) == k,
    ensures
        m.has_deal(k),
        m.deal_idx(k) == i,
        m.deal_at(k) == m.deals@[i],
{
    assert(m.has_deal(k));
    let w = m.deal_idx(k);
    assert(0 <= w < m.deals@.len() && deal_key_of(m.deals@[w]) == k);
    if w < i {
        assert(m.deals@[w].deal_id != m.deals@[i].deal_id);
    } else if i < w {
        assert(m.deals@[i].deal_id != m.deals@[w].deal_id);
    }
}

/// A provider found at an index is the one every lookup spec denotes.
pub proof fn lemma_provider_lookup(m: Marketplace, id: AccountId, i: int)
    requires
        m.registry_wf(),
        0 <= i < m.providers@.len(),
        m.providers@[i].provider_id == id,
    ensures
        m.has_provider(id),
        m.provider_idx(id) == i,
        m.provider_at(id) == m.providers@[i],
{
    assert(m.has_provider(id));
    let w = m.provider_idx(id);
    assert(0 <= w < m.providers@.len() && m.providers@[w].provider_id == id);
    if w < i {
        assert(m.providers@[w].provider_id != m.providers@[i].provider_id);
    } else if i < w {
        assert(m.providers@[i].provider_id != m.providers@[w].provider_id);
    }
}

/// A consumer found at an index is the one every lookup spec denotes.
pub proof fn lemma_consumer_lookup(m: Marketplace, id: AccountId, i: int)
    requires
        m.registry_wf(),
        0 <= i < m.consumers@.len(),
        m.consumers@[i].consumer_id == id,
    ensures
        m.has_consumer(id),
        m.consumer_idx(id) == i,
        m.consumer_at(id) == m.consumers@[i],
{
    assert(m.has_consumer(id));
    let w = m.consumer_idx(id);
    assert(0 <= w < m.consumers@.len() && m.consumers@[w].consumer_id == id);
    if w < i {
        assert(m.consumers@[w].consumer_id != m.consumers@[i].consumer_id);
    } else if i < w {
        assert(m.consumers@[i].consumer_id != m.consumers@[w].consumer_id);
    }
}

/// Two states with the same party registries agree on every party lookup.
pub proof fn lemma_same_parties(m0: Marketplace, m1: Marketplace)
    requires
        m0.registry_wf(),
        m1.providers@ == m0.providers@,
        m1.consumers@ == m0.consumers@,
    ensures
        m1.registry_wf(),
        forall|id: AccountId| #[trigger] m1.has_provider(id) <==> m0.has_provider(id),
        forall|id: AccountId|
            m0.has_provider(id) ==> #[trigger] m1.provider_idx(id) == m0.provider_idx(id)
                && m1.provider_at(id) == m0.provider_at(id),
        forall|id: AccountId| #[trigger] m1.has_consumer(id) <==> m0.has_consumer(id),
        forall|id: AccountId|
            m0.has_consumer(id) ==> #[trigger] m1.consumer_idx(id) == m0.consumer_idx(id)
                && m1.consumer_at(id) == m0.consumer_at(id),
{
    assert forall|id: AccountId| #[trigger] m1.has_provider(id) <==> m0.has_provider(id) by {
        if m1.has_provider(id) {
            let w = choose|i: int|
                0 <= i < m1.providers@.len() && (#[trigger] m1.providers@[i]).provider_id == id;
            assert(m0.providers@[w].provider_id == id);
        }
        if m0.has_provider(id) {
            let w = choose|i: int|
                0 <= i < m0.providers@.len() && (#[trigger] m0.providers@[i]).provider_id == id;
            assert(m1.providers@[w].provider_id == id);
        }
    }
    assert forall|id: AccountId| m0.has_provider(id) implies #[trigger] m1.provider_idx(id)
        == m0.provider_idx(id) && m1.provider_at(id) == m0.provider_at(id) by {
        let w0 = m0.provider_idx(id);
        assert(0 <= w0 < m0.providers@.len() && m0.providers@[w0].provider_id == id);
        assert(m1.providers@[w0].provider_id == id);
        lemma_provider_lookup(m1, id, w0);
        lemma_provider_lookup(m0, id, w0);
    }
    assert forall|id: AccountId| #[trigger] m1.has_consumer(id) <==> m0.has_consumer(id) by {
        if m1.has_consumer(id) {
            let w = choose|i: int|
                0 <= i < m1.consumers@.len() && (#[trigger] m1.consumers@[i]).consumer_id == id;
            assert(m0.consumers@[w].consumer_id == id);
        }
        if m0.has_consumer(id) {
            let w = choose|i: int|
                0 <= i < m0.consumers@.len() && (#[trigger] m0.consumers@[i]).consumer_id == id;
            assert(m1.consumers@[w].consumer_id == id);
        }
    }
    assert forall|id: AccountId| m0.has_consumer(id) implies #[trigger] m1.consumer_idx(id)
        == m0.consumer_idx(id) && m1.consumer_at(id) == m0.consumer_at(id) by {
        let w0 = m0.consumer_idx(id);
        assert(0 <= w0 < m0.consumers@.len() && m0.consumers@[w0].consumer_id == id);
        assert(m1.consumers@[w0].consumer_id == id);
        lemma_consumer_lookup(m1, id, w0);
        lemma_consumer_lookup(m0, id, w0);
    }
}

/// Two states with the same buckets agree on every bucket lookup.
pub proof fn lemma_same_buckets(m0: Marketplace, m1: Marketplace)
    requires
        m0.buckets_wf(),
        m1.buckets@ == m0.buckets@,
        m1.bucket_count == m0.bucket_count,
    ensures
        m1.buckets_wf(),
        forall|k: BucketKey| #[trigger] m1.has_bucket(k) <==> m0.has_bucket(k),
        forall|k: BucketKey|
            m0.has_bucket(k) ==> #[trigger] m1.bucket_idx(k) == m0.bucket_idx(k)
                && m1.bucket_at(k) == m0.bucket_at(k),
{
    assert forall|k: BucketKey| #[trigger] m1.has_bucket(k) <==> m0.has_bucket(k) by {
        if m1.has_bucket(k) {
            let w = choose|i: int|
                0 <= i < m1.buckets@.len() && bucket_key_of(#[trigger] m1.buckets@[i]) == k;
            assert(bucket_key_of(m0.buckets@[w]) == k);
        }
        if m0.has_bucket(k) {
            let w = choose|i: int|
                0 <= i < m0.buckets@.len() && bucket_key_of(#[trigger] m0.buckets@[i]) == k;
            assert(bucket_key_of(m1.buckets@[w]) == k);
        }
    }
    assert forall|k: BucketKey| m0.has_bucket(k) implies #[trigger] m1.bucket_idx(k)
        == m0.bucket_idx(k) && m1.bucket_at(k) == m0.bucket_at(k) by {
        let w0 = m0.bucket_idx(k);
        assert(0 <= w0 < m0.buckets@.len() && bucket_key_of(m0.buckets@[w0]) == k);
        assert(bucket_key_of(m1.buckets@[w0]) == k);
        lemma_bucket_lookup(m1, k, w0);
        lemma_bucket_lookup(m0, k, w0);
    }
}

/// Two states with the same deals agree on every deal lookup.
pub proof fn lemma_same_deals(m0: Marketplace, m1: Marketplace)
    requires
        m0.deals_wf(),
        m1.deals@ == m0.deals@,
        m1.deal_count == m0.deal_count,
    ensures
        m1.deals_wf(),
        forall|k: DealKey| #[trigger] m1.has_deal(k) <==> m0.has_deal(k),
        forall|k: DealKey|
            m0.has_deal(k) ==> #[trigger] m1.deal_idx(k) == m0.deal_idx(k)
                && m1.deal_at(k) == m0.deal_at(k),
        forall|k: DealKey| #[trigger] m1.has_engaged_deal(k) <==> m0.has_engaged_deal(k),
{
    assert forall|k: DealKey| #[trigger] m1.has_deal(k) <==> m0.has_deal(k) by {
        if m1.has_deal(k) {
            let w = choose|i: int|
                0 <= i < m1.deals@.len() && deal_key_of(#[trigger] m1.deals@[i]) == k;
            assert(deal_key_of(m0.deals@[w]) == k);
        }
        if m0.has_deal(k) {
            let w = choose|i: int|
                0 <= i < m0.deals@.len() && deal_key_of(#[trigger] m0.deals@[i]) == k;
            assert(deal_key_of(m1.deals@[w]) == k);
        }
    }
    assert forall|k: DealKey| m0.has_deal(k) implies #[trigger] m1.deal_idx(k) == m0.deal_idx(k)
        && m1.deal_at(k) == m0.deal_at(k) by {
        let w0 = m0.deal_idx(k);
        assert(0 <= w0 < m0.deals@.len() && deal_key_of(m0.deals@[w0]) == k);
        assert(deal_key_of(m1.deals@[w0]) == k);
        lemma_deal_lookup(m1, k, w0);
        lemma_deal_lookup(m0, k, w0);
    }
    assert forall|k: DealKey| #[trigger] m1.has_engaged_deal(k) <==> m0.has_engaged_deal(k) by {
        if m1.has_engaged_deal(k) {
            let w = choose|i: int|
                0 <= i < m1.deals@.len() && deal_key_of(#[trigger] m1.deals@[i]) == k
                    && is_engaged(m1.deals@[i].status);
            assert(deal_key_of(m0.deals@[w]) == k && is_engaged(m0.deals@[w].status));
        }
        if m0.has_engaged_deal(k) {
            let w = choose|i: int|
                0 <= i < m0.deals@.len() && deal_key_of(#[trigger] m0.deals@[i]) == k
                    && is_engaged(m0.deals@[i].status);
            assert(deal_key_of(m1.deals@[w]) == k && is_engaged(m1.deals@[w].status));
        }
    }
}

/// A change to the party registries alone cannot disturb the bucket, deal,
/// reservation, or balance clauses of the invariant.
pub proof fn lemma_wf_unaffected_by_parties(m0: Marketplace, m1: Marketplace)
    requires
        m0.wf(),
        m1.buckets@ == m0.buckets@,
        m1.deals@ == m0.deals@,
        m1.bucket_count == m0.bucket_count,
        m1.deal_count == m0.deal_count,
    ensures
        m1.buckets_wf(),
        m1.deals_wf(),
        m1.reservation_wf(),
        m1.balances_wf(),
        forall|k: DealKey| #[trigger] m1.has_engaged_deal(k) <==> m0.has_engaged_deal(k),
{
    lemma_same_buckets(m0, m1);
    lemma_same_deals(m0, m1);
    assert forall|a: int|
        0 <= a < m1.deals@.len() && !is_terminal((#[trigger] m1.deals@[a]).status)
        implies m1.has_bucket(bucket_ref_of(m1.deals@[a]))
            && m1.bucket_at(bucket_ref_of(m1.deals@[a])).locked by {
        assert(m0.has_bucket(bucket_ref_of(m0.deals@[a])));
        assert(m0.bucket_at(bucket_ref_of(m0.deals@[a])).locked);
    }
    assert forall|bi: int|
        0 <= bi < m1.buckets@.len() && (#[trigger] m1.buckets@[bi]).locked
        implies exists|a: int|
            0 <= a < m1.deals@.len() && !is_terminal((#[trigger] m1.deals@[a]).status)
                && bucket_ref_of(m1.deals@[a]) == bucket_key_of(m1.buckets@[bi]) by {
        assert(m0.buckets@[bi].locked);
        let a = choose|a: int|
            0 <= a < m0.deals@.len() && !is_terminal((#[trigger] m0.deals@[a]).status)
                && bucket_ref_of(m0.deals@[a]) == bucket_key_of(m0.buckets@[bi]);
        assert(0 <= a < m1.deals@.len() && !is_terminal(m1.deals@[a].status)
            && bucket_ref_of(m1.deals@[a]) == bucket_key_of(m1.buckets@[bi]));
    }
}

/// Replacing one deal with one that keeps its key, bucket reference,
/// terminal-ness, engaged-ness, and (when not engaged) an empty escrow
/// preserves the whole invariant; no list or bucket needs to move.
pub proof fn lemma_wf_after_deal_update(m0: Marketplace, m1: Marketplace, i: int)
    requires
        m0.wf(),
        0 <= i < m0.deals@.len(),
        m1.providers@ == m0.providers@,
        m1.consumers@ == m0.consumers@,
        m1.buckets@ == m0.buckets@,
        m1.bucket_count == m0.bucket_count,
        m1.deal_count == m0.deal_count,
        m1.deals@ == m0.deals@.update(i, m1.deals@[i]),
        deal_key_of(m1.deals@[i]) == deal_key_of(m0.deals@[i]),
        m1.deals@[i].bucket_id == m0.deals@[i].bucket_id,
        is_terminal(m1.deals@[i].status) == is_terminal(m0.deals@[i].status),
        is_engaged(m1.deals@[i].status) == is_engaged(m0.deals@[i].status),
        !is_engaged(m1.deals@[i].status) ==> m1.deals@[i].balance_consumer == 0,
    ensures
        m1.wf(),
{
    lemma_same_parties(m0, m1);
    lemma_same_buckets(m0, m1);
    assert(m1.deals@.len() == m0.deals@.len());
    assert(forall|a: int|
        0 <= a < m1.deals@.len() && a != i ==> #[trigger] m1.deals@[a] == m0.deals@[a]);
    assert(bucket_ref_of(m1.deals@[i]) == bucket_ref_of(m0.deals@[i]));

    // deals_wf
    assert forall|a: int| 0 <= a < m1.deals@.len() implies (#[trigger] m1.deals@[a]).deal_id
        < m1.deal_count by {
        assert(m0.deals@[a].deal_id < m0.deal_count);
    }
    assert forall|a: int, b: int|
        #![trigger m1.deals@[a], m1.deals@[b]]
        0 <= a < b < m1.deals@.len() implies m1.deals@[a].deal_id != m1.deals@[b].deal_id by {
        assert(m0.deals@[a].deal_id != m0.deals@[b].deal_id);
    }

    // reservation_wf
    assert forall|a: int, b: int|
        #![trigger m1.deals@[a], m1.deals@[b]]
        0 <= a < b < m1.deals@.len() && !is_terminal(m1.deals@[a].status)
            && !is_terminal(m1.deals@[b].status)
        implies bucket_ref_of(m1.deals@[a]) != bucket_ref_of(m1.deals@[b]) by {
        assert(!is_terminal(m0.deals@[a].status) && !is_terminal(m0.deals@[b].status));
        assert(bucket_ref_of(m0.deals@[a]) != bucket_ref_of(m0.deals@[b]));
        assert(bucket_ref_of(m1.deals@[a]) == bucket_ref_of(m0.deals@[a]));
        assert(bucket_ref_of(m1.deals@[b]) == bucket_ref_of(m0.deals@[b]));
    }
    assert forall|a: int|
        0 <= a < m1.deals@.len() && !is_terminal((#[trigger] m1.deals@[a]).status)
        implies m1.has_bucket(bucket_ref_of(m1.deals@[a]))
            && m1.bucket_at(bucket_ref_of(m1.deals@[a])).locked by {
        assert(!is_terminal(m0.deals@[a].status));
        assert(bucket_ref_of(m1.deals@[a]) == bucket_ref_of(m0.deals@[a]));
        assert(m0.has_bucket(bucket_ref_of(m0.deals@[a])));
        assert(m0.bucket_at(bucket_ref_of(m0.deals@[a])).locked);
    }
    assert forall|bi: int|
        0 <= bi < m1.buckets@.len() && (#[trigger] m1.buckets@[bi]).locked
        implies exists|a: int|
            0 <= a < m1.deals@.len() && !is_terminal((#[trigger] m1.deals@[a]).status)
                && bucket_ref_of(m1.deals@[a]) == bucket_key_of(m1.buckets@[bi]) by {
        assert(m0.buckets@[bi].locked);
        let a = choose|a: int|
            0 <= a < m0.deals@.len() && !is_terminal((#[trigger] m0.deals@[a]).status)
                && bucket_ref_of(m0.deals@[a]) == bucket_key_of(m0.buckets@[bi]);
        assert(!is_terminal(m1.deals@[a].status));
        assert(bucket_ref_of(m1.deals@[a]) == bucket_key_of(m1.buckets@[bi]));
    }

    // engagement_wf
    assert forall|k: DealKey| #[trigger] m1.has_engaged_deal(k) <==> m0.has_engaged_deal(k) by {
        if m1.has_engaged_deal(k) {
            let w = choose|a: int|
                0 <= a < m1.deals@.len() && deal_key_of(#[trigger] m1.deals@[a]) == k
                    && is_engaged(m1.deals@[a].status);
            assert(deal_key_of(m0.deals@[w]) == k && is_engaged(m0.deals@[w].status));
        }
        if m0.has_engaged_deal(k) {
            let w = choose|a: int|
                0 <= a < m0.deals@.len() && deal_key_of(#[trigger] m0.deals@[a]) == k
                    && is_engaged(m0.deals@[a].status);
            assert(deal_key_of(m1.deals@[w]) == k && is_engaged(m1.deals@[w].status));
        }
    }
    assert forall|pi: int, k: DealKey|
        #![trigger m1.providers@[pi].active_deals@.contains(k)]
        0 <= pi < m1.providers@.len()
        implies (m1.providers@[pi].active_deals@.contains(k) <==> (m1.has_engaged_deal(k)
            && k.provider_id == m1.providers@[pi].provider_id)) by {
        assert(m0.providers@[pi].active_deals@.contains(k) <==> (m0.has_engaged_deal(k)
            && k.provider_id == m0.providers@[pi].provider_id));
    }
    assert forall|ci: int, k: DealKey|
        #![trigger m1.consumers@[ci].active_deals@.contains(k)]
        0 <= ci < m1.consumers@.len()
        implies (m1.consumers@[ci].active_deals@.contains(k) <==> (m1.has_engaged_deal(k)
            && k.consumer_id == m1.consumers@[ci].consumer_id)) by {
        assert(m0.consumers@[ci].active_deals@.contains(k) <==> (m0.has_engaged_deal(k)
            && k.consumer_id == m0.consumers@[ci].consumer_id));
    }
    assert forall|a: int|
        0 <= a < m1.deals@.len() && is_engaged((#[trigger] m1.deals@[a]).status)
        implies m1.has_provider(m1.deals@[a].provider_id)
            && m1.has_consumer(m1.deals@[a].consumer_id) by {
        assert(is_engaged(m0.deals@[a].status));
        assert(m0.has_provider(m0.deals@[a].provider_id));
        assert(m0.has_consumer(m0.deals@[a].consumer_id));
        assert(m1.deals@[a].provider_id == m0.deals@[a].provider_id);
        assert(m1.deals@[a].consumer_id == m0.deals@[a].consumer_id);
    }

    // balances_wf
    assert forall|a: int|
        0 <= a < m1.deals@.len() && !is_engaged((#[trigger] m1.deals@[a]).status)
        implies m1.deals@[a].balance_consumer == 0 by {
        if a != i {
            assert(m0.deals@[a].balance_consumer == 0);
        }
    }
}

/// Replacing one bucket with one that keeps its key and lock flag preserves
/// the whole invariant.
pub proof fn lemma_wf_after_bucket_update(m0: Marketplace, m1: Marketplace, i: int)
    requires
        m0.wf(),
        0 <= i < m0.buckets@.len(),
        m1.providers@ == m0.providers@,
        m1.consumers@ == m0.consumers@,
        m1.deals@ == m0.deals@,
        m1.bucket_count == m0.bucket_count,
        m1.deal_count == m0.deal_count,
        m1.buckets@ == m0.buckets@.update(i, m1.buckets@[i]),
        bucket_key_of(m1.buckets@[i]) == bucket_key_of(m0.buckets@[i]),
        m1.buckets@[i].locked == m0.buckets@[i].locked,
    ensures
        m1.wf(),
{
    lemma_same_parties(m0, m1);
    lemma_same_deals(m0, m1);
    assert(m1.buckets@.len() == m0.buckets@.len());
    assert(forall|a: int|
        0 <= a < m1.buckets@.len() && a != i ==> #[trigger] m1.buckets@[a] == m0.buckets@[a]);
    assert(m1.buckets@[i].bucket_id == m0.buckets@[i].bucket_id);

    assert forall|a: int| 0 <= a < m1.buckets@.len() implies (#[trigger] m1.buckets@[a]).bucket_id
        < m1.bucket_count by {
        assert(m0.buckets@[a].bucket_id < m0.bucket_count);
    }
    assert forall|a: int, b: int|
        #![trigger m1.buckets@[a], m1.buckets@[b]]
        0 <= a < b < m1.buckets@.len() implies m1.buckets@[a].bucket_id
        != m1.buckets@[b].bucket_id by {
        assert(m0.buckets@[a].bucket_id != m0.buckets@[b].bucket_id);
    }

    assert forall|a: int|
        0 <= a < m1.deals@.len() && !is_terminal((#[trigger] m1.deals@[a]).status)
        implies m1.has_bucket(bucket_ref_of(m1.deals@[a]))
            && m1.bucket_at(bucket_ref_of(m1.deals@[a])).locked by {
        let k = bucket_ref_of(m0.deals@[a]);
        assert(m0.has_bucket(k) && m0.bucket_at(k).locked);
        let w = m0.bucket_idx(k);
        assert(0 <= w < m0.buckets@.len() && bucket_key_of(m0.buckets@[w]) == k);
        assert(bucket_key_of(m1.buckets@[w]) == k);
        assert(m1.buckets@[w].locked == m0.buckets@[w].locked);
        lemma_bucket_lookup(m1, k, w);
    }
    assert forall|bi: int|
        0 <= bi < m1.buckets@.len() && (#[trigger] m1.buckets@[bi]).locked
        implies exists|a: int|
            0 <= a < m1.deals@.len() && !is_terminal((#[trigger] m1.deals@[a]).status)
                && bucket_ref_of(m1.deals@[a]) == bucket_key_of(m1.buckets@[bi]) by {
        assert(m0.buckets@[bi].locked);
        let a = choose|a: int|
            0 <= a < m0.deals@.len() && !is_terminal((#[trigger] m0.deals@[a]).status)
                && bucket_ref_of(m0.deals@[a]) == bucket_key_of(m0.buckets@[bi]);
        assert(0 <= a < m1.deals@.len() && !is_terminal(m1.deals@[a].status)
            && bucket_ref_of(m1.deals@[a]) == bucket_key_of(m1.buckets@[bi]));
    }
}

/// Replacing one provider record with one that keeps its identifier and its
/// active-deal collection preserves the whole invariant.
pub proof fn lemma_wf_after_provider_update(m0: Marketplace, m1: Marketplace, i: int)
    requires
        m0.wf(),
        0 <= i < m0.providers@.len(),
        m1.consumers@ == m0.consumers@,
        m1.buckets@ == m0.buckets@,
        m1.deals@ == m0.deals@,
        m1.bucket_count == m0.bucket_count,
        m1.deal_count == m0.deal_count,
        m1.providers@ == m0.providers@.update(i, m1.providers@[i]),
        m1.providers@[i].provider_id == m0.providers@[i].provider_id,
        m1.providers@[i].active_deals@ == m0.providers@[i].active_deals@,
    ensures
        m1.wf(),
{
    lemma_same_buckets(m0, m1);
    lemma_same_deals(m0, m1);
    assert(m1.providers@.len() == m0.providers@.len());
    assert(forall|a: int|
        0 <= a < m1.providers@.len() && a != i ==> #[trigger] m1.providers@[a]
            == m0.providers@[a]);

    assert forall|a: int, b: int|
        #![trigger m1.providers@[a], m1.providers@[b]]
        0 <= a < b < m1.providers@.len() implies m1.providers@[a].provider_id
        != m1.providers@[b].provider_id by {
        assert(m0.providers@[a].provider_id != m0.providers@[b].provider_id);
    }

    assert forall|pi: int, k: DealKey|
        #![trigger m1.providers@[pi].active_deals@.contains(k)]
        0 <= pi < m1.providers@.len()
        implies (m1.providers@[pi].active_deals@.contains(k) <==> (m1.has_engaged_deal(k)
            && k.provider_id == m1.providers@[pi].provider_id)) by {
        assert(m1.providers@[pi].active_deals@ == m0.providers@[pi].active_deals@);
        assert(m0.providers@[pi].active_deals@.contains(k) <==> (m0.has_engaged_deal(k)
            && k.provider_id == m0.providers@[pi].provider_id));
    }
    assert forall|a: int|
        0 <= a < m1.deals@.len() && is_engaged((#[trigger] m1.deals@[a]).status)
        implies m1.has_provider(m1.deals@[a].provider_id)
            && m1.has_consumer(m1.deals@[a].consumer_id) by {
        assert(is_engaged(m0.deals@[a].status));
        assert(m0.has_provider(m0.deals@[a].provider_id));
        let w = choose|p: int|
            0 <= p < m0.providers@.len() && (#[trigger] m0.providers@[p]).provider_id
                == m0.deals@[a].provider_id;
        assert(m1.providers@[w].provider_id == m0.deals@[a].provider_id);
    }
}

/// Replacing one consumer record with one that keeps its identifier and its
/// active-deal collection preserves the whole invariant.
pub proof fn lemma_wf_after_consumer_update(m0: Marketplace, m1: Marketplace, i: int)
    requires
        m0.wf(),
        0 <= i < m0.consumers@.len(),
        m1.providers@ == m0.providers@,
        m1.buckets@ == m0.buckets@,
        m1.deals@ == m0.deals@,
        m1.bucket_count == m0.bucket_count,
        m1.deal_count == m0.deal_count,
        m1.consumers@ == m0.consumers@.update(i, m1.consumers@[i]),
        m1.consumers@[i].consumer_id == m0.consumers@[i].consumer_id,
        m1.consumers@[i].active_deals@ == m0.consumers@[i].active_deals@,
    ensures
        m1.wf(),
{
    lemma_same_buckets(m0, m1);
    lemma_same_deals(m0, m1);
    assert(m1.consumers@.len() == m0.consumers@.len());
    assert(forall|a: int|
        0 <= a < m1.consumers@.len() && a != i ==> #[trigger] m1.consumers@[a]
            == m0.consumers@[a]);

    assert forall|a: int, b: int|
        #![trigger m1.consumers@[a], m1.consumers@[b]]
        0 <= a < b < m1.consumers@.len() implies m1.consumers@[a].consumer_id
        != m1.consumers@[b].consumer_id by {
        assert(m0.consumers@[a].consumer_id != m0.consumers@[b].consumer_id);
    }

    assert forall|ci: int, k: DealKey|
        #![trigger m1.consumers@[ci].active_deals@.contains(k)]
        0 <= ci < m1.consumers@.len()
        implies (m1.consumers@[ci].active_deals@.contains(k) <==> (m1.has_engaged_deal(k)
            && k.consumer_id == m1.consumers@[ci].consumer_id)) by {
        assert(m1.consumers@[ci].active_deals@ == m0.consumers@[ci].active_deals@);
        assert(m0.consumers@[ci].active_deals@.contains(k) <==> (m0.has_engaged_deal(k)
            && k.consumer_id == m0.consumers@[ci].consumer_id));
    }
    assert forall|a: int|
        0 <= a < m1.deals@.len() && is_engaged((#[trigger] m1.deals@[a]).status)
        implies m1.has_provider(m1.deals@[a].provider_id)
            && m1.has_consumer(m1.deals@[a].consumer_id) by {
        assert(is_engaged(m0.deals@[a].status));
        assert(m0.has_consumer(m0.deals@[a].consumer_id));
        let w = choose|c: int|
            0 <= c < m0.consumers@.len() && (#[trigger] m0.consumers@[c]).consumer_id
                == m0.deals@[a].consumer_id;
        assert(m1.consumers@[w].consumer_id == m0.deals@[a].consumer_id);
    }
}

/// Membership in a key list after a push: the pushed key joins, nothing else
/// changes.
pub proof fn lemma_key_push_contains(s: Seq<DealKey>, k: DealKey)
    ensures
        forall|x: DealKey| #[trigger] s.push(k).contains(x) <==> (s.contains(x) || x == k),
{
    assert forall|x: DealKey| #[trigger] s.push(k).contains(x) implies (s.contains(x) || x == k)
        by {
        let w = choose|j: int| 0 <= j < s.push(k).len() && s.push(k)[j] == x;
        if w < s.len() {
            assert(s[w] == x);
        }
    }
    assert forall|x: DealKey| s.contains(x) || x == k implies #[trigger] s.push(k).contains(x) by {
        if s.contains(x) {
            let w = choose|j: int| 0 <= j < s.len() && s[j] == x;
            assert(s.push(k)[w] == x);
        } else {
            assert(s.push(k)[s.len() as int] == x);
        }
    }
}

/// A copy of `v` with every occurrence of `k` left out.
pub(crate) fn bucket_key_list_without(v: &Vec<BucketKey>, k: BucketKey) -> (r: Vec<BucketKey>)
    ensures
        forall|x: BucketKey| #[trigger] r@.contains(x) <==> (v@.contains(x) && x != k),
{
    let n: usize = v.len();
    let mut out: Vec<BucketKey> = Vec::new();
    let mut i: usize = 0;
    while i < n
        invariant
            n == v@.len(),
            0 <= i <= n,
            forall|x: BucketKey| #[trigger] out@.contains(x)
                <==> (v@.subrange(0, i as int).contains(x) && x != k),
        decreases n - i,
    {
        let ghost prefix = v@.subrange(0, i as int);
        let ghost prefix1 = v@.subrange(0, i as int + 1);
        proof {
            assert(prefix1 =~= prefix.push(v@[i as int]));
        }
        if !(v[i].provider_id == k.provider_id && v[i].bucket_id == k.bucket_id) {
            let ghost out0 = out@;
            out.push(v[i]);
            proof {
                assert(v@[i as int] != k);
                assert forall|x: BucketKey| #[trigger] out@.contains(x)
                    implies (prefix1.contains(x) && x != k) by {
                    let wi = choose|j: int| 0 <= j < out@.len() && out@[j] == x;
                    if wi < out0.len() {
                        assert(out0.contains(x));
                    } else {
                        assert(x == v@[i as int]);
                        assert(prefix1[prefix1.len() - 1] == x);
                    }
                }
                assert forall|x: BucketKey| prefix1.contains(x) && x != k
                    implies #[trigger] out@.contains(x) by {
                    let wi = choose|j: int| 0 <= j < prefix1.len() && prefix1[j] == x;
                    if wi < prefix.len() {
                        assert(prefix.contains(x));
                        assert(out0.contains(x));
                        let wo = choose|j: int| 0 <= j < out0.len() && out0[j] == x;
                        assert(out@[wo] == x);
                    } else {
                        assert(x == v@[i as int]);
                        assert(out@[out@.len() - 1] == x);
                    }
                }
            }
        } else {
            proof {
                assert(v@[i as int] == k);
                assert forall|x: BucketKey| prefix1.contains(x) && x != k
                    implies #[trigger] out@.contains(x) by {
                    let wi = choose|j: int| 0 <= j < prefix1.len() && prefix1[j] == x;
                    assert(wi < prefix.len());
                    assert(prefix.contains(x));
                }
                assert forall|x: BucketKey| #[trigger] out@.contains(x)
                    implies (prefix1.contains(x) && x != k) by {
                    assert(prefix.contains(x));
                    let wi = choose|j: int| 0 <= j < prefix.len() && prefix[j] == x;
                    assert(prefix1[wi] == x);
                }
            }
        }
        i = i + 1;
    }
    proof {
        assert(v@.subrange(0, n as int) =~= v@);
    }
    out
}

/// A copy of `v` with every occurrence of `k` left out.
pub(crate) fn key_list_without(v: &Vec<DealKey>, k: DealKey) -> (r: Vec<DealKey>)
    ensures
        forall|x: DealKey| #[trigger] r@.contains(x) <==> (v@.contains(x) && x != k),
{
    let n: usize = v.len();
    let mut out: Vec<DealKey> = Vec::new();
    let mut i: usize = 0;
    while i < n
        invariant
            n == v@.len(),
            0 <= i <= n,
            forall|x: DealKey| #[trigger] out@.contains(x)
                <==> (v@.subrange(0, i as int).contains(x) && x != k),
        decreases n - i,
    {
        let ghost prefix = v@.subrange(0, i as int);
        let ghost prefix1 = v@.subrange(0, i as int + 1);
        proof {
            assert(prefix1 =~= prefix.push(v@[i as int]));
        }
        if !(v[i].consumer_id == k.consumer_id && v[i].provider_id == k.provider_id
            && v[i].deal_id == k.deal_id) {
            let ghost out0 = out@;
            out.push(v[i]);
            proof {
                assert(v@[i as int] != k);
                assert forall|x: DealKey| #[trigger] out@.contains(x)
                    implies (prefix1.contains(x) && x != k) by {
                    let wi = choose|j: int| 0 <= j < out@.len() && out@[j] == x;
                    if wi < out0.len() {
                        assert(out0.contains(x));
                    } else {
                        assert(x == v@[i as int]);
                        assert(prefix1[prefix1.len() - 1] == x);
                    }
                }
                assert forall|x: DealKey| prefix1.contains(x) && x != k
                    implies #[trigger] out@.contains(x) by {
                    let wi = choose|j: int| 0 <= j < prefix1.len() && prefix1[j] == x;
                    if wi < prefix.len() {
                        assert(prefix.contains(x));
                        assert(out0.contains(x));
                        let wo = choose|j: int| 0 <= j < out0.len() && out0[j] == x;
                        assert(out@[wo] == x);
                    } else {
                        assert(x == v@[i as int]);
                        assert(out@[out@.len() - 1] == x);
                    }
                }
            }
        } else {
            proof {
                assert(v@[i as int] == k);
                assert forall|x: DealKey| prefix1.contains(x) && x != k
                    implies #[trigger] out@.contains(x) by {
                    let wi = choose|j: int| 0 <= j < prefix1.len() && prefix1[j] == x;
                    assert(wi < prefix.len());
                    assert(prefix.contains(x));
                }
                assert forall|x: DealKey| #[trigger] out@.contains(x)
                    implies (prefix1.contains(x) && x != k) by {
                    assert(prefix.contains(x));
                    let wi = choose|j: int| 0 <= j < prefix.len() && prefix[j] == x;
                    assert(prefix1[wi] == x);
                }
            }
        }
        i = i + 1;
    }
    proof {
        assert(v@.subrange(0, n as int) =~= v@);
    }
    out
}

} // verus!
