use storage_market::market::Marketplace;
use storage_market::types::DealStatus;
use storage_market::types::MarketError;

const PROVIDER: u64 = 1;
const CONSUMER: u64 = 2;

fn market_with_bucket() -> (Marketplace, u32) {
    let mut m = Marketplace::new();
    m.register_provider(PROVIDER, String::from("provider"), 10).unwrap();
    m.register_consumer(CONSUMER, String::from("consumer"), 10).unwrap();
    let bucket_id = m
        .create_bucket(
            PROVIDER,
            String::from("vault"),
            String::from("us-east"),
            String::from("us"),
            true,
            String::from("fb-7"),
            String::from("s3"),
            10,
            5,
            10,
        )
        .unwrap();
    (m, bucket_id)
}

fn pending_deal(m: &mut Marketplace, bucket_id: u32) -> u32 {
    m.create_deal(
        CONSUMER,
        PROVIDER,
        bucket_id,
        3600,
        50,
        50,
        String::from("repo"),
        String::from("s3"),
        20,
    )
        .unwrap()
}

#[test]
fn create_deal_locks_bucket_and_registers_keys() {
    let (mut m, bucket_id) = market_with_bucket();
    assert!(!m.get_bucket(PROVIDER, bucket_id).unwrap().locked);
    let deal_id = pending_deal(&mut m, bucket_id);

    let d = m.get_deal(CONSUMER, PROVIDER, deal_id).unwrap();
    assert_eq!(d.status, DealStatus::Pending);
    assert_eq!(d.balance_consumer, 0);
    assert_eq!(d.start_ts, 20);
    assert!(m.get_bucket(PROVIDER, bucket_id).unwrap().locked);
    assert_eq!(m.get_deal_count(), 1);
    assert_eq!(m.get_deals_by_consumer(CONSUMER).unwrap().len(), 1);
    assert_eq!(m.get_deals_by_provider(PROVIDER).unwrap().len(), 1);
}

#[test]
fn locked_bucket_refuses_a_second_deal() {
    let (mut m, bucket_id) = market_with_bucket();
    let _first = pending_deal(&mut m, bucket_id);
    let second = m.create_deal(
        CONSUMER,
        PROVIDER,
        bucket_id,
        3600,
        1,
        1,
        String::from("other"),
        String::from("s3"),
        21,
    );
    assert_eq!(second.unwrap_err(), MarketError::BucketLocked);
}

#[test]
fn acceptance_requires_pending() {
    let (mut m, bucket_id) = market_with_bucket();
    let deal_id = pending_deal(&mut m, bucket_id);
    assert!(m.set_deal_accepted(CONSUMER, PROVIDER, deal_id).unwrap());
    assert_eq!(
        m.get_deal(CONSUMER, PROVIDER, deal_id).unwrap().status,
        DealStatus::Accepted
    );
    // A second acceptance is rejected: the deal is no longer pending.
    assert!(!m.set_deal_accepted(CONSUMER, PROVIDER, deal_id).unwrap());
}

#[test]
fn funding_requires_acceptance_and_balance() {
    let (mut m, bucket_id) = market_with_bucket();
    let deal_id = pending_deal(&mut m, bucket_id);

    // Not yet accepted.
    assert!(!m.set_deal_funded(CONSUMER, PROVIDER, deal_id, 100, 1000).unwrap());
    assert!(m.set_deal_accepted(CONSUMER, PROVIDER, deal_id).unwrap());

    // Insufficient external balance: a normal failure, nothing changes.
    assert!(!m.set_deal_funded(CONSUMER, PROVIDER, deal_id, 100, 99).unwrap());
    assert_eq!(
        m.get_deal(CONSUMER, PROVIDER, deal_id).unwrap().status,
        DealStatus::Accepted
    );

    assert!(m.set_deal_funded(CONSUMER, PROVIDER, deal_id, 100, 100).unwrap());
    let d = m.get_deal(CONSUMER, PROVIDER, deal_id).unwrap();
    assert_eq!(d.status, DealStatus::Funded);
    assert_eq!(d.balance_consumer, 100);
    assert_eq!(d.balance_provider, 0);
    assert_eq!(m.get_active_deals(0, 10).len(), 1);
}

#[test]
fn completion_refunds_residual_and_releases_bucket() {
    let (mut m, bucket_id) = market_with_bucket();
    let deal_id = pending_deal(&mut m, bucket_id);
    assert!(m.set_deal_accepted(CONSUMER, PROVIDER, deal_id).unwrap());
    assert!(m.set_deal_funded(CONSUMER, PROVIDER, deal_id, 1000, 1000).unwrap());
    assert!(m.update_deal_consumption(PROVIDER, CONSUMER, deal_id, 50, 20).unwrap());

    let receipt = m.set_deal_completed(PROVIDER, CONSUMER, deal_id).unwrap();
    assert!(receipt.closed);
    assert_eq!(receipt.pay_provider, 600);
    assert_eq!(receipt.refund_consumer, 400);

    let d = m.get_deal(CONSUMER, PROVIDER, deal_id).unwrap();
    assert_eq!(d.status, DealStatus::Completed);
    assert_eq!(d.balance_consumer, 0);
    assert_eq!(d.balance_provider, 600);
    assert!(!m.get_bucket(PROVIDER, bucket_id).unwrap().locked);
    assert_eq!(m.get_active_deals(0, 10).len(), 0);

    // The released bucket can host a new deal.
    let next = pending_deal(&mut m, bucket_id);
    assert!(next != deal_id);
    assert!(m.get_bucket(PROVIDER, bucket_id).unwrap().locked);
}

#[test]
fn completion_requires_funded_or_provider_breach() {
    let (mut m, bucket_id) = market_with_bucket();
    let deal_id = pending_deal(&mut m, bucket_id);
    let receipt = m.set_deal_completed(PROVIDER, CONSUMER, deal_id).unwrap();
    assert!(!receipt.closed);
    assert_eq!(
        m.get_deal(CONSUMER, PROVIDER, deal_id).unwrap().status,
        DealStatus::Pending
    );
}

#[test]
fn cancellation_requires_consumer_breach() {
    let (mut m, bucket_id) = market_with_bucket();
    let deal_id = pending_deal(&mut m, bucket_id);
    assert!(m.set_deal_accepted(CONSUMER, PROVIDER, deal_id).unwrap());
    assert!(m.set_deal_funded(CONSUMER, PROVIDER, deal_id, 300, 300).unwrap());

    // Still funded: cancellation is rejected.
    assert!(!m.set_deal_cancelled(PROVIDER, CONSUMER, deal_id).unwrap().closed);

    // Drain the escrow through proration to reach BreachedConsumer.
    assert!(m.update_deal_consumption(PROVIDER, CONSUMER, deal_id, 50, 20).unwrap());
    assert!(m.pay_pending_consumption(PROVIDER, CONSUMER, deal_id).unwrap().settled);
    assert_eq!(
        m.get_deal(CONSUMER, PROVIDER, deal_id).unwrap().status,
        DealStatus::BreachedConsumer
    );

    let receipt = m.set_deal_cancelled(PROVIDER, CONSUMER, deal_id).unwrap();
    assert!(receipt.closed);
    assert_eq!(receipt.refund_consumer, 0);
    let d = m.get_deal(CONSUMER, PROVIDER, deal_id).unwrap();
    assert_eq!(d.status, DealStatus::Cancelled);
    assert!(!m.get_bucket(PROVIDER, bucket_id).unwrap().locked);
}

#[test]
fn breach_resets_to_funded_after_clean_settlement() {
    let (mut m, bucket_id) = market_with_bucket();
    assert!(m.update_bucket_sla(PROVIDER, bucket_id, Some(100), Some(9990)).unwrap());
    let deal_id = pending_deal(&mut m, bucket_id);
    assert!(m.set_deal_accepted(CONSUMER, PROVIDER, deal_id).unwrap());
    assert!(m.set_deal_funded(CONSUMER, PROVIDER, deal_id, 1000, 1000).unwrap());

    // Breach once: slashed, demoted.
    assert!(m.update_deal_sla(PROVIDER, CONSUMER, deal_id, 200, 9990).unwrap());
    assert!(m.update_deal_consumption(PROVIDER, CONSUMER, deal_id, 10, 0).unwrap());
    assert!(!m.pay_pending_consumption(PROVIDER, CONSUMER, deal_id).unwrap().settled);
    assert_eq!(
        m.get_deal(CONSUMER, PROVIDER, deal_id).unwrap().status,
        DealStatus::BreachedProvider
    );

    // Service recovers; the next full settlement restores Funded.
    assert!(m.update_deal_sla(PROVIDER, CONSUMER, deal_id, 50, 9990).unwrap());
    assert!(m.update_deal_consumption(PROVIDER, CONSUMER, deal_id, 10, 0).unwrap());
    let receipt = m.pay_pending_consumption(PROVIDER, CONSUMER, deal_id).unwrap();
    assert!(receipt.settled);
    assert_eq!(receipt.pay_provider, 100);
    assert_eq!(
        m.get_deal(CONSUMER, PROVIDER, deal_id).unwrap().status,
        DealStatus::Funded
    );
}

#[test]
fn manual_breach_marks_require_engagement() {
    let (mut m, bucket_id) = market_with_bucket();
    let deal_id = pending_deal(&mut m, bucket_id);

    // A pending deal cannot be marked breached.
    assert!(!m.set_deal_breached_consumer(PROVIDER, CONSUMER, deal_id).unwrap());
    assert!(!m.set_deal_breached_provider(PROVIDER, CONSUMER, deal_id).unwrap());

    assert!(m.set_deal_accepted(CONSUMER, PROVIDER, deal_id).unwrap());
    assert!(m.set_deal_funded(CONSUMER, PROVIDER, deal_id, 10, 10).unwrap());
    assert!(m.set_deal_breached_consumer(PROVIDER, CONSUMER, deal_id).unwrap());
    assert_eq!(
        m.get_deal(CONSUMER, PROVIDER, deal_id).unwrap().status,
        DealStatus::BreachedConsumer
    );
    assert!(m.set_deal_breached_provider(PROVIDER, CONSUMER, deal_id).unwrap());
    assert_eq!(
        m.get_deal(CONSUMER, PROVIDER, deal_id).unwrap().status,
        DealStatus::BreachedProvider
    );
}

#[test]
fn delete_pending_deal_releases_bucket() {
    let (mut m, bucket_id) = market_with_bucket();
    let deal_id = pending_deal(&mut m, bucket_id);
    assert!(m.get_bucket(PROVIDER, bucket_id).unwrap().locked);

    assert!(m.delete_deal(CONSUMER, PROVIDER, deal_id).unwrap());
    assert!(m.get_deal(CONSUMER, PROVIDER, deal_id).is_none());
    assert!(!m.get_bucket(PROVIDER, bucket_id).unwrap().locked);
    // The identifier counter keeps its history.
    assert_eq!(m.get_deal_count(), 1);
}

#[test]
fn delete_engaged_deal_clears_active_collections() {
    let (mut m, bucket_id) = market_with_bucket();
    let deal_id = pending_deal(&mut m, bucket_id);
    assert!(m.set_deal_accepted(CONSUMER, PROVIDER, deal_id).unwrap());
    assert!(m.set_deal_funded(CONSUMER, PROVIDER, deal_id, 500, 500).unwrap());
    assert_eq!(m.get_active_deals(0, 10).len(), 1);

    assert!(m.delete_deal(CONSUMER, PROVIDER, deal_id).unwrap());
    assert!(m.get_deal(CONSUMER, PROVIDER, deal_id).is_none());
    assert_eq!(m.get_active_deals(0, 10).len(), 0);
    assert!(!m.get_bucket(PROVIDER, bucket_id).unwrap().locked);
    assert_eq!(
        m.delete_deal(CONSUMER, PROVIDER, deal_id).unwrap_err(),
        MarketError::DealNotFound
    );
}

#[test]
fn create_deal_demands_registered_parties_and_bucket() {
    let (mut m, bucket_id) = market_with_bucket();
    assert_eq!(
        m.create_deal(
            CONSUMER,
            99,
            bucket_id,
            1,
            1,
            1,
            String::from("r"),
            String::from("s3"),
            0,
        )
            .unwrap_err(),
        MarketError::ProviderNotFound
    );
    assert_eq!(
        m.create_deal(
            99,
            PROVIDER,
            bucket_id,
            1,
            1,
            1,
            String::from("r"),
            String::from("s3"),
            0,
        )
            .unwrap_err(),
        MarketError::ConsumerNotFound
    );
    assert_eq!(
        m.create_deal(
            CONSUMER,
            PROVIDER,
            bucket_id + 7,
            1,
            1,
            1,
            String::from("r"),
            String::from("s3"),
            0,
        )
            .unwrap_err(),
        MarketError::BucketNotFound
    );
}

#[test]
fn deleted_deal_keys_are_passed_over_in_party_listings() {
    let (mut m, first_bucket) = market_with_bucket();
    let second_bucket = m
        .create_bucket(
            PROVIDER,
            String::from("vault-b"),
            String::from("us-west"),
            String::from("us"),
            false,
            String::from("fb-9"),
            String::from("s3"),
            2,
            2,
            12,
        )
        .unwrap();
    let first = pending_deal(&mut m, first_bucket);
    let second = pending_deal(&mut m, second_bucket);

    assert!(m.delete_deal(CONSUMER, PROVIDER, first).unwrap());

    // The record is gone; the dangling key in the parties' collections is
    // skipped when listing.
    let by_consumer = m.get_deals_by_consumer(CONSUMER).unwrap();
    assert_eq!(by_consumer.len(), 1);
    assert_eq!(by_consumer[0].deal_id, second);
    let by_provider = m.get_deals_by_provider(PROVIDER).unwrap();
    assert_eq!(by_provider.len(), 1);
    assert_eq!(m.get_deals(0, 10).len(), 1);
    assert_eq!(m.get_deal_count(), 2);
}

#[test]
fn empty_marketplace_reports_nothing() {
    let m = Marketplace::new();
    assert_eq!(m.get_provider_count(), 0);
    assert_eq!(m.get_consumer_count(), 0);
    assert_eq!(m.get_bucket_count(), 0);
    assert_eq!(m.get_deal_count(), 0);
    assert_eq!(m.get_providers(0, 5).len(), 0);
    assert_eq!(m.get_consumers(0, 5).len(), 0);
    assert_eq!(m.get_buckets(0, 5).len(), 0);
    assert_eq!(m.get_deals(0, 5).len(), 0);
    assert_eq!(m.get_active_deals(0, 5).len(), 0);
    assert!(m.get_deal(1, 2, 0).is_none());
    assert!(m.get_bucket(1, 0).is_none());
}

#[test]
fn deal_listings_window_and_filter() {
    let (mut m, first_bucket) = market_with_bucket();
    let second_bucket = m
        .create_bucket(
            PROVIDER,
            String::from("vault-b"),
            String::from("us-west"),
            String::from("us"),
            false,
            String::from("fb-8"),
            String::from("s3"),
            1,
            1,
            11,
        )
        .unwrap();
    let first = pending_deal(&mut m, first_bucket);
    let second = pending_deal(&mut m, second_bucket);
    assert!(m.set_deal_accepted(CONSUMER, PROVIDER, second).unwrap());
    assert!(m.set_deal_funded(CONSUMER, PROVIDER, second, 5, 5).unwrap());

    let all = m.get_deals(0, 10);
    assert_eq!(all.len(), 2);
    assert_eq!(all[0].deal_id, first);
    assert_eq!(all[1].deal_id, second);
    assert_eq!(m.get_deals(1, 10).len(), 1);
    assert_eq!(m.get_deals(1, 10)[0].deal_id, second);
    assert_eq!(m.get_deals(0, 1).len(), 1);
    assert_eq!(m.get_deals(5, 10).len(), 0);

    let active = m.get_active_deals(0, 10);
    assert_eq!(active.len(), 1);
    assert_eq!(active[0].deal_id, second);
    assert_eq!(m.get_active_deals(1, 10).len(), 0);

    let by_consumer = m.get_deals_by_consumer(CONSUMER).unwrap();
    assert_eq!(by_consumer.len(), 2);
    assert_eq!(m.get_deals_by_provider(PROVIDER).unwrap().len(), 2);
}
