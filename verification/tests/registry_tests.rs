use storage_market::market::Marketplace;
use storage_market::types::MarketError;

const PROVIDER: u64 = 5;
const CONSUMER: u64 = 6;

fn market() -> Marketplace {
    let mut m = Marketplace::new();
    m.register_provider(PROVIDER, String::from("acme storage"), 100).unwrap();
    m.register_consumer(CONSUMER, String::from("data hoarder"), 100).unwrap();
    m
}

fn sample_bucket(m: &mut Marketplace, name: &str, now_ts: u64) -> u32 {
    m.create_bucket(
        PROVIDER,
        String::from(name),
        String::from("eu-north"),
        String::from("se"),
        false,
        String::from("fb"),
        String::from("s3"),
        7,
        3,
        now_ts,
    )
        .unwrap()
}

#[test]
fn provider_registration_and_lookup() {
    let mut m = market();
    assert_eq!(m.get_provider_count(), 1);
    let p = m.get_provider(PROVIDER).unwrap();
    assert_eq!(p.provider_id, PROVIDER);
    assert_eq!(p.description, String::from("acme storage"));
    assert_eq!(p.reputation, 50);
    assert_eq!(p.registered_ts, 100);
    assert!(m.get_provider(99).is_none());

    assert_eq!(
        m.register_provider(PROVIDER, String::from("again"), 101).unwrap_err(),
        MarketError::ProviderAlreadyExists
    );
}

#[test]
fn provider_update_and_delete() {
    let mut m = market();
    assert!(m.update_provider(PROVIDER, String::from("rebranded"), 200).unwrap());
    let p = m.get_provider(PROVIDER).unwrap();
    assert_eq!(p.description, String::from("rebranded"));
    assert_eq!(p.last_update_ts, 200);
    assert_eq!(p.registered_ts, 100);

    assert_eq!(
        m.update_provider(99, String::from("ghost"), 201).unwrap_err(),
        MarketError::ProviderNotFound
    );
    assert!(m.delete_provider(PROVIDER).unwrap());
    assert!(m.get_provider(PROVIDER).is_none());
    assert_eq!(m.get_provider_count(), 0);
    assert_eq!(m.delete_provider(PROVIDER).unwrap_err(), MarketError::ProviderNotFound);
}

#[test]
fn deleting_a_party_with_engaged_deals_is_refused() {
    let mut m = market();
    let bucket_id = sample_bucket(&mut m, "vault", 100);
    let deal_id = m
        .create_deal(
            CONSUMER,
            PROVIDER,
            bucket_id,
            60,
            1,
            1,
            String::from("r"),
            String::from("s3"),
            100,
        )
        .unwrap();
    assert!(m.set_deal_accepted(CONSUMER, PROVIDER, deal_id).unwrap());
    assert!(m.set_deal_funded(CONSUMER, PROVIDER, deal_id, 10, 10).unwrap());

    assert!(!m.delete_provider(PROVIDER).unwrap());
    assert!(!m.delete_consumer(CONSUMER).unwrap());

    assert!(m.set_deal_completed(PROVIDER, CONSUMER, deal_id).unwrap().closed);
    assert!(m.delete_provider(PROVIDER).unwrap());
    assert!(m.delete_consumer(CONSUMER).unwrap());
}

#[test]
fn consumer_registration_update_and_delete() {
    let mut m = market();
    assert_eq!(m.get_consumer_count(), 1);
    let c = m.get_consumer(CONSUMER).unwrap();
    assert_eq!(c.consumer_id, CONSUMER);
    assert_eq!(c.reputation, 50);
    assert_eq!(
        m.register_consumer(CONSUMER, String::from("again"), 1).unwrap_err(),
        MarketError::ConsumerAlreadyExists
    );
    assert!(m.update_consumer(CONSUMER, String::from("archival"), 300).unwrap());
    assert_eq!(m.get_consumer(CONSUMER).unwrap().description, String::from("archival"));
    assert!(m.delete_consumer(CONSUMER).unwrap());
    assert!(m.get_consumer(CONSUMER).is_none());
}

#[test]
fn bucket_creation_defaults() {
    let mut m = market();
    let bucket_id = sample_bucket(&mut m, "vault", 123);
    assert_eq!(bucket_id, 0);
    assert_eq!(m.get_bucket_count(), 1);

    let b = m.get_bucket(PROVIDER, bucket_id).unwrap();
    assert_eq!(b.name, String::from("vault"));
    assert_eq!(b.price_per_gb_storage, 7);
    assert_eq!(b.price_per_gb_egress, 3);
    assert_eq!(b.max_storage_gb, 0);
    assert_eq!(b.sla_avg_latency_ms, 0);
    assert_eq!(b.sla_avg_uptime_pct, 9990);
    assert_eq!(b.access_scope, String::from("private"));
    assert_eq!(b.created_ts, 123);
    assert!(!b.locked);

    assert_eq!(
        m.create_bucket(
            99,
            String::from("x"),
            String::from("r"),
            String::from("c"),
            false,
            String::from("fb"),
            String::from("s3"),
            1,
            1,
            0,
        )
            .unwrap_err(),
        MarketError::ProviderNotFound
    );
}

#[test]
fn create_from_bucket_copies_terms() {
    let mut m = market();
    let first = sample_bucket(&mut m, "vault", 123);
    let template = m.get_bucket(PROVIDER, first).unwrap();
    let second = m.create_from_bucket(template, 456).unwrap();
    assert!(second != first);

    let b = m.get_bucket(PROVIDER, second).unwrap();
    assert_eq!(b.name, String::from("vault"));
    assert_eq!(b.price_per_gb_storage, 7);
    assert_eq!(b.price_per_gb_egress, 3);
    assert_eq!(b.created_ts, 456);
    assert!(!b.locked);
}

#[test]
fn bucket_updates_take_only_given_fields() {
    let mut m = market();
    let bucket_id = sample_bucket(&mut m, "vault", 0);

    assert!(m.update_bucket_basic(PROVIDER, bucket_id, Some(String::from("renamed")), None, None)
        .unwrap());
    let b = m.get_bucket(PROVIDER, bucket_id).unwrap();
    assert_eq!(b.name, String::from("renamed"));
    assert_eq!(b.region, String::from("eu-north"));

    assert!(m.update_bucket_pricing(PROVIDER, bucket_id, Some(11), None, Some(500), None)
        .unwrap());
    let b = m.get_bucket(PROVIDER, bucket_id).unwrap();
    assert_eq!(b.price_per_gb_storage, 11);
    assert_eq!(b.price_per_gb_egress, 3);
    assert_eq!(b.max_storage_gb, 500);

    assert!(m.update_bucket_sla(PROVIDER, bucket_id, None, Some(9999)).unwrap());
    let b = m.get_bucket(PROVIDER, bucket_id).unwrap();
    assert_eq!(b.sla_avg_latency_ms, 0);
    assert_eq!(b.sla_avg_uptime_pct, 9999);

    assert_eq!(
        m.update_bucket_basic(PROVIDER, 42, None, None, None).unwrap_err(),
        MarketError::BucketNotFound
    );
}

#[test]
fn locked_bucket_refuses_updates_and_deletion() {
    let mut m = market();
    let bucket_id = sample_bucket(&mut m, "vault", 0);
    m.create_deal(
        CONSUMER,
        PROVIDER,
        bucket_id,
        60,
        1,
        1,
        String::from("r"),
        String::from("s3"),
        0,
    )
        .unwrap();

    assert_eq!(
        m.update_bucket_basic(PROVIDER, bucket_id, Some(String::from("nope")), None, None)
            .unwrap_err(),
        MarketError::BucketLocked
    );
    assert_eq!(
        m.update_bucket_pricing(PROVIDER, bucket_id, Some(1), None, None, None).unwrap_err(),
        MarketError::BucketLocked
    );
    assert_eq!(
        m.update_bucket_sla(PROVIDER, bucket_id, Some(1), None).unwrap_err(),
        MarketError::BucketLocked
    );
    assert_eq!(m.delete_bucket(PROVIDER, bucket_id).unwrap_err(), MarketError::BucketLocked);
}

#[test]
fn bucket_deletion_removes_record_and_key() {
    let mut m = market();
    let first = sample_bucket(&mut m, "vault-a", 0);
    let second = sample_bucket(&mut m, "vault-b", 1);

    assert!(m.delete_bucket(PROVIDER, first).unwrap());
    assert!(m.get_bucket(PROVIDER, first).is_none());
    assert!(m.get_bucket(PROVIDER, second).is_some());
    // The identifier counter keeps its history.
    assert_eq!(m.get_bucket_count(), 2);

    let remaining = m.get_buckets_by_provider(PROVIDER).unwrap();
    assert_eq!(remaining.len(), 1);
    assert_eq!(remaining[0].bucket_id, second);
    assert_eq!(m.delete_bucket(PROVIDER, first).unwrap_err(), MarketError::BucketNotFound);
}

#[test]
fn listings_window_in_store_order() {
    let mut m = market();
    let b0 = sample_bucket(&mut m, "vault-a", 0);
    let b1 = sample_bucket(&mut m, "vault-b", 1);
    let b2 = sample_bucket(&mut m, "vault-c", 2);

    let all = m.get_buckets(0, 10);
    assert_eq!(all.len(), 3);
    assert_eq!(all[0].bucket_id, b0);
    assert_eq!(all[2].bucket_id, b2);

    let middle = m.get_buckets(1, 1);
    assert_eq!(middle.len(), 1);
    assert_eq!(middle[0].bucket_id, b1);
    assert_eq!(m.get_buckets(3, 5).len(), 0);
    assert_eq!(m.get_buckets(0, 0).len(), 0);

    m.register_provider(77, String::from("second provider"), 3).unwrap();
    let providers = m.get_providers(0, 10);
    assert_eq!(providers.len(), 2);
    assert_eq!(providers[0].provider_id, PROVIDER);
    assert_eq!(providers[1].provider_id, 77);
    assert_eq!(m.get_providers(1, 10).len(), 1);

    let consumers = m.get_consumers(0, 10);
    assert_eq!(consumers.len(), 1);
    assert_eq!(consumers[0].consumer_id, CONSUMER);
}
