use storage_market::market::Marketplace;
use storage_market::types::DealStatus;
use storage_market::types::MarketError;

const PROVIDER: u64 = 11;
const CONSUMER: u64 = 22;

/// A marketplace with one provider, one consumer, and one bucket priced at
/// storage=10, egress=5 per GB, with an SLA of at most 100 ms latency and at
/// least 99.90% uptime.
fn market_with_bucket() -> (Marketplace, u32) {
    let mut m = Marketplace::new();
    m.register_provider(PROVIDER, String::from("provider"), 1000).unwrap();
    m.register_consumer(CONSUMER, String::from("consumer"), 1000).unwrap();
    let bucket_id = m
        .create_bucket(
            PROVIDER,
            String::from("vault"),
            String::from("eu-central"),
            String::from("de"),
            false,
            String::from("fb-1"),
            String::from("s3"),
            10,
            5,
            1000,
        )
        .unwrap();
    assert!(m.update_bucket_sla(PROVIDER, bucket_id, Some(100), Some(9990)).unwrap());
    (m, bucket_id)
}

/// The bucket's deal, accepted and funded with the given escrow.
fn funded_deal(m: &mut Marketplace, bucket_id: u32, escrow: u128) -> u32 {
    let deal_id = m
        .create_deal(
            CONSUMER,
            PROVIDER,
            bucket_id,
            86400,
            100,
            100,
            String::from("repo"),
            String::from("s3"),
            2000,
        )
        .unwrap();
    assert!(m.set_deal_accepted(CONSUMER, PROVIDER, deal_id).unwrap());
    assert!(m.set_deal_funded(CONSUMER, PROVIDER, deal_id, escrow, escrow + 1).unwrap());
    deal_id
}

#[test]
fn full_settlement_scenario() {
    let (mut m, bucket_id) = market_with_bucket();
    let deal_id = funded_deal(&mut m, bucket_id, 1000);
    assert!(m.update_deal_consumption(PROVIDER, CONSUMER, deal_id, 50, 20).unwrap());

    let receipt = m.pay_pending_consumption(PROVIDER, CONSUMER, deal_id).unwrap();
    assert!(receipt.settled);
    assert_eq!(receipt.pay_provider, 600);

    let d = m.get_deal(CONSUMER, PROVIDER, deal_id).unwrap();
    assert_eq!(d.balance_consumer, 400);
    assert_eq!(d.balance_provider, 600);
    assert_eq!(d.paid_storage_gb, 50);
    assert_eq!(d.paid_egress_gb, 20);
    assert_eq!(d.unpaid_storage_gb, 0);
    assert_eq!(d.unpaid_egress_gb, 0);
    assert_eq!(d.status, DealStatus::Funded);
}

#[test]
fn proration_scenario() {
    let (mut m, bucket_id) = market_with_bucket();
    let deal_id = funded_deal(&mut m, bucket_id, 300);
    assert!(m.update_deal_consumption(PROVIDER, CONSUMER, deal_id, 50, 20).unwrap());

    let receipt = m.pay_pending_consumption(PROVIDER, CONSUMER, deal_id).unwrap();
    assert!(receipt.settled);
    assert_eq!(receipt.pay_provider, 300);

    let d = m.get_deal(CONSUMER, PROVIDER, deal_id).unwrap();
    assert_eq!(d.unpaid_storage_gb, 25);
    assert_eq!(d.paid_storage_gb, 25);
    assert_eq!(d.unpaid_egress_gb, 10);
    assert_eq!(d.paid_egress_gb, 10);
    assert_eq!(d.balance_consumer, 0);
    assert_eq!(d.balance_provider, 300);
    assert_eq!(d.status, DealStatus::BreachedConsumer);
}

#[test]
fn sla_breach_scenario() {
    let (mut m, bucket_id) = market_with_bucket();
    let deal_id = funded_deal(&mut m, bucket_id, 1000);
    assert!(m.update_deal_sla(PROVIDER, CONSUMER, deal_id, 150, 9990).unwrap());
    assert!(m.update_deal_consumption(PROVIDER, CONSUMER, deal_id, 50, 20).unwrap());

    let receipt = m.pay_pending_consumption(PROVIDER, CONSUMER, deal_id).unwrap();
    assert!(!receipt.settled);
    assert_eq!(receipt.pay_provider, 0);

    let d = m.get_deal(CONSUMER, PROVIDER, deal_id).unwrap();
    assert_eq!(d.slash_amount_usd, 600);
    assert_eq!(d.slash_storage_gb, 50);
    assert_eq!(d.slash_egress_gb, 20);
    assert_eq!(d.unpaid_storage_gb, 0);
    assert_eq!(d.unpaid_egress_gb, 0);
    assert_eq!(d.balance_consumer, 1000);
    assert_eq!(d.balance_provider, 0);
    assert_eq!(d.status, DealStatus::BreachedProvider);
}

#[test]
fn sla_breach_on_low_uptime() {
    let (mut m, bucket_id) = market_with_bucket();
    let deal_id = funded_deal(&mut m, bucket_id, 1000);
    assert!(m.update_deal_sla(PROVIDER, CONSUMER, deal_id, 50, 9000).unwrap());
    assert!(m.update_deal_consumption(PROVIDER, CONSUMER, deal_id, 1, 0).unwrap());

    let receipt = m.pay_pending_consumption(PROVIDER, CONSUMER, deal_id).unwrap();
    assert!(!receipt.settled);
    assert_eq!(receipt.pay_provider, 0);
    let d = m.get_deal(CONSUMER, PROVIDER, deal_id).unwrap();
    assert_eq!(d.slash_amount_usd, 10);
    assert_eq!(d.status, DealStatus::BreachedProvider);
}

#[test]
fn noop_settlement_is_idempotent() {
    let (mut m, bucket_id) = market_with_bucket();
    let deal_id = funded_deal(&mut m, bucket_id, 1000);

    let before = m.get_deal(CONSUMER, PROVIDER, deal_id).unwrap();
    let receipt = m.pay_pending_consumption(PROVIDER, CONSUMER, deal_id).unwrap();
    assert!(receipt.settled);
    assert_eq!(receipt.pay_provider, 0);

    let after = m.get_deal(CONSUMER, PROVIDER, deal_id).unwrap();
    assert_eq!(after.balance_consumer, before.balance_consumer);
    assert_eq!(after.balance_provider, before.balance_provider);
    assert_eq!(after.paid_storage_gb, before.paid_storage_gb);
    assert_eq!(after.paid_egress_gb, before.paid_egress_gb);
    assert_eq!(after.status, before.status);
}

#[test]
fn empty_escrow_settlement_fails_without_change() {
    let (mut m, bucket_id) = market_with_bucket();
    let deal_id = funded_deal(&mut m, bucket_id, 0);
    assert!(m.update_deal_consumption(PROVIDER, CONSUMER, deal_id, 3, 0).unwrap());

    let receipt = m.pay_pending_consumption(PROVIDER, CONSUMER, deal_id).unwrap();
    assert!(!receipt.settled);
    assert_eq!(receipt.pay_provider, 0);
    let d = m.get_deal(CONSUMER, PROVIDER, deal_id).unwrap();
    assert_eq!(d.unpaid_storage_gb, 3);
    assert_eq!(d.status, DealStatus::Funded);
}

#[test]
fn settlement_conserves_deal_balances() {
    let (mut m, bucket_id) = market_with_bucket();
    let deal_id = funded_deal(&mut m, bucket_id, 450);
    assert!(m.update_deal_consumption(PROVIDER, CONSUMER, deal_id, 50, 20).unwrap());

    let before = m.get_deal(CONSUMER, PROVIDER, deal_id).unwrap();
    let receipt = m.pay_pending_consumption(PROVIDER, CONSUMER, deal_id).unwrap();
    let after = m.get_deal(CONSUMER, PROVIDER, deal_id).unwrap();
    assert_eq!(
        after.balance_consumer + after.balance_provider,
        before.balance_consumer + before.balance_provider
    );
    assert_eq!(receipt.pay_provider, before.balance_consumer - after.balance_consumer);
}

#[test]
fn amount_due_overflow_aborts_settlement() {
    let mut m = Marketplace::new();
    m.register_provider(PROVIDER, String::from("provider"), 0).unwrap();
    m.register_consumer(CONSUMER, String::from("consumer"), 0).unwrap();
    let bucket_id = m
        .create_bucket(
            PROVIDER,
            String::from("vault"),
            String::from("eu"),
            String::from("de"),
            false,
            String::from("fb"),
            String::from("s3"),
            u128::MAX,
            0,
            0,
        )
        .unwrap();
    let deal_id = funded_deal(&mut m, bucket_id, 100);
    assert!(m.update_deal_consumption(PROVIDER, CONSUMER, deal_id, 2, 0).unwrap());

    let receipt = m.pay_pending_consumption(PROVIDER, CONSUMER, deal_id).unwrap();
    assert!(!receipt.settled);
    assert_eq!(receipt.pay_provider, 0);
    let d = m.get_deal(CONSUMER, PROVIDER, deal_id).unwrap();
    assert_eq!(d.unpaid_storage_gb, 2);
    assert_eq!(d.balance_consumer, 100);
    assert_eq!(d.status, DealStatus::Funded);
}

#[test]
fn slash_accumulator_overflow_aborts_settlement() {
    let (mut m, bucket_id) = market_with_bucket();
    let deal_id = funded_deal(&mut m, bucket_id, 1000);
    assert!(m.update_deal_sla(PROVIDER, CONSUMER, deal_id, 150, 9990).unwrap());

    // First breach fills the slash accumulator to its limit.
    assert!(m.update_deal_consumption(PROVIDER, CONSUMER, deal_id, u32::MAX, 0).unwrap());
    let first = m.pay_pending_consumption(PROVIDER, CONSUMER, deal_id).unwrap();
    assert!(!first.settled);
    assert_eq!(m.get_deal(CONSUMER, PROVIDER, deal_id).unwrap().slash_storage_gb, u32::MAX);

    // A second breach cannot accumulate further: the attempt aborts whole.
    assert!(m.update_deal_consumption(PROVIDER, CONSUMER, deal_id, 1, 0).unwrap());
    let second = m.pay_pending_consumption(PROVIDER, CONSUMER, deal_id).unwrap();
    assert!(!second.settled);
    let d = m.get_deal(CONSUMER, PROVIDER, deal_id).unwrap();
    assert_eq!(d.unpaid_storage_gb, 1);
    assert_eq!(d.slash_storage_gb, u32::MAX);
}

#[test]
fn proration_floor_keeps_nothing_on_tiny_balance() {
    // One storage-GB owed at price 10 against an escrow of 5: the kept
    // quantity floor(1 * 5 / 10) is zero, the whole gigabyte is recorded as
    // paid, and the provider receives the entire remaining escrow.
    let mut m = Marketplace::new();
    m.register_provider(PROVIDER, String::from("provider"), 0).unwrap();
    m.register_consumer(CONSUMER, String::from("consumer"), 0).unwrap();
    let bucket_id = m
        .create_bucket(
            PROVIDER,
            String::from("vault"),
            String::from("eu"),
            String::from("de"),
            false,
            String::from("fb"),
            String::from("s3"),
            10,
            5,
            0,
        )
        .unwrap();
    let deal_id = funded_deal(&mut m, bucket_id, 5);
    assert!(m.update_deal_consumption(PROVIDER, CONSUMER, deal_id, 1, 0).unwrap());

    let receipt = m.pay_pending_consumption(PROVIDER, CONSUMER, deal_id).unwrap();
    assert!(receipt.settled);
    assert_eq!(receipt.pay_provider, 5);
    let d = m.get_deal(CONSUMER, PROVIDER, deal_id).unwrap();
    assert_eq!(d.unpaid_storage_gb, 0);
    assert_eq!(d.paid_storage_gb, 1);
    assert_eq!(d.balance_consumer, 0);
    assert_eq!(d.balance_provider, 5);
    assert_eq!(d.status, DealStatus::BreachedConsumer);
}

#[test]
fn settlement_on_unknown_deal_fails() {
    let (mut m, _bucket_id) = market_with_bucket();
    assert_eq!(
        m.pay_pending_consumption(PROVIDER, CONSUMER, 77).unwrap_err(),
        MarketError::DealNotFound
    );
}

#[test]
fn consumption_overflow_is_rejected() {
    let (mut m, bucket_id) = market_with_bucket();
    let deal_id = funded_deal(&mut m, bucket_id, 1000);
    assert!(m.update_deal_consumption(PROVIDER, CONSUMER, deal_id, u32::MAX, 0).unwrap());
    assert!(!m.update_deal_consumption(PROVIDER, CONSUMER, deal_id, 1, 1).unwrap());
    let d = m.get_deal(CONSUMER, PROVIDER, deal_id).unwrap();
    assert_eq!(d.unpaid_storage_gb, u32::MAX);
    assert_eq!(d.unpaid_egress_gb, 0);
}
