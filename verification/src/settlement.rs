//! The settlement arithmetic: converting a deal's unpaid consumption into a
//! payment against its escrow, prorating when the escrow runs short and
//! slashing the provider's claim when the realized SLA misses the bucket's
//! published terms.
//!
//! [`settle`] is a pure function from the deal and its bucket to the updated
//! deal and the transfer the payment rail must perform; every arithmetic step
//! is checked, and any overflow aborts the attempt with no change.

use vstd::prelude::*;

use crate::types::Bucket;
use crate::types::Deal;
use crate::types::DealStatus;

verus! {

/// What one settlement attempt decided: the deal as it must be stored
/// afterwards, whether the attempt counts as successful (the original's
/// boolean result), and the amount the payment rail must move from the escrow
/// account to the provider's account.
pub struct SettlementOutcome {
    pub deal: Deal,
    pub settled: bool,
    pub pay_provider: u128,
}

/// The value of the deal's pending consumption at the bucket's prices.
pub open spec fn amount_due_spec(b: Bucket, d: Deal) -> int {
    b.price_per_gb_storage * d.unpaid_storage_gb + b.price_per_gb_egress * d.unpaid_egress_gb
}

/// The provider breached the SLA: worse latency than promised, or worse
/// uptime than promised.
pub open spec fn sla_breached_spec(b: Bucket, d: Deal) -> bool {
    d.sla_avg_latency_ms > b.sla_avg_latency_ms || d.sla_avg_uptime_pct < b.sla_avg_uptime_pct
}

/// Accumulating the pending quantities into the slash counters would
/// overflow them.
pub open spec fn slash_overflows(d: Deal) -> bool {
    ||| d.slash_storage_gb + d.unpaid_storage_gb > u32::MAX
    ||| d.slash_egress_gb + d.unpaid_egress_gb > u32::MAX
}

/// The deal after a provider breach: the whole pending amount is forfeited
/// into the slash accumulators, nothing is paid.
pub open spec fn slashed_deal(d: Deal, b: Bucket) -> Deal {
    Deal {
        slash_amount_usd: amount_due_spec(b, d) as u128,
        slash_storage_gb: (d.slash_storage_gb + d.unpaid_storage_gb) as u32,
        slash_egress_gb: (d.slash_egress_gb + d.unpaid_egress_gb) as u32,
        unpaid_storage_gb: 0,
        unpaid_egress_gb: 0,
        status: DealStatus::BreachedProvider,
        ..d
    }
}

/// The proration computation would overflow its wide intermediates.
pub open spec fn proration_overflows(d: Deal) -> bool {
    ||| d.unpaid_storage_gb * d.balance_consumer > u128::MAX
    ||| d.unpaid_egress_gb * d.balance_consumer > u128::MAX
    ||| d.balance_provider + d.balance_consumer > u128::MAX
}

/// The deal after a prorated settlement with escrow balance `b < amount due`:
/// each unpaid quantity shrinks to `floor(quantity * balance / due)`, the
/// difference is recorded as paid, and the whole remaining escrow moves to
/// the provider.
pub open spec fn prorated_deal(d: Deal, b: Bucket) -> Deal {
    let due = amount_due_spec(b, d);
    let kept_storage = d.unpaid_storage_gb * d.balance_consumer / due;
    let kept_egress = d.unpaid_egress_gb * d.balance_consumer / due;
    Deal {
        unpaid_storage_gb: kept_storage as u32,
        unpaid_egress_gb: kept_egress as u32,
        paid_storage_gb: (d.unpaid_storage_gb - kept_storage) as u32,
        paid_egress_gb: (d.unpaid_egress_gb - kept_egress) as u32,
        balance_consumer: 0,
        balance_provider: (d.balance_provider + d.balance_consumer) as u128,
        status: DealStatus::BreachedConsumer,
        ..d
    }
}

/// Settling in full would overflow the lifetime counters or the provider
/// balance.
pub open spec fn full_payment_overflows(d: Deal, b: Bucket) -> bool {
    ||| d.paid_storage_gb + d.unpaid_storage_gb > u32::MAX
    ||| d.paid_egress_gb + d.unpaid_egress_gb > u32::MAX
    ||| d.balance_provider + amount_due_spec(b, d) > u128::MAX
}

/// The deal after a full settlement: unpaid quantities move into the lifetime
/// paid counters and the amount due moves from the consumer's escrow to the
/// provider.
pub open spec fn fully_paid_deal(d: Deal, b: Bucket) -> Deal {
    let due = amount_due_spec(b, d);
    Deal {
        paid_storage_gb: (d.paid_storage_gb + d.unpaid_storage_gb) as u32,
        paid_egress_gb: (d.paid_egress_gb + d.unpaid_egress_gb) as u32,
        unpaid_storage_gb: 0,
        unpaid_egress_gb: 0,
        balance_consumer: (d.balance_consumer - due) as u128,
        balance_provider: (d.balance_provider + due) as u128,
        status: DealStatus::Funded,
        ..d
    }
}

/// An attempt that leaves the deal as it stands and moves no funds.
pub open spec fn unchanged_outcome(d: Deal, settled: bool) -> SettlementOutcome {
    SettlementOutcome { deal: d, settled: settled, pay_provider: 0 }
}

/// What one settlement attempt does, case by case:
/// - nothing is due: success, no change;
/// - the amount due overflows its wide arithmetic: failure, no change;
/// - the escrow is empty: failure, no change (nothing to disburse);
/// - the realized SLA misses the bucket's terms: the pending amount is
///   forfeited (no transfer), the deal becomes `BreachedProvider`, failure;
/// - the escrow covers part of the amount due: prorated payment of the whole
///   remaining escrow, the deal becomes `BreachedConsumer`, success;
/// - the escrow covers everything: full payment, the deal returns to
///   `Funded`, success.
/// Any overflow on the way fails the attempt with no change.
pub open spec fn settle_spec(d: Deal, b: Bucket) -> SettlementOutcome {
    let due = amount_due_spec(b, d);
    if due == 0 {
        unchanged_outcome(d, true)
    } else if due > u128::MAX {
        unchanged_outcome(d, false)
    } else if d.balance_consumer == 0 {
        unchanged_outcome(d, false)
    } else if sla_breached_spec(b, d) {
        if slash_overflows(d) {
            unchanged_outcome(d, false)
        } else {
            SettlementOutcome { deal: slashed_deal(d, b), settled: false, pay_provider: 0 }
        }
    } else if d.balance_consumer < due {
        if proration_overflows(d) {
            unchanged_outcome(d, false)
        } else {
            SettlementOutcome {
                deal: prorated_deal(d, b),
                settled: true,
                pay_provider: d.balance_consumer,
            }
        }
    } else {
        if full_payment_overflows(d, b) {
            unchanged_outcome(d, false)
        } else {
            SettlementOutcome {
                deal: fully_paid_deal(d, b),
                settled: true,
                pay_provider: due as u128,
            }
        }
    }
}

/// Settle the deal's pending consumption against its escrow, per
/// [`settle_spec`]. Pure: the caller stores the returned deal and performs
/// the returned transfer as one atomic unit.
pub fn settle(d: &Deal, b: &Bucket) -> (r: SettlementOutcome)
    ensures
        r == settle_spec(*d, *b),
{
    let due_storage: u128 = match b.price_per_gb_storage.checked_mul(d.unpaid_storage_gb as u128) {
        Some(x) => x,
        None => {
            return SettlementOutcome { deal: d.clone(), settled: false, pay_provider: 0 };
        },
    };
    let due_egress: u128 = match b.price_per_gb_egress.checked_mul(d.unpaid_egress_gb as u128) {
        Some(x) => x,
        None => {
            return SettlementOutcome { deal: d.clone(), settled: false, pay_provider: 0 };
        },
    };
    let due: u128 = match due_storage.checked_add(due_egress) {
        Some(x) => x,
        None => {
            return SettlementOutcome { deal: d.clone(), settled: false, pay_provider: 0 };
        },
    };
    if due == 0 {
        return SettlementOutcome { deal: d.clone(), settled: true, pay_provider: 0 };
    }
    if d.balance_consumer == 0 {
        return SettlementOutcome { deal: d.clone(), settled: false, pay_provider: 0 };
    }

    if d.sla_avg_latency_ms > b.sla_avg_latency_ms
        || d.sla_avg_uptime_pct < b.sla_avg_uptime_pct {
        let slash_storage: u32 = match d.slash_storage_gb.checked_add(d.unpaid_storage_gb) {
            Some(x) => x,
            None => {
                return SettlementOutcome { deal: d.clone(), settled: false, pay_provider: 0 };
            },
        };
        let slash_egress: u32 = match d.slash_egress_gb.checked_add(d.unpaid_egress_gb) {
            Some(x) => x,
            None => {
                return SettlementOutcome { deal: d.clone(), settled: false, pay_provider: 0 };
            },
        };
        let mut slashed = d.clone();
        slashed.slash_amount_usd = due;
        slashed.slash_storage_gb = slash_storage;
        slashed.slash_egress_gb = slash_egress;
        slashed.unpaid_storage_gb = 0;
        slashed.unpaid_egress_gb = 0;
        slashed.status = DealStatus::BreachedProvider;
        return SettlementOutcome { deal: slashed, settled: false, pay_provider: 0 };
    }

    if d.balance_consumer < due {
        let scaled_storage: u128 = match (d.unpaid_storage_gb as u128).checked_mul(
            d.balance_consumer,
        ) {
            Some(x) => x,
            None => {
                return SettlementOutcome { deal: d.clone(), settled: false, pay_provider: 0 };
            },
        };
        let scaled_egress: u128 = match (d.unpaid_egress_gb as u128).checked_mul(
            d.balance_consumer,
        ) {
            Some(x) => x,
            None => {
                return SettlementOutcome { deal: d.clone(), settled: false, pay_provider: 0 };
            },
        };
        let new_provider_balance: u128 = match d.balance_provider.checked_add(d.balance_consumer) {
            Some(x) => x,
            None => {
                return SettlementOutcome { deal: d.clone(), settled: false, pay_provider: 0 };
            },
        };
        let kept_storage: u128 = scaled_storage / due;
        let kept_egress: u128 = scaled_egress / due;
        proof {
            lemma_kept_at_most_unpaid(
                d.unpaid_storage_gb as int,
                d.balance_consumer as int,
                due as int,
            );
            lemma_kept_at_most_unpaid(
                d.unpaid_egress_gb as int,
                d.balance_consumer as int,
                due as int,
            );
        }
        let mut prorated = d.clone();
        prorated.unpaid_storage_gb = kept_storage as u32;
        prorated.unpaid_egress_gb = kept_egress as u32;
        prorated.paid_storage_gb = d.unpaid_storage_gb - (kept_storage as u32);
        prorated.paid_egress_gb = d.unpaid_egress_gb - (kept_egress as u32);
        prorated.balance_consumer = 0;
        prorated.balance_provider = new_provider_balance;
        prorated.status = DealStatus::BreachedConsumer;
        return SettlementOutcome {
            deal: prorated,
            settled: true,
            pay_provider: d.balance_consumer,
        };
    }

    let paid_storage: u32 = match d.paid_storage_gb.checked_add(d.unpaid_storage_gb) {
        Some(x) => x,
        None => {
            return SettlementOutcome { deal: d.clone(), settled: false, pay_provider: 0 };
        },
    };
    let paid_egress: u32 = match d.paid_egress_gb.checked_add(d.unpaid_egress_gb) {
        Some(x) => x,
        None => {
            return SettlementOutcome { deal: d.clone(), settled: false, pay_provider: 0 };
        },
    };
    let new_provider_balance: u128 = match d.balance_provider.checked_add(due) {
        Some(x) => x,
        None => {
            return SettlementOutcome { deal: d.clone(), settled: false, pay_provider: 0 };
        },
    };
    let mut paid = d.clone();
    paid.paid_storage_gb = paid_storage;
    paid.paid_egress_gb = paid_egress;
    paid.unpaid_storage_gb = 0;
    paid.unpaid_egress_gb = 0;
    paid.balance_consumer = d.balance_consumer - due;
    paid.balance_provider = new_provider_balance;
    paid.status = DealStatus::Funded;
    SettlementOutcome { deal: paid, settled: true, pay_provider: due }
}

/// A settlement never changes a deal's identity or bucket reference, leaves
/// an unfunded deal untouched, and moves the status only between engaged
/// statuses of a funded deal.
pub proof fn lemma_settle_frame(d: Deal, b: Bucket)
    ensures
        crate::types::deal_key_of(settle_spec(d, b).deal) == crate::types::deal_key_of(d),
        settle_spec(d, b).deal.bucket_id == d.bucket_id,
        settle_spec(d, b).deal.status == d.status || (d.balance_consumer > 0
            && crate::types::is_engaged(settle_spec(d, b).deal.status)),
        d.balance_consumer == 0 ==> settle_spec(d, b).deal == d,
        settle_spec(d, b).deal.balance_consumer <= d.balance_consumer,
{
}

/// The quantity a proration keeps unpaid, `floor(unpaid * balance / due)`,
/// never exceeds the original unpaid quantity when the balance is below the
/// amount due.
pub(crate) proof fn lemma_kept_at_most_unpaid(unpaid: int, balance: int, due: int)
    requires
        0 <= unpaid,
        0 <= balance < due,
    ensures
        unpaid * balance / due <= unpaid,
{
    vstd::arithmetic::mul::lemma_mul_inequality(balance, due, unpaid);
    assert(balance * unpaid == unpaid * balance) by (nonlinear_arith);
    assert(due * unpaid == unpaid * due) by (nonlinear_arith);
    vstd::arithmetic::div_mod::lemma_div_is_ordered(
        unpaid * balance,
        unpaid * due,
        due,
    );
    vstd::arithmetic::div_mod::lemma_div_by_multiple(unpaid, due);
}

} // verus!
