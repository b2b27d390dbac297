//! The laws of the marketplace, stated and proved once over the contracts of
//! the operations: bucket exclusivity, escrow conservation, proration
//! fairness, SLA-breach precedence, and the idempotence of an empty
//! settlement.

use vstd::prelude::*;

use crate::deal::closed_state;
use crate::market::Marketplace;
use crate::settlement::amount_due_spec;
use crate::settlement::proration_overflows;
use crate::settlement::settle_spec;
use crate::settlement::sla_breached_spec;
use crate::settlement::slash_overflows;
use crate::types::bucket_key_of;
use crate::types::bucket_ref_of;
use crate::types::is_terminal;
use crate::types::Bucket;
use crate::types::Deal;
use crate::types::DealKey;
use crate::types::DealStatus;

verus! {

/// Bucket exclusivity, first half: in a well-formed marketplace, at most one
/// non-terminal deal references any bucket — two non-terminal deals with the
/// same bucket reference are the same deal.
pub proof fn lemma_bucket_exclusivity(m: Marketplace, i: int, j: int)
    requires
        m.wf(),
        0 <= i < m.deals@.len(),
        0 <= j < m.deals@.len(),
        !is_terminal(m.deals@[i].status),
        !is_terminal(m.deals@[j].status),
        bucket_ref_of(m.deals@[i]) == bucket_ref_of(m.deals@[j]),
    ensures
        i == j,
{
    if i < j {
        assert(bucket_ref_of(m.deals@[i]) != bucket_ref_of(m.deals@[j]));
    } else if j < i {
        assert(bucket_ref_of(m.deals@[j]) != bucket_ref_of(m.deals@[i]));
    }
}

/// Bucket exclusivity, second half: a bucket is locked exactly when a
/// non-terminal deal references it.
pub proof fn lemma_locked_iff_reserved(m: Marketplace, bi: int)
    requires
        m.wf(),
        0 <= bi < m.buckets@.len(),
    ensures
        m.buckets@[bi].locked <==> exists|i: int|
            0 <= i < m.deals@.len() && !is_terminal((#[trigger] m.deals@[i]).status)
                && bucket_ref_of(m.deals@[i]) == bucket_key_of(m.buckets@[bi]),
{
    if exists|i: int|
        0 <= i < m.deals@.len() && !is_terminal((#[trigger] m.deals@[i]).status) && bucket_ref_of(
            m.deals@[i],
        ) == bucket_key_of(m.buckets@[bi]) {
        let i = choose|i: int|
            0 <= i < m.deals@.len() && !is_terminal((#[trigger] m.deals@[i]).status)
                && bucket_ref_of(m.deals@[i]) == bucket_key_of(m.buckets@[bi]);
        let k = bucket_ref_of(m.deals@[i]);
        assert(m.has_bucket(k) && m.bucket_at(k).locked);
        crate::market::lemma_bucket_lookup(m, k, bi);
    }
}

/// Escrow conservation across one settlement attempt: the sum of the two
/// deal balances never changes, and the amount handed to the payment rail is
/// exactly what left the consumer's escrow. Nothing is created from nothing.
pub proof fn lemma_settlement_conserves_escrow(d: Deal, b: Bucket)
    ensures
        settle_spec(d, b).deal.balance_consumer + settle_spec(d, b).deal.balance_provider
            == d.balance_consumer + d.balance_provider,
        settle_spec(d, b).pay_provider == d.balance_consumer - settle_spec(
            d,
            b,
        ).deal.balance_consumer,
{
}

/// Escrow conservation at a terminal transition: the consumer's escrow going
/// in is exactly the final settlement's payment plus the refund, and the
/// stored deal retains none of it.
pub proof fn lemma_terminal_accounts_for_escrow(
    m0: Marketplace,
    m1: Marketplace,
    k: DealKey,
    receipt: crate::types::TerminalReceipt,
    terminal: DealStatus,
)
    requires
        m0.wf(),
        closed_state(m0, m1, k, receipt, terminal),
    ensures
        m0.deal_at(k).balance_consumer == receipt.pay_provider + receipt.refund_consumer,
        m1.deals@[m0.deal_idx(k)].balance_consumer == 0,
{
    let d = m0.deal_at(k);
    let bk = bucket_ref_of(d);
    lemma_settlement_conserves_escrow(d, m0.bucket_at(bk));
}

/// Proration fairness: with escrow `b` short of the amount due `A`, and no
/// SLA breach, settlement keeps `floor(q * b / A)` of each unpaid quantity
/// `q`, records the remainder as paid, pays out the whole escrow — and the
/// value of the quantities left unpaid, at the bucket's prices, never
/// exceeds the escrow that was paid.
pub proof fn lemma_proration_fairness(d: Deal, b: Bucket)
    requires
        0 < amount_due_spec(b, d) <= u128::MAX,
        0 < d.balance_consumer < amount_due_spec(b, d),
        !sla_breached_spec(b, d),
        !proration_overflows(d),
    ensures
        ({
            let due = amount_due_spec(b, d);
            let bc = d.balance_consumer as int;
            let d1 = settle_spec(d, b).deal;
            &&& d1.unpaid_storage_gb == d.unpaid_storage_gb * bc / due
            &&& d1.unpaid_egress_gb == d.unpaid_egress_gb * bc / due
            &&& d1.paid_storage_gb == d.unpaid_storage_gb - d1.unpaid_storage_gb
            &&& d1.paid_egress_gb == d.unpaid_egress_gb - d1.unpaid_egress_gb
            &&& b.price_per_gb_storage * d1.unpaid_storage_gb + b.price_per_gb_egress
                * d1.unpaid_egress_gb <= bc
            &&& settle_spec(d, b).pay_provider == d.balance_consumer
            &&& d1.balance_consumer == 0
            &&& d1.status == DealStatus::BreachedConsumer
        }),
{
    let due = amount_due_spec(b, d);
    let bc = d.balance_consumer as int;
    let us = d.unpaid_storage_gb as int;
    let ue = d.unpaid_egress_gb as int;
    let ps = b.price_per_gb_storage as int;
    let pe = b.price_per_gb_egress as int;
    let us1 = us * bc / due;
    let ue1 = ue * bc / due;
    crate::settlement::lemma_kept_at_most_unpaid(us, bc, due);
    crate::settlement::lemma_kept_at_most_unpaid(ue, bc, due);

    vstd::arithmetic::div_mod::lemma_fundamental_div_mod(us * bc, due);
    vstd::arithmetic::div_mod::lemma_mod_bound(us * bc, due);
    assert(due * us1 <= us * bc);
    vstd::arithmetic::div_mod::lemma_fundamental_div_mod(ue * bc, due);
    vstd::arithmetic::div_mod::lemma_mod_bound(ue * bc, due);
    assert(due * ue1 <= ue * bc);

    assert((ps * us1 + pe * ue1) * due <= due * bc) by (nonlinear_arith)
        requires
            due * us1 <= us * bc,
            due * ue1 <= ue * bc,
            ps >= 0,
            pe >= 0,
            due == ps * us + pe * ue,
    ;
    assert(ps * us1 + pe * ue1 <= bc) by (nonlinear_arith)
        requires
            (ps * us1 + pe * ue1) * due <= due * bc,
            due > 0,
    ;
}

/// SLA-breach precedence: when the realized SLA misses the bucket's terms,
/// settlement never moves funds to the provider, whatever the balances are —
/// and when there is anything to slash, the whole pending amount is
/// forfeited and the deal becomes `BreachedProvider`.
pub proof fn lemma_sla_breach_blocks_payment(d: Deal, b: Bucket)
    requires
        sla_breached_spec(b, d),
    ensures
        settle_spec(d, b).pay_provider == 0,
        settle_spec(d, b).deal.balance_provider == d.balance_provider,
        settle_spec(d, b).deal.balance_consumer == d.balance_consumer,
        0 < amount_due_spec(b, d) <= u128::MAX && d.balance_consumer > 0 && !slash_overflows(d)
            ==> ({
            let d1 = settle_spec(d, b).deal;
            &&& !settle_spec(d, b).settled
            &&& d1.slash_amount_usd == amount_due_spec(b, d)
            &&& d1.slash_storage_gb == d.slash_storage_gb + d.unpaid_storage_gb
            &&& d1.slash_egress_gb == d.slash_egress_gb + d.unpaid_egress_gb
            &&& d1.unpaid_storage_gb == 0
            &&& d1.unpaid_egress_gb == 0
            &&& d1.status == DealStatus::BreachedProvider
        }),
{
}

/// Idempotence of an empty settlement: with nothing unpaid, settlement
/// succeeds, changes nothing, and moves no funds.
pub proof fn lemma_noop_settlement(d: Deal, b: Bucket)
    requires
        d.unpaid_storage_gb == 0,
        d.unpaid_egress_gb == 0,
    ensures
        settle_spec(d, b).deal == d,
        settle_spec(d, b).settled,
        settle_spec(d, b).pay_provider == 0,
{
    assert(amount_due_spec(b, d) == 0);
}

} // verus!
