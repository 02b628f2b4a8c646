//! How a released vault's balance is split among its beneficiaries.
use vstd::prelude::*;
use crate::types::{Address, BeneficiaryEntry, Event, HostCall, ReleaseEvent};
use crate::model::{bps_total, lemma_bps_total_prefix};

verus! {

/// The share of `total` that `bps` basis points give, rounded down.
pub open spec fn share_of(total: int, bps: u32) -> int {
    total * bps / 10_000
}

/// The shares of the first `k` entries, added up.
pub open spec fn shares_before(total: int, entries: Seq<BeneficiaryEntry>, k: int) -> int
    decreases k,
{
    if k <= 0 {
        0
    } else {
        shares_before(total, entries, k - 1) + share_of(total, entries[k - 1].bps)
    }
}

/// What each beneficiary receives: every entry but the last its rounded-down
/// share, the last one whatever remains of `total`.
pub open spec fn release_shares(total: int, entries: Seq<BeneficiaryEntry>) -> Seq<int> {
    let n = entries.len() as int;
    Seq::new(entries.len(), |i: int| if i == n - 1 { total - shares_before(total, entries, n - 1) } else { share_of(total, entries[i].bps) })
}

/// The product `total * bps` of this entry leaves the 128-bit range.
pub open spec fn share_overflows(total: int, e: BeneficiaryEntry) -> bool {
    total * e.bps > i128::MAX
}

/// The first entry from `i` on, before the last one, whose share overflows;
/// the last position when there is none.
pub open spec fn first_overflow(total: int, entries: Seq<BeneficiaryEntry>, i: int) -> int
    decreases entries.len() - i,
{
    if i >= entries.len() - 1 {
        entries.len() - 1
    } else if share_overflows(total, entries[i]) {
        i
    } else {
        first_overflow(total, entries, i + 1)
    }
}

/// The first overflow position never passes the last entry.
pub proof fn lemma_first_overflow_at_most_last(total: int, entries: Seq<BeneficiaryEntry>, i: int)
    requires
        entries.len() > 0,
    ensures
        first_overflow(total, entries, i) <= entries.len() - 1,
    decreases entries.len() - i,
{
    if i < entries.len() - 1 && !share_overflows(total, entries[i]) {
        lemma_first_overflow_at_most_last(total, entries, i + 1);
    }
}

/// The payouts of the first `k` entries: one for each positive share.
pub open spec fn payout_calls(token: Address, entries: Seq<BeneficiaryEntry>, shares: Seq<int>, k: int) -> Seq<HostCall>
    decreases k,
{
    if k <= 0 {
        Seq::empty()
    } else {
        let rest = payout_calls(token, entries, shares, k - 1);
        if shares[k - 1] > 0 {
            rest.push(HostCall::PayTokens { token, to: entries[k - 1].address, amount: shares[k - 1] as i128 })
        } else {
            rest
        }
    }
}

/// One release event per entry, with its share.
pub open spec fn release_events(vault_id: u64, entries: Seq<BeneficiaryEntry>, shares: Seq<int>) -> Seq<Event> {
    Seq::new(entries.len(), |i: int| Event::Release(ReleaseEvent { vault_id, beneficiary: entries[i].address, amount: shares[i] as i128 }))
}

/// A rounded-down share is at most the exact one.
pub proof fn lemma_share_bound(total: int, bps: u32)
    requires
        total >= 0,
    ensures
        0 <= share_of(total, bps),
        share_of(total, bps) * 10_000 <= total * bps,
{
    let p = total * bps;
    assert(p >= 0) by (nonlinear_arith)
        requires
            p == total * bps,
            total >= 0,
            bps >= 0,
    ;
    assert((p / 10_000) * 10_000 <= p && p / 10_000 >= 0) by (nonlinear_arith)
        requires
            p >= 0,
    ;
}

/// The first `k` shares add up to at most the exact fraction of `total`
/// that their basis points give.
pub proof fn lemma_shares_before_bound(total: int, entries: Seq<BeneficiaryEntry>, k: int)
    requires
        total >= 0,
        0 <= k <= entries.len(),
    ensures
        0 <= shares_before(total, entries, k),
        shares_before(total, entries, k) * 10_000 <= total * bps_total(entries.take(k)),
    decreases k,
{
    if k > 0 {
        lemma_shares_before_bound(total, entries, k - 1);
        lemma_share_bound(total, entries[k - 1].bps);
        assert(entries.take(k).drop_last() =~= entries.take(k - 1));
        let b = bps_total(entries.take(k - 1));
        let x = entries[k - 1].bps as int;
        assert(total * (b + x) == total * b + total * x) by (nonlinear_arith);
    }
}

/// With a split of exactly 100%, the shares before the last entry never
/// exceed `total`.
pub proof fn lemma_shares_before_within_total(total: int, entries: Seq<BeneficiaryEntry>, k: int)
    requires
        total >= 0,
        0 <= k <= entries.len(),
        bps_total(entries) == 10_000,
    ensures
        0 <= shares_before(total, entries, k) <= total,
{
    lemma_shares_before_bound(total, entries, k);
    lemma_bps_total_prefix(entries, k);
    let b = bps_total(entries.take(k));
    let s = shares_before(total, entries, k);
    assert(s <= total) by (nonlinear_arith)
        requires
            s * 10_000 <= total * b,
            b <= 10_000,
            total >= 0,
    ;
}

/// Splits `total` among `entries`, paying each positive share from the
/// contract and recording one release event per entry. Returns `false`,
/// having paid the entries before it, at the first share whose product
/// overflows.
pub fn pay_split(
    token: Address,
    vault_id: u64,
    total: i128,
    entries: &Vec<BeneficiaryEntry>,
    calls: &mut Vec<HostCall>,
    events: &mut Vec<Event>,
) -> (fits: bool)
    requires
        total >= 0,
        entries@.len() > 0,
        bps_total(entries@) == 10_000,
    ensures
        fits == (first_overflow(total as int, entries@, 0) == entries@.len() - 1),
        final(calls)@ == old(calls)@ + payout_calls(
            token,
            entries@,
            release_shares(total as int, entries@),
            if fits { entries@.len() as int } else { first_overflow(total as int, entries@, 0) },
        ),
        fits ==> final(events)@ == old(events)@ + release_events(vault_id, entries@, release_shares(total as int, entries@)),
{
    let n = entries.len();
    let ghost shares = release_shares(total as int, entries@);
    let ghost calls0 = calls@;
    let ghost events0 = events@;
    let mut distributed: i128 = 0;
    let mut i: usize = 0;
    while i < n
        invariant
            n == entries@.len(),
            n > 0,
            total >= 0,
            bps_total(entries@) == 10_000,
            shares == release_shares(total as int, entries@),
            calls0 == old(calls)@,
            events0 == old(events)@,
            i <= n,
            i < n ==> distributed == shares_before(total as int, entries@, i as int),
            first_overflow(total as int, entries@, 0) == first_overflow(total as int, entries@, i as int)
                || i == n,
            i == n ==> first_overflow(total as int, entries@, 0) == n - 1,
            calls@ == calls0 + payout_calls(token, entries@, shares, i as int),
            events@ == events0 + Seq::new(i as nat, |j: int| Event::Release(ReleaseEvent { vault_id, beneficiary: entries@[j].address, amount: shares[j] as i128 })),
        decreases n - i,
    {
        proof {
            lemma_shares_before_within_total(total as int, entries@, i as int);
        }
        let entry = entries[i];
        let share: i128 = if i == n - 1 {
            total - distributed
        } else {
            match total.checked_mul(entry.bps as i128) {
                Some(p) => {
                    proof {
                        lemma_share_bound(total as int, entry.bps);
                    }
                    p / 10_000
                },
                None => {
                    assert(first_overflow(total as int, entries@, i as int) == i);
                    assert(first_overflow(total as int, entries@, 0) == i);
                    assert(calls@ == calls0 + payout_calls(token, entries@, shares, first_overflow(total as int, entries@, 0)));
                    return false;
                },
            }
        };
        assert(share == shares[i as int]);
        let ghost calls_before = calls@;
        if share > 0 {
            calls.push(HostCall::PayTokens { token, to: entry.address, amount: share });
        }
        assert(calls@ =~= calls0 + payout_calls(token, entries@, shares, i + 1));
        events.push(Event::Release(ReleaseEvent { vault_id, beneficiary: entry.address, amount: share }));
        assert(events@ =~= events0 + Seq::new((i + 1) as nat, |j: int| Event::Release(ReleaseEvent { vault_id, beneficiary: entries@[j].address, amount: shares[j] as i128 })));
        if i < n - 1 {
            proof {
                lemma_shares_before_within_total(total as int, entries@, i + 1);
            }
            distributed = distributed + share;
        }
        i = i + 1;
    }
    assert(Seq::new(n as nat, |j: int| Event::Release(ReleaseEvent { vault_id, beneficiary: entries@[j].address, amount: shares[j] as i128 }))
        =~= release_events(vault_id, entries@, shares));
    true
}

} // verus!
