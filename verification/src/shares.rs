//! Splitting amounts over the vouches behind a borrower.
use std::collections::BTreeMap;
use vstd::prelude::*;
use crate::arith::{
    bps_of, bps_of_fits, checked_bps_of, checked_mul_div, in_i128, lemma_sum_all, lemma_sum_step,
    mul_div, mul_div_fits, sum, sums_fit,
};
use crate::ledger::stats_of;
use crate::types::{Address, HostCall, VouchRecord, VoucherStats, YieldDistributionEntry};

verus! {

broadcast use vstd::std_specs::btree::group_btree_axioms;

/// The vouches in `token`, in order: those that back a loan in that token.
pub open spec fn backing(vouches: Seq<VouchRecord>, token: Address) -> Seq<VouchRecord> {
    vouches.filter(|v: VouchRecord| v.token == token)
}

/// The stakes of some vouches.
pub open spec fn stakes(vouches: Seq<VouchRecord>) -> Seq<int> {
    vouches.map_values(|v: VouchRecord| v.stake as int)
}

/// All stakes of some vouches together.
pub open spec fn total_stake(vouches: Seq<VouchRecord>) -> int {
    sum(stakes(vouches))
}

/// A payment of the contract.
pub open spec fn payment_of(token: Address, from: Address, to: Address, amount: int) -> HostCall {
    HostCall::Transfer { token, from, to, amount: amount as i128 }
}

/// The part of `pot` that falls to `stake` out of `total`; nothing if there is no stake at all.
pub open spec fn share_of(pot: int, stake: int, total: int) -> int {
    if total > 0 {
        mul_div(pot, stake, total)
    } else {
        0
    }
}

/// True if [`share_of`] can be worked out on `i128` numbers.
pub open spec fn share_fits(pot: int, stake: int, total: int) -> bool {
    total > 0 ==> mul_div_fits(pot, stake, total)
}

/// What a voucher gets back from a repaid loan: the stake and its share of the yield.
pub open spec fn flat_payout(v: VouchRecord, total_yield: int, total: int) -> int {
    v.stake + share_of(total_yield, v.stake as int, total)
}

/// True if every [`flat_payout`] can be worked out on `i128` numbers.
pub open spec fn flat_payouts_fit(b: Seq<VouchRecord>, total_yield: int, total: int) -> bool {
    forall|i: int|
        0 <= i < b.len() ==> share_fits(total_yield, (#[trigger] b[i]).stake as int, total)
            && in_i128(flat_payout(b[i], total_yield, total))
}

/// The payments that return stake and yield to every voucher.
pub open spec fn flat_payout_calls(
    b: Seq<VouchRecord>,
    total_yield: int,
    total: int,
    token: Address,
    contract: Address,
) -> Seq<HostCall> {
    b.map_values(
        |v: VouchRecord|
            payment_of(token, contract, v.voucher, flat_payout(v, total_yield, total)),
    )
}

/// The yield locked in for a voucher: the first entry counts, and without one there is none. A
/// voucher is expected to have one vouch for each borrower and token; one that has two finds the
/// first entry for both.
pub open spec fn locked_yield(entries: Seq<YieldDistributionEntry>, voucher: Address) -> int
    decreases entries.len(),
{
    if entries.len() == 0 {
        0
    } else if entries.first().voucher == voucher {
        entries.first().yield_amount as int
    } else {
        locked_yield(entries.drop_first(), voucher)
    }
}

/// What a voucher gets back from a loan with locked yields: the stake, the locked yield and a
/// share of the penalty.
pub open spec fn locked_payout(
    v: VouchRecord,
    entries: Seq<YieldDistributionEntry>,
    penalty: int,
    total: int,
) -> int {
    v.stake + locked_yield(entries, v.voucher) + share_of(penalty, v.stake as int, total)
}

/// True if every [`locked_payout`] can be worked out on `i128` numbers.
pub open spec fn locked_payouts_fit(
    b: Seq<VouchRecord>,
    entries: Seq<YieldDistributionEntry>,
    penalty: int,
    total: int,
) -> bool {
    forall|i: int|
        0 <= i < b.len() ==> share_fits(penalty, (#[trigger] b[i]).stake as int, total)
            && in_i128(b[i].stake + locked_yield(entries, b[i].voucher))
            && in_i128(locked_payout(b[i], entries, penalty, total))
}

/// The payments that return stake, locked yield and penalty share to every voucher.
pub open spec fn locked_payout_calls(
    b: Seq<VouchRecord>,
    entries: Seq<YieldDistributionEntry>,
    penalty: int,
    total: int,
    token: Address,
    contract: Address,
) -> Seq<HostCall> {
    b.map_values(
        |v: VouchRecord|
            payment_of(token, contract, v.voucher, locked_payout(v, entries, penalty, total)),
    )
}

/// A voucher's statistics after one more repaid loan.
pub open spec fn credited(s: VoucherStats, earned: int) -> VoucherStats {
    VoucherStats {
        successful_vouches: (s.successful_vouches + 1) as u32,
        total_yield_earned: (s.total_yield_earned + earned) as i128,
        ..s
    }
}

/// All statistics after a repaid loan: each vouch credits its voucher in turn.
pub open spec fn stats_after(
    stats: Map<u64, VoucherStats>,
    b: Seq<VouchRecord>,
    entries: Seq<YieldDistributionEntry>,
) -> Map<u64, VoucherStats>
    decreases b.len(),
{
    if b.len() == 0 {
        stats
    } else {
        let before = stats_after(stats, b.drop_last(), entries);
        let v = b.last().voucher;
        before.insert(
            v.id,
            credited(stats_of(before, v), locked_yield(entries, v)),
        )
    }
}

/// True if a voucher's statistics stay within their types with one more repaid loan.
pub open spec fn credit_fits(
    stats: Map<u64, VoucherStats>,
    voucher: Address,
    entries: Seq<YieldDistributionEntry>,
) -> bool {
    let s = stats_of(stats, voucher);
    &&& s.successful_vouches < u32::MAX
    &&& in_i128(s.total_yield_earned + locked_yield(entries, voucher))
}

/// True if the statistics stay within their types with the vouch at place `i`, on top of what the
/// vouches before it have done.
pub open spec fn credit_fits_at(
    stats: Map<u64, VoucherStats>,
    b: Seq<VouchRecord>,
    entries: Seq<YieldDistributionEntry>,
    i: int,
) -> bool {
    credit_fits(stats_after(stats, b.take(i), entries), b[i].voucher, entries)
}

/// True if no statistic outgrows its type along the way.
pub open spec fn stats_fit(
    stats: Map<u64, VoucherStats>,
    b: Seq<VouchRecord>,
    entries: Seq<YieldDistributionEntry>,
) -> bool {
    forall|i: int| 0 <= i < b.len() ==> #[trigger] credit_fits_at(stats, b, entries, i)
}

/// The part of each stake that a slash takes.
pub open spec fn cuts(b: Seq<VouchRecord>, slash_bps: int) -> Seq<int> {
    b.map_values(|v: VouchRecord| bps_of(v.stake as int, slash_bps))
}

/// The part of a stake that a slash leaves.
pub open spec fn remainder(v: VouchRecord, slash_bps: int) -> int {
    v.stake - bps_of(v.stake as int, slash_bps)
}

/// True if all cuts, their running total and all remainders can be worked out on `i128` numbers.
pub open spec fn cuts_fit(b: Seq<VouchRecord>, slash_bps: int) -> bool {
    &&& forall|i: int|
        0 <= i < b.len() ==> bps_of_fits((#[trigger] b[i]).stake as int, slash_bps)
            && in_i128(remainder(b[i], slash_bps))
    &&& sums_fit(cuts(b, slash_bps))
}

/// The payments that return what a slash leaves; nothing is paid where nothing is left.
pub open spec fn remainder_calls(
    b: Seq<VouchRecord>,
    slash_bps: int,
    token: Address,
    contract: Address,
) -> Seq<HostCall>
    decreases b.len(),
{
    if b.len() == 0 {
        Seq::empty()
    } else {
        let before = remainder_calls(b.drop_last(), slash_bps, token, contract);
        let left = remainder(b.last(), slash_bps);
        if left > 0 {
            before.push(payment_of(token, contract, b.last().voucher, left))
        } else {
            before
        }
    }
}

/// The vouches in `token`, in order.
pub fn backing_vouches(vouches: &Vec<VouchRecord>, token: Address) -> (b: Vec<VouchRecord>)
    ensures
        b@ == backing(vouches@, token),
{
    let mut b: Vec<VouchRecord> = Vec::new();
    let mut i: usize = 0;
    assert(vouches@.take(0) =~= Seq::<VouchRecord>::empty());
    assert(b@ =~= backing(vouches@.take(0), token)) by {
        reveal(Seq::filter);
    }
    while i < vouches.len()
        invariant
            i <= vouches@.len(),
            b@ == backing(vouches@.take(i as int), token),
        decreases vouches@.len() - i,
    {
        assert(vouches@.take(i + 1).drop_last() =~= vouches@.take(i as int));
        assert(backing(vouches@.take(i + 1), token) == (if vouches@[i as int].token == token {
            b@.push(vouches@[i as int])
        } else {
            b@
        })) by {
            reveal(Seq::filter);
        }
        if vouches[i].token == token {
            b.push(vouches[i]);
        }
        i += 1;
    }
    assert(vouches@.take(i as int) =~= vouches@);
    b
}

/// Adds up the stakes; `None` if the running total does not fit.
pub fn checked_total_stake(b: &Vec<VouchRecord>) -> (r: Option<i128>)
    ensures
        r is Some <==> sums_fit(stakes(b@)),
        r matches Some(t) ==> t == total_stake(b@),
{
    let ghost s = stakes(b@);
    let mut total: i128 = 0;
    let mut i: usize = 0;
    while i < b.len()
        invariant
            i <= b@.len(),
            s == stakes(b@),
            total == sum(s.take(i as int)),
            forall|k: int| 0 <= k <= i ==> in_i128(
                #[trigger] sum(s.take(k)),
            ),
        decreases b@.len() - i,
    {
        proof {
            lemma_sum_step(s, i as int);
        }
        match total.checked_add(b[i].stake) {
            None => {
                return None;
            },
            Some(t) => {
                total = t;
            },
        }
        i += 1;
    }
    proof {
        lemma_sum_all(s);
    }
    Some(total)
}

/// Works out the share of a stake; `None` if a step of it does not fit.
pub fn checked_share_of(pot: i128, stake: i128, total: i128) -> (r: Option<i128>)
    ensures
        r is Some <==> share_fits(pot as int, stake as int, total as int),
        r matches Some(x) ==> x == share_of(pot as int, stake as int, total as int),
{
    if total > 0 {
        checked_mul_div(pot, stake, total)
    } else {
        Some(0)
    }
}

/// The payments that return stake and yield; `None` if one of them does not fit.
pub fn checked_flat_payouts(
    b: &Vec<VouchRecord>,
    total_yield: i128,
    total: i128,
    token: Address,
    contract: Address,
) -> (r: Option<Vec<HostCall>>)
    ensures
        r is Some <==> flat_payouts_fit(b@, total_yield as int, total as int),
        r matches Some(c) ==> c@ == flat_payout_calls(
            b@,
            total_yield as int,
            total as int,
            token,
            contract,
        ),
{
    let ghost all = flat_payout_calls(b@, total_yield as int, total as int, token, contract);
    let mut calls: Vec<HostCall> = Vec::new();
    let mut i: usize = 0;
    while i < b.len()
        invariant
            i <= b@.len(),
            all == flat_payout_calls(b@, total_yield as int, total as int, token, contract),
            calls@ == all.take(i as int),
            forall|j: int|
                0 <= j < i ==> share_fits(
                    total_yield as int,
                    (#[trigger] b@[j]).stake as int,
                    total as int,
                ) && in_i128(flat_payout(b@[j], total_yield as int, total as int)),
        decreases b@.len() - i,
    {
        let v = b[i];
        let share: i128 = match checked_share_of(total_yield, v.stake, total) {
            None => {
                assert(!share_fits(total_yield as int, b@[i as int].stake as int, total as int));
                return None;
            },
            Some(x) => x,
        };
        let payout: i128 = match v.stake.checked_add(share) {
            None => {
                assert(!in_i128(
                    flat_payout(b@[i as int], total_yield as int, total as int),
                ));
                return None;
            },
            Some(x) => x,
        };
        calls.push(
            HostCall::Transfer { token, from: contract, to: v.voucher, amount: payout },
        );
        assert(all.take(i + 1) =~= all.take(i as int).push(all[i as int]));
        i += 1;
    }
    assert(all.take(i as int) =~= all);
    Some(calls)
}

/// Looks up the yield locked in for a voucher.
pub fn find_locked_yield(entries: &Vec<YieldDistributionEntry>, voucher: Address) -> (r: i128)
    ensures
        r == locked_yield(entries@, voucher),
{
    let mut i: usize = 0;
    assert(entries@.skip(0) =~= entries@);
    while i < entries.len()
        invariant
            i <= entries@.len(),
            locked_yield(entries@, voucher) == locked_yield(entries@.skip(i as int), voucher),
        decreases entries@.len() - i,
    {
        assert(entries@.skip(i as int).drop_first() =~= entries@.skip(i + 1));
        if entries[i].voucher == voucher {
            return entries[i].yield_amount;
        }
        i += 1;
    }
    0
}

/// The payments that return stake, locked yield and penalty share; `None` if one of them does
/// not fit.
pub fn checked_locked_payouts(
    b: &Vec<VouchRecord>,
    entries: &Vec<YieldDistributionEntry>,
    penalty: i128,
    total: i128,
    token: Address,
    contract: Address,
) -> (r: Option<Vec<HostCall>>)
    ensures
        r is Some <==> locked_payouts_fit(b@, entries@, penalty as int, total as int),
        r matches Some(c) ==> c@ == locked_payout_calls(
            b@,
            entries@,
            penalty as int,
            total as int,
            token,
            contract,
        ),
{
    let ghost all = locked_payout_calls(
        b@,
        entries@,
        penalty as int,
        total as int,
        token,
        contract,
    );
    let mut calls: Vec<HostCall> = Vec::new();
    let mut i: usize = 0;
    while i < b.len()
        invariant
            i <= b@.len(),
            all == locked_payout_calls(
                b@,
                entries@,
                penalty as int,
                total as int,
                token,
                contract,
            ),
            calls@ == all.take(i as int),
            forall|j: int|
                0 <= j < i ==> share_fits(
                    penalty as int,
                    (#[trigger] b@[j]).stake as int,
                    total as int,
                ) && in_i128(b@[j].stake + locked_yield(entries@, b@[j].voucher))
                    && in_i128(
                    locked_payout(b@[j], entries@, penalty as int, total as int),
                ),
        decreases b@.len() - i,
    {
        let v = b[i];
        assert(v == b@[i as int]);
        let earned: i128 = find_locked_yield(entries, v.voucher);
        let share: i128 = match checked_share_of(penalty, v.stake, total) {
            None => {
                return None;
            },
            Some(x) => x,
        };
        let with_yield: i128 = match v.stake.checked_add(earned) {
            None => {
                return None;
            },
            Some(x) => x,
        };
        let payout: i128 = match with_yield.checked_add(share) {
            None => {
                assert(!in_i128(
                    locked_payout(b@[i as int], entries@, penalty as int, total as int),
                ));
                return None;
            },
            Some(x) => x,
        };
        calls.push(
            HostCall::Transfer { token, from: contract, to: v.voucher, amount: payout },
        );
        assert(all.take(i + 1) =~= all.take(i as int).push(all[i as int]));
        i += 1;
    }
    assert(all.take(i as int) =~= all);
    Some(calls)
}

/// The statistics of a voucher.
pub fn find_stats(stats: &BTreeMap<u64, VoucherStats>, voucher: Address) -> (r: VoucherStats)
    ensures
        r == stats_of(stats@, voucher),
{
    match stats.get(&voucher.id) {
        Some(s) => *s,
        None => VoucherStats {
            successful_vouches: 0,
            total_vouches_slashed: 0,
            total_yield_earned: 0,
            total_slashed: 0,
        },
    }
}

/// One more vouch credits its voucher on top of what the vouches before it have done.
proof fn lemma_stats_step(
    stats: Map<u64, VoucherStats>,
    b: Seq<VouchRecord>,
    entries: Seq<YieldDistributionEntry>,
    i: int,
)
    requires
        0 <= i < b.len(),
    ensures
        ({
            let before = stats_after(stats, b.take(i), entries);
            let v = b[i].voucher;
            stats_after(stats, b.take(i + 1), entries) == before.insert(
                v.id,
                credited(stats_of(before, v), locked_yield(entries, v)),
            )
        }),
{
    assert(b.take(i + 1).drop_last() =~= b.take(i));
    assert(b.take(i + 1).last() == b[i]);
}

/// Credits one voucher with a repaid loan; `None`, and no change, if a statistic would outgrow
/// its type.
fn checked_credit(
    stats: &mut BTreeMap<u64, VoucherStats>,
    voucher: Address,
    entries: &Vec<YieldDistributionEntry>,
) -> (r: Option<()>)
    ensures
        r is Some <==> credit_fits(old(stats)@, voucher, entries@),
        r is Some ==> final(stats)@ == old(stats)@.insert(
            voucher.id,
            credited(stats_of(old(stats)@, voucher), locked_yield(entries@, voucher)),
        ),
        r is None ==> final(stats)@ == old(stats)@,
{
    let earned: i128 = find_locked_yield(entries, voucher);
    let mut s = find_stats(stats, voucher);
    s.successful_vouches = match s.successful_vouches.checked_add(1) {
        None => {
            return None;
        },
        Some(n) => n,
    };
    s.total_yield_earned = match s.total_yield_earned.checked_add(earned) {
        None => {
            return None;
        },
        Some(n) => n,
    };
    stats.insert(voucher.id, s);
    Some(())
}

/// All statistics after a repaid loan; `None` if one of them outgrows its type.
pub fn checked_stats_after(
    stats: &BTreeMap<u64, VoucherStats>,
    b: &Vec<VouchRecord>,
    entries: &Vec<YieldDistributionEntry>,
) -> (r: Option<BTreeMap<u64, VoucherStats>>)
    ensures
        r is Some <==> stats_fit(stats@, b@, entries@),
        r matches Some(m) ==> m@ == stats_after(stats@, b@, entries@),
{
    let mut updated: BTreeMap<u64, VoucherStats> = stats.clone();
    let mut i: usize = 0;
    assert(b@.take(0) =~= Seq::<VouchRecord>::empty());
    while i < b.len()
        invariant
            i <= b@.len(),
            updated@ == stats_after(stats@, b@.take(i as int), entries@),
            forall|j: int| 0 <= j < i ==> #[trigger] credit_fits_at(stats@, b@, entries@, j),
        decreases b@.len() - i,
    {
        let v = b[i].voucher;
        assert(v == b@[i as int].voucher);
        proof {
            lemma_stats_step(stats@, b@, entries@, i as int);
        }
        if checked_credit(&mut updated, v, entries).is_none() {
            assert(!credit_fits_at(stats@, b@, entries@, i as int));
            return None;
        }
        i += 1;
    }
    assert(b@.take(i as int) =~= b@);
    Some(updated)
}

/// What a slash takes in all, and the payments that return the rest; `None` if a number does
/// not fit.
pub fn checked_slash(
    b: &Vec<VouchRecord>,
    slash_bps: i128,
    token: Address,
    contract: Address,
) -> (r: Option<(i128, Vec<HostCall>)>)
    ensures
        r is Some <==> cuts_fit(b@, slash_bps as int),
        r matches Some((taken, calls)) ==> taken == sum(cuts(b@, slash_bps as int))
            && calls@ == remainder_calls(b@, slash_bps as int, token, contract),
{
    let ghost c = cuts(b@, slash_bps as int);
    let mut taken: i128 = 0;
    let mut calls: Vec<HostCall> = Vec::new();
    let mut i: usize = 0;
    assert(b@.take(0) =~= Seq::<VouchRecord>::empty());
    while i < b.len()
        invariant
            i <= b@.len(),
            c == cuts(b@, slash_bps as int),
            taken == sum(c.take(i as int)),
            calls@ == remainder_calls(b@.take(i as int), slash_bps as int, token, contract),
            forall|k: int| 0 <= k <= i ==> in_i128(
                #[trigger] sum(c.take(k)),
            ),
            forall|j: int|
                0 <= j < i ==> bps_of_fits(
                    (#[trigger] b@[j]).stake as int,
                    slash_bps as int,
                ) && in_i128(remainder(b@[j], slash_bps as int)),
        decreases b@.len() - i,
    {
        let v = b[i];
        assert(v == b@[i as int]);
        proof {
            lemma_sum_step(c, i as int);
        }
        let cut: i128 = match checked_bps_of(v.stake, slash_bps) {
            None => {
                return None;
            },
            Some(x) => x,
        };
        taken = match taken.checked_add(cut) {
            None => {
                assert(!in_i128(sum(c.take(i + 1))));
                return None;
            },
            Some(x) => x,
        };
        let left: i128 = match v.stake.checked_sub(cut) {
            None => {
                assert(!in_i128(remainder(b@[i as int], slash_bps as int)));
                return None;
            },
            Some(x) => x,
        };
        if left > 0 {
            calls.push(
                HostCall::Transfer { token, from: contract, to: v.voucher, amount: left },
            );
        }
        assert(b@.take(i + 1).drop_last() =~= b@.take(i as int));
        i += 1;
    }
    assert(b@.take(i as int) =~= b@);
    proof {
        lemma_sum_all(c);
    }
    Some((taken, calls))
}

} // verus!
