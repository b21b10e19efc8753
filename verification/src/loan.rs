//! Loans whose yield depends on the age of each vouch and on the borrower's history. The yields
//! are locked in when the loan is paid out.
use std::collections::BTreeMap;
use vstd::prelude::*;
use crate::admission::{
    admission, backers, can_open, check_payment, check_request, closes, open_loan, opened, paid,
    payment_admission, payment_calls,
};
use crate::arith::{
    bps_of, bps_of_fits, checked_bps_of, checked_mul_div, checked_trunc_div, in_i128, lemma_sum_all,
    lemma_sum_step, mul_div, mul_div_fits, sum, sums_fit, trunc_div,
};
use crate::ledger::{answered, count_of, settled, Ledger, LedgerView};
use crate::shares::{
    backing_vouches, checked_locked_payouts, checked_stats_after, checked_total_stake,
    locked_payout_calls, locked_payouts_fit, stakes, stats_after, stats_fit, total_stake,
};
use crate::types::{
    aborting_on, failure, Address, ContractError, Event, HostCall, LoanView, Outcome, VouchRecord,
    VoucherStats, YieldDistributionEntry, MAX_RISK_SCORE, REPUTATION_BONUS_MAX_BPS,
    VOUCH_AGE_BONUS_BPS_PER_PERIOD, VOUCH_AGE_BONUS_MAX_BPS, VOUCH_AGE_BONUS_MIN_SECS,
    VOUCH_AGE_BONUS_PERIOD_SECS,
};

verus! {

broadcast use vstd::std_specs::btree::group_btree_axioms;

/// The smaller of two integers.
pub open spec fn min_of(x: int, y: int) -> int {
    if x <= y {
        x
    } else {
        y
    }
}

/// The larger of two integers.
pub open spec fn max_of(x: int, y: int) -> int {
    if x >= y {
        x
    } else {
        y
    }
}

/// How old a vouch is; one from the future counts as new.
pub open spec fn vouch_age(vouch: VouchRecord, now: u64) -> int {
    max_of(now - vouch.vouch_timestamp, 0)
}

/// The age bonus: a fixed number of basis points for each full period, up to a maximum.
pub open spec fn age_bonus(age_secs: int) -> int {
    if age_secs >= VOUCH_AGE_BONUS_MIN_SECS {
        min_of(
            age_secs / (VOUCH_AGE_BONUS_PERIOD_SECS as int) * VOUCH_AGE_BONUS_BPS_PER_PERIOD,
            VOUCH_AGE_BONUS_MAX_BPS as int,
        )
    } else {
        0
    }
}

/// The reputation bonus: ten basis points for each repaid loan, less twenty for each default,
/// within zero and a maximum.
pub open spec fn reputation_bonus(repayments: int, defaults: int) -> int {
    min_of(max_of(repayments * 10 - defaults * 20, 0), REPUTATION_BONUS_MAX_BPS as int)
}

/// The rate before it is held to be at least zero.
pub open spec fn raw_rate(l: LedgerView, vouch: VouchRecord, borrower: Address, now: u64) -> int {
    l.config->0.yield_bps + age_bonus(vouch_age(vouch, now)) + reputation_bonus(
        count_of(l.repayment_counts, borrower) as int,
        count_of(l.default_counts, borrower) as int,
    )
}

/// The yield rate of one vouch, in basis points.
pub open spec fn yield_rate(l: LedgerView, vouch: VouchRecord, borrower: Address, now: u64) -> int {
    max_of(raw_rate(l, vouch, borrower, now), 0)
}

/// True if the yield rate can be worked out on `i128` numbers.
pub open spec fn yield_rate_fits(
    l: LedgerView,
    vouch: VouchRecord,
    borrower: Address,
    now: u64,
) -> bool {
    l.config is Some && in_i128(raw_rate(l, vouch, borrower, now))
}

/// The count on record for an address.
pub fn find_count(counts: &BTreeMap<u64, u32>, address: Address) -> (r: u32)
    ensures
        r == count_of(counts@, address),
{
    match counts.get(&address.id) {
        Some(n) => *n,
        None => 0,
    }
}

/// Works out the yield rate of one vouch; `None` where it traps.
pub fn try_vouch_yield_bps(
    ledger: &Ledger,
    vouch: &VouchRecord,
    borrower: Address,
    now: u64,
) -> (r: Option<i128>)
    ensures
        r is Some <==> yield_rate_fits(ledger@, *vouch, borrower, now),
        r matches Some(rate) ==> rate == yield_rate(ledger@, *vouch, borrower, now),
{
    let base: i128 = match &ledger.config {
        None => {
            return None;
        },
        Some(cfg) => cfg.yield_bps,
    };
    let age: u64 = now.saturating_sub(vouch.vouch_timestamp);
    let by_age: i128 = if age >= VOUCH_AGE_BONUS_MIN_SECS {
        let bonus: i128 = (age / VOUCH_AGE_BONUS_PERIOD_SECS) as i128
            * VOUCH_AGE_BONUS_BPS_PER_PERIOD;
        if bonus <= VOUCH_AGE_BONUS_MAX_BPS {
            bonus
        } else {
            VOUCH_AGE_BONUS_MAX_BPS
        }
    } else {
        0
    };
    let repayments: i128 = find_count(&ledger.repayment_counts, borrower) as i128;
    let defaults: i128 = find_count(&ledger.default_counts, borrower) as i128;
    let history: i128 = repayments * 10 - defaults * 20;
    let by_history: i128 = if history <= 0 {
        0
    } else if history <= REPUTATION_BONUS_MAX_BPS {
        history
    } else {
        REPUTATION_BONUS_MAX_BPS
    };
    assert(by_age == age_bonus(vouch_age(*vouch, now)));
    assert(by_history == reputation_bonus(repayments as int, defaults as int));
    match base.checked_add(by_age + by_history) {
        None => None,
        Some(rate) => if rate >= 0 {
            Some(rate)
        } else {
            Some(0)
        },
    }
}

/// The yield rate of one vouch, in basis points: the configured rate, the age bonus and the
/// reputation bonus together.
pub fn vouch_yield_bps(
    ledger: &Ledger,
    vouch: &VouchRecord,
    borrower: Address,
    now: u64,
) -> (rate: i128)
    requires
        yield_rate_fits(ledger@, *vouch, borrower, now),
    ensures
        rate == yield_rate(ledger@, *vouch, borrower, now),
{
    try_vouch_yield_bps(ledger, vouch, borrower, now).unwrap()
}

/// The credit score of a borrower: the balance of reputation tokens, where there is a
/// reputation contract.
pub open spec fn credit_score(nft_balance: Option<i128>) -> int {
    match nft_balance {
        Some(balance) => balance as int,
        None => 0,
    }
}

/// The configured rate with the borrower's credit score.
pub open spec fn scored_rate(l: LedgerView, nft_balance: Option<i128>) -> int {
    l.config->0.yield_bps + trunc_div(credit_score(nft_balance), 100)
}

/// The rate for a borrower: one basis point up for each hundred points of the credit score,
/// fifty down for each default, and never below zero.
pub open spec fn dynamic_yield(
    l: LedgerView,
    borrower: Address,
    nft_balance: Option<i128>,
) -> int {
    max_of(scored_rate(l, nft_balance) - count_of(l.default_counts, borrower) * 50, 0)
}

/// True if that rate can be worked out on `i128` numbers.
pub open spec fn dynamic_yield_fits(
    l: LedgerView,
    borrower: Address,
    nft_balance: Option<i128>,
) -> bool {
    &&& l.config is Some
    &&& in_i128(scored_rate(l, nft_balance))
    &&& in_i128(scored_rate(l, nft_balance) - count_of(l.default_counts, borrower) * 50)
}

/// Works out the rate for a borrower; `None` where it traps.
pub fn try_calculate_dynamic_yield(
    ledger: &Ledger,
    borrower: Address,
    nft_balance: Option<i128>,
) -> (r: Option<i128>)
    ensures
        r is Some <==> dynamic_yield_fits(ledger@, borrower, nft_balance),
        r matches Some(rate) ==> rate == dynamic_yield(ledger@, borrower, nft_balance),
{
    let base: i128 = match &ledger.config {
        None => {
            return None;
        },
        Some(cfg) => cfg.yield_bps,
    };
    let score: i128 = match nft_balance {
        Some(balance) => balance,
        None => 0,
    };
    let points: i128 = match checked_trunc_div(score, 100) {
        None => {
            return None;
        },
        Some(x) => x,
    };
    let scored: i128 = match base.checked_add(points) {
        None => {
            return None;
        },
        Some(x) => x,
    };
    let defaults: i128 = find_count(&ledger.default_counts, borrower) as i128;
    match scored.checked_sub(defaults * 50) {
        None => None,
        Some(rate) => if rate >= 0 {
            Some(rate)
        } else {
            Some(0)
        },
    }
}

/// The rate for a borrower, from the configured rate, the credit score and the defaults.
pub fn calculate_dynamic_yield(
    ledger: &Ledger,
    borrower: Address,
    nft_balance: Option<i128>,
) -> (rate: i128)
    requires
        dynamic_yield_fits(ledger@, borrower, nft_balance),
    ensures
        rate == dynamic_yield(ledger@, borrower, nft_balance),
{
    try_calculate_dynamic_yield(ledger, borrower, nft_balance).unwrap()
}

/// The yield of one vouch: its share of the loan, at its own rate.
pub open spec fn vouch_yield(
    l: LedgerView,
    v: VouchRecord,
    borrower: Address,
    amount: i128,
    total: int,
) -> int {
    bps_of(mul_div(amount as int, v.stake as int, total), yield_rate(l, v, borrower, l.now))
}

/// True if the yield of one vouch can be worked out on `i128` numbers.
pub open spec fn vouch_yield_fits(
    l: LedgerView,
    v: VouchRecord,
    borrower: Address,
    amount: i128,
    total: int,
) -> bool {
    &&& yield_rate_fits(l, v, borrower, l.now)
    &&& mul_div_fits(amount as int, v.stake as int, total)
    &&& bps_of_fits(
        mul_div(amount as int, v.stake as int, total),
        yield_rate(l, v, borrower, l.now),
    )
}

/// The yields of all backing vouches.
pub open spec fn vouch_yields(
    l: LedgerView,
    b: Seq<VouchRecord>,
    borrower: Address,
    amount: i128,
) -> Seq<int> {
    b.map_values(|v: VouchRecord| vouch_yield(l, v, borrower, amount, total_stake(b)))
}

/// True if all yields and their running total can be worked out on `i128` numbers.
pub open spec fn vouch_yields_fit(
    l: LedgerView,
    b: Seq<VouchRecord>,
    borrower: Address,
    amount: i128,
) -> bool {
    &&& forall|i: int|
        0 <= i < b.len() ==> vouch_yield_fits(
            l,
            #[trigger] b[i],
            borrower,
            amount,
            total_stake(b),
        )
    &&& sums_fit(vouch_yields(l, b, borrower, amount))
}

/// The entries that lock the yields in.
pub open spec fn yield_entries(
    l: LedgerView,
    b: Seq<VouchRecord>,
    borrower: Address,
    amount: i128,
) -> Seq<YieldDistributionEntry> {
    b.map_values(
        |v: VouchRecord|
            YieldDistributionEntry {
                voucher: v.voucher,
                yield_amount: vouch_yield(l, v, borrower, amount, total_stake(b)) as i128,
            },
    )
}

/// Works out the yields of all backing vouches: their sum, and the entries that lock them in;
/// `None` if a number does not fit.
pub fn checked_vouch_yields(
    ledger: &Ledger,
    b: &Vec<VouchRecord>,
    borrower: Address,
    amount: i128,
    total: i128,
) -> (r: Option<(i128, Vec<YieldDistributionEntry>)>)
    requires
        total == total_stake(b@),
    ensures
        r is Some <==> vouch_yields_fit(ledger@, b@, borrower, amount),
        r matches Some((total_yield, entries)) ==> total_yield == sum(
            vouch_yields(ledger@, b@, borrower, amount),
        ) && entries@ == yield_entries(ledger@, b@, borrower, amount),
{
    let ghost ys = vouch_yields(ledger@, b@, borrower, amount);
    let ghost all = yield_entries(ledger@, b@, borrower, amount);
    let mut total_yield: i128 = 0;
    let mut entries: Vec<YieldDistributionEntry> = Vec::new();
    let mut i: usize = 0;
    while i < b.len()
        invariant
            i <= b@.len(),
            total == total_stake(b@),
            ys == vouch_yields(ledger@, b@, borrower, amount),
            all == yield_entries(ledger@, b@, borrower, amount),
            total_yield == sum(ys.take(i as int)),
            entries@ == all.take(i as int),
            forall|k: int| 0 <= k <= i ==> in_i128(#[trigger] sum(ys.take(k))),
            forall|j: int|
                0 <= j < i ==> vouch_yield_fits(
                    ledger@,
                    #[trigger] b@[j],
                    borrower,
                    amount,
                    total_stake(b@),
                ),
        decreases b@.len() - i,
    {
        let v = b[i];
        assert(v == b@[i as int]);
        proof {
            lemma_sum_step(ys, i as int);
        }
        let rate: i128 = match try_vouch_yield_bps(ledger, &v, borrower, ledger.now) {
            None => {
                return None;
            },
            Some(x) => x,
        };
        let share: i128 = match checked_mul_div(amount, v.stake, total) {
            None => {
                return None;
            },
            Some(x) => x,
        };
        let yield_amount: i128 = match checked_bps_of(share, rate) {
            None => {
                return None;
            },
            Some(x) => x,
        };
        total_yield = match total_yield.checked_add(yield_amount) {
            None => {
                assert(!in_i128(sum(ys.take(i + 1))));
                return None;
            },
            Some(x) => x,
        };
        entries.push(YieldDistributionEntry { voucher: v.voucher, yield_amount });
        assert(all.take(i + 1) =~= all.take(i as int).push(all[i as int]));
        i += 1;
    }
    assert(all.take(i as int) =~= all);
    proof {
        lemma_sum_all(ys);
    }
    Some((total_yield, entries))
}

/// How `request_loan` ends. Stake below the threshold aborts it.
pub open spec fn request_loan_outcome(
    l: LedgerView,
    borrower: Address,
    amount: i128,
    threshold: i128,
    token: Address,
) -> Outcome {
    match aborting_on(
        admission(l, borrower, amount, threshold, token),
        ContractError::InsufficientFunds,
    ) {
        Outcome::Done => if can_open(l) && vouch_yields_fit(
            l,
            backers(l, borrower, token),
            borrower,
            amount,
        ) {
            Outcome::Done
        } else {
            Outcome::Trap
        },
        other => other,
    }
}

/// The ledger after `request_loan`: the loan is open, and the yields are locked in.
pub open spec fn loan_requested(
    l: LedgerView,
    borrower: Address,
    amount: i128,
    loan_purpose: Seq<u8>,
    token: Address,
) -> LedgerView {
    let b = backers(l, borrower, token);
    let total_yield = sum(vouch_yields(l, b, borrower, amount));
    LedgerView {
        yield_distributions: l.yield_distributions.insert(
            (l.loan_counter + 1) as u64,
            yield_entries(l, b, borrower, amount),
        ),
        ..opened(l, borrower, amount, total_yield, loan_purpose, token)
    }
}

/// Requests a loan with a yield of its own for each vouch, and says how that ended: stake below
/// the threshold is an abort, every other error code a refusal.
pub fn try_request_loan(
    ledger: &mut Ledger,
    borrower: Address,
    amount: i128,
    threshold: i128,
    loan_purpose: Vec<u8>,
    token_addr: Address,
) -> (r: Outcome)
    ensures
        settled(
            request_loan_outcome(old(ledger)@, borrower, amount, threshold, token_addr),
            r,
            old(ledger)@,
            old(ledger)@.asking(borrower),
            loan_requested(old(ledger)@, borrower, amount, loan_purpose@, token_addr),
            final(ledger)@,
        ),
{
    match check_request(ledger, borrower, amount, threshold, token_addr) {
        None => Outcome::Trap,
        Some(Err(e)) => {
            ledger.ask(borrower);
            failure(e, ContractError::InsufficientFunds)
        },
        Some(Ok((b, total))) => {
            let duration: u64 = match &ledger.config {
                Some(cfg) => cfg.loan_duration,
                None => {
                    return Outcome::Trap;
                },
            };
            if ledger.loan_counter == u64::MAX || ledger.now > u64::MAX - duration {
                return Outcome::Trap;
            }
            let (total_yield, entries): (i128, Vec<YieldDistributionEntry>) =
                match checked_vouch_yields(ledger, &b, borrower, amount, total) {
                None => {
                    return Outcome::Trap;
                },
                Some(x) => x,
            };
            open_loan(ledger, borrower, amount, total_yield, loan_purpose, token_addr);
            ledger.yield_distributions.insert(ledger.loan_counter, entries);
            assert(ledger@ =~= loan_requested(
                old(ledger)@,
                borrower,
                amount,
                loan_purpose@,
                token_addr,
            ));
            Outcome::Done
        },
    }
}

/// Requests a loan. Each backing vouch earns on its share of the loan at its own rate, and these
/// yields are locked in.
pub fn request_loan(
    ledger: &mut Ledger,
    borrower: Address,
    amount: i128,
    threshold: i128,
    loan_purpose: Vec<u8>,
    token_addr: Address,
) -> (r: Result<(), ContractError>)
    requires
        request_loan_outcome(old(ledger)@, borrower, amount, threshold, token_addr).comes_back(),
    ensures
        answered(
            request_loan_outcome(old(ledger)@, borrower, amount, threshold, token_addr),
            r,
            old(ledger)@.asking(borrower),
            loan_requested(old(ledger)@, borrower, amount, loan_purpose@, token_addr),
            final(ledger)@,
        ),
{
    try_request_loan(ledger, borrower, amount, threshold, loan_purpose, token_addr).answer()
}

/// True if a payment falls under the prepayment penalty.
pub open spec fn penalized(l: LedgerView, loan: LoanView) -> bool {
    l.now < loan.deadline && l.config->0.prepayment_penalty_bps > 0
}

/// The principal that is left of a loan with a payment credited.
pub open spec fn remaining_principal(loan: LoanView, payment: i128) -> int {
    loan.amount - mul_div(
        loan.amount_repaid + payment,
        loan.amount as int,
        loan.total_owed(),
    )
}

/// The prepayment penalty on a payment.
pub open spec fn penalty_of(l: LedgerView, loan: LoanView, payment: i128) -> int {
    if penalized(l, loan) {
        bps_of(remaining_principal(loan, payment), l.config->0.prepayment_penalty_bps as int)
    } else {
        0
    }
}

/// True if the penalty can be worked out on `i128` numbers.
pub open spec fn penalty_fits(l: LedgerView, loan: LoanView, payment: i128) -> bool {
    penalized(l, loan) ==> {
        &&& mul_div_fits(
            loan.amount_repaid + payment,
            loan.amount as int,
            loan.total_owed(),
        )
        &&& in_i128(remaining_principal(loan, payment))
        &&& bps_of_fits(
            remaining_principal(loan, payment),
            l.config->0.prepayment_penalty_bps as int,
        )
    }
}

/// True if the payouts and the statistics that close the borrower's loan stay within their
/// types.
pub open spec fn closing_fits(l: LedgerView, borrower: Address, payment: i128) -> bool {
    let loan = l.active_loan(borrower)->0;
    let b = backers(l, borrower, loan.token_address);
    let entries = l.locked_yields_of(loan.id);
    &&& sums_fit(stakes(b))
    &&& locked_payouts_fit(b, entries, penalty_of(l, loan, payment), total_stake(b))
    &&& stats_fit(l.voucher_stats, b, entries)
    &&& count_of(l.repayment_counts, borrower) < u32::MAX
}

/// How `repay` ends. A payment that is not positive, or that exceeds what is outstanding, aborts
/// it.
pub open spec fn repay_outcome(l: LedgerView, borrower: Address, payment: i128) -> Outcome {
    match aborting_on(payment_admission(l, borrower, payment), ContractError::InvalidAmount) {
        Outcome::Done => {
            let loan = l.active_loan(borrower)->0;
            if penalty_fits(l, loan, payment) && (closes(loan, payment) ==> closing_fits(
                l,
                borrower,
                payment,
            )) {
                Outcome::Done
            } else {
                Outcome::Trap
            }
        },
        other => other,
    }
}

/// The ledger after `repay`. The last payment also returns every stake with its locked yield,
/// credits the vouchers and the borrower, and closes the loan, its vouches and its yields.
pub open spec fn repaid(l: LedgerView, borrower: Address, payment: i128) -> LedgerView {
    let loan = l.active_loan(borrower)->0;
    let token = loan.token_address;
    let credited = LedgerView {
        loans: l.loans.insert(loan.id, paid(loan, payment, l.now)),
        ..l.with_calls(payment_calls(l, borrower, payment, token))
    };
    if closes(loan, payment) {
        let b = backers(l, borrower, token);
        let entries = l.locked_yields_of(loan.id);
        LedgerView {
            active_loans: l.active_loans.remove(borrower.id),
            vouches: l.vouches.remove(borrower.id),
            yield_distributions: l.yield_distributions.remove(loan.id),
            voucher_stats: stats_after(l.voucher_stats, b, entries),
            repayment_counts: l.repayment_counts.insert(
                borrower.id,
                (count_of(l.repayment_counts, borrower) + 1) as u32,
            ),
            ..credited.with_calls(
                locked_payout_calls(
                    b,
                    entries,
                    penalty_of(l, loan, payment),
                    total_stake(b),
                    token,
                    l.contract,
                ),
            ).with_calls(
                seq![HostCall::Publish(Event::LoanRepaid { borrower, amount: loan.amount })],
            )
        }
    } else {
        credited
    }
}

/// Works out the prepayment penalty on a loan with `amount_repaid` credited; `None` if a number
/// does not fit.
fn checked_penalty(
    penalty_bps: u32,
    amount: i128,
    amount_repaid: i128,
    total_owed: i128,
) -> (r: Option<i128>)
    ensures
        ({
            let done = mul_div(amount_repaid as int, amount as int, total_owed as int);
            &&& r is Some <==> {
                &&& mul_div_fits(amount_repaid as int, amount as int, total_owed as int)
                &&& in_i128(amount - done)
                &&& bps_of_fits(amount - done, penalty_bps as int)
            }
            &&& r matches Some(x) ==> x == bps_of(amount - done, penalty_bps as int)
        }),
{
    match checked_mul_div(amount_repaid, amount, total_owed) {
        None => None,
        Some(done) => match amount.checked_sub(done) {
            None => None,
            Some(left) => checked_bps_of(left, penalty_bps as i128),
        },
    }
}

/// What closes a loan.
struct Closing {
    payouts: Vec<HostCall>,
    stats: BTreeMap<u64, VoucherStats>,
    repayments: u32,
}

/// Works out what closes a loan; `None` if a number does not fit.
fn checked_closing(
    ledger: &Ledger,
    borrower: Address,
    loan_id: u64,
    token: Address,
    penalty: i128,
) -> (r: Option<Closing>)
    ensures
        ({
            let b = backers(ledger@, borrower, token);
            let entries = ledger@.locked_yields_of(loan_id);
            &&& r is Some <==> {
                &&& sums_fit(stakes(b))
                &&& locked_payouts_fit(b, entries, penalty as int, total_stake(b))
                &&& stats_fit(ledger@.voucher_stats, b, entries)
                &&& count_of(ledger@.repayment_counts, borrower) < u32::MAX
            }
            &&& r matches Some(c) ==> {
                &&& c.payouts@ == locked_payout_calls(
                    b,
                    entries,
                    penalty as int,
                    total_stake(b),
                    token,
                    ledger@.contract,
                )
                &&& c.stats@ == stats_after(ledger@.voucher_stats, b, entries)
                &&& c.repayments == count_of(ledger@.repayment_counts, borrower) + 1
            }
        }),
{
    let b = backing_vouches(&ledger.vouches_of(borrower), token);
    let entries = ledger.locked_yields_of(loan_id);
    let total: i128 = match checked_total_stake(&b) {
        None => {
            return None;
        },
        Some(t) => t,
    };
    let payouts: Vec<HostCall> = match checked_locked_payouts(
        &b,
        &entries,
        penalty,
        total,
        token,
        ledger.contract,
    ) {
        None => {
            return None;
        },
        Some(c) => c,
    };
    let stats: BTreeMap<u64, VoucherStats> = match checked_stats_after(
        &ledger.voucher_stats,
        &b,
        &entries,
    ) {
        None => {
            return None;
        },
        Some(m) => m,
    };
    match find_count(&ledger.repayment_counts, borrower).checked_add(1) {
        None => None,
        Some(repayments) => Some(Closing { payouts, stats, repayments }),
    }
}

/// Takes a payment on a loan with locked yields, and says how that ended: a payment out of its
/// range is an abort, every other error code a refusal.
pub fn try_repay(ledger: &mut Ledger, borrower: Address, payment: i128) -> (r: Outcome)
    ensures
        settled(
            repay_outcome(old(ledger)@, borrower, payment),
            r,
            old(ledger)@,
            old(ledger)@.asking(borrower),
            repaid(old(ledger)@, borrower, payment),
            final(ledger)@,
        ),
{
    match check_payment(ledger, borrower, payment) {
        None => Outcome::Trap,
        Some(Err(e)) => {
            ledger.ask(borrower);
            failure(e, ContractError::InvalidAmount)
        },
        Some(Ok((loan, closing))) => {
            let ghost before = ledger@.active_loan(borrower)->0;
            let token = loan.token_address;
            let contract = ledger.contract;
            let penalty_bps: u32 = match &ledger.config {
                None => {
                    return Outcome::Trap;
                },
                Some(cfg) => cfg.prepayment_penalty_bps,
            };
            let penalty: i128 = if ledger.now < loan.deadline && penalty_bps > 0 {
                match checked_penalty(
                    penalty_bps,
                    loan.amount,
                    loan.amount_repaid,
                    loan.amount + loan.total_yield,
                ) {
                    None => {
                        return Outcome::Trap;
                    },
                    Some(x) => x,
                }
            } else {
                0
            };
            assert(penalty == penalty_of(ledger@, before, payment));
            if closing {
                let mut c = match checked_closing(ledger, borrower, loan.id, token, penalty) {
                    None => {
                        return Outcome::Trap;
                    },
                    Some(c) => c,
                };
                ledger.calls.push(HostCall::RequireAuth(borrower));
                ledger.calls.push(
                    HostCall::Transfer { token, from: borrower, to: contract, amount: payment },
                );
                ledger.calls.append(&mut c.payouts);
                ledger.calls.push(
                    HostCall::Publish(Event::LoanRepaid { borrower, amount: loan.amount }),
                );
                ledger.voucher_stats = c.stats;
                ledger.repayment_counts.insert(borrower.id, c.repayments);
                ledger.active_loans.remove(&borrower.id);
                ledger.vouches.remove(&borrower.id);
                ledger.yield_distributions.remove(&loan.id);
                ledger.loans.insert(loan.id, loan);
                assert(ledger@ =~= repaid(old(ledger)@, borrower, payment));
            } else {
                ledger.calls.push(HostCall::RequireAuth(borrower));
                ledger.calls.push(
                    HostCall::Transfer { token, from: borrower, to: contract, amount: payment },
                );
                ledger.loans.insert(loan.id, loan);
                assert(ledger@ =~= repaid(old(ledger)@, borrower, payment));
            }
            Outcome::Done
        },
    }
}

/// Takes a payment on a loan with locked yields. The payment that settles it returns every stake
/// in the loan's token with the yield locked in for it.
pub fn repay(ledger: &mut Ledger, borrower: Address, payment: i128) -> (r: Result<
    (),
    ContractError,
>)
    requires
        repay_outcome(old(ledger)@, borrower, payment).comes_back(),
    ensures
        answered(
            repay_outcome(old(ledger)@, borrower, payment),
            r,
            old(ledger)@.asking(borrower),
            repaid(old(ledger)@, borrower, payment),
            final(ledger)@,
        ),
{
    try_repay(ledger, borrower, payment).answer()
}

/// True if a borrower without an active loan has enough stake behind it.
pub open spec fn eligible(
    l: LedgerView,
    borrower: Address,
    threshold: i128,
    token: Address,
) -> bool {
    &&& threshold > 0
    &&& l.active_loan(borrower) is None
    &&& total_stake(backers(l, borrower, token)) >= threshold
}

/// True if the stake is not asked for, or can be added up on `i128` numbers.
pub open spec fn eligible_fits(
    l: LedgerView,
    borrower: Address,
    threshold: i128,
    token: Address,
) -> bool {
    threshold > 0 && l.active_loan(borrower) is None ==> sums_fit(
        stakes(backers(l, borrower, token)),
    )
}

/// Checks eligibility; `None` where the check traps.
pub fn try_is_eligible(
    ledger: &Ledger,
    borrower: Address,
    threshold: i128,
    token: Address,
) -> (r: Option<bool>)
    ensures
        r is Some <==> eligible_fits(ledger@, borrower, threshold, token),
        r matches Some(x) ==> x == eligible(ledger@, borrower, threshold, token),
{
    if threshold <= 0 {
        return Some(false);
    }
    if ledger.has_active_loan(borrower) {
        return Some(false);
    }
    let b = backing_vouches(&ledger.vouches_of(borrower), token);
    match checked_total_stake(&b) {
        None => None,
        Some(total) => Some(total >= threshold),
    }
}

/// Checks whether a borrower could have a loan against `threshold`.
pub fn is_eligible(ledger: &Ledger, borrower: Address, threshold: i128, token: Address) -> (r: bool)
    requires
        eligible_fits(ledger@, borrower, threshold, token),
    ensures
        r == eligible(ledger@, borrower, threshold, token),
{
    try_is_eligible(ledger, borrower, threshold, token).unwrap()
}

/// How `repay_partial` ends. A payment that is not positive aborts it.
pub open spec fn repay_partial_outcome(
    l: LedgerView,
    borrower: Address,
    payment: i128,
    token: Address,
) -> Outcome {
    if l.paused {
        Outcome::Refused(ContractError::ContractPaused)
    } else {
        match l.active_loan(borrower) {
            None => Outcome::Refused(ContractError::NoActiveLoan),
            Some(loan) => if payment <= 0 {
                Outcome::Abort(ContractError::InvalidAmount)
            } else if l.config is None {
                Outcome::Trap
            } else if !l.allows_token(token) {
                Outcome::Refused(ContractError::InvalidToken)
            } else if !in_i128(loan.amount_repaid + payment) {
                Outcome::Trap
            } else {
                Outcome::Done
            },
        }
    }
}

/// The ledger after `repay_partial`: the payment is credited, and the loan stays active.
pub open spec fn partially_repaid(
    l: LedgerView,
    borrower: Address,
    payment: i128,
    token: Address,
) -> LedgerView {
    let loan = l.active_loan(borrower)->0;
    LedgerView {
        loans: l.loans.insert(
            loan.id,
            LoanView { amount_repaid: (loan.amount_repaid + payment) as i128, ..loan },
        ),
        ..l.with_calls(
            payment_calls(l, borrower, payment, token).push(
                HostCall::Publish(Event::PartialRepay { borrower, payment }),
            ),
        )
    }
}

/// Takes a partial payment, and says how that ended: a payment that is not positive is an abort,
/// every other error code a refusal.
pub fn try_repay_partial(
    ledger: &mut Ledger,
    borrower: Address,
    payment: i128,
    token: Address,
) -> (r: Outcome)
    ensures
        settled(
            repay_partial_outcome(old(ledger)@, borrower, payment, token),
            r,
            old(ledger)@,
            old(ledger)@.asking(borrower),
            partially_repaid(old(ledger)@, borrower, payment, token),
            final(ledger)@,
        ),
{
    match ledger.require_not_paused() {
        Err(e) => {
            ledger.ask(borrower);
            return Outcome::Refused(e);
        },
        Ok(()) => {},
    }
    let mut loan = match ledger.get_active_loan_record(borrower) {
        Err(e) => {
            ledger.ask(borrower);
            return Outcome::Refused(e);
        },
        Ok(loan) => loan.clone(),
    };
    if payment <= 0 {
        ledger.ask(borrower);
        return Outcome::Abort(ContractError::InvalidAmount);
    }
    if ledger.config.is_none() {
        return Outcome::Trap;
    }
    match ledger.require_allowed_token(token) {
        Err(e) => {
            ledger.ask(borrower);
            return Outcome::Refused(e);
        },
        Ok(()) => {},
    }
    loan.amount_repaid = match loan.amount_repaid.checked_add(payment) {
        None => {
            return Outcome::Trap;
        },
        Some(x) => x,
    };
    ledger.calls.push(HostCall::RequireAuth(borrower));
    ledger.calls.push(
        HostCall::Transfer { token, from: borrower, to: ledger.contract, amount: payment },
    );
    ledger.calls.push(HostCall::Publish(Event::PartialRepay { borrower, payment }));
    ledger.loans.insert(loan.id, loan);
    assert(ledger@ =~= partially_repaid(old(ledger)@, borrower, payment, token));
    Outcome::Done
}

/// Takes a partial payment: it moves from the borrower to the contract and is credited to the
/// loan.
pub fn repay_partial(ledger: &mut Ledger, borrower: Address, payment: i128, token: Address) -> (r:
    Result<(), ContractError>)
    requires
        repay_partial_outcome(old(ledger)@, borrower, payment, token).comes_back(),
    ensures
        answered(
            repay_partial_outcome(old(ledger)@, borrower, payment, token),
            r,
            old(ledger)@.asking(borrower),
            partially_repaid(old(ledger)@, borrower, payment, token),
            final(ledger)@,
        ),
{
    try_repay_partial(ledger, borrower, payment, token).answer()
}

/// How `set_yield_reserve` ends.
pub open spec fn set_yield_reserve_outcome(
    l: LedgerView,
    admins: Seq<Address>,
    amount: i128,
) -> Outcome {
    if l.config is None {
        Outcome::Trap
    } else if !l.approved_by(admins) {
        Outcome::Refused(ContractError::UnauthorizedCaller)
    } else if amount < 0 {
        Outcome::Refused(ContractError::InvalidAmount)
    } else {
        Outcome::Done
    }
}

/// The ledger after the yield reserve was set.
pub open spec fn reserve_set(l: LedgerView, admins: Seq<Address>, amount: i128) -> LedgerView {
    LedgerView { yield_reserve: amount, ..l.asking_admins(admins) }
}

/// Sets the yield reserve, with the approval of enough admins.
pub fn set_yield_reserve(ledger: &mut Ledger, admins: &Vec<Address>, amount: i128) -> (r: Result<
    (),
    ContractError,
>)
    requires
        old(ledger)@.config is Some,
    ensures
        answered(
            set_yield_reserve_outcome(old(ledger)@, admins@, amount),
            r,
            old(ledger)@.asking_admins(admins@),
            reserve_set(old(ledger)@, admins@, amount),
            final(ledger)@,
        ),
{
    match ledger.require_admin_approval(admins) {
        Err(e) => {
            return Err(e);
        },
        Ok(()) => {},
    }
    if amount < 0 {
        return Err(ContractError::InvalidAmount);
    }
    ledger.yield_reserve = amount;
    Ok(())
}

/// The yield reserve.
pub fn get_yield_reserve_balance(ledger: &Ledger) -> (r: i128)
    ensures
        r == ledger@.yield_reserve,
{
    ledger.yield_reserve
}

/// How `set_borrower_risk_score` ends.
pub open spec fn set_risk_score_outcome(
    l: LedgerView,
    admins: Seq<Address>,
    borrower: Address,
    risk_score: u32,
) -> Outcome {
    if l.config is None {
        Outcome::Trap
    } else if !l.approved_by(admins) {
        Outcome::Refused(ContractError::UnauthorizedCaller)
    } else if risk_score > MAX_RISK_SCORE {
        Outcome::Refused(ContractError::InvalidAmount)
    } else if l.active_loan(borrower) is None {
        Outcome::Refused(ContractError::NoActiveLoan)
    } else {
        Outcome::Done
    }
}

/// The ledger after `set_borrower_risk_score`.
pub open spec fn scored(
    l: LedgerView,
    admins: Seq<Address>,
    borrower: Address,
    risk_score: u32,
) -> LedgerView {
    let loan = l.active_loan(borrower)->0;
    LedgerView {
        loans: l.loans.insert(loan.id, LoanView { risk_score, ..loan }),
        ..l.asking_admins(admins)
    }
}

/// Sets the risk score of a borrower's active loan, with the approval of enough admins.
pub fn set_borrower_risk_score(
    ledger: &mut Ledger,
    admins: &Vec<Address>,
    borrower: Address,
    risk_score: u32,
) -> (r: Result<(), ContractError>)
    requires
        old(ledger)@.config is Some,
    ensures
        answered(
            set_risk_score_outcome(old(ledger)@, admins@, borrower, risk_score),
            r,
            old(ledger)@.asking_admins(admins@),
            scored(old(ledger)@, admins@, borrower, risk_score),
            final(ledger)@,
        ),
{
    match ledger.require_admin_approval(admins) {
        Err(e) => {
            return Err(e);
        },
        Ok(()) => {},
    }
    if risk_score > MAX_RISK_SCORE {
        return Err(ContractError::InvalidAmount);
    }
    let mut loan = match ledger.get_active_loan_record(borrower) {
        Err(e) => {
            return Err(e);
        },
        Ok(loan) => loan.clone(),
    };
    loan.risk_score = risk_score;
    ledger.loans.insert(loan.id, loan);
    assert(ledger@ =~= scored(old(ledger)@, admins@, borrower, risk_score));
    Ok(())
}

} // verus!
