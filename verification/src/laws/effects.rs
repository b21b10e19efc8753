//! What each operation does: the record and the calls that it leaves, in terms of what was on
//! record before and of what it was given.
use vstd::prelude::*;
use crate::admission::backers;
use crate::arith::{bps_of, in_i128, lemma_sum_all, mul_div};
use crate::conservation::law_settling_carries_no_penalty;
use crate::contract;
use crate::insurance::{contributed, contribution_outcome, coverage_set, fee_set};
use crate::laws::plain::{
    added_up, admins_among, count_at, demands, entries_at, has_loan, in_token,
    law_approvals_are_the_admins, law_backing_is_by_token, law_first_entry_counts,
    law_lookups_read_the_record, law_one_quotient, law_products_are_divided, law_sums_add_up,
    lemma_added_push, lemma_one_locked_yield, loan_at, locked_for, moves, rounds_to, staked,
    vouches_at,
};
use crate::laws::rates::{
    law_fees_and_parts, law_rate_of_a_vouch, law_shares_are_in_proportion, law_yield_of_a_vouch,
    rate_is, yield_is,
};
use crate::ledger::{answered, auth_calls, empty_ledger, settled, LedgerView};
use crate::loan;
use crate::shares::{
    credit_fits_at, cuts, flat_payout, locked_payout, locked_yield, payment_of, remainder,
    remainder_calls, share_of, stats_after, stats_fit, total_stake,
};
use crate::types::{
    Address, ContractError, Event, HostCall, LoanStatus, LoanView, OpeningTerms, Outcome,
    VouchRecord, VoucherStats, YieldDistributionEntry,
};

verus! {

/// The vouches that stand behind a borrower in the token of the active loan.
pub open spec fn behind_the_loan(l: LedgerView, borrower: Address) -> Seq<VouchRecord> {
    in_token(vouches_at(l, borrower), loan_at(l, borrower).token_address)
}

/// What is still to be paid on a borrower's active loan.
pub open spec fn still_owed(l: LedgerView, borrower: Address) -> int {
    let loan = loan_at(l, borrower);
    loan.amount + loan.total_yield - loan.amount_repaid
}

/// True if the borrower was asked, has a new active loan on these terms under the next number, and
/// got the whole amount from the contract.
pub open spec fn pays_out(
    l: LedgerView,
    after: LedgerView,
    borrower: Address,
    amount: i128,
    loan_purpose: Seq<u8>,
    token: Address,
) -> bool {
    let id = after.loan_counter;
    let loan = after.loans[id];
    &&& id == l.loan_counter + 1
    &&& after.loans.contains_key(id)
    &&& after.loans.remove(id) == l.loans.remove(id)
    &&& after.active_loans == l.active_loans.insert(borrower.id, id)
    &&& loan.id == id
    &&& loan.borrower == borrower
    &&& loan.co_borrowers.len() == 0
    &&& loan.amount == amount
    &&& loan.amount_repaid == 0
    &&& loan.status == LoanStatus::Active
    &&& loan.created_at == l.now
    &&& loan.disbursement_timestamp == l.now
    &&& loan.repayment_timestamp is None
    &&& loan.deadline == l.now + l.config->0.loan_duration
    &&& loan.loan_purpose == loan_purpose
    &&& loan.token_address == token
    &&& loan.amortization_schedule.len() == 0
    &&& !loan.reminder_sent
    &&& loan.risk_score == 0
    &&& after.calls == l.calls + seq![
        HostCall::RequireAuth(borrower),
        HostCall::Transfer { token, from: l.contract, to: borrower, amount },
        HostCall::Publish(Event::LoanCreated { borrower, amount }),
    ]
}

/// A granted request pays the borrower the whole amount that it records. The yield owed on it is
/// the configured part of the amount, the pool grows by its fee, and nothing else changes.
pub proof fn law_granted_loan_is_paid_out(
    l: LedgerView,
    borrower: Address,
    amount: i128,
    threshold: i128,
    loan_purpose: Seq<u8>,
    token: Address,
)
    requires
        contract::request_loan_outcome(l, borrower, amount, threshold, token) == Outcome::Done,
    ensures
        ({
            let after = contract::loan_requested(l, borrower, amount, loan_purpose, token);
            &&& pays_out(l, after, borrower, amount, loan_purpose, token)
            &&& rounds_to(
                after.loans[after.loan_counter].total_yield as int,
                amount * l.config->0.yield_bps,
                10_000,
            )
            &&& rounds_to(
                after.insurance_pool - l.insurance_pool,
                amount * l.insurance_fee_bps,
                10_000,
            )
            &&& after == (LedgerView {
                loan_counter: after.loan_counter,
                loans: after.loans,
                active_loans: after.active_loans,
                insurance_pool: after.insurance_pool,
                calls: after.calls,
                ..l
            })
        }),
{
    let after = contract::loan_requested(l, borrower, amount, loan_purpose, token);
    law_fees_and_parts(l, amount, 0);
    assert(after.loans.remove(after.loan_counter) =~= l.loans.remove(after.loan_counter));
}

/// A granted request for a loan with locked yields pays the borrower the whole amount that it
/// records. For each vouch in the token there is one entry, in order, with that voucher's yield:
/// the share of its stake in the loan, at its own rate. The yield owed is all of them together, and
/// nothing else changes.
pub proof fn law_granted_loan_locks_its_yields(
    l: LedgerView,
    borrower: Address,
    amount: i128,
    threshold: i128,
    loan_purpose: Seq<u8>,
    token: Address,
)
    requires
        loan::request_loan_outcome(l, borrower, amount, threshold, token) == Outcome::Done,
    ensures
        ({
            let after = loan::loan_requested(l, borrower, amount, loan_purpose, token);
            let id = after.loan_counter;
            let entries = after.yield_distributions[id];
            let b = in_token(vouches_at(l, borrower), token);
            let total = added_up(staked(b));
            &&& pays_out(l, after, borrower, amount, loan_purpose, token)
            &&& after.yield_distributions == l.yield_distributions.insert(id, entries)
            &&& entries.len() == b.len()
            &&& forall|i: int|
                0 <= i < b.len() ==> {
                    &&& (#[trigger] entries[i]).voucher == b[i].voucher
                    &&& exists|rate: int|
                        {
                            &&& #[trigger] rate_is(l, b[i], borrower, l.now, rate)
                            &&& yield_is(
                                entries[i].yield_amount as int,
                                amount as int,
                                b[i].stake as int,
                                total,
                                rate,
                            )
                        }
                }
            &&& after.loans[id].total_yield == added_up(
                Seq::new(entries.len(), |i: int| entries[i].yield_amount as int),
            )
            &&& after == (LedgerView {
                loan_counter: id,
                loans: after.loans,
                active_loans: after.active_loans,
                yield_distributions: after.yield_distributions,
                calls: after.calls,
                ..l
            })
        }),
{
    let after = loan::loan_requested(l, borrower, amount, loan_purpose, token);
    let id = after.loan_counter;
    let entries = after.yield_distributions[id];
    let b = in_token(vouches_at(l, borrower), token);
    let total = added_up(staked(b));
    law_lookups_read_the_record(l, borrower, 0, Seq::empty(), Map::empty());
    law_backing_is_by_token(vouches_at(l, borrower), token);
    assert(b == backers(l, borrower, token));
    assert(after.loans.remove(id) =~= l.loans.remove(id));
    let ys = loan::vouch_yields(l, b, borrower, amount);
    assert forall|i: int| 0 <= i < b.len() implies {
        &&& (#[trigger] entries[i]).voucher == b[i].voucher
        &&& exists|rate: int|
            {
                &&& #[trigger] rate_is(l, b[i], borrower, l.now, rate)
                &&& yield_is(
                    entries[i].yield_amount as int,
                    amount as int,
                    b[i].stake as int,
                    total,
                    rate,
                )
            }
    } by {
        let rate = loan::yield_rate(l, b[i], borrower, l.now);
        law_rate_of_a_vouch(l, b[i], borrower, l.now);
        law_yield_of_a_vouch(l, b[i], borrower, amount, total, rate);
        assert(loan::vouch_yield_fits(l, b[i], borrower, amount, total));
        assert(entries[i].yield_amount == ys[i]);
        assert(rate_is(l, b[i], borrower, l.now, rate));
    }
    assert forall|i: int| 0 <= i < b.len() implies #[trigger] entries[i].yield_amount == ys[i] by {
        assert(loan::vouch_yield_fits(l, b[i], borrower, amount, total));
        law_products_are_divided(
            mul_div(amount as int, b[i].stake as int, total),
            loan::yield_rate(l, b[i], borrower, l.now),
            1,
        );
    }
    assert(ys =~= Seq::new(entries.len(), |i: int| entries[i].yield_amount as int));
    law_sums_add_up(ys);
    lemma_sum_all(ys);
}

/// True if the borrower was asked and paid the contract, and the payment is credited to the loan,
/// which is marked as repaid now where it is the last one.
pub open spec fn takes_payment(
    l: LedgerView,
    after: LedgerView,
    borrower: Address,
    payment: i128,
) -> bool {
    let loan = loan_at(l, borrower);
    let record = after.loans[loan.id];
    &&& 0 < payment <= still_owed(l, borrower)
    &&& after.loans == l.loans.insert(loan.id, record)
    &&& record.amount_repaid == loan.amount_repaid + payment
    &&& record == (LoanView {
        amount_repaid: record.amount_repaid,
        status: if payment == still_owed(l, borrower) {
            LoanStatus::Repaid
        } else {
            loan.status
        },
        repayment_timestamp: if payment == still_owed(l, borrower) {
            Some(l.now)
        } else {
            loan.repayment_timestamp
        },
        ..loan
    })
    &&& after.calls.len() >= l.calls.len() + 2
    &&& after.calls.take(l.calls.len() as int + 2) == l.calls + seq![
        HostCall::RequireAuth(borrower),
        HostCall::Transfer {
            token: loan.token_address,
            from: borrower,
            to: l.contract,
            amount: payment,
        },
    ]
}

/// A payment that leaves something owed is credited to the loan, and that is all.
pub proof fn law_payment_is_credited(l: LedgerView, borrower: Address, payment: i128)
    requires
        contract::repay_outcome(l, borrower, payment) == Outcome::Done,
        payment != still_owed(l, borrower),
    ensures
        ({
            let after = contract::repaid(l, borrower, payment);
            &&& has_loan(l, borrower)
            &&& takes_payment(l, after, borrower, payment)
            &&& after.calls.len() == l.calls.len() + 2
            &&& after == (LedgerView { loans: after.loans, calls: after.calls, ..l })
        }),
{
    let after = contract::repaid(l, borrower, payment);
    law_lookups_read_the_record(l, borrower, 0, Seq::empty(), Map::empty());
    assert(after.calls.take(l.calls.len() as int + 2) =~= after.calls);
}

/// The same of a loan with locked yields.
pub proof fn law_payment_is_credited_to_a_locked_loan(
    l: LedgerView,
    borrower: Address,
    payment: i128,
)
    requires
        loan::repay_outcome(l, borrower, payment) == Outcome::Done,
        payment != still_owed(l, borrower),
    ensures
        ({
            let after = loan::repaid(l, borrower, payment);
            &&& has_loan(l, borrower)
            &&& takes_payment(l, after, borrower, payment)
            &&& after.calls.len() == l.calls.len() + 2
            &&& after == (LedgerView { loans: after.loans, calls: after.calls, ..l })
        }),
{
    let after = loan::repaid(l, borrower, payment);
    law_lookups_read_the_record(l, borrower, 0, Seq::empty(), Map::empty());
    assert(after.calls.take(l.calls.len() as int + 2) =~= after.calls);
}

/// True if a call pays a voucher its stake and the part of `pot` that its stake has in all stakes.
pub open spec fn pays_stake_and_share(
    call: HostCall,
    token: Address,
    contract: Address,
    v: VouchRecord,
    pot: int,
    total: int,
) -> bool {
    exists|share: int|
        {
            &&& #[trigger] moves(call, token, contract, v.voucher, v.stake + share)
            &&& total > 0 ==> rounds_to(share, pot * v.stake, total)
            &&& total <= 0 ==> share == 0
        }
}

/// True if a call pays a voucher its stake and the yield locked in for it.
pub open spec fn pays_stake_and_locked_yield(
    call: HostCall,
    token: Address,
    contract: Address,
    v: VouchRecord,
    entries: Seq<YieldDistributionEntry>,
) -> bool {
    exists|y: int|
        {
            &&& #[trigger] moves(call, token, contract, v.voucher, v.stake + y)
            &&& locked_for(entries, v.voucher, y)
        }
}

/// The payment that settles a loan pays each voucher, in order, its own stake and its stake's share
/// of the loan's yield. The loan is no longer active, its vouches are gone, and nothing else
/// changes.
pub proof fn law_settled_loan_pays_each_voucher(l: LedgerView, borrower: Address, payment: i128)
    requires
        contract::repay_outcome(l, borrower, payment) == Outcome::Done,
        payment == still_owed(l, borrower),
    ensures
        ({
            let after = contract::repaid(l, borrower, payment);
            let loan = loan_at(l, borrower);
            let b = behind_the_loan(l, borrower);
            let total = added_up(staked(b));
            &&& has_loan(l, borrower)
            &&& takes_payment(l, after, borrower, payment)
            &&& after.calls.len() == l.calls.len() + 2 + b.len() + 1
            &&& forall|i: int|
                0 <= i < b.len() ==> pays_stake_and_share(
                    after.calls[l.calls.len() + 2 + i],
                    loan.token_address,
                    l.contract,
                    #[trigger] b[i],
                    loan.total_yield as int,
                    total,
                )
            &&& after.calls.last() == HostCall::Publish(
                Event::LoanRepaid { borrower, amount: loan.amount },
            )
            &&& after.active_loans == l.active_loans.remove(borrower.id)
            &&& after.vouches == l.vouches.remove(borrower.id)
            &&& after == (LedgerView {
                loans: after.loans,
                active_loans: after.active_loans,
                vouches: after.vouches,
                calls: after.calls,
                ..l
            })
        }),
{
    let after = contract::repaid(l, borrower, payment);
    let loan = loan_at(l, borrower);
    let b = behind_the_loan(l, borrower);
    let total = added_up(staked(b));
    law_lookups_read_the_record(l, borrower, 0, Seq::empty(), Map::empty());
    law_backing_is_by_token(vouches_at(l, borrower), loan.token_address);
    assert(b == backers(l, borrower, loan.token_address));
    assert(after.calls.take(l.calls.len() as int + 2) =~= l.calls + seq![
        HostCall::RequireAuth(borrower),
        HostCall::Transfer {
            token: loan.token_address,
            from: borrower,
            to: l.contract,
            amount: payment,
        },
    ]);
    assert forall|i: int| 0 <= i < b.len() implies pays_stake_and_share(
        after.calls[l.calls.len() + 2 + i],
        loan.token_address,
        l.contract,
        #[trigger] b[i],
        loan.total_yield as int,
        total,
    ) by {
        let share = share_of(loan.total_yield as int, b[i].stake as int, total);
        law_shares_are_in_proportion(loan.total_yield as int, b[i].stake as int, total);
        assert(in_i128(flat_payout(b[i], loan.total_yield as int, total)));
        assert(moves(
            after.calls[l.calls.len() + 2 + i],
            loan.token_address,
            l.contract,
            b[i].voucher,
            b[i].stake + share,
        ));
    }
}

/// How often a voucher stands behind the borrower.
pub open spec fn times(b: Seq<VouchRecord>, voucher: u64) -> int {
    added_up(
        Seq::new(
            b.len(),
            |i: int|
                if b[i].voucher.id == voucher {
                    1int
                } else {
                    0int
                },
        ),
    )
}

/// The statistics under a voucher's handle; all zero without an entry.
pub open spec fn stats_at(stats: Map<u64, VoucherStats>, voucher: u64) -> VoucherStats {
    if stats.contains_key(voucher) {
        stats[voucher]
    } else {
        VoucherStats {
            successful_vouches: 0,
            total_vouches_slashed: 0,
            total_yield_earned: 0,
            total_slashed: 0,
        }
    }
}

proof fn lemma_times_step(b: Seq<VouchRecord>, k: int, voucher: u64)
    requires
        0 <= k < b.len(),
    ensures
        times(b.take(k + 1), voucher) == times(b.take(k), voucher) + (if b[k].voucher.id
            == voucher {
            1int
        } else {
            0int
        }),
        times(b.take(0), voucher) == 0,
{
    let f = |s: Seq<VouchRecord>|
        Seq::new(
            s.len(),
            |i: int|
                if s[i].voucher.id == voucher {
                    1int
                } else {
                    0int
                },
        );
    let x: int = if b[k].voucher.id == voucher {
        1
    } else {
        0
    };
    lemma_added_push(f(b.take(k)), x);
    assert(f(b.take(k + 1)) =~= f(b.take(k)).push(x));
}

/// How far the first `k` vouches bring a voucher's statistics.
pub proof fn lemma_stats_grow(
    stats: Map<u64, VoucherStats>,
    b: Seq<VouchRecord>,
    entries: Seq<YieldDistributionEntry>,
    k: int,
    voucher: u64,
    y: int,
)
    requires
        0 <= k <= b.len(),
        forall|i: int| 0 <= i < k ==> #[trigger] credit_fits_at(stats, b, entries, i),
        locked_for(entries, Address { id: voucher }, y),
    ensures
        ({
            let then = stats_after(stats, b.take(k), entries);
            let n = times(b.take(k), voucher);
            &&& 0 <= n <= k
            &&& then.contains_key(voucher) <==> stats.contains_key(voucher) || n > 0
            &&& stats_at(then, voucher).successful_vouches == stats_at(
                stats,
                voucher,
            ).successful_vouches + n
            &&& stats_at(then, voucher).total_yield_earned == stats_at(
                stats,
                voucher,
            ).total_yield_earned + n * y
            &&& stats_at(then, voucher).total_vouches_slashed == stats_at(
                stats,
                voucher,
            ).total_vouches_slashed
            &&& stats_at(then, voucher).total_slashed == stats_at(stats, voucher).total_slashed
        }),
    decreases k,
{
    if k == 0 {
        assert(b.take(0) =~= Seq::<VouchRecord>::empty());
        assert(times(b.take(0), voucher) == 0);
        assert(0 * y == 0);
    } else {
        lemma_stats_grow(stats, b, entries, k - 1, voucher, y);
        lemma_times_step(b, k - 1, voucher);
        assert(credit_fits_at(stats, b, entries, k - 1));
        assert(b.take(k).drop_last() =~= b.take(k - 1));
        assert(b.take(k).last() == b[k - 1]);
        let n = times(b.take(k - 1), voucher);
        assert((n + 1) * y == n * y + y) by (nonlinear_arith);
        if b[k - 1].voucher.id == voucher {
            assert(b[k - 1].voucher == (Address { id: voucher }));
            law_first_entry_counts(entries, b[k - 1].voucher);
            lemma_one_locked_yield(
                entries,
                b[k - 1].voucher,
                y,
                locked_yield(entries, b[k - 1].voucher),
            );
        }
    }
}

/// The payment that settles a loan with locked yields pays each voucher, in order, its own stake
/// and the yield locked in for it. The borrower has one more repaid loan on record. The loan is no
/// longer active, its vouches and its locked yields are gone, and nothing else changes but the
/// vouchers' statistics.
pub proof fn law_settled_locked_loan_pays_each_voucher(
    l: LedgerView,
    borrower: Address,
    payment: i128,
)
    requires
        loan::repay_outcome(l, borrower, payment) == Outcome::Done,
        payment == still_owed(l, borrower),
    ensures
        ({
            let after = loan::repaid(l, borrower, payment);
            let loan = loan_at(l, borrower);
            let b = behind_the_loan(l, borrower);
            &&& has_loan(l, borrower)
            &&& takes_payment(l, after, borrower, payment)
            &&& after.calls.len() == l.calls.len() + 2 + b.len() + 1
            &&& forall|i: int|
                0 <= i < b.len() ==> pays_stake_and_locked_yield(
                    after.calls[l.calls.len() + 2 + i],
                    loan.token_address,
                    l.contract,
                    #[trigger] b[i],
                    entries_at(l, loan.id),
                )
            &&& after.calls.last() == HostCall::Publish(
                Event::LoanRepaid { borrower, amount: loan.amount },
            )
            &&& after.active_loans == l.active_loans.remove(borrower.id)
            &&& after.vouches == l.vouches.remove(borrower.id)
            &&& after.yield_distributions == l.yield_distributions.remove(loan.id)
            &&& after.repayment_counts == l.repayment_counts.insert(
                borrower.id,
                after.repayment_counts[borrower.id],
            )
            &&& after.repayment_counts[borrower.id] == count_at(l.repayment_counts, borrower.id)
                + 1
            &&& after == (LedgerView {
                loans: after.loans,
                active_loans: after.active_loans,
                vouches: after.vouches,
                yield_distributions: after.yield_distributions,
                repayment_counts: after.repayment_counts,
                voucher_stats: after.voucher_stats,
                calls: after.calls,
                ..l
            })
        }),
{
    let after = loan::repaid(l, borrower, payment);
    let loan = loan_at(l, borrower);
    let b = behind_the_loan(l, borrower);
    let entries = entries_at(l, loan.id);
    let total = total_stake(b);
    law_lookups_read_the_record(l, borrower, loan.id, Seq::empty(), l.repayment_counts);
    law_backing_is_by_token(vouches_at(l, borrower), loan.token_address);
    assert(b == backers(l, borrower, loan.token_address));
    law_settling_carries_no_penalty(l, borrower, payment);
    assert(after.calls.take(l.calls.len() as int + 2) =~= l.calls + seq![
        HostCall::RequireAuth(borrower),
        HostCall::Transfer {
            token: loan.token_address,
            from: borrower,
            to: l.contract,
            amount: payment,
        },
    ]);
    assert forall|i: int| 0 <= i < b.len() implies pays_stake_and_locked_yield(
        after.calls[l.calls.len() + 2 + i],
        loan.token_address,
        l.contract,
        #[trigger] b[i],
        entries,
    ) by {
        let y = locked_yield(entries, b[i].voucher);
        law_first_entry_counts(entries, b[i].voucher);
        law_shares_are_in_proportion(0, b[i].stake as int, total);
        assert(share_of(0, b[i].stake as int, total) == 0) by {
            if total > 0 {
                vstd::arithmetic::div_mod::lemma_div_of0(total);
            }
        }
        assert(in_i128(locked_payout(b[i], entries, 0, total)));
        assert(moves(
            after.calls[l.calls.len() + 2 + i],
            loan.token_address,
            l.contract,
            b[i].voucher,
            b[i].stake + y,
        ));
    }
}

/// The payment that settles a loan with locked yields credits each voucher once for each vouch that
/// it has behind the loan, with the yield locked in for it; no other statistics change.
pub proof fn law_settled_locked_loan_credits_vouchers(
    l: LedgerView,
    borrower: Address,
    payment: i128,
    voucher: Address,
    y: int,
)
    requires
        loan::repay_outcome(l, borrower, payment) == Outcome::Done,
        payment == still_owed(l, borrower),
        locked_for(entries_at(l, loan_at(l, borrower).id), voucher, y),
    ensures
        ({
            let after = loan::repaid(l, borrower, payment);
            let n = times(behind_the_loan(l, borrower), voucher.id);
            let was = stats_at(l.voucher_stats, voucher.id);
            let is = stats_at(after.voucher_stats, voucher.id);
            &&& n >= 0
            &&& after.voucher_stats.contains_key(voucher.id) <==> l.voucher_stats.contains_key(
                voucher.id,
            ) || n > 0
            &&& is.successful_vouches == was.successful_vouches + n
            &&& is.total_yield_earned == was.total_yield_earned + n * y
            &&& is.total_vouches_slashed == was.total_vouches_slashed
            &&& is.total_slashed == was.total_slashed
        }),
{
    let loan = loan_at(l, borrower);
    let b = behind_the_loan(l, borrower);
    law_lookups_read_the_record(l, borrower, loan.id, Seq::empty(), Map::empty());
    law_backing_is_by_token(vouches_at(l, borrower), loan.token_address);
    assert(b == backers(l, borrower, loan.token_address));
    let entries = entries_at(l, loan.id);
    assert(stats_fit(l.voucher_stats, b, entries));
    assert(voucher == (Address { id: voucher.id }));
    lemma_stats_grow(l.voucher_stats, b, entries, b.len() as int, voucher.id, y);
    assert(b.take(b.len() as int) =~= b);
}

/// A partial payment moves from the borrower to the contract in the token that it is made in, is
/// credited to the loan, and changes nothing else: the loan stays active whatever it brings.
pub proof fn law_partial_payment_is_credited(
    l: LedgerView,
    borrower: Address,
    payment: i128,
    token: Address,
)
    requires
        loan::repay_partial_outcome(l, borrower, payment, token) == Outcome::Done,
    ensures
        ({
            let after = loan::partially_repaid(l, borrower, payment, token);
            let loan = loan_at(l, borrower);
            let record = after.loans[loan.id];
            &&& has_loan(l, borrower)
            &&& payment > 0
            &&& after.loans == l.loans.insert(loan.id, record)
            &&& record.amount_repaid == loan.amount_repaid + payment
            &&& record == (LoanView { amount_repaid: record.amount_repaid, ..loan })
            &&& after.calls == l.calls + seq![
                HostCall::RequireAuth(borrower),
                HostCall::Transfer { token, from: borrower, to: l.contract, amount: payment },
                HostCall::Publish(Event::PartialRepay { borrower, payment }),
            ]
            &&& after == (LedgerView { loans: after.loans, calls: after.calls, ..l })
        }),
{
    law_lookups_read_the_record(l, borrower, 0, Seq::empty(), Map::empty());
    let after = loan::partially_repaid(l, borrower, payment, token);
    assert(after.calls =~= l.calls + seq![
        HostCall::RequireAuth(borrower),
        HostCall::Transfer { token, from: borrower, to: l.contract, amount: payment },
        HostCall::Publish(Event::PartialRepay { borrower, payment }),
    ]);
}

/// The calls that pay each voucher, in order, what is left of its stake after its part was taken;
/// none where nothing is left.
pub open spec fn returns_the_rest(
    calls: Seq<HostCall>,
    b: Seq<VouchRecord>,
    taken: Seq<int>,
    token: Address,
    contract: Address,
) -> bool
    decreases b.len(),
{
    if b.len() == 0 {
        calls.len() == 0
    } else if b[0].stake - taken[0] > 0 {
        &&& calls.len() > 0
        &&& moves(calls[0], token, contract, b[0].voucher, b[0].stake - taken[0])
        &&& returns_the_rest(calls.skip(1), b.skip(1), taken.skip(1), token, contract)
    } else {
        returns_the_rest(calls, b.skip(1), taken.skip(1), token, contract)
    }
}

proof fn lemma_rest_push(
    calls: Seq<HostCall>,
    b: Seq<VouchRecord>,
    taken: Seq<int>,
    token: Address,
    contract: Address,
    v: VouchRecord,
    x: int,
    c: HostCall,
)
    requires
        taken.len() == b.len(),
        returns_the_rest(calls, b, taken, token, contract),
    ensures
        v.stake - x > 0 && moves(c, token, contract, v.voucher, v.stake - x) ==> returns_the_rest(
            calls.push(c),
            b.push(v),
            taken.push(x),
            token,
            contract,
        ),
        v.stake - x <= 0 ==> returns_the_rest(calls, b.push(v), taken.push(x), token, contract),
    decreases b.len(),
{
    reveal_with_fuel(returns_the_rest, 2);
    assert(b.push(v)[0] == (if b.len() == 0 {
        v
    } else {
        b[0]
    }));
    assert(taken.push(x)[0] == (if b.len() == 0 {
        x
    } else {
        taken[0]
    }));
    if b.len() == 0 {
        assert(b.push(v).skip(1) =~= Seq::<VouchRecord>::empty());
        assert(calls.push(c).skip(1) =~= Seq::<HostCall>::empty());
    } else {
        assert(b.push(v).skip(1) =~= b.skip(1).push(v));
        assert(taken.push(x).skip(1) =~= taken.skip(1).push(x));
        if b[0].stake - taken[0] > 0 {
            lemma_rest_push(
                calls.skip(1),
                b.skip(1),
                taken.skip(1),
                token,
                contract,
                v,
                x,
                c,
            );
            assert(calls.push(c).skip(1) =~= calls.skip(1).push(c));
        } else {
            lemma_rest_push(calls, b.skip(1), taken.skip(1), token, contract, v, x, c);
        }
    }
}

proof fn lemma_remainders_return_the_rest(
    b: Seq<VouchRecord>,
    bps: int,
    token: Address,
    contract: Address,
)
    requires
        forall|i: int|
            0 <= i < b.len() ==> in_i128(remainder(#[trigger] b[i], bps)),
    ensures
        returns_the_rest(
            remainder_calls(b, bps, token, contract),
            b,
            cuts(b, bps),
            token,
            contract,
        ),
    decreases b.len(),
{
    if b.len() > 0 {
        let head = b.drop_last();
        let v = b.last();
        assert forall|i: int| 0 <= i < head.len() implies in_i128(
            remainder(#[trigger] head[i], bps),
        ) by {
            assert(head[i] == b[i]);
        }
        lemma_remainders_return_the_rest(head, bps, token, contract);
        assert(in_i128(remainder(b[b.len() - 1], bps)));
        let x = bps_of(v.stake as int, bps);
        lemma_rest_push(
            remainder_calls(head, bps, token, contract),
            head,
            cuts(head, bps),
            token,
            contract,
            v,
            x,
            payment_of(token, contract, v.voucher, remainder(v, bps)),
        );
        assert(head.push(v) =~= b);
        assert(cuts(head, bps).push(x) =~= cuts(b, bps));
    }
}

/// A slash takes the configured part of each stake in the loan's token and pays the rest of it back
/// to its voucher. A fifth of what is taken goes to the pool and the remainder to the treasury. The
/// loan is in default and no longer active, and nothing else changes.
pub proof fn law_slash_takes_its_part_of_each_stake(
    l: LedgerView,
    signers: Seq<Address>,
    borrower: Address,
    taken: Seq<int>,
)
    requires
        contract::slash_outcome(l, signers, borrower) == Outcome::Done,
        taken.len() == behind_the_loan(l, borrower).len(),
        forall|i: int|
            0 <= i < taken.len() ==> rounds_to(
                #[trigger] taken[i],
                behind_the_loan(l, borrower)[i].stake * l.config->0.slash_bps,
                10_000,
            ),
    ensures
        ({
            let after = contract::slashed(l, signers, borrower);
            let loan = loan_at(l, borrower);
            let asked = demands(admins_among(l.config->0.admins, signers));
            let total = added_up(taken);
            let start = l.calls.len() + asked.len();
            &&& has_loan(l, borrower)
            &&& after.calls.len() > start
            &&& after.calls.take(start as int) == l.calls + asked
            &&& returns_the_rest(
                after.calls.subrange(start as int, after.calls.len() - 1),
                behind_the_loan(l, borrower),
                taken,
                loan.token_address,
                l.contract,
            )
            &&& after.calls.last() matches HostCall::Publish(
                Event::LoanSlashed { borrower: whose, total_slashed },
            ) && whose == borrower && total_slashed == total
            &&& rounds_to(after.insurance_pool - l.insurance_pool, total, 5)
            &&& after.insurance_pool - l.insurance_pool + after.slash_treasury - l.slash_treasury
                == total
            &&& after.loans == l.loans.insert(
                loan.id,
                LoanView { status: LoanStatus::Defaulted, ..loan },
            )
            &&& after.active_loans == l.active_loans.remove(borrower.id)
            &&& after == (LedgerView {
                loans: after.loans,
                active_loans: after.active_loans,
                insurance_pool: after.insurance_pool,
                slash_treasury: after.slash_treasury,
                calls: after.calls,
                ..l
            })
        }),
{
    let after = contract::slashed(l, signers, borrower);
    let loan = loan_at(l, borrower);
    let token = loan.token_address;
    let b = behind_the_loan(l, borrower);
    let bps = l.config->0.slash_bps as int;
    law_lookups_read_the_record(l, borrower, 0, signers, Map::empty());
    law_backing_is_by_token(vouches_at(l, borrower), token);
    assert(b == backers(l, borrower, token));
    law_approvals_are_the_admins(l.config->0.admins, signers);
    let names = admins_among(l.config->0.admins, signers);
    let asked = demands(names);
    assert(auth_calls(names) =~= asked);
    assert forall|i: int| 0 <= i < taken.len() implies #[trigger] taken[i] == cuts(b, bps)[i] by {
        law_products_are_divided(b[i].stake as int, bps, 1);
        law_one_quotient(
            taken[i],
            bps_of(b[i].stake as int, bps),
            b[i].stake * bps,
            10_000,
        );
    }
    assert(taken =~= cuts(b, bps));
    law_sums_add_up(taken);
    lemma_sum_all(taken);
    let total = added_up(taken);
    assert(total == contract::slashed_total(l, borrower));
    law_fees_and_parts(l, 0, total);
    lemma_remainders_return_the_rest(b, bps, token, l.contract);
    let rest = remainder_calls(b, bps, token, l.contract);
    let start = (l.calls.len() + asked.len()) as int;
    let event = HostCall::Publish(
        Event::LoanSlashed { borrower, total_slashed: total as i128 },
    );
    assert(after.calls =~= (l.calls + asked) + rest.push(event));
    assert(after.calls.take(start) =~= l.calls + asked);
    assert(after.calls.subrange(start, after.calls.len() - 1) =~= rest);
}

/// A contribution moves from the contributor to the contract in the main token, the pool grows by
/// it, and nothing else changes.
pub proof fn law_contribution_goes_to_the_pool(l: LedgerView, contributor: Address, amount: i128)
    requires
        contribution_outcome(l, amount) == Outcome::Done,
    ensures
        ({
            let after = contributed(l, contributor, amount);
            &&& after.insurance_pool == l.insurance_pool + amount
            &&& after.calls == l.calls + seq![
                HostCall::RequireAuth(contributor),
                HostCall::Transfer {
                    token: l.config->0.token,
                    from: contributor,
                    to: l.contract,
                    amount,
                },
            ]
            &&& after == (LedgerView {
                insurance_pool: after.insurance_pool,
                calls: after.calls,
                ..l
            })
        }),
{
}

/// What the admins set is set as they gave it, each admin among the signers is asked, and nothing
/// else changes.
pub proof fn law_admins_set_what_they_give(
    l: LedgerView,
    signers: Seq<Address>,
    borrower: Address,
    bps: u32,
    amount: i128,
)
    requires
        l.config is Some,
    ensures
        ({
            let asked = LedgerView {
                calls: l.calls + demands(admins_among(l.config->0.admins, signers)),
                ..l
            };
            let loan = loan_at(l, borrower);
            &&& fee_set(l, signers, bps) == (LedgerView { insurance_fee_bps: bps, ..asked })
            &&& coverage_set(l, signers, bps) == (LedgerView {
                insurance_coverage_bps: bps,
                ..asked
            })
            &&& loan::reserve_set(l, signers, amount) == (LedgerView {
                yield_reserve: amount,
                ..asked
            })
            &&& has_loan(l, borrower) ==> loan::scored(l, signers, borrower, bps) == (LedgerView {
                loans: l.loans.insert(loan.id, LoanView { risk_score: bps, ..loan }),
                ..asked
            })
        }),
{
    law_lookups_read_the_record(l, borrower, 0, signers, Map::empty());
    law_approvals_are_the_admins(l.config->0.admins, signers);
    let names = admins_among(l.config->0.admins, signers);
    assert(auth_calls(names) =~= demands(names));
}

/// The settings are the given admins, threshold, token and terms. No other token is allowed, and
/// there is neither a grace period nor a penalty. The deployer is asked and on record, and nothing
/// else changes.
pub proof fn law_setup_records_what_it_is_given(
    l: LedgerView,
    deployer: Address,
    admins: Seq<Address>,
    admin_threshold: u32,
    token: Address,
    terms: OpeningTerms,
)
    ensures
        ({
            let after = contract::initialized(
                l,
                deployer,
                admins,
                admin_threshold,
                token,
                terms,
            );
            &&& after.deployer == Some(deployer)
            &&& after.config matches Some(cfg) && {
                &&& cfg.admins == admins
                &&& cfg.admin_threshold == admin_threshold
                &&& cfg.token == token
                &&& cfg.allowed_tokens.len() == 0
                &&& cfg.yield_bps == terms.yield_bps
                &&& cfg.slash_bps == terms.slash_bps
                &&& cfg.max_vouchers == terms.max_vouchers
                &&& cfg.min_loan_amount == terms.min_loan_amount
                &&& cfg.loan_duration == terms.loan_duration
                &&& cfg.max_loan_to_stake_ratio == terms.max_loan_to_stake_ratio
                &&& cfg.grace_period == 0
                &&& cfg.min_vouch_age_secs == terms.min_vouch_age_secs
                &&& cfg.prepayment_penalty_bps == 0
            }
            &&& after.calls == l.calls.push(HostCall::RequireAuth(deployer))
            &&& after == (LedgerView {
                deployer: after.deployer,
                config: after.config,
                calls: after.calls,
                ..l
            })
        }),
{
    let after = contract::initialized(l, deployer, admins, admin_threshold, token, terms);
    assert(after.calls =~= l.calls.push(HostCall::RequireAuth(deployer)));
}

/// A ledger starts with nothing on record, a fee of half a per cent and a coverage of a quarter.
pub proof fn law_ledger_starts_empty(contract: Address, now: u64)
    ensures
        ({
            let l = empty_ledger(contract, now);
            &&& l.contract == contract
            &&& l.now == now
            &&& l.deployer is None
            &&& l.config is None
            &&& !l.paused
            &&& l.loan_counter == 0
            &&& l.loans == Map::<u64, LoanView>::empty()
            &&& l.active_loans == Map::<u64, u64>::empty()
            &&& l.vouches == Map::<u64, Seq<VouchRecord>>::empty()
            &&& l.yield_distributions == Map::<u64, Seq<YieldDistributionEntry>>::empty()
            &&& l.repayment_counts == Map::<u64, u32>::empty()
            &&& l.default_counts == Map::<u64, u32>::empty()
            &&& l.voucher_stats == Map::<u64, VoucherStats>::empty()
            &&& l.slash_treasury == 0
            &&& l.insurance_pool == 0
            &&& l.insurance_fee_bps == 50
            &&& l.insurance_coverage_bps == 2_500
            &&& l.yield_reserve == 0
            &&& l.calls.len() == 0
        }),
{
}

/// An operation that ends with an error code has asked the caller, or the admins among the
/// signers, and changed nothing else; a slash asks nobody while the contract is paused.
pub proof fn law_failures_only_ask(l: LedgerView, caller: Address, signers: Seq<Address>)
    ensures
        l.asking(caller) == (LedgerView {
            calls: l.calls.push(HostCall::RequireAuth(caller)),
            ..l
        }),
        l.config is Some ==> l.asking_admins(signers) == (LedgerView {
            calls: l.calls + demands(admins_among(l.config->0.admins, signers)),
            ..l
        }),
        l.config is Some && !l.paused ==> contract::slash_refused(l, signers) == (LedgerView {
            calls: l.calls + demands(admins_among(l.config->0.admins, signers)),
            ..l
        }),
        l.paused ==> contract::slash_refused(l, signers) == l,
{
    assert(l.asking(caller).calls =~= l.calls.push(HostCall::RequireAuth(caller)));
    if l.config is Some {
        law_approvals_are_the_admins(l.config->0.admins, signers);
        let names = admins_among(l.config->0.admins, signers);
        assert(auth_calls(names) =~= demands(names));
    }
}

/// An operation leaves the ledger as it was where it traps, the ledger after a failure where it
/// ends with an error code, and the ledger after the whole operation where it is done; and its
/// answer is that end.
pub proof fn law_ends_are_told(
    outcome: Outcome,
    result: Outcome,
    answer: Result<(), ContractError>,
    before: LedgerView,
    failed: LedgerView,
    done: LedgerView,
    after: LedgerView,
    e: ContractError,
)
    ensures
        settled(outcome, result, before, failed, done, after) ==> {
            &&& result == outcome
            &&& outcome == Outcome::Trap ==> after == before
            &&& outcome == Outcome::Abort(e) || outcome == Outcome::Refused(e) ==> after == failed
            &&& outcome == Outcome::Done ==> after == done
        },
        answered(outcome, answer, failed, done, after) ==> {
            &&& outcome == Outcome::Done <==> answer is Ok
            &&& outcome == Outcome::Refused(e) <==> answer == Err::<(), ContractError>(e)
            &&& after == (if answer is Ok {
                done
            } else {
                failed
            })
        },
        outcome.comes_back() <==> outcome is Done || outcome is Refused,
        Outcome::Refused(e).answer_spec() == Err::<(), ContractError>(e),
        Outcome::Done.answer_spec() is Ok,
{
}

} // verus!
