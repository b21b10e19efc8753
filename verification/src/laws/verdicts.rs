//! How each operation ends: on which ledgers and inputs it is done, and on which it fails and with
//! what code. Where neither holds, it traps.
use vstd::prelude::*;
use crate::admission::{admission, backers};
use crate::arith::{bps_of, bps_of_fits, in_i128, mul_div};
use crate::contract;
use crate::insurance::{contribution_outcome, loan_fee, rate_change_outcome, slash_to_pool};
use crate::laws::effects::{behind_the_loan, lemma_stats_grow, stats_at, still_owed, times};
use crate::laws::plain::{
    added_up, adds_up_in_range, count_at, divides_in_range, enough_admins, entries_at, fits,
    has_loan, in_token, law_backing_is_by_token, law_first_entry_counts,
    law_lookups_read_the_record, law_one_quotient, law_products_are_divided, law_sums_add_up,
    lemma_one_locked_yield, loan_at, locked_for, rounds_to, size, staked, takes_token,
    vouches_at,
};
use crate::laws::rates::{
    law_fees_and_parts, law_one_yield, law_shares_are_in_proportion, law_yield_of_a_vouch,
    rate_is, raw_rate_is, yield_in_range, yield_is,
};
use crate::ledger::LedgerView;
use crate::loan;
use crate::shares::{
    credit_fits_at, cuts, cuts_fit, flat_payout, flat_payouts_fit, locked_payout,
    locked_payouts_fit, locked_yield, remainder, share_fits, share_of, stats_fit,
};
use crate::types::{Address, ContractError, Outcome, VouchRecord, YieldDistributionEntry};

verus! {

/// How a setup ends: it is refused where there are settings already, and where the threshold does
/// not lie between one and the number of admins; otherwise it is done.
pub proof fn law_when_setup_is_done(l: LedgerView, admins: Seq<Address>, admin_threshold: u32)
    ensures
        ({
            let end = contract::initialize_outcome(l, admins, admin_threshold);
            &&& end == Outcome::Refused(ContractError::AlreadyInitialized) <==> l.config is Some
            &&& end == Outcome::Refused(ContractError::InvalidAmount) <==> l.config is None && !(1
                <= admin_threshold <= admins.len())
            &&& end == Outcome::Done <==> l.config is None && 1 <= admin_threshold <= admins.len()
        }),
{
}

/// True if nothing stands in the way of a request but its numbers: the contract runs and has
/// settings, the borrower has no active loan, the token is taken, and the amount is large enough.
pub open spec fn may_request(
    l: LedgerView,
    borrower: Address,
    amount: i128,
    token: Address,
) -> bool {
    &&& !l.paused
    &&& !has_loan(l, borrower)
    &&& l.config is Some
    &&& takes_token(l, token)
    &&& amount >= l.config->0.min_loan_amount
}

/// True if the stakes behind a borrower in a token add up in range, and to the threshold.
pub open spec fn has_the_stake(
    l: LedgerView,
    borrower: Address,
    threshold: i128,
    token: Address,
) -> bool {
    let b = in_token(vouches_at(l, borrower), token);
    adds_up_in_range(staked(b)) && added_up(staked(b)) >= threshold
}

/// True if they add up in range, but not to the threshold.
pub open spec fn lacks_the_stake(
    l: LedgerView,
    borrower: Address,
    threshold: i128,
    token: Address,
) -> bool {
    let b = in_token(vouches_at(l, borrower), token);
    adds_up_in_range(staked(b)) && added_up(staked(b)) < threshold
}

/// True if a request ends with an error code that is the same for both kinds of loan.
pub open spec fn refuses_request(
    l: LedgerView,
    borrower: Address,
    amount: i128,
    token: Address,
    end: Outcome,
) -> bool {
    &&& end == Outcome::Refused(ContractError::ContractPaused) <==> l.paused
    &&& end == Outcome::Refused(ContractError::ActiveLoanExists) <==> !l.paused && has_loan(
        l,
        borrower,
    )
    &&& end == Outcome::Refused(ContractError::InvalidToken) <==> {
        &&& !l.paused
        &&& !has_loan(l, borrower)
        &&& l.config is Some
        &&& !takes_token(l, token)
    }
    &&& end == Outcome::Refused(ContractError::LoanBelowMinAmount) <==> {
        &&& !l.paused
        &&& !has_loan(l, borrower)
        &&& l.config is Some
        &&& takes_token(l, token)
        &&& amount < l.config->0.min_loan_amount
    }
    &&& end != Outcome::Refused(ContractError::AlreadyInitialized)
    &&& end != Outcome::Refused(ContractError::InvalidAmount)
    &&& end != Outcome::Refused(ContractError::NoActiveLoan)
    &&& end != Outcome::Refused(ContractError::UnauthorizedCaller)
}

proof fn lemma_admission(
    l: LedgerView,
    borrower: Address,
    amount: i128,
    threshold: i128,
    token: Address,
)
    ensures
        ({
            let end = admission(l, borrower, amount, threshold, token);
            &&& refuses_request(l, borrower, amount, token, end)
            &&& end == Outcome::Refused(ContractError::InsufficientFunds) <==> may_request(
                l,
                borrower,
                amount,
                token,
            ) && lacks_the_stake(l, borrower, threshold, token)
            &&& end == Outcome::Done <==> may_request(l, borrower, amount, token)
                && has_the_stake(l, borrower, threshold, token)
            &&& !(end is Abort)
        }),
{
    law_lookups_read_the_record(l, borrower, 0, Seq::empty(), Map::empty());
    law_lookups_read_the_record(l, token, 0, Seq::empty(), Map::empty());
    law_backing_is_by_token(vouches_at(l, borrower), token);
}

/// How a request ends. It is granted where nothing stands in its way, the stake behind the borrower
/// reaches the threshold, and its number, deadline, yield and fee are in range.
pub proof fn law_when_a_loan_is_granted(
    l: LedgerView,
    borrower: Address,
    amount: i128,
    threshold: i128,
    token: Address,
    fee: int,
)
    requires
        rounds_to(fee, amount * l.insurance_fee_bps, 10_000),
    ensures
        ({
            let end = contract::request_loan_outcome(l, borrower, amount, threshold, token);
            &&& refuses_request(l, borrower, amount, token, end)
            &&& end == Outcome::Refused(ContractError::InsufficientFunds) <==> may_request(
                l,
                borrower,
                amount,
                token,
            ) && lacks_the_stake(l, borrower, threshold, token)
            &&& end == Outcome::Done <==> {
                &&& may_request(l, borrower, amount, token)
                &&& has_the_stake(l, borrower, threshold, token)
                &&& l.loan_counter < u64::MAX
                &&& l.now + l.config->0.loan_duration <= u64::MAX
                &&& fits(amount * l.config->0.yield_bps)
                &&& fits(amount * l.insurance_fee_bps)
                &&& fits(l.insurance_pool + fee)
            }
            &&& !(end is Abort)
        }),
{
    lemma_admission(l, borrower, amount, threshold, token);
    law_fees_and_parts(l, amount, 0);
    law_one_quotient(fee, loan_fee(l, amount as int), amount * l.insurance_fee_bps, 10_000);
    law_products_are_divided(amount as int, l.config->0.yield_bps as int, 1);
}

/// True if `ys` are the yields of the vouches, one by one.
pub open spec fn yields_are(
    ys: Seq<int>,
    b: Seq<VouchRecord>,
    amount: int,
    rates: Seq<int>,
) -> bool {
    &&& ys.len() == b.len()
    &&& forall|i: int|
        0 <= i < b.len() ==> yield_is(
            #[trigger] ys[i],
            amount,
            b[i].stake as int,
            added_up(staked(b)),
            rates[i],
        )
}

/// How a request for a loan with locked yields ends. It is granted where nothing stands in its way,
/// the stake behind the borrower reaches the threshold, and its number, deadline and yields are in
/// range. Too little stake aborts it.
pub proof fn law_when_a_locked_loan_is_granted(
    l: LedgerView,
    borrower: Address,
    amount: i128,
    threshold: i128,
    token: Address,
    rates: Seq<int>,
)
    requires
        rates.len() == in_token(vouches_at(l, borrower), token).len(),
        forall|i: int|
            0 <= i < rates.len() ==> rate_is(
                l,
                in_token(vouches_at(l, borrower), token)[i],
                borrower,
                l.now,
                #[trigger] rates[i],
            ),
    ensures
        ({
            let end = loan::request_loan_outcome(l, borrower, amount, threshold, token);
            let b = in_token(vouches_at(l, borrower), token);
            let total = added_up(staked(b));
            &&& refuses_request(l, borrower, amount, token, end)
            &&& end != Outcome::Refused(ContractError::InsufficientFunds)
            &&& end == Outcome::Abort(ContractError::InsufficientFunds) <==> may_request(
                l,
                borrower,
                amount,
                token,
            ) && lacks_the_stake(l, borrower, threshold, token)
            &&& end is Abort ==> end == Outcome::Abort(ContractError::InsufficientFunds)
            &&& end == Outcome::Done <==> {
                &&& may_request(l, borrower, amount, token)
                &&& has_the_stake(l, borrower, threshold, token)
                &&& l.loan_counter < u64::MAX
                &&& l.now + l.config->0.loan_duration <= u64::MAX
                &&& forall|i: int, raw: int|
                    0 <= i < b.len() && #[trigger] raw_rate_is(l, b[i], borrower, l.now, raw)
                        ==> fits(raw)
                &&& forall|i: int|
                    0 <= i < b.len() ==> yield_in_range(
                        amount as int,
                        (#[trigger] b[i]).stake as int,
                        total,
                        rates[i],
                    )
                &&& forall|ys: Seq<int>| #[trigger]
                    yields_are(ys, b, amount as int, rates) ==> adds_up_in_range(ys)
            }
        }),
{
    lemma_admission(l, borrower, amount, threshold, token);
    law_lookups_read_the_record(l, borrower, 0, Seq::empty(), Map::empty());
    law_backing_is_by_token(vouches_at(l, borrower), token);
    let b = in_token(vouches_at(l, borrower), token);
    assert(b == backers(l, borrower, token));
    let total = added_up(staked(b));
    let zs = loan::vouch_yields(l, b, borrower, amount);
    law_sums_add_up(zs);
    let rates_fit = forall|i: int, raw: int|
        0 <= i < b.len() && #[trigger] raw_rate_is(l, b[i], borrower, l.now, raw) ==> fits(raw);
    let yields_fit = forall|i: int|
        0 <= i < b.len() ==> yield_in_range(
            amount as int,
            (#[trigger] b[i]).stake as int,
            total,
            rates[i],
        );
    let totals_fit = forall|ys: Seq<int>| #[trigger]
        yields_are(ys, b, amount as int, rates) ==> adds_up_in_range(ys);
    if l.config is Some {
        assert forall|i: int| 0 <= i < b.len() implies (loan::vouch_yield_fits(
            l,
            #[trigger] b[i],
            borrower,
            amount,
            total,
        ) <==> {
            &&& forall|raw: int| #[trigger]
                raw_rate_is(l, b[i], borrower, l.now, raw) ==> fits(raw)
            &&& yield_in_range(amount as int, b[i].stake as int, total, rates[i])
        }) && (total != 0 ==> yield_is(zs[i], amount as int, b[i].stake as int, total, rates[i]))
            by {
            law_yield_of_a_vouch(l, b[i], borrower, amount, total, rates[i]);
        }
        if loan::vouch_yields_fit(l, b, borrower, amount) {
            assert(rates_fit) by {
                assert forall|i: int, raw: int|
                    0 <= i < b.len() && #[trigger] raw_rate_is(
                        l,
                        b[i],
                        borrower,
                        l.now,
                        raw,
                    ) implies fits(raw) by {
                    assert(loan::vouch_yield_fits(l, b[i], borrower, amount, total));
                }
            }
            assert(yields_fit) by {
                assert forall|i: int| 0 <= i < b.len() implies yield_in_range(
                    amount as int,
                    (#[trigger] b[i]).stake as int,
                    total,
                    rates[i],
                ) by {
                    assert(loan::vouch_yield_fits(l, b[i], borrower, amount, total));
                }
            }
            assert forall|ys: Seq<int>| #[trigger]
                yields_are(ys, b, amount as int, rates) implies adds_up_in_range(ys) by {
                assert forall|i: int| 0 <= i < b.len() implies #[trigger] ys[i] == zs[i] by {
                    assert(loan::vouch_yield_fits(l, b[i], borrower, amount, total));
                    assert(divides_in_range(amount as int, b[i].stake as int, total));
                    law_one_yield(
                        ys[i],
                        zs[i],
                        amount as int,
                        b[i].stake as int,
                        total,
                        rates[i],
                    );
                }
                assert(ys =~= zs);
            }
        }
        if rates_fit && yields_fit && totals_fit {
            assert forall|i: int| 0 <= i < b.len() implies loan::vouch_yield_fits(
                l,
                #[trigger] b[i],
                borrower,
                amount,
                total,
            ) by {
                assert(yield_in_range(amount as int, b[i].stake as int, total, rates[i]));
            }
            assert(yields_are(zs, b, amount as int, rates)) by {
                assert forall|i: int| 0 <= i < b.len() implies yield_is(
                    #[trigger] zs[i],
                    amount as int,
                    b[i].stake as int,
                    total,
                    rates[i],
                ) by {
                    assert(yield_in_range(amount as int, b[i].stake as int, total, rates[i]));
                    assert(divides_in_range(amount as int, b[i].stake as int, total));
                }
            }
            assert(loan::vouch_yields_fit(l, b, borrower, amount));
        }
    }
}

/// True if nothing stands in the way of a payment but the numbers of the loan.
pub open spec fn may_pay(l: LedgerView, borrower: Address, payment: i128) -> bool {
    let loan = loan_at(l, borrower);
    &&& !l.paused
    &&& has_loan(l, borrower)
    &&& fits(loan.amount + loan.total_yield)
    &&& fits(still_owed(l, borrower))
    &&& 0 < payment <= still_owed(l, borrower)
    &&& l.config is Some
    &&& takes_token(l, loan.token_address)
}

/// True if a payment is out of its range: not positive, or more than what is owed.
pub open spec fn payment_is_off(l: LedgerView, borrower: Address, payment: i128) -> bool {
    let loan = loan_at(l, borrower);
    &&& !l.paused
    &&& has_loan(l, borrower)
    &&& payment <= 0 || (fits(loan.amount + loan.total_yield) && fits(still_owed(l, borrower))
        && payment > still_owed(l, borrower))
}

/// True if a payment ends with an error code that is the same for both kinds of loan.
pub open spec fn refuses_payment(
    l: LedgerView,
    borrower: Address,
    payment: i128,
    end: Outcome,
) -> bool {
    let loan = loan_at(l, borrower);
    &&& end == Outcome::Refused(ContractError::ContractPaused) <==> l.paused
    &&& end == Outcome::Refused(ContractError::NoActiveLoan) <==> !l.paused && !has_loan(
        l,
        borrower,
    )
    &&& end == Outcome::Refused(ContractError::InvalidToken) <==> {
        &&& !l.paused
        &&& has_loan(l, borrower)
        &&& fits(loan.amount + loan.total_yield)
        &&& fits(still_owed(l, borrower))
        &&& 0 < payment <= still_owed(l, borrower)
        &&& l.config is Some
        &&& !takes_token(l, loan.token_address)
    }
    &&& end != Outcome::Refused(ContractError::AlreadyInitialized)
    &&& end != Outcome::Refused(ContractError::ActiveLoanExists)
    &&& end != Outcome::Refused(ContractError::LoanBelowMinAmount)
    &&& end != Outcome::Refused(ContractError::InsufficientFunds)
    &&& end != Outcome::Refused(ContractError::UnauthorizedCaller)
}

/// How a payment ends. It is taken where nothing stands in its way; where it settles the loan, the
/// stakes and what goes to each voucher have to be in range as well.
pub proof fn law_when_a_payment_is_taken(l: LedgerView, borrower: Address, payment: i128)
    ensures
        ({
            let end = contract::repay_outcome(l, borrower, payment);
            let loan = loan_at(l, borrower);
            let b = behind_the_loan(l, borrower);
            let total = added_up(staked(b));
            &&& refuses_payment(l, borrower, payment, end)
            &&& end == Outcome::Refused(ContractError::InvalidAmount) <==> payment_is_off(
                l,
                borrower,
                payment,
            )
            &&& end == Outcome::Done <==> {
                &&& may_pay(l, borrower, payment)
                &&& payment == still_owed(l, borrower) ==> {
                    &&& adds_up_in_range(staked(b))
                    &&& forall|i: int|
                        0 <= i < b.len() && total > 0 ==> divides_in_range(
                            loan.total_yield as int,
                            (#[trigger] b[i]).stake as int,
                            total,
                        )
                    &&& forall|i: int, share: int|
                        0 <= i < b.len() && total > 0 && #[trigger] rounds_to(
                            share,
                            loan.total_yield * b[i].stake,
                            total,
                        ) ==> fits(b[i].stake + share)
                }
            }
            &&& !(end is Abort)
        }),
{
    let loan = loan_at(l, borrower);
    let b = behind_the_loan(l, borrower);
    let total = added_up(staked(b));
    let pot = loan.total_yield as int;
    law_lookups_read_the_record(l, borrower, 0, Seq::empty(), Map::empty());
    law_lookups_read_the_record(l, loan.token_address, 0, Seq::empty(), Map::empty());
    law_backing_is_by_token(vouches_at(l, borrower), loan.token_address);
    assert(has_loan(l, borrower) ==> b == backers(l, borrower, loan.token_address));
    assert forall|i: int| 0 <= i < b.len() && total > 0 implies rounds_to(
        share_of(pot, b[i].stake as int, total),
        pot * (#[trigger] b[i]).stake,
        total,
    ) && flat_payout(b[i], pot, total) == b[i].stake + share_of(pot, b[i].stake as int, total) && (
    share_fits(pot, b[i].stake as int, total) <==> divides_in_range(
        pot,
        b[i].stake as int,
        total,
    )) by {
        law_shares_are_in_proportion(pot, b[i].stake as int, total);
    }
    let divides = forall|i: int|
        0 <= i < b.len() && total > 0 ==> divides_in_range(
            pot,
            (#[trigger] b[i]).stake as int,
            total,
        );
    let adds = forall|i: int, share: int|
        0 <= i < b.len() && total > 0 && #[trigger] rounds_to(share, pot * b[i].stake, total)
            ==> fits(b[i].stake + share);
    if flat_payouts_fit(b, pot, total) {
        assert(divides);
        assert forall|i: int, share: int|
            0 <= i < b.len() && total > 0 && #[trigger] rounds_to(
                share,
                pot * b[i].stake,
                total,
            ) implies fits(b[i].stake + share) by {
            law_one_quotient(
                share,
                share_of(pot, b[i].stake as int, total),
                pot * b[i].stake,
                total,
            );
            assert(in_i128(flat_payout(b[i], pot, total)));
        }
    }
    if divides && adds {
        assert forall|i: int| 0 <= i < b.len() implies share_fits(
            pot,
            (#[trigger] b[i]).stake as int,
            total,
        ) && in_i128(flat_payout(b[i], pot, total)) by {
            if total > 0 {
                assert(rounds_to(
                    share_of(pot, b[i].stake as int, total),
                    pot * b[i].stake,
                    total,
                ));
                assert(fits(b[i].stake + share_of(pot, b[i].stake as int, total)));
            }
        }
    }
    assert(flat_payouts_fit(b, pot, total) <==> divides && adds);
}

/// True if the prepayment penalty on a payment can be worked out step by step: there is one before
/// the deadline, on the principal that the payment leaves.
pub open spec fn penalty_in_range(l: LedgerView, borrower: Address, payment: i128) -> bool {
    let loan = loan_at(l, borrower);
    let credited = loan.amount_repaid + payment;
    let owed = loan.amount + loan.total_yield;
    let bps = l.config->0.prepayment_penalty_bps as int;
    l.now < loan.deadline && bps > 0 ==> {
        &&& divides_in_range(credited, loan.amount as int, owed)
        &&& forall|part: int| #[trigger]
            rounds_to(part, credited * loan.amount, owed) ==> fits(loan.amount - part) && fits(
                (loan.amount - part) * bps,
            )
    }
}

/// True if what settles a loan with locked yields is in range: the stakes, what goes to each
/// voucher, the vouchers' statistics vouch by vouch, and the borrower's count.
pub open spec fn settlement_in_range(l: LedgerView, borrower: Address) -> bool {
    let b = behind_the_loan(l, borrower);
    let entries = entries_at(l, loan_at(l, borrower).id);
    &&& adds_up_in_range(staked(b))
    &&& forall|i: int, y: int|
        0 <= i < b.len() && #[trigger] locked_for(entries, b[i].voucher, y) ==> {
            let was = stats_at(l.voucher_stats, b[i].voucher.id);
            let before = times(b.take(i), b[i].voucher.id);
            &&& fits(b[i].stake + y)
            &&& was.successful_vouches + before < u32::MAX
            &&& fits(was.total_yield_earned + before * y + y)
        }
    &&& count_at(l.repayment_counts, borrower.id) < u32::MAX
}

proof fn lemma_penalty_in_range(l: LedgerView, borrower: Address, payment: i128)
    requires
        has_loan(l, borrower),
    ensures
        loan::penalty_fits(l, loan_at(l, borrower), payment) <==> penalty_in_range(
            l,
            borrower,
            payment,
        ),
{
    let loan = loan_at(l, borrower);
    let credited = loan.amount_repaid + payment;
    let owed = loan.amount + loan.total_yield;
    let bps = l.config->0.prepayment_penalty_bps as int;
    law_products_are_divided(credited, loan.amount as int, owed);
    let part = mul_div(credited, loan.amount as int, owed);
    law_products_are_divided(loan.amount - part, bps, 1);
    if owed != 0 {
        assert(rounds_to(part, credited * loan.amount, owed));
        assert forall|q: int| #[trigger] rounds_to(q, credited * loan.amount, owed) implies q
            == part by {
            law_one_quotient(q, part, credited * loan.amount, owed);
        }
    }
}

proof fn lemma_stats_in_range(
    l: LedgerView,
    b: Seq<VouchRecord>,
    entries: Seq<YieldDistributionEntry>,
    k: int,
)
    requires
        0 <= k <= b.len(),
    ensures
        (forall|i: int| 0 <= i < k ==> #[trigger] credit_fits_at(l.voucher_stats, b, entries, i))
            <==> (forall|i: int|
            0 <= i < k ==> {
                let v = (#[trigger] b[i]).voucher;
                let y = locked_yield(entries, v);
                let was = stats_at(l.voucher_stats, v.id);
                let before = times(b.take(i), v.id);
                &&& was.successful_vouches + before < u32::MAX
                &&& fits(was.total_yield_earned + before * y + y)
            }),
    decreases k,
{
    if k > 0 {
        lemma_stats_in_range(l, b, entries, k - 1);
        let i = k - 1;
        if forall|j: int| 0 <= j < i ==> #[trigger] credit_fits_at(l.voucher_stats, b, entries, j) {
            let v = b[i].voucher;
            let y = locked_yield(entries, v);
            law_first_entry_counts(entries, v);
            assert(v == (Address { id: v.id }));
            lemma_stats_grow(l.voucher_stats, b, entries, i, v.id, y);
            let was = stats_at(l.voucher_stats, v.id);
            let before = times(b.take(i), v.id);
            assert(credit_fits_at(l.voucher_stats, b, entries, i) <==> {
                &&& was.successful_vouches + before < u32::MAX
                &&& fits(was.total_yield_earned + before * y + y)
            });
        }
        assert(b[i].voucher == b[k - 1].voucher);
    }
}

proof fn lemma_settlement_in_range(l: LedgerView, borrower: Address, payment: i128)
    requires
        has_loan(l, borrower),
        loan::penalty_of(l, loan_at(l, borrower), payment) == 0,
    ensures
        loan::closing_fits(l, borrower, payment) <==> settlement_in_range(l, borrower),
{
    let loan = loan_at(l, borrower);
    let b = behind_the_loan(l, borrower);
    let entries = entries_at(l, loan.id);
    let total = added_up(staked(b));
    law_lookups_read_the_record(l, borrower, loan.id, Seq::empty(), l.repayment_counts);
    law_backing_is_by_token(vouches_at(l, borrower), loan.token_address);
    assert(b == backers(l, borrower, loan.token_address));
    lemma_stats_in_range(l, b, entries, b.len() as int);
    assert forall|i: int| 0 <= i < b.len() implies locked_for(
        entries,
        (#[trigger] b[i]).voucher,
        locked_yield(entries, b[i].voucher),
    ) && (forall|y: int| #[trigger]
        locked_for(entries, b[i].voucher, y) ==> y == locked_yield(entries, b[i].voucher))
        && share_fits(0, b[i].stake as int, total) && locked_payout(
        b[i],
        entries,
        0,
        total,
    ) == b[i].stake + locked_yield(entries, b[i].voucher) by {
        law_first_entry_counts(entries, b[i].voucher);
        assert forall|y: int| #[trigger] locked_for(entries, b[i].voucher, y) implies y
            == locked_yield(entries, b[i].voucher) by {
            lemma_one_locked_yield(
                entries,
                b[i].voucher,
                y,
                locked_yield(entries, b[i].voucher),
            );
        }
        law_shares_are_in_proportion(0, b[i].stake as int, total);
        if total > 0 {
            vstd::arithmetic::div_mod::lemma_div_of0(total);
        }
    }
    let each = forall|i: int|
        0 <= i < b.len() ==> fits((#[trigger] b[i]).stake + locked_yield(entries, b[i].voucher));
    assert(locked_payouts_fit(b, entries, 0, total) <==> each);
    let stats = forall|i: int|
        0 <= i < b.len() ==> {
            let v = (#[trigger] b[i]).voucher;
            let y = locked_yield(entries, v);
            let was = stats_at(l.voucher_stats, v.id);
            let before = times(b.take(i), v.id);
            &&& was.successful_vouches + before < u32::MAX
            &&& fits(was.total_yield_earned + before * y + y)
        };
    assert(stats_fit(l.voucher_stats, b, entries) <==> stats);
    let plain = forall|i: int, y: int|
        0 <= i < b.len() && #[trigger] locked_for(entries, b[i].voucher, y) ==> {
            let was = stats_at(l.voucher_stats, b[i].voucher.id);
            let before = times(b.take(i), b[i].voucher.id);
            &&& fits(b[i].stake + y)
            &&& was.successful_vouches + before < u32::MAX
            &&& fits(was.total_yield_earned + before * y + y)
        };
    if plain {
        assert forall|i: int| 0 <= i < b.len() implies fits(
            (#[trigger] b[i]).stake + locked_yield(entries, b[i].voucher),
        ) && {
            let v = b[i].voucher;
            let y = locked_yield(entries, v);
            let was = stats_at(l.voucher_stats, v.id);
            let before = times(b.take(i), v.id);
            &&& was.successful_vouches + before < u32::MAX
            &&& fits(was.total_yield_earned + before * y + y)
        } by {
            assert(locked_for(entries, b[i].voucher, locked_yield(entries, b[i].voucher)));
        }
        assert(each && stats);
    }
    if each && stats {
        assert forall|i: int, y: int|
            0 <= i < b.len() && #[trigger] locked_for(entries, b[i].voucher, y) implies {
            let was = stats_at(l.voucher_stats, b[i].voucher.id);
            let before = times(b.take(i), b[i].voucher.id);
            &&& fits(b[i].stake + y)
            &&& was.successful_vouches + before < u32::MAX
            &&& fits(was.total_yield_earned + before * y + y)
        } by {
            assert(y == locked_yield(entries, b[i].voucher));
        }
        assert(plain);
    }
}

/// How a payment on a loan with locked yields ends. It is taken where nothing stands in its way and
/// the penalty is in range; where it settles the loan, the settlement has to be in range as well. A
/// payment out of its range aborts it.
pub proof fn law_when_a_locked_payment_is_taken(l: LedgerView, borrower: Address, payment: i128)
    ensures
        ({
            let end = loan::repay_outcome(l, borrower, payment);
            &&& refuses_payment(l, borrower, payment, end)
            &&& end != Outcome::Refused(ContractError::InvalidAmount)
            &&& end == Outcome::Abort(ContractError::InvalidAmount) <==> payment_is_off(
                l,
                borrower,
                payment,
            )
            &&& end is Abort ==> end == Outcome::Abort(ContractError::InvalidAmount)
            &&& end == Outcome::Done <==> {
                &&& may_pay(l, borrower, payment)
                &&& penalty_in_range(l, borrower, payment)
                &&& payment == still_owed(l, borrower) ==> settlement_in_range(l, borrower)
            }
        }),
{
    let loan = loan_at(l, borrower);
    law_lookups_read_the_record(l, borrower, 0, Seq::empty(), Map::empty());
    law_lookups_read_the_record(l, loan.token_address, 0, Seq::empty(), Map::empty());
    if may_pay(l, borrower, payment) {
        lemma_penalty_in_range(l, borrower, payment);
        if payment == still_owed(l, borrower) && penalty_in_range(l, borrower, payment) {
            if loan::penalized(l, loan) {
                let owed = loan.amount + loan.total_yield;
                assert(rounds_to(loan.amount as int, owed * loan.amount, owed)) by {
                    lemma_whole_quotient(loan.amount as int, owed);
                }
                law_products_are_divided(owed, loan.amount as int, owed);
                law_one_quotient(
                    loan.amount as int,
                    mul_div(owed, loan.amount as int, owed),
                    owed * loan.amount,
                    owed,
                );
                assert(loan::remaining_principal(loan, payment) == 0);
                assert(0 * (l.config->0.prepayment_penalty_bps as int) == 0);
                assert(loan::penalty_of(l, loan, payment) == 0);
            }
            lemma_settlement_in_range(l, borrower, payment);
        }
    }
}

proof fn lemma_whole_quotient(x: int, d: int)
    requires
        d != 0,
    ensures
        rounds_to(x, d * x, d),
{
    assert((d > 0 && x > 0 ==> d * x > 0) && (d < 0 && x > 0 ==> d * x < 0) && (d > 0 && x < 0
        ==> d * x < 0) && (d < 0 && x < 0 ==> d * x > 0) && (x == 0 ==> d * x == 0))
        by (nonlinear_arith);
    assert((-d) * x == -(d * x) && d * (-x) == -(d * x) && (-d) * (-x) == d * x)
        by (nonlinear_arith);
    assert(size(d) * size(x) == size(d * x));
}

/// How a partial payment ends. It is taken where the contract runs and has settings, there is an
/// active loan, the payment is positive, its token is taken, and what is repaid stays in range. A
/// payment that is not positive aborts it.
pub proof fn law_when_a_partial_payment_is_taken(
    l: LedgerView,
    borrower: Address,
    payment: i128,
    token: Address,
)
    ensures
        ({
            let end = loan::repay_partial_outcome(l, borrower, payment, token);
            let open = !l.paused && has_loan(l, borrower);
            &&& end == Outcome::Refused(ContractError::ContractPaused) <==> l.paused
            &&& end == Outcome::Refused(ContractError::NoActiveLoan) <==> !l.paused && !has_loan(
                l,
                borrower,
            )
            &&& end == Outcome::Abort(ContractError::InvalidAmount) <==> open && payment <= 0
            &&& end == Outcome::Refused(ContractError::InvalidToken) <==> open && payment > 0
                && l.config is Some && !takes_token(l, token)
            &&& end == Outcome::Done <==> open && payment > 0 && l.config is Some && takes_token(
                l,
                token,
            ) && fits(loan_at(l, borrower).amount_repaid + payment)
            &&& end == Outcome::Trap <==> open && payment > 0 && (l.config is None || (takes_token(
                l,
                token,
            ) && !fits(loan_at(l, borrower).amount_repaid + payment)))
        }),
{
    law_lookups_read_the_record(l, borrower, 0, Seq::empty(), Map::empty());
    law_lookups_read_the_record(l, token, 0, Seq::empty(), Map::empty());
}

/// How a slash ends. It is done where the contract runs and has settings, enough admins signed,
/// there is an active loan in a token that is taken, and all parts are in range.
pub proof fn law_when_a_slash_is_done(
    l: LedgerView,
    signers: Seq<Address>,
    borrower: Address,
    taken: Seq<int>,
    to_pool: int,
)
    requires
        taken.len() == behind_the_loan(l, borrower).len(),
        forall|i: int|
            0 <= i < taken.len() ==> rounds_to(
                #[trigger] taken[i],
                behind_the_loan(l, borrower)[i].stake * l.config->0.slash_bps,
                10_000,
            ),
        rounds_to(to_pool, added_up(taken), 5),
    ensures
        ({
            let end = contract::slash_outcome(l, signers, borrower);
            let b = behind_the_loan(l, borrower);
            let total = added_up(taken);
            let signed = !l.paused && l.config is Some && enough_admins(l, signers);
            let token = loan_at(l, borrower).token_address;
            &&& end == Outcome::Refused(ContractError::ContractPaused) <==> l.paused
            &&& end == Outcome::Refused(ContractError::UnauthorizedCaller) <==> !l.paused
                && l.config is Some && !enough_admins(l, signers)
            &&& end == Outcome::Refused(ContractError::NoActiveLoan) <==> signed && !has_loan(
                l,
                borrower,
            )
            &&& end == Outcome::Refused(ContractError::InvalidToken) <==> signed && has_loan(
                l,
                borrower,
            ) && !takes_token(l, token)
            &&& end == Outcome::Done <==> {
                &&& signed
                &&& has_loan(l, borrower)
                &&& takes_token(l, token)
                &&& forall|i: int|
                    0 <= i < b.len() ==> fits((#[trigger] b[i]).stake * l.config->0.slash_bps)
                        && fits(b[i].stake - taken[i])
                &&& adds_up_in_range(taken)
                &&& fits(total * 2_000)
                &&& fits(l.insurance_pool + to_pool)
                &&& fits(l.slash_treasury + total - to_pool)
            }
            &&& end == Outcome::Done || end == Outcome::Trap || end == Outcome::Refused(
                ContractError::ContractPaused,
            ) || end == Outcome::Refused(ContractError::UnauthorizedCaller) || end
                == Outcome::Refused(ContractError::NoActiveLoan) || end == Outcome::Refused(
                ContractError::InvalidToken,
            )
        }),
{
    let loan = loan_at(l, borrower);
    let b = behind_the_loan(l, borrower);
    let bps = l.config->0.slash_bps as int;
    law_lookups_read_the_record(l, borrower, 0, signers, Map::empty());
    law_lookups_read_the_record(l, loan.token_address, 0, signers, Map::empty());
    law_backing_is_by_token(vouches_at(l, borrower), loan.token_address);
    assert(has_loan(l, borrower) ==> b == backers(l, borrower, loan.token_address));
    assert forall|i: int| 0 <= i < b.len() implies taken[i] == bps_of(
        (#[trigger] b[i]).stake as int,
        bps,
    ) && (bps_of_fits(b[i].stake as int, bps) <==> fits(b[i].stake * bps)) by {
        law_products_are_divided(b[i].stake as int, bps, 1);
        assert(rounds_to(taken[i], b[i].stake * bps, 10_000));
        law_one_quotient(
            taken[i],
            bps_of(b[i].stake as int, bps),
            b[i].stake * bps,
            10_000,
        );
    }
    assert(taken =~= cuts(b, bps));
    law_sums_add_up(taken);
    let total = added_up(taken);
    law_fees_and_parts(l, 0, total);
    law_one_quotient(to_pool, slash_to_pool(total), total, 5);
    let each = forall|i: int|
        0 <= i < b.len() ==> fits((#[trigger] b[i]).stake * bps) && fits(b[i].stake - taken[i]);
    assert forall|i: int| 0 <= i < b.len() implies remainder(#[trigger] b[i], bps) == b[i].stake
        - taken[i] by {}
    assert(cuts_fit(b, bps) <==> each && adds_up_in_range(taken));
    if adds_up_in_range(taken) {
        assert(taken.take(taken.len() as int) =~= taken);
        assert(fits(added_up(taken.take(taken.len() as int))));
    }
}

/// How a contribution ends: it is refused while the contract is paused and where it is not
/// positive, and done where there are settings and the pool stays in range.
pub proof fn law_when_a_contribution_is_taken(l: LedgerView, amount: i128)
    ensures
        ({
            let end = contribution_outcome(l, amount);
            &&& end == Outcome::Refused(ContractError::ContractPaused) <==> l.paused
            &&& end == Outcome::Refused(ContractError::InvalidAmount) <==> !l.paused && amount <= 0
            &&& end == Outcome::Done <==> !l.paused && amount > 0 && l.config is Some && fits(
                l.insurance_pool + amount,
            )
            &&& end == Outcome::Trap <==> !l.paused && amount > 0 && !(l.config is Some && fits(
                l.insurance_pool + amount,
            ))
        }),
{
}

/// How a change by the admins ends: it is refused where fewer of the signers are admins than the
/// settings ask for, and where the value is out of its range; a risk score also needs an active
/// loan. It is done otherwise.
pub proof fn law_when_admins_may_set(
    l: LedgerView,
    signers: Seq<Address>,
    borrower: Address,
    bps: u32,
    amount: i128,
)
    requires
        l.config is Some,
    ensures
        ({
            let signed = enough_admins(l, signers);
            let denied = Outcome::Refused(ContractError::UnauthorizedCaller);
            let off = Outcome::Refused(ContractError::InvalidAmount);
            let none = Outcome::Refused(ContractError::NoActiveLoan);
            let rate = rate_change_outcome(l, signers, bps);
            let reserve = loan::set_yield_reserve_outcome(l, signers, amount);
            let score = loan::set_risk_score_outcome(l, signers, borrower, bps);
            &&& rate == denied <==> !signed
            &&& rate == off <==> signed && bps > 10_000
            &&& rate == Outcome::Done <==> signed && bps <= 10_000
            &&& reserve == denied <==> !signed
            &&& reserve == off <==> signed && amount < 0
            &&& reserve == Outcome::Done <==> signed && amount >= 0
            &&& score == denied <==> !signed
            &&& score == off <==> signed && bps > 100
            &&& score == none <==> signed && bps <= 100 && !has_loan(l, borrower)
            &&& score == Outcome::Done <==> signed && bps <= 100 && has_loan(l, borrower)
        }),
{
    law_lookups_read_the_record(l, borrower, 0, signers, Map::empty());
}

} // verus!
