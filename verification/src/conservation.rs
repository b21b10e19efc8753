//! Where the money goes: what the payouts add up to, and how far each rate and fee can reach.
use vstd::prelude::*;
use crate::admission::{backers, closes};
use crate::arith::{bps_of, in_i128, lemma_sum_all, sum, trunc_div};
use crate::contract;
use crate::insurance::{loan_fee, payout, slash_to_pool};
use crate::laws::{
    consistent, law_paying_keeps_the_terms, law_steps_keep_consistency, only_pays, run, same_terms,
    settings_in_range, Step,
};
use crate::ledger::{approvals, auth_calls, LedgerView};
use crate::loan;
use crate::shares::{
    cuts, flat_payout, flat_payout_calls, locked_payout, locked_payout_calls, locked_yield,
    payment_of, remainder, remainder_calls, share_of, stakes, total_stake,
};
use crate::types::{
    Address, Event, HostCall, Outcome, VouchRecord, YieldDistributionEntry, BPS_DENOMINATOR,
    DEFAULT_INSURANCE_FEE_BPS,
};

verus! {

/// What `from` has paid out in `token` over some calls.
pub open spec fn outflow(calls: Seq<HostCall>, token: Address, from: Address) -> int
    decreases calls.len(),
{
    if calls.len() == 0 {
        0
    } else {
        let before = outflow(calls.drop_last(), token, from);
        match calls.last() {
            HostCall::Transfer { token: t, from: f, amount, .. } => if t == token && f == from {
                before + amount
            } else {
                before
            },
            _ => before,
        }
    }
}

/// True if no stake is negative.
pub open spec fn stakes_in_order(b: Seq<VouchRecord>) -> bool {
    forall|i: int| 0 <= i < b.len() ==> (#[trigger] b[i]).stake >= 0
}

/// True if no voucher stands behind the borrower twice.
pub open spec fn vouchers_distinct(b: Seq<VouchRecord>) -> bool {
    forall|i: int, j: int|
        0 <= i < j < b.len() ==> (#[trigger] b[i]).voucher != (#[trigger] b[j]).voucher
}

proof fn lemma_outflow_push(calls: Seq<HostCall>, c: HostCall, token: Address, from: Address)
    ensures
        outflow(calls.push(c), token, from) == outflow(calls, token, from) + outflow(
            seq![c],
            token,
            from,
        ),
{
    assert(calls.push(c).drop_last() =~= calls);
    assert(seq![c].drop_last() =~= Seq::<HostCall>::empty());
    reveal_with_fuel(outflow, 2);
}

/// The payments of two runs of calls add up.
proof fn lemma_outflow_add(x: Seq<HostCall>, y: Seq<HostCall>, token: Address, from: Address)
    ensures
        outflow(x + y, token, from) == outflow(x, token, from) + outflow(y, token, from),
    decreases y.len(),
{
    if y.len() == 0 {
        assert(x + y =~= x);
    } else {
        lemma_outflow_add(x, y.drop_last(), token, from);
        assert((x + y).drop_last() =~= x + y.drop_last());
        assert((x + y).last() == y.last());
    }
}

proof fn lemma_auth_has_no_outflow(asked: Seq<Address>, token: Address, from: Address)
    ensures
        outflow(auth_calls(asked), token, from) == 0,
    decreases asked.len(),
{
    if asked.len() > 0 {
        lemma_auth_has_no_outflow(asked.drop_last(), token, from);
        assert(auth_calls(asked).drop_last() =~= auth_calls(asked.drop_last()));
    }
}

/// Sums over two sequences of equal length, item by item.
proof fn lemma_sum_of_sums(x: Seq<int>, y: Seq<int>, z: Seq<int>)
    requires
        x.len() == y.len() == z.len(),
        forall|i: int| 0 <= i < x.len() ==> #[trigger] z[i] == x[i] + y[i],
    ensures
        sum(z) == sum(x) + sum(y),
    decreases x.len(),
{
    if x.len() > 0 {
        lemma_sum_of_sums(x.drop_last(), y.drop_last(), z.drop_last());
    }
}

/// What a sequence of payments in one token adds up to.
proof fn lemma_outflow_of_payments(
    calls: Seq<HostCall>,
    amounts: Seq<int>,
    token: Address,
    from: Address,
)
    requires
        calls.len() == amounts.len(),
        forall|i: int|
            0 <= i < calls.len() ==> ((#[trigger] calls[i]) matches HostCall::Transfer {
                token: t,
                from: f,
                amount,
                ..
            } && t == token && f == from && amount == amounts[i]),
    ensures
        outflow(calls, token, from) == sum(amounts),
    decreases calls.len(),
{
    if calls.len() > 0 {
        lemma_outflow_of_payments(calls.drop_last(), amounts.drop_last(), token, from);
    }
}

/// A share and what it leaves over.
proof fn lemma_share_bounds(pot: int, stake: int, total: int)
    requires
        pot >= 0,
        stake >= 0,
        total > 0,
    ensures
        share_of(pot, stake, total) >= 0,
        total * share_of(pot, stake, total) <= pot * stake,
        total * share_of(pot, stake, total) >= pot * stake - (total - 1),
{
    let n = pot * stake;
    assert(n >= 0) by (nonlinear_arith)
        requires
            pot >= 0,
            stake >= 0,
            n == pot * stake,
    ;
    vstd::arithmetic::div_mod::lemma_fundamental_div_mod(n, total);
    vstd::arithmetic::div_mod::lemma_div_pos_is_pos(n, total);
    vstd::arithmetic::div_mod::lemma_mod_bound(n, total);
}

/// The shares of a pot, one for each vouch.
pub open spec fn shares(b: Seq<VouchRecord>, pot: int, total: int) -> Seq<int> {
    b.map_values(|v: VouchRecord| share_of(pot, v.stake as int, total))
}

proof fn lemma_shares_bounds(b: Seq<VouchRecord>, pot: int, total: int)
    requires
        stakes_in_order(b),
        pot >= 0,
        total > 0,
    ensures
        sum(shares(b, pot, total)) >= 0,
        total * sum(shares(b, pot, total)) <= pot * sum(stakes(b)),
        total * sum(shares(b, pot, total)) >= pot * sum(stakes(b)) - b.len() * (total - 1),
    decreases b.len(),
{
    if b.len() == 0 {
        assert(total * 0 == 0 && pot * 0 == 0 && 0 * (total - 1) == 0) by (nonlinear_arith);
    } else {
        let head = b.drop_last();
        let s = b.last().stake as int;
        let share = share_of(pot, s, total);
        lemma_shares_bounds(head, pot, total);
        assert(b[b.len() - 1].stake >= 0);
        lemma_share_bounds(pot, s, total);
        assert(shares(b, pot, total).drop_last() =~= shares(head, pot, total));
        assert(stakes(b).drop_last() =~= stakes(head));
        let x = sum(shares(head, pot, total));
        let y = sum(stakes(head));
        assert(total * (x + share) == total * x + total * share) by (nonlinear_arith);
        assert(pot * (y + s) == pot * y + pot * s) by (nonlinear_arith);
        assert(b.len() * (total - 1) == head.len() * (total - 1) + (total - 1)) by (nonlinear_arith)
            requires
                b.len() == head.len() + 1,
        ;
    }
}

/// The shares of a pot never add up to more than the pot, and less than one unit for each vouch
/// is left over.
pub proof fn law_shares_stay_within_the_pot(b: Seq<VouchRecord>, pot: int)
    requires
        stakes_in_order(b),
        pot >= 0,
    ensures
        0 <= sum(shares(b, pot, total_stake(b))) <= pot,
        total_stake(b) > 0 ==> pot - sum(shares(b, pot, total_stake(b))) < b.len(),
{
    let total = total_stake(b);
    lemma_stakes_total(b);
    if total > 0 {
        lemma_shares_bounds(b, pot, total);
        let x = sum(shares(b, pot, total));
        let n = b.len() as int;
        assert(x <= pot) by (nonlinear_arith)
            requires
                total * x <= pot * total,
                total > 0,
        ;
        assert(n > 0) by {
            if b.len() == 0 {
                assert(stakes(b).len() == 0);
            }
        }
        assert(pot - x < n) by (nonlinear_arith)
            requires
                total * x >= pot * total - n * (total - 1),
                total > 0,
                n > 0,
        ;
    } else {
        lemma_all_zero(shares(b, pot, total));
    }
}

proof fn lemma_all_zero(s: Seq<int>)
    requires
        forall|i: int| 0 <= i < s.len() ==> #[trigger] s[i] == 0,
    ensures
        sum(s) == 0,
    decreases s.len(),
{
    if s.len() > 0 {
        lemma_all_zero(s.drop_last());
    }
}

proof fn lemma_stakes_total(b: Seq<VouchRecord>)
    requires
        stakes_in_order(b),
    ensures
        total_stake(b) >= 0,
    decreases b.len(),
{
    if b.len() > 0 {
        lemma_stakes_total(b.drop_last());
        assert(stakes(b).drop_last() =~= stakes(b.drop_last()));
        assert(b[b.len() - 1].stake >= 0);
    }
}

/// The calls that follow the payment itself when a loan is repaid.
pub open spec fn calls_after_payment(before: LedgerView, after: LedgerView) -> Seq<HostCall> {
    after.calls.skip(before.calls.len() as int + 2)
}

/// The payment that settles a loan at the configured yield pays the vouchers all their stakes,
/// and of the yield everything but less than one unit for each vouch; never more than both.
pub proof fn law_repayment_returns_stakes_and_yield(
    l: LedgerView,
    borrower: Address,
    payment: i128,
)
    requires
        contract::repay_outcome(l, borrower, payment) == Outcome::Done,
        closes(l.active_loan(borrower)->0, payment),
        l.active_loan(borrower)->0.total_yield >= 0,
        stakes_in_order(backers(l, borrower, l.active_loan(borrower)->0.token_address)),
    ensures
        ({
            let loan = l.active_loan(borrower)->0;
            let b = backers(l, borrower, loan.token_address);
            let out = outflow(
                calls_after_payment(l, contract::repaid(l, borrower, payment)),
                loan.token_address,
                l.contract,
            );
            &&& total_stake(b) <= out <= total_stake(b) + loan.total_yield
            &&& total_stake(b) > 0 ==> out > total_stake(b) + loan.total_yield - b.len()
        }),
{
    let loan = l.active_loan(borrower)->0;
    let token = loan.token_address;
    let b = backers(l, borrower, token);
    let pot = loan.total_yield as int;
    let total = total_stake(b);
    let calls = flat_payout_calls(b, pot, total, token, l.contract);
    let event = HostCall::Publish(
        Event::LoanRepaid { borrower, amount: loan.amount },
    );
    assert(calls_after_payment(l, contract::repaid(l, borrower, payment)) =~= calls.push(event));
    lemma_outflow_push(calls, event, token, l.contract);
    reveal_with_fuel(outflow, 2);
    let amounts = b.map_values(|v: VouchRecord| flat_payout(v, pot, total));
    assert forall|i: int| 0 <= i < calls.len() implies ((
    #[trigger] calls[i]) matches HostCall::Transfer { token: t, from: f, amount, .. } && t == token
        && f == l.contract && amount == amounts[i]) by {
        assert(in_i128(flat_payout(b[i], pot, total)));
    }
    lemma_outflow_of_payments(calls, amounts, token, l.contract);
    lemma_sum_of_sums(stakes(b), shares(b, pot, total), amounts);
    law_shares_stay_within_the_pot(b, pot);
}

proof fn lemma_cut_bounds(stake: int, bps: int)
    requires
        0 <= stake,
        0 <= bps <= BPS_DENOMINATOR,
    ensures
        0 <= bps_of(stake, bps) <= stake,
{
    let n = stake * bps;
    assert(0 <= n <= stake * 10_000) by (nonlinear_arith)
        requires
            0 <= stake,
            0 <= bps <= 10_000,
            n == stake * bps,
    ;
}

proof fn lemma_remainders_outflow(
    b: Seq<VouchRecord>,
    bps: int,
    token: Address,
    contract: Address,
)
    requires
        stakes_in_order(b),
        0 <= bps <= BPS_DENOMINATOR,
    ensures
        outflow(remainder_calls(b, bps, token, contract), token, contract) + sum(cuts(b, bps))
            == total_stake(b),
        0 <= sum(cuts(b, bps)) <= total_stake(b),
    decreases b.len(),
{
    if b.len() > 0 {
        let head = b.drop_last();
        lemma_remainders_outflow(head, bps, token, contract);
        assert(b[b.len() - 1].stake >= 0);
        lemma_cut_bounds(b.last().stake as int, bps);
        assert(cuts(b, bps).drop_last() =~= cuts(head, bps));
        assert(stakes(b).drop_last() =~= stakes(head));
        let before = remainder_calls(head, bps, token, contract);
        let left = remainder(b.last(), bps);
        if left > 0 {
            let c = payment_of(token, contract, b.last().voucher, left);
            lemma_outflow_push(before, c, token, contract);
            assert(seq![c].drop_last() =~= Seq::<HostCall>::empty());
            reveal_with_fuel(outflow, 2);
        }
    }
}

/// A slash takes nothing that it does not account for: what the pool and the treasury gain is
/// what was slashed, and a fifth of that is the pool's.
pub proof fn law_slash_is_accounted_for(l: LedgerView, signers: Seq<Address>, borrower: Address)
    requires
        contract::slash_outcome(l, signers, borrower) == Outcome::Done,
    ensures
        ({
            let after = contract::slashed(l, signers, borrower);
            let total = contract::slashed_total(l, borrower);
            &&& after.insurance_pool - l.insurance_pool == slash_to_pool(total)
            &&& (after.insurance_pool - l.insurance_pool) + (after.slash_treasury
                - l.slash_treasury) == total
            &&& slash_to_pool(total) == trunc_div(total, 5)
        }),
{
    let total = contract::slashed_total(l, borrower);
    assert(trunc_div(total * 2_000, 10_000) == trunc_div(total, 5));
}

/// A slash splits every stake in the loan's token without loss: what goes back to the vouchers,
/// to the pool and to the treasury adds up to the stakes, and no part is negative.
pub proof fn law_slash_conserves_stakes(l: LedgerView, signers: Seq<Address>, borrower: Address)
    requires
        contract::slash_outcome(l, signers, borrower) == Outcome::Done,
        stakes_in_order(backers(l, borrower, l.active_loan(borrower)->0.token_address)),
        0 <= l.config->0.slash_bps <= BPS_DENOMINATOR,
    ensures
        ({
            let token = l.active_loan(borrower)->0.token_address;
            let after = contract::slashed(l, signers, borrower);
            let out = outflow(after.calls, token, l.contract) - outflow(
                l.calls,
                token,
                l.contract,
            );
            let to_pool = after.insurance_pool - l.insurance_pool;
            let to_treasury = after.slash_treasury - l.slash_treasury;
            &&& out + to_pool + to_treasury == total_stake(backers(l, borrower, token))
            &&& out >= 0
            &&& to_pool >= 0
            &&& to_treasury >= 0
        }),
{
    let token = l.active_loan(borrower)->0.token_address;
    let b = backers(l, borrower, token);
    let bps = l.config->0.slash_bps as int;
    let after = contract::slashed(l, signers, borrower);
    let total = contract::slashed_total(l, borrower);
    let asked = auth_calls(approvals(l.config->0.admins, signers));
    let rest = remainder_calls(b, bps, token, l.contract);
    let event = HostCall::Publish(
        Event::LoanSlashed { borrower, total_slashed: total as i128 },
    );
    assert(after.calls =~= (l.calls + asked) + rest.push(event));
    lemma_outflow_add(l.calls + asked, rest.push(event), token, l.contract);
    lemma_outflow_add(l.calls, asked, token, l.contract);
    lemma_auth_has_no_outflow(
        approvals(l.config->0.admins, signers),
        token,
        l.contract,
    );
    lemma_outflow_push(rest, event, token, l.contract);
    reveal_with_fuel(outflow, 2);
    lemma_remainders_outflow(b, bps, token, l.contract);
    law_slash_is_accounted_for(l, signers, borrower);
}

proof fn lemma_exact_division(n: int, d: int)
    requires
        d != 0,
    ensures
        trunc_div(d * n, d) == n,
{
    if d > 0 {
        if n >= 0 {
            assert(d * n >= 0) by (nonlinear_arith)
                requires
                    d > 0,
                    n >= 0,
            ;
            vstd::arithmetic::div_mod::lemma_div_multiples_vanish(n, d);
        } else {
            assert(d * n < 0 && -(d * n) == d * (-n)) by (nonlinear_arith)
                requires
                    d > 0,
                    n < 0,
            ;
            vstd::arithmetic::div_mod::lemma_div_multiples_vanish(-n, d);
        }
    } else {
        if n > 0 {
            assert(d * n < 0 && -(d * n) == (-d) * n) by (nonlinear_arith)
                requires
                    d < 0,
                    n > 0,
            ;
            vstd::arithmetic::div_mod::lemma_div_multiples_vanish(n, -d);
        } else {
            assert(d * n >= 0 && d * n == (-d) * (-n)) by (nonlinear_arith)
                requires
                    d < 0,
                    n <= 0,
            ;
            vstd::arithmetic::div_mod::lemma_div_multiples_vanish(-n, -d);
        }
    }
}

/// The payment that settles a loan carries no prepayment penalty.
pub proof fn law_settling_carries_no_penalty(l: LedgerView, borrower: Address, payment: i128)
    requires
        loan::repay_outcome(l, borrower, payment) == Outcome::Done,
        closes(l.active_loan(borrower)->0, payment),
    ensures
        loan::penalty_of(l, l.active_loan(borrower)->0, payment) == 0,
{
    let loan = l.active_loan(borrower)->0;
    if loan::penalized(l, loan) {
        lemma_exact_division(loan.amount as int, loan.total_owed());
        assert(loan::remaining_principal(loan, payment) == 0);
    }
}

/// With each voucher there once, every voucher finds the yield locked in for its own vouch.
pub proof fn law_locked_yields_are_found(
    l: LedgerView,
    b: Seq<VouchRecord>,
    borrower: Address,
    amount: i128,
    i: int,
)
    requires
        vouchers_distinct(b),
        loan::vouch_yields_fit(l, b, borrower, amount),
        0 <= i < b.len(),
    ensures
        locked_yield(loan::yield_entries(l, b, borrower, amount), b[i].voucher)
            == loan::vouch_yields(l, b, borrower, amount)[i],
{
    let entries = loan::yield_entries(l, b, borrower, amount);
    assert forall|j: int| 0 <= j < i implies (#[trigger] entries[j]).voucher != b[i].voucher by {
        assert(b[j].voucher != b[i].voucher);
    }
    lemma_first_entry(entries, i);
    assert(loan::vouch_yield_fits(l, b[i], borrower, amount, total_stake(b)));
}

proof fn lemma_first_entry(entries: Seq<YieldDistributionEntry>, i: int)
    requires
        0 <= i < entries.len(),
        forall|j: int| 0 <= j < i ==> (#[trigger] entries[j]).voucher != entries[i].voucher,
    ensures
        locked_yield(entries, entries[i].voucher) == entries[i].yield_amount,
    decreases i,
{
    if i > 0 {
        assert(entries.first() == entries[0]);
        lemma_first_entry(entries.drop_first(), i - 1);
    }
}

/// What the payment that settles a loan pays out, with the vouches and the locked yields as they
/// were when the loan was paid out.
proof fn lemma_locked_payout(
    l: LedgerView,
    borrower: Address,
    amount: i128,
    threshold: i128,
    loan_purpose: Seq<u8>,
    token: Address,
    later: LedgerView,
    payment: i128,
)
    requires
        loan::request_loan_outcome(l, borrower, amount, threshold, token) == Outcome::Done,
        vouchers_distinct(backers(l, borrower, token)),
        loan::repay_outcome(later, borrower, payment) == Outcome::Done,
        closes(later.active_loan(borrower)->0, payment),
        same_terms(
            later.active_loan(borrower)->0,
            loan::loan_requested(l, borrower, amount, loan_purpose, token).active_loan(
                borrower,
            )->0,
        ),
        backers(later, borrower, token) == backers(l, borrower, token),
        later.locked_yields_of((l.loan_counter + 1) as u64) == loan::loan_requested(
            l,
            borrower,
            amount,
            loan_purpose,
            token,
        ).locked_yields_of((l.loan_counter + 1) as u64),
    ensures
        outflow(
            calls_after_payment(later, loan::repaid(later, borrower, payment)),
            token,
            later.contract,
        ) == total_stake(backers(l, borrower, token))
            + later.active_loan(borrower)->0.total_yield,
{
    let loan = later.active_loan(borrower)->0;
    let b = backers(l, borrower, token);
    let total = total_stake(b);
    let entries = loan::yield_entries(l, b, borrower, amount);
    let ys = loan::vouch_yields(l, b, borrower, amount);
    law_settling_carries_no_penalty(later, borrower, payment);
    let calls = locked_payout_calls(b, entries, 0, total, token, later.contract);
    let event = HostCall::Publish(
        Event::LoanRepaid { borrower, amount: loan.amount },
    );
    assert(calls_after_payment(later, loan::repaid(later, borrower, payment)) =~= calls.push(
        event,
    ));
    lemma_outflow_push(calls, event, token, later.contract);
    reveal_with_fuel(outflow, 2);
    let amounts = b.map_values(|v: VouchRecord| locked_payout(v, entries, 0, total));
    assert forall|i: int| 0 <= i < calls.len() implies ((
    #[trigger] calls[i]) matches HostCall::Transfer { token: t, from: f, amount, .. } && t == token
        && f == later.contract && amount == amounts[i]) by {
        assert(in_i128(locked_payout(b[i], entries, 0, total)));
    }
    lemma_outflow_of_payments(calls, amounts, token, later.contract);
    assert forall|i: int| 0 <= i < b.len() implies #[trigger] amounts[i] == stakes(b)[i]
        + ys[i] by {
        law_locked_yields_are_found(l, b, borrower, amount, i);
        assert(share_of(0, b[i].stake as int, total) == 0) by {
            if total > 0 {
                vstd::arithmetic::div_mod::lemma_div_of0(total);
            }
        }
    }
    lemma_sum_of_sums(stakes(b), ys, amounts);
    lemma_sum_all(ys);
}

/// A loan with locked yields, once settled, pays the vouchers exactly their stakes and the whole
/// yield, if each voucher is there once: whatever happens in between, as long as the borrower
/// does nothing but pay and the vouches behind the borrower stay as they are.
pub proof fn law_locked_yield_is_paid_in_full(
    l: LedgerView,
    borrower: Address,
    amount: i128,
    threshold: i128,
    loan_purpose: Seq<u8>,
    token: Address,
    steps: Seq<Step>,
    payment: i128,
)
    requires
        consistent(l),
        loan::request_loan_outcome(l, borrower, amount, threshold, token) == Outcome::Done,
        vouchers_distinct(backers(l, borrower, token)),
        only_pays(steps, borrower),
        ({
            let later = run(
                loan::loan_requested(l, borrower, amount, loan_purpose, token),
                steps,
            );
            &&& loan::repay_outcome(later, borrower, payment) == Outcome::Done
            &&& closes(later.active_loan(borrower)->0, payment)
        }),
    ensures
        ({
            let granted = loan::loan_requested(l, borrower, amount, loan_purpose, token);
            let later = run(granted, steps);
            outflow(
                calls_after_payment(later, loan::repaid(later, borrower, payment)),
                token,
                l.contract,
            ) == total_stake(backers(l, borrower, token))
                + granted.active_loan(borrower)->0.total_yield
        }),
{
    let granted = loan::loan_requested(l, borrower, amount, loan_purpose, token);
    law_steps_keep_consistency(
        l,
        Step::RequestLockedLoan { borrower, amount, threshold, loan_purpose, token },
    );
    law_paying_keeps_the_terms(granted, steps, borrower);
    lemma_locked_payout(
        l,
        borrower,
        amount,
        threshold,
        loan_purpose,
        token,
        run(granted, steps),
        payment,
    );
}

/// True if two ledgers are the same but for the calls on the host.
pub open spec fn same_records(x: LedgerView, y: LedgerView) -> bool {
    x == (LedgerView { calls: x.calls, ..y })
}

/// Two payments leave the same records and pay out the same as one payment of both together, at
/// the time of the second.
pub proof fn law_installments_add_up(
    l: LedgerView,
    borrower: Address,
    first: i128,
    second: i128,
    now: u64,
)
    requires
        consistent(l),
        contract::repay_outcome(l, borrower, first) == Outcome::Done,
        contract::repay_outcome(
            (LedgerView { now, ..contract::repaid(l, borrower, first) }),
            borrower,
            second,
        ) == Outcome::Done,
    ensures
        ({
            let between = LedgerView { now, ..contract::repaid(l, borrower, first) };
            let start = LedgerView { now, ..l };
            let both = (first + second) as i128;
            let in_two = contract::repaid(between, borrower, second);
            let in_one = contract::repaid(start, borrower, both);
            &&& both == first + second
            &&& contract::repay_outcome(start, borrower, both) == Outcome::Done
            &&& same_records(in_two, in_one)
            &&& calls_after_payment(between, in_two) == calls_after_payment(start, in_one)
        }),
{
    let between = LedgerView { now, ..contract::repaid(l, borrower, first) };
    let start = LedgerView { now, ..l };
    let both = (first + second) as i128;
    let in_two = contract::repaid(between, borrower, second);
    let in_one = contract::repaid(start, borrower, both);
    assert(!closes(l.active_loan(borrower)->0, first));
    assert(in_two.loans =~= in_one.loans);
    assert(same_records(in_two, in_one));
    assert(calls_after_payment(between, in_two) =~= calls_after_payment(start, in_one));
}

/// The same of loans with locked yields: the statistics and the borrower's count agree as well.
pub proof fn law_locked_installments_add_up(
    l: LedgerView,
    borrower: Address,
    first: i128,
    second: i128,
    now: u64,
)
    requires
        consistent(l),
        loan::repay_outcome(l, borrower, first) == Outcome::Done,
        loan::repay_outcome(
            (LedgerView { now, ..loan::repaid(l, borrower, first) }),
            borrower,
            second,
        ) == Outcome::Done,
    ensures
        ({
            let between = LedgerView { now, ..loan::repaid(l, borrower, first) };
            let start = LedgerView { now, ..l };
            let both = (first + second) as i128;
            let in_two = loan::repaid(between, borrower, second);
            let in_one = loan::repaid(start, borrower, both);
            &&& both == first + second
            &&& loan::repay_outcome(start, borrower, both) == Outcome::Done
            &&& same_records(in_two, in_one)
            &&& calls_after_payment(between, in_two) == calls_after_payment(start, in_one)
        }),
{
    let between = LedgerView { now, ..loan::repaid(l, borrower, first) };
    let start = LedgerView { now, ..l };
    let both = (first + second) as i128;
    let in_two = loan::repaid(between, borrower, second);
    let in_one = loan::repaid(start, borrower, both);
    assert(!closes(l.active_loan(borrower)->0, first));
    assert(in_two.loans =~= in_one.loans);
    assert(same_records(in_two, in_one));
    assert(calls_after_payment(between, in_two) =~= calls_after_payment(start, in_one));
}

/// The locked yield is at most what the whole loan would earn at the highest of the rates.
pub proof fn law_locked_yield_is_capped(
    l: LedgerView,
    b: Seq<VouchRecord>,
    borrower: Address,
    amount: i128,
    rate: int,
)
    requires
        stakes_in_order(b),
        amount >= 0,
        total_stake(b) > 0,
        rate >= 0,
        forall|i: int|
            0 <= i < b.len() ==> loan::yield_rate(l, #[trigger] b[i], borrower, l.now) <= rate,
    ensures
        sum(loan::vouch_yields(l, b, borrower, amount)) >= 0,
        BPS_DENOMINATOR * sum(loan::vouch_yields(l, b, borrower, amount)) <= amount * rate,
{
    let total = total_stake(b);
    let ys = loan::vouch_yields(l, b, borrower, amount);
    let ss = shares(b, amount as int, total);
    assert forall|i: int| 0 <= i < b.len() implies 0 <= #[trigger] ys[i] && 10_000 * ys[i] <= ss[i]
        * rate by {
        let r = loan::yield_rate(l, b[i], borrower, l.now);
        assert(0 <= r <= rate);
        lemma_share_bounds(amount as int, b[i].stake as int, total);
        let s = ss[i];
        let n = s * r;
        assert(0 <= n <= s * rate) by (nonlinear_arith)
            requires
                0 <= s,
                0 <= r <= rate,
                n == s * r,
        ;
        assert(ys[i] == trunc_div(n, 10_000));
    }
    lemma_sum_scaled(ys, ss, rate);
    law_shares_stay_within_the_pot(b, amount as int);
    let x = sum(ss);
    assert(x * rate <= amount * rate) by (nonlinear_arith)
        requires
            x <= amount,
            rate >= 0,
    ;
}

proof fn lemma_sum_scaled(ys: Seq<int>, ss: Seq<int>, rate: int)
    requires
        ys.len() == ss.len(),
        forall|i: int|
            0 <= i < ys.len() ==> 0 <= #[trigger] ys[i] && 10_000 * ys[i] <= ss[i] * rate,
    ensures
        sum(ys) >= 0,
        10_000 * sum(ys) <= sum(ss) * rate,
    decreases ys.len(),
{
    if ys.len() == 0 {
        assert(0 * rate == 0) by (nonlinear_arith);
    } else {
        assert forall|i: int| 0 <= i < ys.drop_last().len() implies 0 <= #[trigger] ys.drop_last()[i]
            && 10_000 * ys.drop_last()[i] <= ss.drop_last()[i] * rate by {
            assert(ys.drop_last()[i] == ys[i]);
        }
        lemma_sum_scaled(ys.drop_last(), ss.drop_last(), rate);
        assert(ys.last() == ys[ys.len() - 1]);
        let x = sum(ss.drop_last());
        let y = ss.last();
        assert((x + y) * rate == x * rate + y * rate) by (nonlinear_arith);
    }
}

/// The age bonus is a fixed number of basis points for each full thirty days, and at most two
/// hundred.
pub proof fn law_age_bonus(age_secs: int)
    requires
        age_secs >= 0,
    ensures
        loan::age_bonus(age_secs) == loan::min_of(age_secs / 2_592_000 * 25, 200),
        0 <= loan::age_bonus(age_secs) <= 200,
{
}

/// A rate is never below the configured one, if that is not negative, and at most three hundred
/// basis points above it.
pub proof fn law_yield_rate_is_bounded(
    l: LedgerView,
    vouch: VouchRecord,
    borrower: Address,
    now: u64,
)
    ensures
        loan::yield_rate(l, vouch, borrower, now) >= 0,
        loan::yield_rate(l, vouch, borrower, now) >= l.config->0.yield_bps,
        l.config->0.yield_bps >= 0 ==> loan::yield_rate(l, vouch, borrower, now)
            <= l.config->0.yield_bps + 300,
{
    law_age_bonus(loan::vouch_age(vouch, now));
}

/// A rate does not fall as a vouch grows older.
pub proof fn law_older_vouches_earn_no_less(
    l: LedgerView,
    vouch: VouchRecord,
    borrower: Address,
    now: u64,
    later: u64,
)
    requires
        now <= later,
    ensures
        loan::yield_rate(l, vouch, borrower, now) <= loan::yield_rate(l, vouch, borrower, later),
{
    vstd::arithmetic::div_mod::lemma_div_is_ordered(
        loan::vouch_age(vouch, now),
        loan::vouch_age(vouch, later),
        2_592_000,
    );
}

/// Repaid loans do not lower the reputation bonus, and defaults do not raise it.
pub proof fn law_reputation_counts(repayments: int, defaults: int, more: int)
    requires
        more >= 0,
    ensures
        0 <= loan::reputation_bonus(repayments, defaults) <= 100,
        loan::reputation_bonus(repayments, defaults) <= loan::reputation_bonus(
            repayments + more,
            defaults,
        ),
        loan::reputation_bonus(repayments, defaults + more) <= loan::reputation_bonus(
            repayments,
            defaults,
        ),
{
}

/// The fee on a loan is never negative and never more than the loan.
pub proof fn law_fee_stays_within_the_loan(l: LedgerView, amount: int)
    requires
        settings_in_range(l),
        amount >= 0,
    ensures
        0 <= loan_fee(l, amount) <= amount,
{
    lemma_cut_bounds(amount, l.insurance_fee_bps as int);
}

/// At the default rate the fee is half a per cent.
pub proof fn law_default_fee_is_half_a_per_cent(l: LedgerView, amount: int)
    requires
        l.insurance_fee_bps == DEFAULT_INSURANCE_FEE_BPS,
    ensures
        loan_fee(l, amount) == trunc_div(amount, 200),
{
    assert(trunc_div(amount * 50, 10_000) == trunc_div(amount, 200));
}

/// The pool never pays more than it holds, nor more than the covered part of the slashed stake.
pub proof fn law_payout_is_capped(pool: int, slashed_stake: int, coverage_bps: int)
    requires
        pool >= 0,
        slashed_stake >= 0,
        0 <= coverage_bps <= BPS_DENOMINATOR,
    ensures
        0 <= payout(pool, slashed_stake, coverage_bps) <= pool,
        payout(pool, slashed_stake, coverage_bps) <= bps_of(slashed_stake, coverage_bps)
            <= slashed_stake,
{
    lemma_cut_bounds(slashed_stake, coverage_bps);
}

} // verus!
