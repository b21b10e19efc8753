//! What holds of the ledger after any run of operations.
pub mod effects;
pub mod plain;
pub mod rates;
pub mod steps;
pub mod verdicts;

use vstd::prelude::*;
use crate::admission::{admission, backers, closes, new_loan, paid, payment_admission};
use crate::arith::{in_i128, sum};
use crate::contract;
use crate::insurance::{
    contributed, contribution_outcome, coverage_set, fee_set, rate_change_outcome,
};
use crate::ledger::{approvals, auth_calls, count_of, empty_ledger, LedgerView};
use crate::loan;
use crate::shares::total_stake;
use crate::types::{
    Address, ContractError, HostCall, LoanStatus, LoanView, OpeningTerms, Outcome, VouchRecord,
    MAX_INSURANCE_BPS, MAX_RISK_SCORE,
};

verus! {

/// Something that happens to the ledger: an operation of the contract, or a change around it.
pub enum Step {
    Initialize {
        deployer: Address,
        admins: Seq<Address>,
        admin_threshold: u32,
        token: Address,
        terms: OpeningTerms,
    },
    RequestLoan {
        borrower: Address,
        amount: i128,
        threshold: i128,
        loan_purpose: Seq<u8>,
        token: Address,
    },
    RequestLockedLoan {
        borrower: Address,
        amount: i128,
        threshold: i128,
        loan_purpose: Seq<u8>,
        token: Address,
    },
    Repay { borrower: Address, payment: i128 },
    RepayLocked { borrower: Address, payment: i128 },
    RepayPartial { borrower: Address, payment: i128, token: Address },
    Slash { signers: Seq<Address>, borrower: Address },
    Contribute { contributor: Address, amount: i128 },
    SetFee { signers: Seq<Address>, bps: u32 },
    SetCoverage { signers: Seq<Address>, bps: u32 },
    SetReserve { signers: Seq<Address>, amount: i128 },
    SetRiskScore { signers: Seq<Address>, borrower: Address, risk_score: u32 },
    /// The ledger reaches another time.
    Wait { now: u64 },
    /// The contract is paused or resumed.
    Pause { paused: bool },
    /// The vouches behind a borrower change.
    Vouch { borrower: Address, vouches: Seq<VouchRecord> },
}

/// How a step ends.
pub open spec fn outcome_of(l: LedgerView, step: Step) -> Outcome {
    match step {
        Step::Initialize { admins, admin_threshold, .. } => contract::initialize_outcome(
            l,
            admins,
            admin_threshold,
        ),
        Step::RequestLoan { borrower, amount, threshold, token, .. } => {
            contract::request_loan_outcome(l, borrower, amount, threshold, token)
        },
        Step::RequestLockedLoan { borrower, amount, threshold, token, .. } => {
            loan::request_loan_outcome(l, borrower, amount, threshold, token)
        },
        Step::Repay { borrower, payment } => contract::repay_outcome(l, borrower, payment),
        Step::RepayLocked { borrower, payment } => loan::repay_outcome(l, borrower, payment),
        Step::RepayPartial { borrower, payment, token } => loan::repay_partial_outcome(
            l,
            borrower,
            payment,
            token,
        ),
        Step::Slash { signers, borrower } => contract::slash_outcome(l, signers, borrower),
        Step::Contribute { amount, .. } => contribution_outcome(l, amount),
        Step::SetFee { signers, bps } => rate_change_outcome(l, signers, bps),
        Step::SetCoverage { signers, bps } => rate_change_outcome(l, signers, bps),
        Step::SetReserve { signers, amount } => loan::set_yield_reserve_outcome(
            l,
            signers,
            amount,
        ),
        Step::SetRiskScore { signers, borrower, risk_score } => loan::set_risk_score_outcome(
            l,
            signers,
            borrower,
            risk_score,
        ),
        Step::Wait { .. } => Outcome::Done,
        Step::Pause { .. } => Outcome::Done,
        Step::Vouch { .. } => Outcome::Done,
    }
}

/// The ledger after a step that ran to its end.
pub open spec fn done(l: LedgerView, step: Step) -> LedgerView {
    match step {
        Step::Initialize { deployer, admins, admin_threshold, token, terms } => {
            contract::initialized(l, deployer, admins, admin_threshold, token, terms)
        },
        Step::RequestLoan { borrower, amount, loan_purpose, token, .. } => {
            contract::loan_requested(l, borrower, amount, loan_purpose, token)
        },
        Step::RequestLockedLoan { borrower, amount, loan_purpose, token, .. } => {
            loan::loan_requested(l, borrower, amount, loan_purpose, token)
        },
        Step::Repay { borrower, payment } => contract::repaid(l, borrower, payment),
        Step::RepayLocked { borrower, payment } => loan::repaid(l, borrower, payment),
        Step::RepayPartial { borrower, payment, token } => loan::partially_repaid(
            l,
            borrower,
            payment,
            token,
        ),
        Step::Slash { signers, borrower } => contract::slashed(l, signers, borrower),
        Step::Contribute { contributor, amount } => contributed(l, contributor, amount),
        Step::SetFee { signers, bps } => fee_set(l, signers, bps),
        Step::SetCoverage { signers, bps } => coverage_set(l, signers, bps),
        Step::SetReserve { signers, amount } => loan::reserve_set(l, signers, amount),
        Step::SetRiskScore { signers, borrower, risk_score } => loan::scored(
            l,
            signers,
            borrower,
            risk_score,
        ),
        Step::Wait { now } => LedgerView { now, ..l },
        Step::Pause { paused } => LedgerView { paused, ..l },
        Step::Vouch { borrower, vouches } => LedgerView {
            vouches: l.vouches.insert(borrower.id, vouches),
            ..l
        },
    }
}

/// The ledger after a step that ended with an error code: some authorizations were asked for.
pub open spec fn refused(l: LedgerView, step: Step) -> LedgerView {
    match step {
        Step::Initialize { deployer, .. } => l.asking(deployer),
        Step::RequestLoan { borrower, .. } => l.asking(borrower),
        Step::RequestLockedLoan { borrower, .. } => l.asking(borrower),
        Step::Repay { borrower, .. } => l.asking(borrower),
        Step::RepayLocked { borrower, .. } => l.asking(borrower),
        Step::RepayPartial { borrower, .. } => l.asking(borrower),
        Step::Slash { signers, .. } => contract::slash_refused(l, signers),
        Step::Contribute { contributor, .. } => l.asking(contributor),
        Step::SetFee { signers, .. } => l.asking_admins(signers),
        Step::SetCoverage { signers, .. } => l.asking_admins(signers),
        Step::SetReserve { signers, .. } => l.asking_admins(signers),
        Step::SetRiskScore { signers, .. } => l.asking_admins(signers),
        Step::Wait { .. } => l,
        Step::Pause { .. } => l,
        Step::Vouch { .. } => l,
    }
}

/// The ledger after a step.
pub open spec fn next(l: LedgerView, step: Step) -> LedgerView {
    match outcome_of(l, step) {
        Outcome::Trap => l,
        Outcome::Abort(_) => refused(l, step),
        Outcome::Refused(_) => refused(l, step),
        Outcome::Done => done(l, step),
    }
}

/// The ledger after a run of steps.
pub open spec fn run(l: LedgerView, steps: Seq<Step>) -> LedgerView
    decreases steps.len(),
{
    if steps.len() == 0 {
        l
    } else {
        next(run(l, steps.drop_last()), steps.last())
    }
}

/// The borrower that a step is about.
pub open spec fn subject(step: Step) -> Option<Address> {
    match step {
        Step::RequestLoan { borrower, .. } => Some(borrower),
        Step::RequestLockedLoan { borrower, .. } => Some(borrower),
        Step::Repay { borrower, .. } => Some(borrower),
        Step::RepayLocked { borrower, .. } => Some(borrower),
        Step::RepayPartial { borrower, .. } => Some(borrower),
        Step::Slash { borrower, .. } => Some(borrower),
        Step::SetRiskScore { borrower, .. } => Some(borrower),
        Step::Vouch { borrower, .. } => Some(borrower),
        _ => None,
    }
}

/// True if a step is a payment on a loan.
pub open spec fn is_payment(step: Step) -> bool {
    step is Repay || step is RepayLocked || step is RepayPartial
}

/// True if, over a run of steps, the only steps about `borrower` are payments.
pub open spec fn only_pays(steps: Seq<Step>, borrower: Address) -> bool {
    forall|i: int|
        0 <= i < steps.len() ==> (subject(#[trigger] steps[i]) == Some(borrower) ==> is_payment(
            steps[i],
        ))
}

/// True if the loans that are marked as active are exactly the active loans of their borrowers.
pub open spec fn active_loans_match(l: LedgerView) -> bool {
    &&& forall|a: u64| #[trigger]
        l.active_loans.contains_key(a) ==> {
            let id = l.active_loans[a];
            l.loans.contains_key(id) && l.loans[id].borrower.id == a && l.loans[id].status
                == LoanStatus::Active
        }
    &&& forall|id: u64| #[trigger]
        l.loans.contains_key(id) && l.loans[id].status == LoanStatus::Active ==> {
            let a = l.loans[id].borrower.id;
            l.active_loans.contains_key(a) && l.active_loans[a] == id
        }
}

/// True if every loan stands under its own number, and no number is above the counter.
pub open spec fn numbers_match(l: LedgerView) -> bool {
    &&& forall|id: u64| #[trigger]
        l.loans.contains_key(id) ==> l.loans[id].id == id && 0 < id <= l.loan_counter
    &&& forall|id: u64| #[trigger]
        l.yield_distributions.contains_key(id) ==> 0 < id <= l.loan_counter
}

/// True if the settings are within their ranges.
pub open spec fn settings_in_range(l: LedgerView) -> bool {
    &&& l.config matches Some(cfg) ==> 0 < cfg.admin_threshold <= cfg.admins.len()
    &&& l.insurance_fee_bps <= MAX_INSURANCE_BPS
    &&& l.insurance_coverage_bps <= MAX_INSURANCE_BPS
    &&& l.yield_reserve >= 0
}

/// The ledger's invariant.
pub open spec fn consistent(l: LedgerView) -> bool {
    active_loans_match(l) && numbers_match(l) && settings_in_range(l)
}

/// Every step keeps the ledger consistent.
pub proof fn law_steps_keep_consistency(l: LedgerView, step: Step)
    requires
        consistent(l),
    ensures
        consistent(next(l, step)),
{
}

/// A ledger that starts empty is consistent after any run of steps.
pub proof fn law_every_run_is_consistent(contract: Address, now: u64, steps: Seq<Step>)
    ensures
        consistent(run(empty_ledger(contract, now), steps)),
    decreases steps.len(),
{
    if steps.len() > 0 {
        law_every_run_is_consistent(contract, now, steps.drop_last());
        law_steps_keep_consistency(
            run(empty_ledger(contract, now), steps.drop_last()),
            steps.last(),
        );
    }
}

/// A step that ends with an error code, by a refusal or by an abort, changes nothing on record:
/// it only asks for authorizations.
pub proof fn law_refusals_change_nothing(l: LedgerView, step: Step)
    requires
        outcome_of(l, step) is Refused || outcome_of(l, step) is Abort,
    ensures
        exists|asked: Seq<Address>| next(l, step) == #[trigger] l.with_calls(auth_calls(asked)),
{
    match step {
        Step::Initialize { deployer, .. } => {
            lemma_asking(l, deployer);
        },
        Step::RequestLoan { borrower, .. } => {
            lemma_asking(l, borrower);
        },
        Step::RequestLockedLoan { borrower, .. } => {
            lemma_asking(l, borrower);
        },
        Step::Repay { borrower, .. } => {
            lemma_asking(l, borrower);
        },
        Step::RepayLocked { borrower, .. } => {
            lemma_asking(l, borrower);
        },
        Step::RepayPartial { borrower, .. } => {
            lemma_asking(l, borrower);
        },
        Step::Contribute { contributor, .. } => {
            lemma_asking(l, contributor);
        },
        Step::Slash { signers, .. } => {
            lemma_asking_admins(l, signers);
        },
        Step::SetFee { signers, .. } => {
            lemma_asking_admins(l, signers);
        },
        Step::SetCoverage { signers, .. } => {
            lemma_asking_admins(l, signers);
        },
        Step::SetReserve { signers, .. } => {
            lemma_asking_admins(l, signers);
        },
        Step::SetRiskScore { signers, .. } => {
            lemma_asking_admins(l, signers);
        },
        _ => {},
    }
}

proof fn lemma_asking(l: LedgerView, address: Address)
    ensures
        l.asking(address) == l.with_calls(auth_calls(seq![address])),
{
    assert(auth_calls(seq![address]) =~= seq![HostCall::RequireAuth(address)]);
}

proof fn lemma_asking_admins(l: LedgerView, signers: Seq<Address>)
    ensures
        l == l.with_calls(auth_calls(Seq::<Address>::empty())),
        l.config is Some ==> l.asking_admins(signers) == l.with_calls(
            auth_calls(approvals(l.config->0.admins, signers)),
        ),
{
    assert(auth_calls(Seq::<Address>::empty()) =~= Seq::<HostCall>::empty());
    assert(l =~= l.with_calls(auth_calls(Seq::<Address>::empty())));
}

/// The settings are made once: from then on no step changes them, and another `initialize` is
/// refused.
pub proof fn law_settings_are_made_once(
    l: LedgerView,
    step: Step,
    admins: Seq<Address>,
    admin_threshold: u32,
)
    requires
        l.config is Some,
    ensures
        next(l, step).config == l.config,
        next(l, step).deployer == l.deployer,
        contract::initialize_outcome(l, admins, admin_threshold) == Outcome::Refused(
            ContractError::AlreadyInitialized,
        ),
{
}

/// A loan that is repaid or in default never changes again.
pub proof fn law_settled_loans_are_final(l: LedgerView, step: Step, id: u64)
    requires
        consistent(l),
        l.loans.contains_key(id),
        l.loans[id].status != LoanStatus::Active,
    ensures
        next(l, step).loans.contains_key(id),
        next(l, step).loans[id] == l.loans[id],
{
}

/// True if the two records are of the same loan on the same terms.
pub open spec fn same_terms(x: LoanView, y: LoanView) -> bool {
    &&& x.id == y.id
    &&& x.borrower == y.borrower
    &&& x.co_borrowers == y.co_borrowers
    &&& x.amount == y.amount
    &&& x.total_yield == y.total_yield
    &&& x.created_at == y.created_at
    &&& x.disbursement_timestamp == y.disbursement_timestamp
    &&& x.deadline == y.deadline
    &&& x.loan_purpose == y.loan_purpose
    &&& x.token_address == y.token_address
    &&& x.amortization_schedule == y.amortization_schedule
}

/// No step removes a loan, changes its terms or takes back what was paid on it, and loan numbers
/// only grow.
pub proof fn law_loans_are_kept(l: LedgerView, step: Step, id: u64)
    requires
        consistent(l),
        l.loans.contains_key(id),
    ensures
        next(l, step).loans.contains_key(id),
        same_terms(next(l, step).loans[id], l.loans[id]),
        next(l, step).loans[id].amount_repaid >= l.loans[id].amount_repaid,
        next(l, step).loan_counter >= l.loan_counter,
{
}

/// While a borrower only pays, the loan that is active keeps its terms, its vouches and the yields
/// locked in for it, whatever else happens; and no other loan takes its place.
pub proof fn law_paying_keeps_the_terms(
    l: LedgerView,
    steps: Seq<Step>,
    borrower: Address,
)
    requires
        consistent(l),
        only_pays(steps, borrower),
        l.active_loan(borrower) is Some,
    ensures
        ({
            let before = l.active_loan(borrower)->0;
            let later = run(l, steps);
            &&& consistent(later)
            &&& later.contract == l.contract
            &&& later.active_loan(borrower) matches Some(now_active) ==> {
                &&& same_terms(now_active, before)
                &&& later.vouches_of(borrower) == l.vouches_of(borrower)
                &&& later.locked_yields_of(before.id) == l.locked_yields_of(before.id)
            }
        }),
    decreases steps.len(),
{
    if steps.len() > 0 {
        let head = steps.drop_last();
        let step = steps.last();
        assert forall|i: int| 0 <= i < head.len() implies (subject(#[trigger] head[i]) == Some(
            borrower,
        ) ==> is_payment(head[i])) by {
            assert(head[i] == steps[i]);
        }
        law_paying_keeps_the_terms(l, head, borrower);
        let m = run(l, head);
        law_steps_keep_consistency(m, step);
        assert(step == steps[steps.len() - 1]);
        if subject(step) != Some(borrower) {
            law_other_borrowers_are_untouched(m, step, borrower);
        }
    }
}

/// A new loan has a number that no loan had before.
pub proof fn law_loan_numbers_are_fresh(l: LedgerView, step: Step, id: u64)
    requires
        consistent(l),
        next(l, step).loans.contains_key(id),
        !l.loans.contains_key(id),
    ensures
        id == l.loan_counter + 1,
        next(l, step).loan_counter == id,
        next(l, step).loans[id].status == LoanStatus::Active,
        next(l, step).loans[id].amount_repaid == 0,
{
}

/// A step about one borrower leaves every other borrower's loan, vouches, locked yields and
/// history alone.
pub proof fn law_other_borrowers_are_untouched(l: LedgerView, step: Step, other: Address)
    requires
        consistent(l),
        subject(step) != Some(other),
    ensures
        next(l, step).active_loan(other) == l.active_loan(other),
        next(l, step).vouches_of(other) == l.vouches_of(other),
        count_of(next(l, step).repayment_counts, other)
            == count_of(l.repayment_counts, other),
        l.active_loan(other) matches Some(v) ==> next(l, step).locked_yields_of(v.id)
            == l.locked_yields_of(v.id),
        count_of(next(l, step).default_counts, other)
            == count_of(l.default_counts, other),
{
    assert(forall|a: Address, b: Address| a.id == b.id ==> a == b);
}

/// In a consistent ledger the active loan of a borrower is that borrower's and is marked as
/// active, and a borrower has at most one loan so marked.
pub proof fn law_one_active_loan_each(l: LedgerView, borrower: Address, id: u64)
    requires
        consistent(l),
    ensures
        l.active_loans.contains_key(borrower.id) <==> l.active_loan(borrower) is Some,
        l.active_loan(borrower) matches Some(v) ==> v.borrower == borrower && v.status
            == LoanStatus::Active,
        l.loans.contains_key(id) && l.loans[id].status == LoanStatus::Active
            && l.loans[id].borrower == borrower ==> l.active_loan(borrower) == Some(l.loans[id]),
{
}

/// After a granted request the new loan is the borrower's active loan, and until it is closed
/// every further request is refused.
pub proof fn law_granted_loan_is_active(
    l: LedgerView,
    step: Step,
    borrower: Address,
    amount: i128,
    threshold: i128,
    token: Address,
)
    requires
        step is RequestLoan || step is RequestLockedLoan,
        outcome_of(l, step) == Outcome::Done,
        subject(step) == Some(borrower),
    ensures
        ({
            let after = next(l, step);
            let busy = Outcome::Refused(ContractError::ActiveLoanExists);
            &&& after.active_loan(borrower) is Some
            &&& step matches Step::RequestLoan { amount: a, loan_purpose, token: t, .. }
                ==> after.active_loan(borrower)->0 == new_loan(
                l,
                borrower,
                a,
                contract::flat_yield(l, a),
                loan_purpose,
                t,
            )
            &&& step matches Step::RequestLockedLoan { amount: a, loan_purpose, token: t, .. }
                ==> after.active_loan(borrower)->0 == new_loan(
                l,
                borrower,
                a,
                sum(loan::vouch_yields(l, backers(l, borrower, t), borrower, a)),
                loan_purpose,
                t,
            )
            &&& contract::request_loan_outcome(after, borrower, amount, threshold, token) == busy
            &&& loan::request_loan_outcome(after, borrower, amount, threshold, token) == busy
            &&& !loan::eligible(after, borrower, threshold, token)
        }),
{
}

/// The payment that settles a loan and the slash both end it: the borrower has no active loan
/// any more, and the record says how it ended.
pub proof fn law_closed_loan_is_gone(l: LedgerView, step: Step, borrower: Address)
    requires
        consistent(l),
        outcome_of(l, step) == Outcome::Done,
        subject(step) == Some(borrower),
        step is Repay || step is RepayLocked || step is Slash,
        step matches Step::Repay { payment, .. } ==> closes(l.active_loan(borrower)->0, payment),
        step matches Step::RepayLocked { payment, .. } ==> closes(
            l.active_loan(borrower)->0,
            payment,
        ),
    ensures
        ({
            let after = next(l, step);
            let id = l.active_loans[borrower.id];
            &&& after.active_loan(borrower) is None
            &&& after.loans.contains_key(id)
            &&& step is Slash ==> after.loans[id].status == LoanStatus::Defaulted
            &&& !(step is Slash) ==> after.loans[id].status == LoanStatus::Repaid
            &&& !(step is Slash) ==> after.loans[id].repayment_timestamp == Some(l.now)
            &&& !(step is Slash) ==> after.vouches_of(borrower) == Seq::<VouchRecord>::empty()
        }),
{
}

/// An accepted payment never exceeds what is outstanding, and it settles the loan exactly when
/// it equals it.
pub proof fn law_payments_stay_within_the_debt(l: LedgerView, borrower: Address, payment: i128)
    requires
        payment_admission(l, borrower, payment) == Outcome::Done,
    ensures
        ({
            let before = l.active_loan(borrower)->0;
            let after = paid(before, payment, l.now);
            &&& 0 < payment <= before.outstanding()
            &&& after.amount_repaid == before.amount_repaid + payment
            &&& after.amount_repaid <= after.total_owed()
            &&& after.outstanding() == before.outstanding() - payment
            &&& closes(before, payment) <==> payment == before.outstanding()
        }),
{
}

/// A loan that partial payments have overpaid takes no further payment.
pub proof fn law_overpaid_loans_take_no_payment(l: LedgerView, borrower: Address, payment: i128)
    requires
        !l.paused,
        l.active_loan(borrower) is Some,
        l.active_loan(borrower)->0.outstanding() <= 0,
        in_i128(l.active_loan(borrower)->0.total_owed()),
        in_i128(l.active_loan(borrower)->0.outstanding()),
    ensures
        contract::repay_outcome(l, borrower, payment) == Outcome::Refused(
            ContractError::InvalidAmount,
        ),
        loan::repay_outcome(l, borrower, payment) == Outcome::Abort(
            ContractError::InvalidAmount,
        ),
{
}

/// Where a request is otherwise in order, eligibility decides it.
pub proof fn law_eligibility_decides(
    l: LedgerView,
    borrower: Address,
    amount: i128,
    threshold: i128,
    token: Address,
)
    requires
        threshold > 0,
        !l.paused,
        l.allows_token(token),
        amount >= l.config->0.min_loan_amount,
        loan::eligible_fits(l, borrower, threshold, token),
    ensures
        loan::eligible(l, borrower, threshold, token) <==> admission(
            l,
            borrower,
            amount,
            threshold,
            token,
        ) == Outcome::Done,
{
}

/// While the contract is paused, no loan is granted, paid on or slashed.
pub proof fn law_pause_stops_lending(l: LedgerView, step: Step)
    requires
        l.paused,
        step is RequestLoan || step is RequestLockedLoan || step is Repay || step is RepayLocked
            || step is RepayPartial || step is Slash || step is Contribute,
    ensures
        outcome_of(l, step) == Outcome::Refused(ContractError::ContractPaused),
{
}

/// The signers of a step that needs the admins' approval.
pub open spec fn signers_of(step: Step) -> Option<Seq<Address>> {
    match step {
        Step::Slash { signers, .. } => Some(signers),
        Step::SetFee { signers, .. } => Some(signers),
        Step::SetCoverage { signers, .. } => Some(signers),
        Step::SetReserve { signers, .. } => Some(signers),
        Step::SetRiskScore { signers, .. } => Some(signers),
        _ => None,
    }
}

/// Only admins count towards an approval, and every one that counts is asked for its
/// authorization.
pub proof fn law_only_admins_approve(l: LedgerView, step: Step, signers: Seq<Address>, i: int)
    requires
        signers_of(step) == Some(signers),
        outcome_of(l, step) == Outcome::Done,
    ensures
        ({
            let asked = approvals(l.config->0.admins, signers);
            &&& asked.len() >= l.config->0.admin_threshold
            &&& 0 <= i < asked.len() ==> {
                &&& l.config->0.admins.contains(asked[i])
                &&& signers.contains(asked[i])
                &&& next(l, step).calls[l.calls.len() + i] == HostCall::RequireAuth(asked[i])
            }
        }),
{
    let admins = l.config->0.admins;
    let asked = approvals(admins, signers);
    if 0 <= i < asked.len() {
        signers.lemma_filter_contains_rev(|s: Address| admins.contains(s), asked[i]);
        assert(next(l, step).calls[l.calls.len() + i] == auth_calls(asked)[i]);
    }
}

/// The payment that settles a loan with locked yields counts for the borrower: one more repaid
/// loan on record, and no vouch earns less from then on.
pub proof fn law_repaying_builds_reputation(
    l: LedgerView,
    borrower: Address,
    payment: i128,
    vouch: VouchRecord,
    now: u64,
)
    requires
        loan::repay_outcome(l, borrower, payment) == Outcome::Done,
        closes(l.active_loan(borrower)->0, payment),
    ensures
        ({
            let after = loan::repaid(l, borrower, payment);
            &&& count_of(after.repayment_counts, borrower) == count_of(
                l.repayment_counts,
                borrower,
            ) + 1
            &&& loan::yield_rate(after, vouch, borrower, now) >= loan::yield_rate(
                l,
                vouch,
                borrower,
                now,
            )
        }),
{
}

/// What an admin sets is what is on record afterwards, within its range.
pub proof fn law_settings_read_back(l: LedgerView, step: Step)
    requires
        outcome_of(l, step) == Outcome::Done,
    ensures
        step matches Step::SetFee { bps, .. } ==> next(l, step).insurance_fee_bps == bps && bps
            <= MAX_INSURANCE_BPS,
        step matches Step::SetCoverage { bps, .. } ==> next(l, step).insurance_coverage_bps == bps
            && bps <= MAX_INSURANCE_BPS,
        step matches Step::SetReserve { amount, .. } ==> next(l, step).yield_reserve == amount
            && amount >= 0,
        step matches Step::SetRiskScore { borrower, risk_score, .. } ==> (consistent(l) ==> next(
            l,
            step,
        ).active_loan(borrower)->0.risk_score == risk_score) && risk_score <= MAX_RISK_SCORE,
{
}

/// True if two ledgers agree on everything but the entries of other borrowers.
pub open spec fn alike_for(x: LedgerView, y: LedgerView, borrower: Address) -> bool {
    &&& x.contract == y.contract
    &&& x.now == y.now
    &&& x.config == y.config
    &&& x.paused == y.paused
    &&& x.loan_counter == y.loan_counter
    &&& x.slash_treasury == y.slash_treasury
    &&& x.insurance_pool == y.insurance_pool
    &&& x.insurance_fee_bps == y.insurance_fee_bps
    &&& x.voucher_stats == y.voucher_stats
    &&& x.active_loan(borrower) == y.active_loan(borrower)
    &&& x.vouches_of(borrower) == y.vouches_of(borrower)
    &&& x.active_loan(borrower) is Some ==> x.locked_yields_of(x.active_loan(borrower)->0.id)
        == y.locked_yields_of(x.active_loan(borrower)->0.id)
    &&& count_of(x.repayment_counts, borrower) == count_of(y.repayment_counts, borrower)
    &&& count_of(x.default_counts, borrower) == count_of(y.default_counts, borrower)
}

/// How a step ends rests on nothing that belongs to other borrowers.
pub proof fn law_outcomes_are_local(x: LedgerView, y: LedgerView, borrower: Address, step: Step)
    requires
        alike_for(x, y, borrower),
        subject(step) is None || subject(step) == Some(borrower),
    ensures
        outcome_of(x, step) == outcome_of(y, step),
{
    assert(forall|v: VouchRecord, now: u64|
        loan::yield_rate(x, v, borrower, now) == loan::yield_rate(y, v, borrower, now)
            && loan::yield_rate_fits(x, v, borrower, now) == loan::yield_rate_fits(
            y,
            v,
            borrower,
            now,
        ));
    assert forall|b: Seq<VouchRecord>, amount: i128|
        loan::vouch_yields_fit(x, b, borrower, amount) == loan::vouch_yields_fit(
            y,
            b,
            borrower,
            amount,
        ) by {
        assert(loan::vouch_yields(x, b, borrower, amount) =~= loan::vouch_yields(
            y,
            b,
            borrower,
            amount,
        ));
        assert forall|i: int| 0 <= i < b.len() implies loan::vouch_yield_fits(
            x,
            #[trigger] b[i],
            borrower,
            amount,
            total_stake(b),
        ) == loan::vouch_yield_fits(y, b[i], borrower, amount, total_stake(b)) by {}
    }
}

} // verus!
