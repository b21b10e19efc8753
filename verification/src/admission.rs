//! The checks that stand before a loan and before a payment, and the record that opens with a
//! loan.
use vstd::prelude::*;
use crate::arith::{in_i128, sums_fit};
use crate::ledger::{Ledger, LedgerView};
use crate::shares::{backing, backing_vouches, checked_total_stake, payment_of, stakes, total_stake};
use crate::types::{
    Address, ContractError, Event, HostCall, LoanRecord, LoanStatus, LoanView, Outcome, VouchRecord,
};

verus! {

broadcast use vstd::std_specs::btree::group_btree_axioms;

/// The vouches that back a borrower's loan in `token`.
pub open spec fn backers(l: LedgerView, borrower: Address, token: Address) -> Seq<VouchRecord> {
    backing(l.vouches_of(borrower), token)
}

/// How the checks before a loan end.
pub open spec fn admission(
    l: LedgerView,
    borrower: Address,
    amount: i128,
    threshold: i128,
    token: Address,
) -> Outcome {
    if l.paused {
        Outcome::Refused(ContractError::ContractPaused)
    } else if l.active_loan(borrower) is Some {
        Outcome::Refused(ContractError::ActiveLoanExists)
    } else if l.config is None {
        Outcome::Trap
    } else if !l.allows_token(token) {
        Outcome::Refused(ContractError::InvalidToken)
    } else if amount < l.config->0.min_loan_amount {
        Outcome::Refused(ContractError::LoanBelowMinAmount)
    } else if !sums_fit(stakes(backers(l, borrower, token))) {
        Outcome::Trap
    } else if total_stake(backers(l, borrower, token)) < threshold {
        Outcome::Refused(ContractError::InsufficientFunds)
    } else {
        Outcome::Done
    }
}

/// Runs the checks before a loan. Where they pass, the backing vouches and their total stake
/// come back; `None` where they trap.
pub fn check_request(
    ledger: &Ledger,
    borrower: Address,
    amount: i128,
    threshold: i128,
    token: Address,
) -> (r: Option<Result<(Vec<VouchRecord>, i128), ContractError>>)
    ensures
        match admission(ledger@, borrower, amount, threshold, token) {
            Outcome::Trap => r is None,
            Outcome::Abort(_) => false,
            Outcome::Refused(e) => r matches Some(Err(x)) && x == e,
            Outcome::Done => r matches Some(Ok((b, total))) && b@ == backers(
                ledger@,
                borrower,
                token,
            ) && total == total_stake(b@),
        },
{
    match ledger.require_not_paused() {
        Err(e) => {
            return Some(Err(e));
        },
        Ok(()) => {},
    }
    if ledger.has_active_loan(borrower) {
        return Some(Err(ContractError::ActiveLoanExists));
    }
    let minimum: i128 = match &ledger.config {
        None => {
            return None;
        },
        Some(cfg) => cfg.min_loan_amount,
    };
    match ledger.require_allowed_token(token) {
        Err(e) => {
            return Some(Err(e));
        },
        Ok(()) => {},
    }
    if amount < minimum {
        return Some(Err(ContractError::LoanBelowMinAmount));
    }
    let b = backing_vouches(&ledger.vouches_of(borrower), token);
    let total: i128 = match checked_total_stake(&b) {
        None => {
            return None;
        },
        Some(t) => t,
    };
    if total < threshold {
        return Some(Err(ContractError::InsufficientFunds));
    }
    Some(Ok((b, total)))
}

/// True if there is a number and a deadline for another loan.
pub open spec fn can_open(l: LedgerView) -> bool {
    l.loan_counter < u64::MAX && l.now + l.config->0.loan_duration <= u64::MAX
}

/// The record that opens with a loan.
pub open spec fn new_loan(
    l: LedgerView,
    borrower: Address,
    amount: i128,
    total_yield: int,
    loan_purpose: Seq<u8>,
    token: Address,
) -> LoanView {
    LoanView {
        id: (l.loan_counter + 1) as u64,
        borrower,
        co_borrowers: Seq::empty(),
        amount,
        amount_repaid: 0,
        total_yield: total_yield as i128,
        status: LoanStatus::Active,
        created_at: l.now,
        disbursement_timestamp: l.now,
        repayment_timestamp: None,
        deadline: (l.now + l.config->0.loan_duration) as u64,
        loan_purpose,
        token_address: token,
        amortization_schedule: Seq::empty(),
        reminder_sent: false,
        risk_score: 0,
    }
}

/// The ledger after a loan was opened: it has the next number, it is the borrower's active loan,
/// and the borrower has the money.
pub open spec fn opened(
    l: LedgerView,
    borrower: Address,
    amount: i128,
    total_yield: int,
    loan_purpose: Seq<u8>,
    token: Address,
) -> LedgerView {
    let loan = new_loan(l, borrower, amount, total_yield, loan_purpose, token);
    LedgerView {
        loan_counter: loan.id,
        loans: l.loans.insert(loan.id, loan),
        active_loans: l.active_loans.insert(borrower.id, loan.id),
        ..l.with_calls(
            seq![
                HostCall::RequireAuth(borrower),
                payment_of(token, l.contract, borrower, amount as int),
                HostCall::Publish(Event::LoanCreated { borrower, amount }),
            ],
        )
    }
}

/// Opens a loan.
pub fn open_loan(
    ledger: &mut Ledger,
    borrower: Address,
    amount: i128,
    total_yield: i128,
    loan_purpose: Vec<u8>,
    token: Address,
)
    requires
        old(ledger)@.config is Some,
        can_open(old(ledger)@),
    ensures
        final(ledger)@ == opened(
            old(ledger)@,
            borrower,
            amount,
            total_yield as int,
            loan_purpose@,
            token,
        ),
{
    let duration: u64 = match &ledger.config {
        Some(cfg) => cfg.loan_duration,
        None => 0,
    };
    let id: u64 = ledger.loan_counter + 1;
    let loan = LoanRecord {
        id,
        borrower,
        co_borrowers: Vec::new(),
        amount,
        amount_repaid: 0,
        total_yield,
        status: LoanStatus::Active,
        created_at: ledger.now,
        disbursement_timestamp: ledger.now,
        repayment_timestamp: None,
        deadline: ledger.now + duration,
        loan_purpose,
        token_address: token,
        amortization_schedule: Vec::new(),
        reminder_sent: false,
        risk_score: 0,
    };
    assert(loan@ =~= new_loan(
        old(ledger)@,
        borrower,
        amount,
        total_yield as int,
        loan_purpose@,
        token,
    ));
    ledger.loan_counter = id;
    ledger.loans.insert(id, loan);
    ledger.active_loans.insert(borrower.id, id);
    ledger.calls.push(HostCall::RequireAuth(borrower));
    ledger.calls.push(
        HostCall::Transfer { token, from: ledger.contract, to: borrower, amount },
    );
    ledger.calls.push(HostCall::Publish(Event::LoanCreated { borrower, amount }));
    assert(ledger@ =~= opened(
        old(ledger)@,
        borrower,
        amount,
        total_yield as int,
        loan_purpose@,
        token,
    ));
}

/// How the checks before a payment end.
pub open spec fn payment_admission(l: LedgerView, borrower: Address, payment: i128) -> Outcome {
    if l.paused {
        Outcome::Refused(ContractError::ContractPaused)
    } else {
        match l.active_loan(borrower) {
            None => Outcome::Refused(ContractError::NoActiveLoan),
            Some(loan) => if payment <= 0 {
                Outcome::Refused(ContractError::InvalidAmount)
            } else if !in_i128(loan.total_owed()) || !in_i128(loan.outstanding()) {
                Outcome::Trap
            } else if payment > loan.outstanding() {
                Outcome::Refused(ContractError::InvalidAmount)
            } else if l.config is None {
                Outcome::Trap
            } else if !l.allows_token(loan.token_address) {
                Outcome::Refused(ContractError::InvalidToken)
            } else {
                Outcome::Done
            },
        }
    }
}

/// True if a payment settles the loan.
pub open spec fn closes(loan: LoanView, payment: i128) -> bool {
    loan.amount_repaid + payment >= loan.total_owed()
}

/// The loan after a payment.
pub open spec fn paid(loan: LoanView, payment: i128, now: u64) -> LoanView {
    let amount_repaid = (loan.amount_repaid + payment) as i128;
    if closes(loan, payment) {
        LoanView {
            amount_repaid,
            status: LoanStatus::Repaid,
            repayment_timestamp: Some(now),
            ..loan
        }
    } else {
        LoanView { amount_repaid, ..loan }
    }
}

/// The calls that bring a payment in.
pub open spec fn payment_calls(
    l: LedgerView,
    borrower: Address,
    payment: i128,
    token: Address,
) -> Seq<HostCall> {
    seq![
        HostCall::RequireAuth(borrower),
        payment_of(token, borrower, l.contract, payment as int),
    ]
}

/// Runs the checks before a payment. Where they pass, the loan with the payment credited comes
/// back, and whether it is settled; `None` where they trap.
pub fn check_payment(ledger: &Ledger, borrower: Address, payment: i128) -> (r: Option<
    Result<(LoanRecord, bool), ContractError>,
>)
    ensures
        match payment_admission(ledger@, borrower, payment) {
            Outcome::Trap => r is None,
            Outcome::Abort(_) => false,
            Outcome::Refused(e) => r matches Some(Err(x)) && x == e,
            Outcome::Done => r matches Some(Ok((loan, settled))) && loan@ == paid(
                ledger@.active_loan(borrower)->0,
                payment,
                ledger@.now,
            ) && settled == closes(ledger@.active_loan(borrower)->0, payment),
        },
{
    match ledger.require_not_paused() {
        Err(e) => {
            return Some(Err(e));
        },
        Ok(()) => {},
    }
    let mut loan = match ledger.get_active_loan_record(borrower) {
        Err(e) => {
            return Some(Err(e));
        },
        Ok(loan) => loan.clone(),
    };
    if payment <= 0 {
        return Some(Err(ContractError::InvalidAmount));
    }
    let total_owed: i128 = match loan.amount.checked_add(loan.total_yield) {
        None => {
            return None;
        },
        Some(x) => x,
    };
    let outstanding: i128 = match total_owed.checked_sub(loan.amount_repaid) {
        None => {
            return None;
        },
        Some(x) => x,
    };
    if payment > outstanding {
        return Some(Err(ContractError::InvalidAmount));
    }
    if ledger.config.is_none() {
        return None;
    }
    match ledger.require_allowed_token(loan.token_address) {
        Err(e) => {
            return Some(Err(e));
        },
        Ok(()) => {},
    }
    loan.amount_repaid = loan.amount_repaid + payment;
    let settled = loan.amount_repaid >= total_owed;
    if settled {
        loan.status = LoanStatus::Repaid;
        loan.repayment_timestamp = Some(ledger.now);
    }
    Some(Ok((loan, settled)))
}

} // verus!
