//! The operations as the steps of a run: what the laws say of a step holds of the function that
//! takes it.
use vstd::prelude::*;
use crate::contract::QuorumCreditContract;
use crate::laws::{next, outcome_of, Step};
use crate::ledger::Ledger;
use crate::loan;
use crate::types::{Address, ContractError, OpeningTerms, Outcome};

verus! {

/// An operation of the contract with what it is given.
#[derive(Debug)]
pub enum Operation {
    Initialize {
        deployer: Address,
        admins: Vec<Address>,
        admin_threshold: u32,
        token: Address,
        terms: OpeningTerms,
    },
    RequestLoan {
        borrower: Address,
        amount: i128,
        threshold: i128,
        loan_purpose: Vec<u8>,
        token: Address,
    },
    RequestLockedLoan {
        borrower: Address,
        amount: i128,
        threshold: i128,
        loan_purpose: Vec<u8>,
        token: Address,
    },
    Repay { borrower: Address, payment: i128 },
    RepayLocked { borrower: Address, payment: i128 },
    RepayPartial { borrower: Address, payment: i128, token: Address },
    Slash { signers: Vec<Address>, borrower: Address },
    Contribute { contributor: Address, amount: i128 },
    SetFee { signers: Vec<Address>, bps: u32 },
    SetCoverage { signers: Vec<Address>, bps: u32 },
    SetReserve { signers: Vec<Address>, amount: i128 },
    SetRiskScore { signers: Vec<Address>, borrower: Address, risk_score: u32 },
}

impl View for Operation {
    type V = Step;

    open spec fn view(&self) -> Step {
        match *self {
            Operation::Initialize { deployer, admins, admin_threshold, token, terms } => {
                Step::Initialize { deployer, admins: admins@, admin_threshold, token, terms }
            },
            Operation::RequestLoan { borrower, amount, threshold, loan_purpose, token } => {
                Step::RequestLoan {
                    borrower,
                    amount,
                    threshold,
                    loan_purpose: loan_purpose@,
                    token,
                }
            },
            Operation::RequestLockedLoan { borrower, amount, threshold, loan_purpose, token } => {
                Step::RequestLockedLoan {
                    borrower,
                    amount,
                    threshold,
                    loan_purpose: loan_purpose@,
                    token,
                }
            },
            Operation::Repay { borrower, payment } => Step::Repay { borrower, payment },
            Operation::RepayLocked { borrower, payment } => Step::RepayLocked {
                borrower,
                payment,
            },
            Operation::RepayPartial { borrower, payment, token } => Step::RepayPartial {
                borrower,
                payment,
                token,
            },
            Operation::Slash { signers, borrower } => Step::Slash { signers: signers@, borrower },
            Operation::Contribute { contributor, amount } => Step::Contribute {
                contributor,
                amount,
            },
            Operation::SetFee { signers, bps } => Step::SetFee { signers: signers@, bps },
            Operation::SetCoverage { signers, bps } => Step::SetCoverage {
                signers: signers@,
                bps,
            },
            Operation::SetReserve { signers, amount } => Step::SetReserve {
                signers: signers@,
                amount,
            },
            Operation::SetRiskScore { signers, borrower, risk_score } => Step::SetRiskScore {
                signers: signers@,
                borrower,
                risk_score,
            },
        }
    }
}

/// The end that an answer tells of.
fn end_of(answer: Result<(), ContractError>) -> (r: Outcome)
    ensures
        r == (match answer {
            Ok(()) => Outcome::Done,
            Err(e) => Outcome::Refused(e),
        }),
{
    match answer {
        Ok(()) => Outcome::Done,
        Err(e) => Outcome::Refused(e),
    }
}

/// Carries out one operation, and says how that ended.
pub fn perform(ledger: &mut Ledger, operation: Operation) -> (r: Outcome)
    ensures
        r == outcome_of(old(ledger)@, operation@),
        final(ledger)@ == next(old(ledger)@, operation@),
{
    match operation {
        Operation::Initialize { deployer, admins, admin_threshold, token, terms } => end_of(
            QuorumCreditContract::initialize(
                ledger,
                deployer,
                admins,
                admin_threshold,
                token,
                terms,
            ),
        ),
        Operation::RequestLoan { borrower, amount, threshold, loan_purpose, token } => {
            QuorumCreditContract::try_request_loan(
                ledger,
                borrower,
                amount,
                threshold,
                loan_purpose,
                token,
            )
        },
        Operation::RequestLockedLoan { borrower, amount, threshold, loan_purpose, token } => {
            loan::try_request_loan(ledger, borrower, amount, threshold, loan_purpose, token)
        },
        Operation::Repay { borrower, payment } => QuorumCreditContract::try_repay(
            ledger,
            borrower,
            payment,
        ),
        Operation::RepayLocked { borrower, payment } => loan::try_repay(ledger, borrower, payment),
        Operation::RepayPartial { borrower, payment, token } => loan::try_repay_partial(
            ledger,
            borrower,
            payment,
            token,
        ),
        Operation::Slash { signers, borrower } => QuorumCreditContract::try_slash(
            ledger,
            &signers,
            borrower,
        ),
        Operation::Contribute { contributor, amount } => {
            QuorumCreditContract::try_contribute_to_insurance(ledger, contributor, amount)
        },
        Operation::SetFee { signers, bps } => if ledger.config.is_some() {
            end_of(QuorumCreditContract::set_insurance_fee_bps(ledger, &signers, bps))
        } else {
            Outcome::Trap
        },
        Operation::SetCoverage { signers, bps } => if ledger.config.is_some() {
            end_of(QuorumCreditContract::set_insurance_coverage_bps(ledger, &signers, bps))
        } else {
            Outcome::Trap
        },
        Operation::SetReserve { signers, amount } => if ledger.config.is_some() {
            end_of(loan::set_yield_reserve(ledger, &signers, amount))
        } else {
            Outcome::Trap
        },
        Operation::SetRiskScore { signers, borrower, risk_score } => if ledger.config.is_some() {
            end_of(loan::set_borrower_risk_score(ledger, &signers, borrower, risk_score))
        } else {
            Outcome::Trap
        },
    }
}

} // verus!
