//! The contract's entry points.
use vstd::prelude::*;
use crate::admission::{
    admission, backers, can_open, check_payment, check_request, closes, open_loan, opened, paid,
    payment_admission, payment_calls,
};
use crate::arith::{bps_of, bps_of_fits, checked_bps_of, in_i128, sum, sums_fit};
use crate::insurance::{
    allocate_slash_to_pool, collect_loan_fee, contributed, contribution_outcome, coverage_set,
    fee_set, loan_fee, loan_fee_fits, rate_change_outcome, slash_to_pool, slash_to_pool_fits,
    try_contribute_to_insurance,
};
use crate::ledger::{answered, settled, Ledger, LedgerView};
use crate::shares::{
    backing_vouches, checked_flat_payouts, checked_slash, checked_total_stake, cuts, cuts_fit,
    flat_payout_calls, flat_payouts_fit, remainder_calls, stakes, total_stake,
};
use crate::types::{
    Address, Config, ConfigView, ContractError, Event, HostCall, LoanRecord, LoanStatus, LoanView,
    OpeningTerms, Outcome, VouchRecord,
};

verus! {

broadcast use vstd::std_specs::btree::group_btree_axioms;

/// The contract.
#[derive(Clone, Copy, Debug, PartialEq, Eq, Structural)]
pub struct QuorumCreditContract;

/// How `initialize` ends.
pub open spec fn initialize_outcome(
    l: LedgerView,
    admins: Seq<Address>,
    admin_threshold: u32,
) -> Outcome {
    if l.config is Some {
        Outcome::Refused(ContractError::AlreadyInitialized)
    } else if admins.len() == 0 || admin_threshold == 0 || admin_threshold > admins.len() {
        Outcome::Refused(ContractError::InvalidAmount)
    } else {
        Outcome::Done
    }
}

/// The settings that a deployment opens with.
pub open spec fn opening_config(
    admins: Seq<Address>,
    admin_threshold: u32,
    token: Address,
    terms: OpeningTerms,
) -> ConfigView {
    ConfigView {
        admins,
        admin_threshold,
        token,
        allowed_tokens: Seq::empty(),
        yield_bps: terms.yield_bps,
        slash_bps: terms.slash_bps,
        max_vouchers: terms.max_vouchers,
        min_loan_amount: terms.min_loan_amount,
        loan_duration: terms.loan_duration,
        max_loan_to_stake_ratio: terms.max_loan_to_stake_ratio,
        grace_period: 0,
        min_vouch_age_secs: terms.min_vouch_age_secs,
        prepayment_penalty_bps: 0,
    }
}

/// The ledger after `initialize`.
pub open spec fn initialized(
    l: LedgerView,
    deployer: Address,
    admins: Seq<Address>,
    admin_threshold: u32,
    token: Address,
    terms: OpeningTerms,
) -> LedgerView {
    LedgerView {
        deployer: Some(deployer),
        config: Some(opening_config(admins, admin_threshold, token, terms)),
        ..l.asking(deployer)
    }
}

/// The yield of a loan at the configured rate.
pub open spec fn flat_yield(l: LedgerView, amount: i128) -> int {
    bps_of(amount as int, l.config->0.yield_bps as int)
}

/// How `request_loan` ends.
pub open spec fn request_loan_outcome(
    l: LedgerView,
    borrower: Address,
    amount: i128,
    threshold: i128,
    token: Address,
) -> Outcome {
    match admission(l, borrower, amount, threshold, token) {
        Outcome::Done => if can_open(l) && bps_of_fits(
            amount as int,
            l.config->0.yield_bps as int,
        ) && loan_fee_fits(l, amount as int) {
            Outcome::Done
        } else {
            Outcome::Trap
        },
        other => other,
    }
}

/// The ledger after `request_loan`: the loan is open, and the pool has its fee.
pub open spec fn loan_requested(
    l: LedgerView,
    borrower: Address,
    amount: i128,
    loan_purpose: Seq<u8>,
    token: Address,
) -> LedgerView {
    LedgerView {
        insurance_pool: (l.insurance_pool + loan_fee(l, amount as int)) as i128,
        ..opened(l, borrower, amount, flat_yield(l, amount), loan_purpose, token)
    }
}

/// What a slash of the borrower's loan takes in all.
pub open spec fn slashed_total(l: LedgerView, borrower: Address) -> int {
    sum(
        cuts(
            backers(l, borrower, l.active_loan(borrower)->0.token_address),
            l.config->0.slash_bps as int,
        ),
    )
}

/// True if a slash of the borrower's loan can be worked out on `i128` numbers.
pub open spec fn slash_fits(l: LedgerView, borrower: Address) -> bool {
    let total = slashed_total(l, borrower);
    &&& cuts_fit(
        backers(l, borrower, l.active_loan(borrower)->0.token_address),
        l.config->0.slash_bps as int,
    )
    &&& slash_to_pool_fits(l, total)
    &&& in_i128(total - slash_to_pool(total))
    &&& in_i128(l.slash_treasury + (total - slash_to_pool(total)))
}

/// How `slash` ends.
pub open spec fn slash_outcome(l: LedgerView, signers: Seq<Address>, borrower: Address) -> Outcome {
    if l.paused {
        Outcome::Refused(ContractError::ContractPaused)
    } else if l.config is None {
        Outcome::Trap
    } else if !l.approved_by(signers) {
        Outcome::Refused(ContractError::UnauthorizedCaller)
    } else {
        match l.active_loan(borrower) {
            None => Outcome::Refused(ContractError::NoActiveLoan),
            Some(loan) => if !l.allows_token(loan.token_address) {
                Outcome::Refused(ContractError::InvalidToken)
            } else if !slash_fits(l, borrower) {
                Outcome::Trap
            } else {
                Outcome::Done
            },
        }
    }
}

/// The ledger after a slash was refused: unless the contract is paused, the admins among the
/// signers were asked first.
pub open spec fn slash_refused(l: LedgerView, signers: Seq<Address>) -> LedgerView {
    if l.paused {
        l
    } else {
        l.asking_admins(signers)
    }
}

/// The ledger after `slash`: the loan is in default and no longer active, the vouchers have what
/// is left of their stakes, and the rest went to the pool and to the treasury.
pub open spec fn slashed(l: LedgerView, signers: Seq<Address>, borrower: Address) -> LedgerView {
    let loan = l.active_loan(borrower)->0;
    let token = loan.token_address;
    let total = slashed_total(l, borrower);
    let to_pool = slash_to_pool(total);
    LedgerView {
        loans: l.loans.insert(loan.id, LoanView { status: LoanStatus::Defaulted, ..loan }),
        active_loans: l.active_loans.remove(borrower.id),
        insurance_pool: (l.insurance_pool + to_pool) as i128,
        slash_treasury: (l.slash_treasury + (total - to_pool)) as i128,
        ..l.asking_admins(signers).with_calls(
            remainder_calls(
                backers(l, borrower, token),
                l.config->0.slash_bps as int,
                token,
                l.contract,
            ).push(
                HostCall::Publish(
                    Event::LoanSlashed { borrower, total_slashed: total as i128 },
                ),
            ),
        )
    }
}

/// True if the payouts that close the borrower's loan can be worked out on `i128` numbers.
pub open spec fn closing_fits(l: LedgerView, borrower: Address) -> bool {
    let loan = l.active_loan(borrower)->0;
    let b = backers(l, borrower, loan.token_address);
    sums_fit(stakes(b)) && flat_payouts_fit(b, loan.total_yield as int, total_stake(b))
}

/// How `repay` ends.
pub open spec fn repay_outcome(l: LedgerView, borrower: Address, payment: i128) -> Outcome {
    match payment_admission(l, borrower, payment) {
        Outcome::Done => if closes(l.active_loan(borrower)->0, payment) && !closing_fits(
            l,
            borrower,
        ) {
            Outcome::Trap
        } else {
            Outcome::Done
        },
        other => other,
    }
}

/// The ledger after `repay`. The last payment also returns every stake with its share of the
/// yield, and closes the loan and its vouches.
pub open spec fn repaid(l: LedgerView, borrower: Address, payment: i128) -> LedgerView {
    let loan = l.active_loan(borrower)->0;
    let token = loan.token_address;
    let credited = LedgerView {
        loans: l.loans.insert(loan.id, paid(loan, payment, l.now)),
        ..l.with_calls(payment_calls(l, borrower, payment, token))
    };
    if closes(loan, payment) {
        let b = backers(l, borrower, token);
        LedgerView {
            active_loans: l.active_loans.remove(borrower.id),
            vouches: l.vouches.remove(borrower.id),
            ..credited.with_calls(
                flat_payout_calls(b, loan.total_yield as int, total_stake(b), token, l.contract),
            ).with_calls(
                seq![HostCall::Publish(Event::LoanRepaid { borrower, amount: loan.amount })],
            )
        }
    } else {
        credited
    }
}

impl QuorumCreditContract {
    /// Sets the contract up, once.
    pub fn initialize(
        ledger: &mut Ledger,
        deployer: Address,
        admins: Vec<Address>,
        admin_threshold: u32,
        token: Address,
        terms: OpeningTerms,
    ) -> (r: Result<(), ContractError>)
        ensures
            answered(
                initialize_outcome(old(ledger)@, admins@, admin_threshold),
                r,
                old(ledger)@.asking(deployer),
                initialized(old(ledger)@, deployer, admins@, admin_threshold, token, terms),
                final(ledger)@,
            ),
    {
        ledger.ask(deployer);
        if ledger.config.is_some() {
            return Err(ContractError::AlreadyInitialized);
        }
        if admins.len() == 0 || admin_threshold == 0 || admin_threshold as usize > admins.len() {
            return Err(ContractError::InvalidAmount);
        }
        let config = Config {
            admins,
            admin_threshold,
            token,
            allowed_tokens: Vec::new(),
            yield_bps: terms.yield_bps,
            slash_bps: terms.slash_bps,
            max_vouchers: terms.max_vouchers,
            min_loan_amount: terms.min_loan_amount,
            loan_duration: terms.loan_duration,
            max_loan_to_stake_ratio: terms.max_loan_to_stake_ratio,
            grace_period: 0,
            min_vouch_age_secs: terms.min_vouch_age_secs,
            prepayment_penalty_bps: 0,
        };
        assert(config@ =~= opening_config(admins@, admin_threshold, token, terms));
        ledger.deployer = Some(deployer);
        ledger.config = Some(config);
        Ok(())
    }

    /// Requests a loan at the configured yield, and says how that ended.
    pub fn try_request_loan(
        ledger: &mut Ledger,
        borrower: Address,
        amount: i128,
        threshold: i128,
        loan_purpose: Vec<u8>,
        token_addr: Address,
    ) -> (r: Outcome)
        ensures
            settled(
                request_loan_outcome(old(ledger)@, borrower, amount, threshold, token_addr),
                r,
                old(ledger)@,
                old(ledger)@.asking(borrower),
                loan_requested(old(ledger)@, borrower, amount, loan_purpose@, token_addr),
                final(ledger)@,
            ),
    {
        match check_request(ledger, borrower, amount, threshold, token_addr) {
            None => Outcome::Trap,
            Some(Err(e)) => {
                ledger.ask(borrower);
                Outcome::Refused(e)
            },
            Some(Ok(_)) => {
                let (yield_bps, duration): (i128, u64) = match &ledger.config {
                    Some(cfg) => (cfg.yield_bps, cfg.loan_duration),
                    None => {
                        return Outcome::Trap;
                    },
                };
                if ledger.loan_counter == u64::MAX || ledger.now > u64::MAX - duration {
                    return Outcome::Trap;
                }
                let total_yield: i128 = match checked_bps_of(amount, yield_bps) {
                    None => {
                        return Outcome::Trap;
                    },
                    Some(y) => y,
                };
                let pool: i128 = match collect_loan_fee(ledger, amount) {
                    None => {
                        return Outcome::Trap;
                    },
                    Some(p) => p,
                };
                open_loan(ledger, borrower, amount, total_yield, loan_purpose, token_addr);
                ledger.insurance_pool = pool;
                Outcome::Done
            },
        }
    }

    /// Requests a loan at the configured yield. The insurance pool takes its fee on the amount.
    pub fn request_loan(
        ledger: &mut Ledger,
        borrower: Address,
        amount: i128,
        threshold: i128,
        loan_purpose: Vec<u8>,
        token_addr: Address,
    ) -> (r: Result<(), ContractError>)
        requires
            request_loan_outcome(old(ledger)@, borrower, amount, threshold, token_addr).comes_back(),
        ensures
            answered(
                request_loan_outcome(old(ledger)@, borrower, amount, threshold, token_addr),
                r,
                old(ledger)@.asking(borrower),
                loan_requested(old(ledger)@, borrower, amount, loan_purpose@, token_addr),
                final(ledger)@,
            ),
    {
        Self::try_request_loan(
            ledger,
            borrower,
            amount,
            threshold,
            loan_purpose,
            token_addr,
        ).answer()
    }

    /// Slashes a borrower's loan, and says how that ended.
    pub fn try_slash(
        ledger: &mut Ledger,
        admin_signers: &Vec<Address>,
        borrower: Address,
    ) -> (r: Outcome)
        ensures
            settled(
                slash_outcome(old(ledger)@, admin_signers@, borrower),
                r,
                old(ledger)@,
                slash_refused(old(ledger)@, admin_signers@),
                slashed(old(ledger)@, admin_signers@, borrower),
                final(ledger)@,
            ),
    {
        match ledger.require_not_paused() {
            Err(e) => {
                return Outcome::Refused(e);
            },
            Ok(()) => {},
        }
        let slash_bps: i128 = match &ledger.config {
            None => {
                return Outcome::Trap;
            },
            Some(cfg) => cfg.slash_bps,
        };
        if !ledger.approved_by(admin_signers) {
            ledger.ask_admins(admin_signers);
            return Outcome::Refused(ContractError::UnauthorizedCaller);
        }
        let mut loan = match ledger.get_active_loan_record(borrower) {
            Err(e) => {
                ledger.ask_admins(admin_signers);
                return Outcome::Refused(e);
            },
            Ok(loan) => loan.clone(),
        };
        let token = loan.token_address;
        match ledger.require_allowed_token(token) {
            Err(e) => {
                ledger.ask_admins(admin_signers);
                return Outcome::Refused(e);
            },
            Ok(()) => {},
        }
        let b = backing_vouches(&ledger.vouches_of(borrower), token);
        let (total_slashed, mut rest): (i128, Vec<HostCall>) = match checked_slash(
            &b,
            slash_bps,
            token,
            ledger.contract,
        ) {
            None => {
                return Outcome::Trap;
            },
            Some(x) => x,
        };
        let (to_pool, pool): (i128, i128) = match allocate_slash_to_pool(ledger, total_slashed) {
            None => {
                return Outcome::Trap;
            },
            Some(x) => x,
        };
        let to_treasury: i128 = match total_slashed.checked_sub(to_pool) {
            None => {
                return Outcome::Trap;
            },
            Some(x) => x,
        };
        let treasury: i128 = match ledger.slash_treasury.checked_add(to_treasury) {
            None => {
                return Outcome::Trap;
            },
            Some(x) => x,
        };
        loan.status = LoanStatus::Defaulted;
        ledger.ask_admins(admin_signers);
        ledger.calls.append(&mut rest);
        ledger.calls.push(HostCall::Publish(Event::LoanSlashed { borrower, total_slashed }));
        ledger.insurance_pool = pool;
        ledger.slash_treasury = treasury;
        ledger.loans.insert(loan.id, loan);
        ledger.active_loans.remove(&borrower.id);
        assert(ledger@ =~= slashed(old(ledger)@, admin_signers@, borrower));
        Outcome::Done
    }

    /// Slashes a borrower's loan, with the approval of enough admins. A fifth of what is slashed
    /// goes to the insurance pool, the rest to the treasury.
    pub fn slash(ledger: &mut Ledger, admin_signers: &Vec<Address>, borrower: Address) -> (r: Result<
        (),
        ContractError,
    >)
        requires
            slash_outcome(old(ledger)@, admin_signers@, borrower).comes_back(),
        ensures
            answered(
                slash_outcome(old(ledger)@, admin_signers@, borrower),
                r,
                slash_refused(old(ledger)@, admin_signers@),
                slashed(old(ledger)@, admin_signers@, borrower),
                final(ledger)@,
            ),
    {
        Self::try_slash(ledger, admin_signers, borrower).answer()
    }

    /// Takes a payment on a borrower's loan, and says how that ended.
    pub fn try_repay(ledger: &mut Ledger, borrower: Address, payment: i128) -> (r: Outcome)
        ensures
            settled(
                repay_outcome(old(ledger)@, borrower, payment),
                r,
                old(ledger)@,
                old(ledger)@.asking(borrower),
                repaid(old(ledger)@, borrower, payment),
                final(ledger)@,
            ),
    {
        match check_payment(ledger, borrower, payment) {
            None => Outcome::Trap,
            Some(Err(e)) => {
                ledger.ask(borrower);
                Outcome::Refused(e)
            },
            Some(Ok((loan, closing))) => {
                let token = loan.token_address;
                let contract = ledger.contract;
                let mut payouts: Vec<HostCall> = Vec::new();
                if closing {
                    let b = backing_vouches(&ledger.vouches_of(borrower), token);
                    let total: i128 = match checked_total_stake(&b) {
                        None => {
                            return Outcome::Trap;
                        },
                        Some(t) => t,
                    };
                    payouts = match checked_flat_payouts(
                        &b,
                        loan.total_yield,
                        total,
                        token,
                        contract,
                    ) {
                        None => {
                            return Outcome::Trap;
                        },
                        Some(c) => c,
                    };
                }
                ledger.calls.push(HostCall::RequireAuth(borrower));
                ledger.calls.push(
                    HostCall::Transfer { token, from: borrower, to: contract, amount: payment },
                );
                if closing {
                    ledger.calls.append(&mut payouts);
                    ledger.calls.push(
                        HostCall::Publish(Event::LoanRepaid { borrower, amount: loan.amount }),
                    );
                    ledger.active_loans.remove(&borrower.id);
                    ledger.vouches.remove(&borrower.id);
                }
                ledger.loans.insert(loan.id, loan);
                assert(ledger@ =~= repaid(old(ledger)@, borrower, payment));
                Outcome::Done
            },
        }
    }

    /// Takes a payment on a borrower's loan. The payment that settles it returns every stake in
    /// the loan's token with its share of the yield.
    pub fn repay(ledger: &mut Ledger, borrower: Address, payment: i128) -> (r: Result<
        (),
        ContractError,
    >)
        requires
            repay_outcome(old(ledger)@, borrower, payment).comes_back(),
        ensures
            answered(
                repay_outcome(old(ledger)@, borrower, payment),
                r,
                old(ledger)@.asking(borrower),
                repaid(old(ledger)@, borrower, payment),
                final(ledger)@,
            ),
    {
        Self::try_repay(ledger, borrower, payment).answer()
    }

    /// The borrower's active loan.
    pub fn get_loan(ledger: &Ledger, borrower: Address) -> (r: Option<LoanRecord>)
        ensures
            r is Some <==> ledger@.active_loan(borrower) is Some,
            r matches Some(loan) ==> ledger@.active_loan(borrower) == Some(loan@),
    {
        match ledger.active_loan_record(borrower) {
            Some(loan) => Some(loan.clone()),
            None => None,
        }
    }

    /// The vouches behind a borrower.
    pub fn get_vouches(ledger: &Ledger, borrower: Address) -> (r: Vec<VouchRecord>)
        ensures
            r@ == ledger@.vouches_of(borrower),
    {
        ledger.vouches_of(borrower)
    }

    /// Contributes to the insurance pool, and says how that ended.
    pub fn try_contribute_to_insurance(
        ledger: &mut Ledger,
        contributor: Address,
        amount: i128,
    ) -> (r: Outcome)
        ensures
            settled(
                contribution_outcome(old(ledger)@, amount),
                r,
                old(ledger)@,
                old(ledger)@.asking(contributor),
                contributed(old(ledger)@, contributor, amount),
                final(ledger)@,
            ),
    {
        try_contribute_to_insurance(ledger, contributor, amount)
    }

    /// Contributes tokens to the insurance pool.
    pub fn contribute_to_insurance(
        ledger: &mut Ledger,
        contributor: Address,
        amount: i128,
    ) -> (r: Result<(), ContractError>)
        requires
            contribution_outcome(old(ledger)@, amount).comes_back(),
        ensures
            answered(
                contribution_outcome(old(ledger)@, amount),
                r,
                old(ledger)@.asking(contributor),
                contributed(old(ledger)@, contributor, amount),
                final(ledger)@,
            ),
    {
        try_contribute_to_insurance(ledger, contributor, amount).answer()
    }

    /// The balance of the insurance pool.
    pub fn get_insurance_pool_balance(ledger: &Ledger) -> (r: i128)
        ensures
            r == ledger@.insurance_pool,
    {
        ledger.insurance_pool
    }

    /// Sets the insurance fee, with the approval of enough admins.
    pub fn set_insurance_fee_bps(
        ledger: &mut Ledger,
        admin_signers: &Vec<Address>,
        fee_bps: u32,
    ) -> (r: Result<(), ContractError>)
        requires
            old(ledger)@.config is Some,
        ensures
            answered(
                rate_change_outcome(old(ledger)@, admin_signers@, fee_bps),
                r,
                old(ledger)@.asking_admins(admin_signers@),
                fee_set(old(ledger)@, admin_signers@, fee_bps),
                final(ledger)@,
            ),
    {
        crate::insurance::set_insurance_fee_bps(ledger, admin_signers, fee_bps)
    }

    /// Sets the insurance coverage cap, with the approval of enough admins.
    pub fn set_insurance_coverage_bps(
        ledger: &mut Ledger,
        admin_signers: &Vec<Address>,
        coverage_bps: u32,
    ) -> (r: Result<(), ContractError>)
        requires
            old(ledger)@.config is Some,
        ensures
            answered(
                rate_change_outcome(old(ledger)@, admin_signers@, coverage_bps),
                r,
                old(ledger)@.asking_admins(admin_signers@),
                coverage_set(old(ledger)@, admin_signers@, coverage_bps),
                final(ledger)@,
            ),
    {
        crate::insurance::set_insurance_coverage_bps(ledger, admin_signers, coverage_bps)
    }

    /// The insurance fee, in basis points.
    pub fn get_insurance_fee_bps(ledger: &Ledger) -> (r: u32)
        ensures
            r == ledger@.insurance_fee_bps,
    {
        ledger.insurance_fee_bps
    }

    /// The insurance coverage cap, in basis points.
    pub fn get_insurance_coverage_bps(ledger: &Ledger) -> (r: u32)
        ensures
            r == ledger@.insurance_coverage_bps,
    {
        ledger.insurance_coverage_bps
    }
}

} // verus!
