use quorum_credit::ledger::Ledger;
use quorum_credit::types::{
    Address, ContractError, Event, HostCall, LoanStatus, OpeningTerms, Outcome, VouchRecord,
};
use quorum_credit::QuorumCreditContract;

const CONTRACT: Address = Address { id: 0 };
const DEPLOYER: Address = Address { id: 1 };
const ADMIN_A: Address = Address { id: 2 };
const ADMIN_B: Address = Address { id: 3 };
const TOKEN: Address = Address { id: 4 };
const OTHER_TOKEN: Address = Address { id: 5 };
const BORROWER: Address = Address { id: 6 };
const ALICE: Address = Address { id: 7 };
const BOB: Address = Address { id: 8 };
const STRANGER: Address = Address { id: 9 };

fn terms() -> OpeningTerms {
    OpeningTerms {
        yield_bps: 200,
        slash_bps: 5_000,
        max_vouchers: 100,
        min_loan_amount: 1_000,
        loan_duration: 2_592_000,
        max_loan_to_stake_ratio: 150,
        min_vouch_age_secs: 60,
    }
}

fn started() -> Ledger {
    let mut ledger = Ledger::new(CONTRACT, 1_000);
    let r = QuorumCreditContract::initialize(
        &mut ledger,
        DEPLOYER,
        vec![ADMIN_A, ADMIN_B],
        2,
        TOKEN,
        terms(),
    );
    assert_eq!(r, Ok(()));
    ledger.calls.clear();
    ledger
}

fn vouch(voucher: Address, stake: i128, token: Address) -> VouchRecord {
    VouchRecord { voucher, stake, vouch_timestamp: 500, token }
}

fn backed() -> Ledger {
    let mut ledger = started();
    ledger.vouches.insert(
        BORROWER.id,
        vec![
            vouch(ALICE, 3_000, TOKEN),
            vouch(STRANGER, 50_000, OTHER_TOKEN),
            vouch(BOB, 7_001, TOKEN),
        ],
    );
    ledger
}

fn lent() -> Ledger {
    let mut ledger = backed();
    let r = QuorumCreditContract::request_loan(
        &mut ledger,
        BORROWER,
        10_050,
        10_000,
        b"tools".to_vec(),
        TOKEN,
    );
    assert_eq!(r, Ok(()));
    ledger.calls.clear();
    ledger
}

fn pay(token: Address, from: Address, to: Address, amount: i128) -> HostCall {
    HostCall::Transfer { token, from, to, amount }
}

#[test]
fn initialize_sets_the_config_once() {
    let mut ledger = Ledger::new(CONTRACT, 10);
    let r = QuorumCreditContract::initialize(
        &mut ledger,
        DEPLOYER,
        vec![ADMIN_A, ADMIN_B],
        2,
        TOKEN,
        terms(),
    );
    assert_eq!(r, Ok(()));
    assert_eq!(ledger.deployer, Some(DEPLOYER));
    assert_eq!(ledger.calls, vec![HostCall::RequireAuth(DEPLOYER)]);
    let cfg = ledger.config.as_ref().unwrap();
    assert_eq!(cfg.admins, vec![ADMIN_A, ADMIN_B]);
    assert_eq!(cfg.admin_threshold, 2);
    assert_eq!(cfg.token, TOKEN);
    assert!(cfg.allowed_tokens.is_empty());
    assert_eq!(cfg.yield_bps, 200);
    assert_eq!(cfg.slash_bps, 5_000);
    assert_eq!(cfg.max_vouchers, 100);
    assert_eq!(cfg.min_loan_amount, 1_000);
    assert_eq!(cfg.loan_duration, 2_592_000);
    assert_eq!(cfg.max_loan_to_stake_ratio, 150);
    assert_eq!(cfg.grace_period, 0);
    assert_eq!(cfg.min_vouch_age_secs, 60);
    assert_eq!(cfg.prepayment_penalty_bps, 0);
    let again = QuorumCreditContract::initialize(
        &mut ledger,
        STRANGER,
        vec![STRANGER],
        1,
        OTHER_TOKEN,
        terms(),
    );
    assert_eq!(again, Err(ContractError::AlreadyInitialized));
    assert_eq!(ledger.config.as_ref().unwrap().token, TOKEN);
    assert_eq!(ledger.deployer, Some(DEPLOYER));
}

#[test]
fn initialize_refuses_a_bad_quorum() {
    for (admins, threshold) in [
        (vec![], 1),
        (vec![ADMIN_A], 0),
        (vec![ADMIN_A], 2),
    ] {
        let mut ledger = Ledger::new(CONTRACT, 10);
        let r = QuorumCreditContract::initialize(
            &mut ledger,
            DEPLOYER,
            admins,
            threshold,
            TOKEN,
            terms(),
        );
        assert_eq!(r, Err(ContractError::InvalidAmount));
        assert!(ledger.config.is_none());
        assert!(ledger.deployer.is_none());
    }
}

#[test]
fn request_loan_pays_out_and_takes_the_fee() {
    let mut ledger = backed();
    let r = QuorumCreditContract::request_loan(
        &mut ledger,
        BORROWER,
        10_050,
        10_001,
        b"tools".to_vec(),
        TOKEN,
    );
    assert_eq!(r, Ok(()));
    let loan = QuorumCreditContract::get_loan(&ledger, BORROWER).unwrap();
    assert_eq!(loan.id, 1);
    assert_eq!(loan.borrower, BORROWER);
    assert_eq!(loan.amount, 10_050);
    assert_eq!(loan.amount_repaid, 0);
    assert_eq!(loan.total_yield, 201);
    assert_eq!(loan.status, LoanStatus::Active);
    assert_eq!(loan.created_at, 1_000);
    assert_eq!(loan.disbursement_timestamp, 1_000);
    assert_eq!(loan.repayment_timestamp, None);
    assert_eq!(loan.deadline, 2_593_000);
    assert_eq!(loan.loan_purpose, b"tools".to_vec());
    assert_eq!(loan.token_address, TOKEN);
    assert!(loan.co_borrowers.is_empty());
    assert!(loan.amortization_schedule.is_empty());
    assert!(!loan.reminder_sent);
    assert_eq!(loan.risk_score, 0);
    assert_eq!(ledger.loan_counter, 1);
    assert_eq!(QuorumCreditContract::get_insurance_pool_balance(&ledger), 50);
    assert!(ledger.yield_distributions.is_empty());
    assert_eq!(
        ledger.calls,
        vec![
            HostCall::RequireAuth(BORROWER),
            pay(TOKEN, CONTRACT, BORROWER, 10_050),
            HostCall::Publish(Event::LoanCreated { borrower: BORROWER, amount: 10_050 }),
        ]
    );
}

#[test]
fn request_loan_refusals() {
    let ask = |ledger: &mut Ledger, amount: i128, threshold: i128, token: Address| {
        ledger.calls.clear();
        let r = QuorumCreditContract::request_loan(
            ledger,
            BORROWER,
            amount,
            threshold,
            Vec::new(),
            token,
        );
        assert_eq!(ledger.calls, vec![HostCall::RequireAuth(BORROWER)]);
        assert_eq!(ledger.insurance_pool, 0);
        r
    };
    let mut ledger = backed();
    assert_eq!(ask(&mut ledger, 5_000, 1, STRANGER), Err(ContractError::InvalidToken));
    assert_eq!(ask(&mut ledger, 999, 1, TOKEN), Err(ContractError::LoanBelowMinAmount));
    assert_eq!(ask(&mut ledger, 5_000, 10_002, TOKEN), Err(ContractError::InsufficientFunds));
    ledger.paused = true;
    assert_eq!(ask(&mut ledger, 5_000, 1, TOKEN), Err(ContractError::ContractPaused));
    assert_eq!(ledger.loan_counter, 0);
    assert!(ledger.loans.is_empty());
}

#[test]
fn request_loan_refuses_a_second_loan() {
    let mut ledger = lent();
    let r = QuorumCreditContract::request_loan(
        &mut ledger,
        BORROWER,
        2_000,
        1,
        Vec::new(),
        TOKEN,
    );
    assert_eq!(r, Err(ContractError::ActiveLoanExists));
    assert_eq!(ledger.loan_counter, 1);
    assert_eq!(ledger.insurance_pool, 50);
}

#[test]
fn request_loan_takes_an_allowed_token() {
    let mut ledger = backed();
    ledger.config.as_mut().unwrap().allowed_tokens.push(OTHER_TOKEN);
    let r = QuorumCreditContract::request_loan(
        &mut ledger,
        BORROWER,
        2_000,
        50_000,
        Vec::new(),
        OTHER_TOKEN,
    );
    assert_eq!(r, Ok(()));
    let record = QuorumCreditContract::get_loan(&ledger, BORROWER).unwrap();
    assert_eq!(record.token_address, OTHER_TOKEN);
}

#[test]
fn request_loan_traps_without_config_or_room() {
    let mut empty = Ledger::new(CONTRACT, 5);
    assert_eq!(
        QuorumCreditContract::try_request_loan(&mut empty, BORROWER, 1, 0, Vec::new(), TOKEN),
        Outcome::Trap
    );
    assert!(empty.calls.is_empty());
    let mut ledger = backed();
    assert_eq!(
        QuorumCreditContract::try_request_loan(
            &mut ledger,
            BORROWER,
            i128::MAX,
            1,
            Vec::new(),
            TOKEN,
        ),
        Outcome::Trap
    );
    assert!(ledger.calls.is_empty());
    ledger.loan_counter = u64::MAX;
    assert_eq!(
        QuorumCreditContract::try_request_loan(&mut ledger, BORROWER, 5_000, 1, Vec::new(), TOKEN),
        Outcome::Trap
    );
    ledger.loan_counter = 0;
    ledger.now = u64::MAX;
    assert_eq!(
        QuorumCreditContract::try_request_loan(&mut ledger, BORROWER, 5_000, 1, Vec::new(), TOKEN),
        Outcome::Trap
    );
    assert!(ledger.loans.is_empty());
}

#[test]
fn stake_sum_that_does_not_fit_traps() {
    let mut ledger = started();
    ledger.vouches.insert(
        BORROWER.id,
        vec![vouch(ALICE, i128::MAX, TOKEN), vouch(BOB, 1, TOKEN)],
    );
    assert_eq!(
        QuorumCreditContract::try_request_loan(&mut ledger, BORROWER, 5_000, 1, Vec::new(), TOKEN),
        Outcome::Trap
    );
}

#[test]
fn repay_in_parts_then_closes() {
    let mut ledger = lent();
    assert_eq!(QuorumCreditContract::repay(&mut ledger, BORROWER, 251), Ok(()));
    let loan = QuorumCreditContract::get_loan(&ledger, BORROWER).unwrap();
    assert_eq!(loan.amount_repaid, 251);
    assert_eq!(loan.status, LoanStatus::Active);
    assert_eq!(
        ledger.calls,
        vec![HostCall::RequireAuth(BORROWER), pay(TOKEN, BORROWER, CONTRACT, 251)]
    );
    ledger.calls.clear();
    ledger.now = 2_000;
    assert_eq!(QuorumCreditContract::repay(&mut ledger, BORROWER, 10_000), Ok(()));
    assert!(QuorumCreditContract::get_loan(&ledger, BORROWER).is_none());
    assert!(QuorumCreditContract::get_vouches(&ledger, BORROWER).is_empty());
    let loan = ledger.loans.get(&1).unwrap();
    assert_eq!(loan.status, LoanStatus::Repaid);
    assert_eq!(loan.amount_repaid, 10_251);
    assert_eq!(loan.repayment_timestamp, Some(2_000));
    assert_eq!(
        ledger.calls,
        vec![
            HostCall::RequireAuth(BORROWER),
            pay(TOKEN, BORROWER, CONTRACT, 10_000),
            pay(TOKEN, CONTRACT, ALICE, 3_060),
            pay(TOKEN, CONTRACT, BOB, 7_141),
            HostCall::Publish(Event::LoanRepaid { borrower: BORROWER, amount: 10_050 }),
        ]
    );
}

#[test]
fn repay_refusals() {
    let mut ledger = lent();
    assert_eq!(
        QuorumCreditContract::repay(&mut ledger, STRANGER, 5),
        Err(ContractError::NoActiveLoan)
    );
    assert_eq!(
        QuorumCreditContract::repay(&mut ledger, BORROWER, 0),
        Err(ContractError::InvalidAmount)
    );
    assert_eq!(
        QuorumCreditContract::repay(&mut ledger, BORROWER, -4),
        Err(ContractError::InvalidAmount)
    );
    assert_eq!(
        QuorumCreditContract::repay(&mut ledger, BORROWER, 10_252),
        Err(ContractError::InvalidAmount)
    );
    ledger.config.as_mut().unwrap().token = OTHER_TOKEN;
    assert_eq!(
        QuorumCreditContract::repay(&mut ledger, BORROWER, 5),
        Err(ContractError::InvalidToken)
    );
    ledger.paused = true;
    assert_eq!(
        QuorumCreditContract::repay(&mut ledger, BORROWER, 5),
        Err(ContractError::ContractPaused)
    );
    assert_eq!(ledger.loans.get(&1).unwrap().amount_repaid, 0);
}

#[test]
fn repay_traps_without_config() {
    let mut ledger = lent();
    ledger.config = None;
    assert_eq!(QuorumCreditContract::try_repay(&mut ledger, BORROWER, 5), Outcome::Trap);
    assert!(ledger.calls.is_empty());
}

#[test]
fn slash_splits_the_stakes() {
    let mut ledger = lent();
    ledger.slash_treasury = 11;
    assert_eq!(
        QuorumCreditContract::slash(&mut ledger, &vec![STRANGER, ADMIN_B, ADMIN_A], BORROWER),
        Ok(())
    );
    assert!(QuorumCreditContract::get_loan(&ledger, BORROWER).is_none());
    assert_eq!(ledger.loans.get(&1).unwrap().status, LoanStatus::Defaulted);
    assert_eq!(ledger.insurance_pool, 50 + 1_000);
    assert_eq!(ledger.slash_treasury, 11 + 4_000);
    assert_eq!(QuorumCreditContract::get_vouches(&ledger, BORROWER).len(), 3);
    assert_eq!(
        ledger.calls,
        vec![
            HostCall::RequireAuth(ADMIN_B),
            HostCall::RequireAuth(ADMIN_A),
            pay(TOKEN, CONTRACT, ALICE, 1_500),
            pay(TOKEN, CONTRACT, BOB, 3_501),
            HostCall::Publish(Event::LoanSlashed { borrower: BORROWER, total_slashed: 5_000 }),
        ]
    );
}

#[test]
fn slash_of_everything_pays_nobody() {
    let mut ledger = lent();
    ledger.config.as_mut().unwrap().slash_bps = 10_000;
    assert_eq!(
        QuorumCreditContract::slash(&mut ledger, &vec![ADMIN_A, ADMIN_B], BORROWER),
        Ok(())
    );
    assert_eq!(ledger.insurance_pool, 50 + 2_000);
    assert_eq!(ledger.slash_treasury, 8_001);
    assert_eq!(ledger.calls.len(), 3);
}

#[test]
fn slash_refusals() {
    let mut ledger = lent();
    assert_eq!(
        QuorumCreditContract::slash(&mut ledger, &vec![ADMIN_A, STRANGER], BORROWER),
        Err(ContractError::UnauthorizedCaller)
    );
    assert_eq!(ledger.calls, vec![HostCall::RequireAuth(ADMIN_A)]);
    ledger.calls.clear();
    assert_eq!(
        QuorumCreditContract::slash(&mut ledger, &vec![ADMIN_A, ADMIN_B], STRANGER),
        Err(ContractError::NoActiveLoan)
    );
    assert_eq!(ledger.calls.len(), 2);
    ledger.config.as_mut().unwrap().token = OTHER_TOKEN;
    assert_eq!(
        QuorumCreditContract::slash(&mut ledger, &vec![ADMIN_A, ADMIN_B], BORROWER),
        Err(ContractError::InvalidToken)
    );
    ledger.calls.clear();
    ledger.paused = true;
    assert_eq!(
        QuorumCreditContract::slash(&mut ledger, &vec![ADMIN_A, ADMIN_B], BORROWER),
        Err(ContractError::ContractPaused)
    );
    assert!(ledger.calls.is_empty());
    assert_eq!(ledger.loans.get(&1).unwrap().status, LoanStatus::Active);
}

#[test]
fn slash_traps_when_a_cut_does_not_fit() {
    let mut ledger = lent();
    ledger.vouches.insert(BORROWER.id, vec![vouch(ALICE, i128::MAX, TOKEN)]);
    assert_eq!(
        QuorumCreditContract::try_slash(&mut ledger, &vec![ADMIN_A, ADMIN_B], BORROWER),
        Outcome::Trap
    );
    assert!(ledger.calls.is_empty());
    ledger.config = None;
    assert_eq!(
        QuorumCreditContract::try_slash(&mut ledger, &vec![ADMIN_A, ADMIN_B], BORROWER),
        Outcome::Trap
    );
}

#[test]
fn contributions_grow_the_pool() {
    let mut ledger = started();
    assert_eq!(
        QuorumCreditContract::contribute_to_insurance(&mut ledger, ALICE, 75),
        Ok(())
    );
    assert_eq!(QuorumCreditContract::get_insurance_pool_balance(&ledger), 75);
    assert_eq!(
        ledger.calls,
        vec![HostCall::RequireAuth(ALICE), pay(TOKEN, ALICE, CONTRACT, 75)]
    );
    assert_eq!(
        QuorumCreditContract::contribute_to_insurance(&mut ledger, ALICE, 0),
        Err(ContractError::InvalidAmount)
    );
    assert_eq!(
        QuorumCreditContract::try_contribute_to_insurance(&mut ledger, ALICE, i128::MAX),
        Outcome::Trap
    );
    ledger.paused = true;
    assert_eq!(
        QuorumCreditContract::contribute_to_insurance(&mut ledger, ALICE, 5),
        Err(ContractError::ContractPaused)
    );
    assert_eq!(QuorumCreditContract::get_insurance_pool_balance(&ledger), 75);
}

#[test]
fn insurance_rates_have_defaults_and_limits() {
    let mut ledger = started();
    let admins = vec![ADMIN_A, ADMIN_B];
    assert_eq!(QuorumCreditContract::get_insurance_fee_bps(&ledger), 50);
    assert_eq!(QuorumCreditContract::get_insurance_coverage_bps(&ledger), 2_500);
    assert_eq!(QuorumCreditContract::set_insurance_fee_bps(&mut ledger, &admins, 10_000), Ok(()));
    assert_eq!(
        QuorumCreditContract::set_insurance_coverage_bps(&mut ledger, &admins, 4_000),
        Ok(())
    );
    assert_eq!(QuorumCreditContract::get_insurance_fee_bps(&ledger), 10_000);
    assert_eq!(QuorumCreditContract::get_insurance_coverage_bps(&ledger), 4_000);
    assert_eq!(
        QuorumCreditContract::set_insurance_fee_bps(&mut ledger, &admins, 10_001),
        Err(ContractError::InvalidAmount)
    );
    assert_eq!(
        QuorumCreditContract::set_insurance_coverage_bps(&mut ledger, &admins, 10_001),
        Err(ContractError::InvalidAmount)
    );
    assert_eq!(
        QuorumCreditContract::set_insurance_fee_bps(&mut ledger, &vec![ADMIN_A], 10),
        Err(ContractError::UnauthorizedCaller)
    );
    assert_eq!(
        QuorumCreditContract::set_insurance_coverage_bps(&mut ledger, &vec![STRANGER], 10),
        Err(ContractError::UnauthorizedCaller)
    );
    assert_eq!(QuorumCreditContract::get_insurance_fee_bps(&ledger), 10_000);
    assert_eq!(QuorumCreditContract::get_insurance_coverage_bps(&ledger), 4_000);
}

#[test]
fn insurance_payout_is_the_covered_part_or_the_pool() {
    assert_eq!(quorum_credit::insurance::insurance_payout(1_000, 2_000, 2_500), 500);
    assert_eq!(quorum_credit::insurance::insurance_payout(400, 2_000, 2_500), 400);
    assert_eq!(quorum_credit::insurance::insurance_payout(1_000, 7, 2_500), 1);
}

#[test]
fn nothing_on_record_reads_as_nothing() {
    let ledger = started();
    assert!(QuorumCreditContract::get_loan(&ledger, BORROWER).is_none());
    assert!(QuorumCreditContract::get_vouches(&ledger, BORROWER).is_empty());
    assert_eq!(QuorumCreditContract::get_insurance_pool_balance(&ledger), 0);
}
