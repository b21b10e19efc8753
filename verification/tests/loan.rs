use quorum_credit::ledger::Ledger;
use quorum_credit::loan;
use quorum_credit::types::{
    Address, ContractError, Event, HostCall, LoanStatus, OpeningTerms, Outcome, VouchRecord,
    VoucherStats, YieldDistributionEntry,
};
use quorum_credit::QuorumCreditContract;

const CONTRACT: Address = Address { id: 0 };
const ADMIN: Address = Address { id: 2 };
const TOKEN: Address = Address { id: 4 };
const OTHER_TOKEN: Address = Address { id: 5 };
const BORROWER: Address = Address { id: 6 };
const ALICE: Address = Address { id: 7 };
const BOB: Address = Address { id: 8 };

const DAY: u64 = 86_400;
const NOW: u64 = 1_000 * DAY;

fn started() -> Ledger {
    let mut ledger = Ledger::new(CONTRACT, NOW);
    let terms = OpeningTerms {
        yield_bps: 200,
        slash_bps: 5_000,
        max_vouchers: 100,
        min_loan_amount: 1_000,
        loan_duration: 30 * DAY,
        max_loan_to_stake_ratio: 150,
        min_vouch_age_secs: 60,
    };
    let r = QuorumCreditContract::initialize(&mut ledger, ADMIN, vec![ADMIN], 1, TOKEN, terms);
    assert_eq!(r, Ok(()));
    ledger.calls.clear();
    ledger
}

fn vouch(voucher: Address, stake: i128, age: u64, token: Address) -> VouchRecord {
    VouchRecord { voucher, stake, vouch_timestamp: NOW - age, token }
}

fn backed() -> Ledger {
    let mut ledger = started();
    ledger.vouches.insert(
        BORROWER.id,
        vec![
            vouch(ALICE, 4_000, 0, TOKEN),
            vouch(BOB, 99, 0, OTHER_TOKEN),
            vouch(BOB, 6_000, 60 * DAY, TOKEN),
        ],
    );
    ledger
}

fn lent() -> Ledger {
    let mut ledger = backed();
    assert_eq!(
        loan::request_loan(&mut ledger, BORROWER, 100_000, 10_000, b"seed".to_vec(), TOKEN),
        Ok(())
    );
    ledger.calls.clear();
    ledger
}

fn rate(ledger: &Ledger, age: u64) -> i128 {
    loan::vouch_yield_bps(ledger, &vouch(ALICE, 1, age, TOKEN), BORROWER, NOW)
}

fn pay(token: Address, from: Address, to: Address, amount: i128) -> HostCall {
    HostCall::Transfer { token, from, to, amount }
}

#[test]
fn rate_grows_with_age_up_to_its_cap() {
    let ledger = started();
    assert_eq!(rate(&ledger, 0), 200);
    assert_eq!(rate(&ledger, 30 * DAY - 1), 200);
    assert_eq!(rate(&ledger, 30 * DAY), 225);
    assert_eq!(rate(&ledger, 60 * DAY), 250);
    assert_eq!(rate(&ledger, 240 * DAY), 400);
    assert_eq!(rate(&ledger, 270 * DAY), 400);
    assert_eq!(rate(&ledger, 900 * DAY), 400);
}

#[test]
fn vouch_from_the_future_counts_as_new() {
    let ledger = started();
    let v = VouchRecord { voucher: ALICE, stake: 1, vouch_timestamp: NOW + 5, token: TOKEN };
    assert_eq!(loan::vouch_yield_bps(&ledger, &v, BORROWER, NOW), 200);
}

#[test]
fn rate_follows_the_borrowers_history() {
    let mut ledger = started();
    ledger.repayment_counts.insert(BORROWER.id, 3);
    assert_eq!(rate(&ledger, 0), 230);
    ledger.default_counts.insert(BORROWER.id, 1);
    assert_eq!(rate(&ledger, 0), 210);
    ledger.default_counts.insert(BORROWER.id, 2);
    assert_eq!(rate(&ledger, 0), 200);
    ledger.repayment_counts.insert(BORROWER.id, 50);
    assert_eq!(rate(&ledger, 0), 300);
    assert_eq!(rate(&ledger, 900 * DAY), 500);
}

#[test]
fn rate_is_never_negative_and_traps_at_the_edge() {
    let mut ledger = started();
    ledger.config.as_mut().unwrap().yield_bps = -500;
    assert_eq!(rate(&ledger, 0), 0);
    ledger.config.as_mut().unwrap().yield_bps = i128::MAX;
    assert_eq!(rate(&ledger, 0), i128::MAX);
    let old = vouch(ALICE, 1, 60 * DAY, TOKEN);
    assert_eq!(loan::try_vouch_yield_bps(&ledger, &old, BORROWER, NOW), None);
    ledger.config = None;
    assert_eq!(loan::try_vouch_yield_bps(&ledger, &old, BORROWER, NOW), None);
}

#[test]
fn dynamic_yield_formula() {
    let mut ledger = started();
    assert_eq!(loan::calculate_dynamic_yield(&ledger, BORROWER, None), 200);
    assert_eq!(loan::calculate_dynamic_yield(&ledger, BORROWER, Some(1_250)), 212);
    assert_eq!(loan::calculate_dynamic_yield(&ledger, BORROWER, Some(-150)), 199);
    ledger.default_counts.insert(BORROWER.id, 3);
    assert_eq!(loan::calculate_dynamic_yield(&ledger, BORROWER, Some(1_250)), 62);
    ledger.default_counts.insert(BORROWER.id, 9);
    assert_eq!(loan::calculate_dynamic_yield(&ledger, BORROWER, Some(1_250)), 0);
    ledger.config.as_mut().unwrap().yield_bps = i128::MAX;
    assert_eq!(loan::try_calculate_dynamic_yield(&ledger, BORROWER, Some(100)), None);
}

#[test]
fn request_loan_locks_the_yields_in() {
    let mut ledger = backed();
    assert_eq!(
        loan::request_loan(&mut ledger, BORROWER, 100_000, 10_000, b"seed".to_vec(), TOKEN),
        Ok(())
    );
    let record = QuorumCreditContract::get_loan(&ledger, BORROWER).unwrap();
    assert_eq!(record.total_yield, 800 + 1_500);
    assert_eq!(record.deadline, NOW + 30 * DAY);
    assert_eq!(record.loan_purpose, b"seed".to_vec());
    assert_eq!(
        ledger.yield_distributions.get(&1).unwrap(),
        &vec![
            YieldDistributionEntry { voucher: ALICE, yield_amount: 800 },
            YieldDistributionEntry { voucher: BOB, yield_amount: 1_500 },
        ]
    );
    assert_eq!(ledger.insurance_pool, 0);
    assert_eq!(
        ledger.calls,
        vec![
            HostCall::RequireAuth(BORROWER),
            pay(TOKEN, CONTRACT, BORROWER, 100_000),
            HostCall::Publish(Event::LoanCreated { borrower: BORROWER, amount: 100_000 }),
        ]
    );
}

#[test]
fn locked_request_loan_refusals() {
    let mut ledger = backed();
    let go = |ledger: &mut Ledger, amount: i128, threshold: i128, token: Address| {
        loan::request_loan(ledger, BORROWER, amount, threshold, Vec::new(), token)
    };
    assert_eq!(
        loan::try_request_loan(&mut ledger, BORROWER, 5_000, 10_001, Vec::new(), TOKEN),
        Outcome::Abort(ContractError::InsufficientFunds)
    );
    assert_eq!(ledger.calls, vec![HostCall::RequireAuth(BORROWER)]);
    assert!(ledger.loans.is_empty());
    assert_eq!(go(&mut ledger, 999, 1, TOKEN), Err(ContractError::LoanBelowMinAmount));
    assert_eq!(go(&mut ledger, 5_000, 1, OTHER_TOKEN), Err(ContractError::InvalidToken));
    ledger.paused = true;
    assert_eq!(go(&mut ledger, 5_000, 1, TOKEN), Err(ContractError::ContractPaused));
    ledger.paused = false;
    assert_eq!(go(&mut ledger, 5_000, 1, TOKEN), Ok(()));
    assert_eq!(go(&mut ledger, 5_000, 1, TOKEN), Err(ContractError::ActiveLoanExists));
}

#[test]
fn zero_stake_behind_a_loan_traps() {
    let mut ledger = started();
    ledger.vouches.insert(BORROWER.id, vec![vouch(ALICE, 0, 0, TOKEN)]);
    assert_eq!(
        loan::try_request_loan(&mut ledger, BORROWER, 5_000, 0, Vec::new(), TOKEN),
        Outcome::Trap
    );
    assert!(ledger.calls.is_empty());
    ledger.vouches.clear();
    assert_eq!(loan::request_loan(&mut ledger, BORROWER, 5_000, 0, Vec::new(), TOKEN), Ok(()));
    assert_eq!(QuorumCreditContract::get_loan(&ledger, BORROWER).unwrap().total_yield, 0);
}

#[test]
fn locked_repay_pays_the_locked_yields() {
    let mut ledger = lent();
    assert_eq!(loan::repay(&mut ledger, BORROWER, 2_300), Ok(()));
    assert_eq!(QuorumCreditContract::get_loan(&ledger, BORROWER).unwrap().amount_repaid, 2_300);
    ledger.calls.clear();
    ledger.voucher_stats.insert(
        BOB.id,
        VoucherStats {
            successful_vouches: 4,
            total_vouches_slashed: 1,
            total_yield_earned: 10,
            total_slashed: 3,
        },
    );
    assert_eq!(loan::repay(&mut ledger, BORROWER, 100_000), Ok(()));
    assert_eq!(
        ledger.calls,
        vec![
            HostCall::RequireAuth(BORROWER),
            pay(TOKEN, BORROWER, CONTRACT, 100_000),
            pay(TOKEN, CONTRACT, ALICE, 4_800),
            pay(TOKEN, CONTRACT, BOB, 7_500),
            HostCall::Publish(Event::LoanRepaid { borrower: BORROWER, amount: 100_000 }),
        ]
    );
    let record = ledger.loans.get(&1).unwrap();
    assert_eq!(record.status, LoanStatus::Repaid);
    assert_eq!(record.repayment_timestamp, Some(NOW));
    assert_eq!(ledger.repayment_counts.get(&BORROWER.id), Some(&1));
    assert_eq!(
        ledger.voucher_stats.get(&ALICE.id),
        Some(&VoucherStats {
            successful_vouches: 1,
            total_vouches_slashed: 0,
            total_yield_earned: 800,
            total_slashed: 0,
        })
    );
    assert_eq!(
        ledger.voucher_stats.get(&BOB.id),
        Some(&VoucherStats {
            successful_vouches: 5,
            total_vouches_slashed: 1,
            total_yield_earned: 1_510,
            total_slashed: 3,
        })
    );
    assert!(ledger.active_loans.is_empty());
    assert!(ledger.vouches.is_empty());
    assert!(ledger.yield_distributions.is_empty());
}

#[test]
fn settling_early_costs_no_penalty() {
    let mut ledger = lent();
    ledger.config.as_mut().unwrap().prepayment_penalty_bps = 1_000;
    assert_eq!(loan::repay(&mut ledger, BORROWER, 102_300), Ok(()));
    assert_eq!(ledger.calls[2], pay(TOKEN, CONTRACT, ALICE, 4_800));
    assert_eq!(ledger.calls[3], pay(TOKEN, CONTRACT, BOB, 7_500));
}

#[test]
fn vouch_made_after_the_loan_gets_its_stake_alone() {
    let mut ledger = lent();
    let late = Address { id: 30 };
    ledger.vouches.get_mut(&BORROWER.id).unwrap().push(vouch(late, 500, 0, TOKEN));
    assert_eq!(loan::repay(&mut ledger, BORROWER, 102_300), Ok(()));
    assert_eq!(ledger.calls[4], pay(TOKEN, CONTRACT, late, 500));
}

#[test]
fn voucher_with_two_vouches_gets_the_first_entry_twice() {
    let mut ledger = started();
    ledger.vouches.insert(
        BORROWER.id,
        vec![vouch(ALICE, 1_000, 0, TOKEN), vouch(ALICE, 3_000, 0, TOKEN)],
    );
    assert_eq!(loan::request_loan(&mut ledger, BORROWER, 40_000, 1, Vec::new(), TOKEN), Ok(()));
    assert_eq!(ledger.loans.get(&1).unwrap().total_yield, 800);
    ledger.calls.clear();
    assert_eq!(loan::repay(&mut ledger, BORROWER, 40_800), Ok(()));
    assert_eq!(ledger.calls[2], pay(TOKEN, CONTRACT, ALICE, 1_200));
    assert_eq!(ledger.calls[3], pay(TOKEN, CONTRACT, ALICE, 3_200));
    assert_eq!(ledger.voucher_stats.get(&ALICE.id).unwrap().successful_vouches, 2);
    assert_eq!(ledger.voucher_stats.get(&ALICE.id).unwrap().total_yield_earned, 400);
}

#[test]
fn locked_repay_refusals_and_traps() {
    let mut ledger = lent();
    assert_eq!(loan::repay(&mut ledger, ALICE, 1), Err(ContractError::NoActiveLoan));
    let out_of_range = Outcome::Abort(ContractError::InvalidAmount);
    assert_eq!(loan::try_repay(&mut ledger, BORROWER, 0), out_of_range);
    assert_eq!(loan::try_repay(&mut ledger, BORROWER, -1), out_of_range);
    assert_eq!(loan::try_repay(&mut ledger, BORROWER, 102_301), out_of_range);
    assert_eq!(ledger.loans.get(&1).unwrap().amount_repaid, 0);
    assert_eq!(ledger.calls[1..], vec![HostCall::RequireAuth(BORROWER); 3]);
    ledger.repayment_counts.insert(BORROWER.id, u32::MAX);
    assert_eq!(loan::try_repay(&mut ledger, BORROWER, 102_300), Outcome::Trap);
    assert_eq!(loan::try_repay(&mut ledger, BORROWER, 1), Outcome::Done);
    ledger.paused = true;
    assert_eq!(loan::repay(&mut ledger, BORROWER, 1), Err(ContractError::ContractPaused));
}

#[test]
fn eligibility() {
    let mut ledger = backed();
    assert!(loan::is_eligible(&ledger, BORROWER, 10_000, TOKEN));
    assert!(!loan::is_eligible(&ledger, BORROWER, 10_001, TOKEN));
    assert!(!loan::is_eligible(&ledger, BORROWER, 0, TOKEN));
    assert!(!loan::is_eligible(&ledger, ALICE, 1, TOKEN));
    assert!(loan::is_eligible(&ledger, BORROWER, 99, OTHER_TOKEN));
    assert_eq!(loan::request_loan(&mut ledger, BORROWER, 5_000, 1, Vec::new(), TOKEN), Ok(()));
    assert!(!loan::is_eligible(&ledger, BORROWER, 1, TOKEN));
    ledger.vouches.insert(
        ALICE.id,
        vec![vouch(BOB, i128::MAX, 0, TOKEN), vouch(BOB, i128::MAX, 0, TOKEN)],
    );
    assert_eq!(loan::try_is_eligible(&ledger, ALICE, 1, TOKEN), None);
    assert_eq!(loan::try_is_eligible(&ledger, ALICE, 0, TOKEN), Some(false));
}

#[test]
fn partial_payments_are_credited() {
    let mut ledger = lent();
    assert_eq!(loan::repay_partial(&mut ledger, BORROWER, 700, TOKEN), Ok(()));
    assert_eq!(
        ledger.calls,
        vec![
            HostCall::RequireAuth(BORROWER),
            pay(TOKEN, BORROWER, CONTRACT, 700),
            HostCall::Publish(Event::PartialRepay { borrower: BORROWER, payment: 700 }),
        ]
    );
    assert_eq!(ledger.loans.get(&1).unwrap().amount_repaid, 700);
    assert_eq!(
        loan::try_repay_partial(&mut ledger, BORROWER, 0, TOKEN),
        Outcome::Abort(ContractError::InvalidAmount)
    );
    assert_eq!(ledger.loans.get(&1).unwrap().amount_repaid, 700);
    assert_eq!(ledger.calls[3..], vec![HostCall::RequireAuth(BORROWER)]);
    assert_eq!(
        loan::try_repay_partial(&mut ledger, BORROWER, 5, OTHER_TOKEN),
        Outcome::Refused(ContractError::InvalidToken)
    );
    assert_eq!(
        loan::repay_partial(&mut ledger, BORROWER, 5, OTHER_TOKEN),
        Err(ContractError::InvalidToken)
    );
    assert_eq!(
        loan::repay_partial(&mut ledger, ALICE, 5, TOKEN),
        Err(ContractError::NoActiveLoan)
    );
    assert_eq!(loan::try_repay_partial(&mut ledger, BORROWER, i128::MAX, TOKEN), Outcome::Trap);
    ledger.paused = true;
    assert_eq!(
        loan::repay_partial(&mut ledger, BORROWER, 5, TOKEN),
        Err(ContractError::ContractPaused)
    );
}

#[test]
fn overpaid_loan_takes_no_payment() {
    let mut ledger = lent();
    assert_eq!(loan::repay_partial(&mut ledger, BORROWER, 200_000, TOKEN), Ok(()));
    assert_eq!(
        QuorumCreditContract::get_loan(&ledger, BORROWER).unwrap().status,
        LoanStatus::Active
    );
    assert_eq!(
        loan::try_repay(&mut ledger, BORROWER, 1),
        Outcome::Abort(ContractError::InvalidAmount)
    );
    assert_eq!(
        QuorumCreditContract::repay(&mut ledger, BORROWER, 1),
        Err(ContractError::InvalidAmount)
    );
}

#[test]
fn yield_reserve_reads_back() {
    let mut ledger = started();
    assert_eq!(loan::get_yield_reserve_balance(&ledger), 0);
    assert_eq!(loan::set_yield_reserve(&mut ledger, &vec![ADMIN], 77), Ok(()));
    assert_eq!(loan::get_yield_reserve_balance(&ledger), 77);
    assert_eq!(
        loan::set_yield_reserve(&mut ledger, &vec![ADMIN], -1),
        Err(ContractError::InvalidAmount)
    );
    assert_eq!(
        loan::set_yield_reserve(&mut ledger, &vec![ALICE], 5),
        Err(ContractError::UnauthorizedCaller)
    );
    assert_eq!(loan::get_yield_reserve_balance(&ledger), 77);
}

#[test]
fn risk_score_is_set_on_the_active_loan() {
    let mut ledger = lent();
    assert_eq!(loan::set_borrower_risk_score(&mut ledger, &vec![ADMIN], BORROWER, 100), Ok(()));
    assert_eq!(ledger.loans.get(&1).unwrap().risk_score, 100);
    assert_eq!(ledger.calls, vec![HostCall::RequireAuth(ADMIN)]);
    assert_eq!(
        loan::set_borrower_risk_score(&mut ledger, &vec![ADMIN], BORROWER, 101),
        Err(ContractError::InvalidAmount)
    );
    assert_eq!(
        loan::set_borrower_risk_score(&mut ledger, &vec![ADMIN], ALICE, 1),
        Err(ContractError::NoActiveLoan)
    );
    assert_eq!(
        loan::set_borrower_risk_score(&mut ledger, &vec![BOB], BORROWER, 1),
        Err(ContractError::UnauthorizedCaller)
    );
    assert_eq!(ledger.loans.get(&1).unwrap().risk_score, 100);
}
