use quorum_credit::arith::{checked_bps_of, checked_mul_div, checked_trunc_div};
use quorum_credit::ledger::{approving_signers, holds, Ledger};
use quorum_credit::loan;
use quorum_credit::shares::{backing_vouches, checked_total_stake, find_locked_yield};
use quorum_credit::types::{
    Address, ContractError, HostCall, LoanStatus, OpeningTerms, Outcome, VouchRecord,
    YieldDistributionEntry,
};
use quorum_credit::QuorumCreditContract;

fn a(id: u64) -> Address {
    Address { id }
}

fn vouch(voucher: u64, stake: i128) -> VouchRecord {
    VouchRecord { voucher: a(voucher), stake, vouch_timestamp: 0, token: a(1) }
}

fn started(slash_bps: i128) -> Ledger {
    let mut ledger = Ledger::new(a(0), 50);
    let terms = OpeningTerms {
        yield_bps: 333,
        slash_bps,
        max_vouchers: 9,
        min_loan_amount: 1,
        loan_duration: 10,
        max_loan_to_stake_ratio: 100,
        min_vouch_age_secs: 0,
    };
    assert_eq!(
        QuorumCreditContract::initialize(&mut ledger, a(2), vec![a(2)], 1, a(1), terms),
        Ok(())
    );
    ledger
}

fn paid_out(ledger: &Ledger) -> i128 {
    let mut total = 0;
    for c in &ledger.calls {
        if let HostCall::Transfer { from, amount, .. } = c {
            if *from == a(0) {
                total += amount;
            }
        }
    }
    total
}

#[test]
fn division_rounds_towards_zero() {
    assert_eq!(checked_trunc_div(7, 2), Some(3));
    assert_eq!(checked_trunc_div(-7, 2), Some(-3));
    assert_eq!(checked_trunc_div(7, -2), Some(-3));
    assert_eq!(checked_trunc_div(-7, -2), Some(3));
    assert_eq!(checked_trunc_div(0, -2), Some(0));
    assert_eq!(checked_trunc_div(7, 0), None);
    assert_eq!(checked_trunc_div(i128::MIN, -1), None);
    assert_eq!(checked_mul_div(10, 10, 3), Some(33));
    assert_eq!(checked_mul_div(i128::MAX, 2, 2), None);
    assert_eq!(checked_bps_of(10_050, 50), Some(50));
    assert_eq!(checked_bps_of(-199, 50), Some(0));
}

#[test]
fn lists_are_searched_in_order() {
    assert!(holds(&vec![a(1), a(2)], a(2)));
    assert!(!holds(&vec![a(1), a(2)], a(3)));
    assert_eq!(
        approving_signers(&vec![a(1), a(2)], &vec![a(2), a(9), a(1), a(2)]),
        vec![a(2), a(1), a(2)]
    );
    let entries = vec![
        YieldDistributionEntry { voucher: a(4), yield_amount: 5 },
        YieldDistributionEntry { voucher: a(4), yield_amount: 6 },
    ];
    assert_eq!(find_locked_yield(&entries, a(4)), 5);
    assert_eq!(find_locked_yield(&entries, a(5)), 0);
}

#[test]
fn stakes_add_up_per_token() {
    let mut other = vouch(5, 1_000);
    other.token = a(3);
    let vouches = vec![vouch(4, 10), other, vouch(6, 32)];
    let b = backing_vouches(&vouches, a(1));
    assert_eq!(b, vec![vouch(4, 10), vouch(6, 32)]);
    assert_eq!(checked_total_stake(&b), Some(42));
    assert_eq!(checked_total_stake(&vec![vouch(4, i128::MIN), vouch(4, -1)]), None);
}

#[test]
fn shares_never_exceed_the_yield() {
    let mut ledger = started(0);
    let stakes = [7, 11, 13, 1, 1];
    let vouches = stakes.iter().enumerate().map(|(i, s)| vouch(10 + i as u64, *s)).collect();
    ledger.vouches.insert(20, vouches);
    assert_eq!(
        QuorumCreditContract::request_loan(&mut ledger, a(20), 1_000, 33, Vec::new(), a(1)),
        Ok(())
    );
    ledger.calls.clear();
    assert_eq!(QuorumCreditContract::repay(&mut ledger, a(20), 1_033), Ok(()));
    let out = paid_out(&ledger);
    assert!(out <= 33 + 33);
    assert!(out > 33 + 33 - 5);
}

#[test]
fn slash_loses_nothing() {
    let mut ledger = started(3_333);
    ledger.vouches.insert(20, vec![vouch(10, 7), vouch(11, 101), vouch(12, 999)]);
    assert_eq!(
        QuorumCreditContract::request_loan(&mut ledger, a(20), 1_000, 1, Vec::new(), a(1)),
        Ok(())
    );
    ledger.calls.clear();
    let pool = ledger.insurance_pool;
    assert_eq!(QuorumCreditContract::slash(&mut ledger, &vec![a(2)], a(20)), Ok(()));
    let to_pool = ledger.insurance_pool - pool;
    assert_eq!(to_pool, (2 + 33 + 332) / 5);
    assert_eq!(to_pool + ledger.slash_treasury, 2 + 33 + 332);
    assert_eq!(paid_out(&ledger) + to_pool + ledger.slash_treasury, 7 + 101 + 999);
}

#[test]
fn locked_yield_comes_out_in_full() {
    let mut ledger = started(0);
    ledger.vouches.insert(20, vec![vouch(10, 7), vouch(11, 101), vouch(12, 999)]);
    assert_eq!(
        loan::request_loan(&mut ledger, a(20), 12_345, 1, Vec::new(), a(1)),
        Ok(())
    );
    let total_yield = ledger.loans.get(&1).unwrap().total_yield;
    ledger.calls.clear();
    assert_eq!(loan::repay(&mut ledger, a(20), 12_345 + total_yield), Ok(()));
    assert_eq!(paid_out(&ledger), 7 + 101 + 999 + total_yield);
}

#[test]
fn locked_yield_outlasts_what_happens_in_between() {
    let mut ledger = started(1_000);
    ledger.vouches.insert(20, vec![vouch(10, 7), vouch(11, 101), vouch(12, 999)]);
    ledger.vouches.insert(21, vec![vouch(10, 500)]);
    assert_eq!(loan::request_loan(&mut ledger, a(20), 12_345, 1, Vec::new(), a(1)), Ok(()));
    let locked = ledger.yield_distributions.get(&1).unwrap().clone();
    let total_yield = ledger.loans.get(&1).unwrap().total_yield;
    assert_eq!(loan::request_loan(&mut ledger, a(21), 900, 1, Vec::new(), a(1)), Ok(()));
    assert_eq!(loan::repay(&mut ledger, a(20), 345), Ok(()));
    assert_eq!(
        loan::try_repay(&mut ledger, a(20), 99_999),
        Outcome::Abort(ContractError::InvalidAmount)
    );
    assert_eq!(QuorumCreditContract::slash(&mut ledger, &vec![a(2)], a(21)), Ok(()));
    assert_eq!(loan::repay_partial(&mut ledger, a(20), 2_000, a(1)), Ok(()));
    assert_eq!(ledger.yield_distributions.get(&1), Some(&locked));
    assert_eq!(QuorumCreditContract::get_vouches(&ledger, a(20)).len(), 3);
    ledger.calls.clear();
    assert_eq!(loan::repay(&mut ledger, a(20), 10_000 + total_yield), Ok(()));
    assert_eq!(paid_out(&ledger), 7 + 101 + 999 + total_yield);
    assert_eq!(ledger.loans.get(&1).unwrap().status, LoanStatus::Repaid);
}

#[test]
fn closed_loans_stay_and_numbers_grow() {
    let mut ledger = started(1_000);
    ledger.vouches.insert(20, vec![vouch(10, 100)]);
    ledger.vouches.insert(21, vec![vouch(10, 100)]);
    let borrow = |ledger: &mut Ledger, who: u64| {
        QuorumCreditContract::request_loan(ledger, a(who), 1_000, 100, Vec::new(), a(1))
    };
    assert_eq!(borrow(&mut ledger, 20), Ok(()));
    assert_eq!(borrow(&mut ledger, 21), Ok(()));
    assert_eq!(QuorumCreditContract::slash(&mut ledger, &vec![a(2)], a(20)), Ok(()));
    assert_eq!(QuorumCreditContract::get_loan(&ledger, a(21)).unwrap().id, 2);
    assert_eq!(QuorumCreditContract::get_vouches(&ledger, a(21)).len(), 1);
    assert_eq!(borrow(&mut ledger, 20), Ok(()));
    assert_eq!(ledger.loan_counter, 3);
    assert_eq!(ledger.loans.get(&1).unwrap().status, LoanStatus::Defaulted);
    assert_eq!(QuorumCreditContract::get_loan(&ledger, a(20)).unwrap().id, 3);
}

#[test]
fn two_locked_payments_settle_like_one() {
    let make = || {
        let mut ledger = started(0);
        ledger.vouches.insert(20, vec![vouch(10, 100), vouch(11, 250)]);
        assert_eq!(loan::request_loan(&mut ledger, a(20), 1_000, 1, Vec::new(), a(1)), Ok(()));
        ledger.calls.clear();
        ledger
    };
    let mut one = make();
    let mut two = make();
    let owed = 1_000 + one.loans.get(&1).unwrap().total_yield;
    assert_eq!(loan::repay(&mut two, a(20), 400), Ok(()));
    assert_eq!(two.calls.len(), 2);
    one.now = 60;
    two.now = 60;
    assert_eq!(loan::repay(&mut one, a(20), owed), Ok(()));
    assert_eq!(loan::repay(&mut two, a(20), owed - 400), Ok(()));
    assert_eq!(one.calls[2..], two.calls[4..]);
    assert_eq!(one.voucher_stats, two.voucher_stats);
    assert_eq!(one.repayment_counts, two.repayment_counts);
    assert_eq!(one.loans.get(&1).unwrap().repayment_timestamp, Some(60));
    assert_eq!(two.loans.get(&1).unwrap().repayment_timestamp, Some(60));
    assert!(two.active_loans.is_empty() && two.vouches.is_empty());
}

#[test]
fn two_payments_equal_one() {
    let make = || {
        let mut ledger = started(0);
        ledger.vouches.insert(20, vec![vouch(10, 100)]);
        assert_eq!(
            QuorumCreditContract::request_loan(&mut ledger, a(20), 1_000, 1, Vec::new(), a(1)),
            Ok(())
        );
        ledger
    };
    let mut one = make();
    let mut two = make();
    assert_eq!(QuorumCreditContract::repay(&mut one, a(20), 900), Ok(()));
    assert_eq!(QuorumCreditContract::repay(&mut two, a(20), 400), Ok(()));
    assert_eq!(QuorumCreditContract::repay(&mut two, a(20), 500), Ok(()));
    assert_eq!(
        one.loans.get(&1).unwrap().amount_repaid,
        two.loans.get(&1).unwrap().amount_repaid
    );
    assert_eq!(one.loans.get(&1).unwrap().status, two.loans.get(&1).unwrap().status);
    one.calls.clear();
    two.calls.clear();
    assert_eq!(QuorumCreditContract::repay(&mut one, a(20), 133), Ok(()));
    assert_eq!(QuorumCreditContract::repay(&mut two, a(20), 133), Ok(()));
    assert_eq!(one.calls, two.calls);
    assert_eq!(paid_out(&one), 100 + 33);
    assert!(one.active_loans.is_empty() && two.active_loans.is_empty());
}

#[test]
fn repaying_builds_reputation() {
    let mut ledger = started(0);
    ledger.vouches.insert(20, vec![vouch(10, 100)]);
    let before = loan::vouch_yield_bps(&ledger, &vouch(10, 100), a(20), 50);
    assert_eq!(before, 333);
    assert_eq!(loan::request_loan(&mut ledger, a(20), 1_000, 1, Vec::new(), a(1)), Ok(()));
    let owed = 1_000 + ledger.loans.get(&1).unwrap().total_yield;
    assert_eq!(owed, 1_033);
    assert_eq!(loan::repay(&mut ledger, a(20), owed), Ok(()));
    assert_eq!(ledger.repayment_counts.get(&20), Some(&1));
    assert_eq!(loan::vouch_yield_bps(&ledger, &vouch(10, 100), a(20), 50), 343);
}

#[test]
fn other_borrowers_do_not_matter() {
    let mut alone = started(0);
    alone.vouches.insert(20, vec![vouch(10, 100)]);
    let mut crowded = started(0);
    crowded.vouches.insert(20, vec![vouch(10, 100)]);
    crowded.vouches.insert(21, vec![vouch(11, i128::MAX), vouch(12, i128::MAX)]);
    crowded.repayment_counts.insert(21, 7);
    for ledger in [&mut alone, &mut crowded] {
        assert_eq!(
            loan::try_request_loan(ledger, a(20), 1_000, 101, Vec::new(), a(1)),
            Outcome::Abort(ContractError::InsufficientFunds)
        );
        assert_eq!(
            loan::try_request_loan(ledger, a(20), 1_000, 100, Vec::new(), a(1)),
            Outcome::Done
        );
    }
    assert_eq!(
        alone.loans.get(&1).unwrap().total_yield,
        crowded.loans.get(&1).unwrap().total_yield
    );
    assert_eq!(crowded.vouches.get(&21).unwrap().len(), 2);
}

#[test]
fn locked_yield_stays_under_the_highest_rate() {
    let mut ledger = started(0);
    ledger.now = 100 * 86_400;
    let mut fresh = vouch(10, 77);
    fresh.vouch_timestamp = ledger.now;
    ledger.vouches.insert(20, vec![fresh, vouch(11, 923)]);
    assert_eq!(loan::request_loan(&mut ledger, a(20), 9_999, 1, Vec::new(), a(1)), Ok(()));
    let highest = loan::vouch_yield_bps(&ledger, &vouch(11, 923), a(20), ledger.now);
    assert_eq!(highest, 333 + 75);
    let total_yield = ledger.loans.get(&1).unwrap().total_yield;
    assert_eq!(total_yield, 769 * 333 / 10_000 + 9_229 * 408 / 10_000);
    assert!(10_000 * total_yield <= 9_999 * highest);
}
