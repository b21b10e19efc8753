//! The insurance pool: it takes a fee on every loan and a part of every slash.
use vstd::prelude::*;
use crate::arith::{bps_of, bps_of_fits, checked_bps_of, in_i128};
use crate::ledger::{answered, settled, Ledger, LedgerView};
use crate::shares::payment_of;
use crate::types::{
    Address, ContractError, HostCall, Outcome, MAX_INSURANCE_BPS, SLASH_TO_INSURANCE_BPS,
};

verus! {

/// The fee that the pool takes on a loan.
pub open spec fn loan_fee(l: LedgerView, amount: int) -> int {
    bps_of(amount, l.insurance_fee_bps as int)
}

/// True if the fee and the pool with it can be worked out on `i128` numbers.
pub open spec fn loan_fee_fits(l: LedgerView, amount: int) -> bool {
    bps_of_fits(amount, l.insurance_fee_bps as int) && in_i128(
        l.insurance_pool + loan_fee(l, amount),
    )
}

/// The part of slashed stake that goes to the pool.
pub open spec fn slash_to_pool(total_slashed: int) -> int {
    bps_of(total_slashed, SLASH_TO_INSURANCE_BPS as int)
}

/// True if that part and the pool with it can be worked out on `i128` numbers.
pub open spec fn slash_to_pool_fits(l: LedgerView, total_slashed: int) -> bool {
    bps_of_fits(total_slashed, SLASH_TO_INSURANCE_BPS as int) && in_i128(
        l.insurance_pool + slash_to_pool(total_slashed),
    )
}

/// What the pool pays for slashed stake: the covered part of it, as far as the pool goes.
pub open spec fn payout(pool: int, slashed_stake: int, coverage_bps: int) -> int {
    let covered = bps_of(slashed_stake, coverage_bps);
    if pool <= covered {
        pool
    } else {
        covered
    }
}

/// The pool after the fee on a loan; `None` if a number does not fit.
pub fn collect_loan_fee(ledger: &Ledger, amount: i128) -> (r: Option<i128>)
    ensures
        r is Some <==> loan_fee_fits(ledger@, amount as int),
        r matches Some(pool) ==> pool == ledger@.insurance_pool + loan_fee(
            ledger@,
            amount as int,
        ),
{
    match checked_bps_of(amount, ledger.insurance_fee_bps as i128) {
        None => None,
        Some(fee) => ledger.insurance_pool.checked_add(fee),
    }
}

/// The part of slashed stake that goes to the pool, and the pool with it; `None` if a number
/// does not fit.
pub fn allocate_slash_to_pool(ledger: &Ledger, total_slashed: i128) -> (r: Option<(i128, i128)>)
    ensures
        r is Some <==> slash_to_pool_fits(ledger@, total_slashed as int),
        r matches Some((part, pool)) ==> part == slash_to_pool(total_slashed as int) && pool
            == ledger@.insurance_pool + part,
{
    match checked_bps_of(total_slashed, SLASH_TO_INSURANCE_BPS as i128) {
        None => None,
        Some(part) => match ledger.insurance_pool.checked_add(part) {
            None => None,
            Some(pool) => Some((part, pool)),
        },
    }
}

/// What the pool pays for slashed stake.
pub fn insurance_payout(pool: i128, slashed_stake: i128, coverage_bps: u32) -> (r: i128)
    requires
        bps_of_fits(slashed_stake as int, coverage_bps as int),
    ensures
        r == payout(pool as int, slashed_stake as int, coverage_bps as int),
{
    let covered: i128 = checked_bps_of(slashed_stake, coverage_bps as i128).unwrap();
    if pool <= covered {
        pool
    } else {
        covered
    }
}

/// How a contribution ends.
pub open spec fn contribution_outcome(l: LedgerView, amount: i128) -> Outcome {
    if l.paused {
        Outcome::Refused(ContractError::ContractPaused)
    } else if amount <= 0 {
        Outcome::Refused(ContractError::InvalidAmount)
    } else if l.config is None || !in_i128(l.insurance_pool + amount) {
        Outcome::Trap
    } else {
        Outcome::Done
    }
}

/// The ledger after a contribution: the tokens move to the contract and the pool grows by them.
pub open spec fn contributed(l: LedgerView, contributor: Address, amount: i128) -> LedgerView {
    LedgerView {
        insurance_pool: (l.insurance_pool + amount) as i128,
        ..l.with_calls(
            seq![
                HostCall::RequireAuth(contributor),
                payment_of(l.config->0.token, contributor, l.contract, amount as int),
            ],
        )
    }
}

/// Contributes to the pool, and says how that ended.
pub fn try_contribute_to_insurance(
    ledger: &mut Ledger,
    contributor: Address,
    amount: i128,
) -> (r: Outcome)
    ensures
        settled(
            contribution_outcome(old(ledger)@, amount),
            r,
            old(ledger)@,
            old(ledger)@.asking(contributor),
            contributed(old(ledger)@, contributor, amount),
            final(ledger)@,
        ),
{
    if ledger.paused {
        ledger.ask(contributor);
        return Outcome::Refused(ContractError::ContractPaused);
    }
    if amount <= 0 {
        ledger.ask(contributor);
        return Outcome::Refused(ContractError::InvalidAmount);
    }
    let token = match &ledger.config {
        None => {
            return Outcome::Trap;
        },
        Some(cfg) => cfg.token,
    };
    let pool: i128 = match ledger.insurance_pool.checked_add(amount) {
        None => {
            return Outcome::Trap;
        },
        Some(p) => p,
    };
    ledger.insurance_pool = pool;
    ledger.calls.push(HostCall::RequireAuth(contributor));
    ledger.calls.push(
        HostCall::Transfer { token, from: contributor, to: ledger.contract, amount },
    );
    assert(ledger@ =~= contributed(old(ledger)@, contributor, amount));
    Outcome::Done
}

/// How the change of an insurance rate ends.
pub open spec fn rate_change_outcome(l: LedgerView, signers: Seq<Address>, bps: u32) -> Outcome {
    if l.config is None {
        Outcome::Trap
    } else if !l.approved_by(signers) {
        Outcome::Refused(ContractError::UnauthorizedCaller)
    } else if bps > MAX_INSURANCE_BPS {
        Outcome::Refused(ContractError::InvalidAmount)
    } else {
        Outcome::Done
    }
}

/// The ledger after the insurance fee was set.
pub open spec fn fee_set(l: LedgerView, signers: Seq<Address>, bps: u32) -> LedgerView {
    LedgerView { insurance_fee_bps: bps, ..l.asking_admins(signers) }
}

/// The ledger after the insurance coverage cap was set.
pub open spec fn coverage_set(l: LedgerView, signers: Seq<Address>, bps: u32) -> LedgerView {
    LedgerView { insurance_coverage_bps: bps, ..l.asking_admins(signers) }
}

/// Sets the insurance fee.
pub fn set_insurance_fee_bps(
    ledger: &mut Ledger,
    admin_signers: &Vec<Address>,
    fee_bps: u32,
) -> (r: Result<(), ContractError>)
    requires
        old(ledger)@.config is Some,
    ensures
        answered(
            rate_change_outcome(old(ledger)@, admin_signers@, fee_bps),
            r,
            old(ledger)@.asking_admins(admin_signers@),
            fee_set(old(ledger)@, admin_signers@, fee_bps),
            final(ledger)@,
        ),
{
    match ledger.require_admin_approval(admin_signers) {
        Err(e) => {
            return Err(e);
        },
        Ok(()) => {},
    }
    if fee_bps > MAX_INSURANCE_BPS {
        return Err(ContractError::InvalidAmount);
    }
    ledger.insurance_fee_bps = fee_bps;
    Ok(())
}

/// Sets the insurance coverage cap.
pub fn set_insurance_coverage_bps(
    ledger: &mut Ledger,
    admin_signers: &Vec<Address>,
    coverage_bps: u32,
) -> (r: Result<(), ContractError>)
    requires
        old(ledger)@.config is Some,
    ensures
        answered(
            rate_change_outcome(old(ledger)@, admin_signers@, coverage_bps),
            r,
            old(ledger)@.asking_admins(admin_signers@),
            coverage_set(old(ledger)@, admin_signers@, coverage_bps),
            final(ledger)@,
        ),
{
    match ledger.require_admin_approval(admin_signers) {
        Err(e) => {
            return Err(e);
        },
        Ok(()) => {},
    }
    if coverage_bps > MAX_INSURANCE_BPS {
        return Err(ContractError::InvalidAmount);
    }
    ledger.insurance_coverage_bps = coverage_bps;
    Ok(())
}

} // verus!
