//! The records that the protocol keeps, and their mathematical views.
use vstd::prelude::*;

verus! {

/// One hundred per cent, in basis points.
pub const BPS_DENOMINATOR: i128 = 10_000;

/// The largest insurance fee or coverage cap that an admin may set, in basis points.
pub const MAX_INSURANCE_BPS: u32 = 10_000;

/// The insurance fee until an admin sets another: half a per cent of each loan.
pub const DEFAULT_INSURANCE_FEE_BPS: u32 = 50;

/// The insurance coverage cap until an admin sets another: a quarter of the slashed stake.
pub const DEFAULT_INSURANCE_COVERAGE_BPS: u32 = 2_500;

/// The part of slashed stake that goes to the insurance pool: a fifth.
pub const SLASH_TO_INSURANCE_BPS: u32 = 2_000;

/// Length of one period of the vouch-age bonus: thirty days.
pub const VOUCH_AGE_BONUS_PERIOD_SECS: u64 = 2_592_000;

/// A vouch younger than this earns no age bonus.
pub const VOUCH_AGE_BONUS_MIN_SECS: u64 = 2_592_000;

/// Age bonus for each full period.
pub const VOUCH_AGE_BONUS_BPS_PER_PERIOD: i128 = 25;

/// The age bonus never exceeds this.
pub const VOUCH_AGE_BONUS_MAX_BPS: i128 = 200;

/// The reputation bonus never exceeds this.
pub const REPUTATION_BONUS_MAX_BPS: i128 = 100;

/// The largest risk score that a loan can carry.
pub const MAX_RISK_SCORE: u32 = 100;

/// An account or a contract on the network. Equal handles stand for equal addresses.
#[derive(Clone, Copy, Debug, PartialEq, Eq, Structural)]
pub struct Address {
    pub id: u64,
}

/// Why a request was refused.
#[derive(Clone, Copy, Debug, PartialEq, Eq, Structural)]
pub enum ContractError {
    /// `initialize` has already run.
    AlreadyInitialized,
    /// A number given by the caller is out of its range.
    InvalidAmount,
    /// The borrower still has an active loan.
    ActiveLoanExists,
    /// The borrower has no active loan.
    NoActiveLoan,
    /// The amount asked for is below the configured minimum.
    LoanBelowMinAmount,
    /// The stake behind the borrower is below the threshold.
    InsufficientFunds,
    /// Too few admins signed.
    UnauthorizedCaller,
    /// The contract is paused.
    ContractPaused,
    /// The token is neither the main token nor an allowed one.
    InvalidToken,
}

/// Where a loan stands.
#[derive(Clone, Copy, Debug, PartialEq, Eq, Structural)]
pub enum LoanStatus {
    Active,
    Repaid,
    Defaulted,
}

/// A voucher's stake behind one borrower.
#[derive(Clone, Copy, Debug, PartialEq, Eq, Structural)]
pub struct VouchRecord {
    pub voucher: Address,
    pub stake: i128,
    pub vouch_timestamp: u64,
    pub token: Address,
}

/// The yield of one voucher, locked in when the loan was paid out.
#[derive(Clone, Copy, Debug, PartialEq, Eq, Structural)]
pub struct YieldDistributionEntry {
    pub voucher: Address,
    pub yield_amount: i128,
}

/// What a voucher has earned and lost so far.
#[derive(Clone, Copy, Debug, PartialEq, Eq, Structural)]
pub struct VoucherStats {
    pub successful_vouches: u32,
    pub total_vouches_slashed: u32,
    pub total_yield_earned: i128,
    pub total_slashed: i128,
}

/// One entry of an amortization schedule.
#[derive(Clone, Copy, Debug, PartialEq, Eq, Structural)]
pub struct Installment {
    pub due: u64,
    pub amount: i128,
}

/// What the contract tells the outside world.
#[derive(Clone, Copy, Debug, PartialEq, Eq, Structural)]
pub enum Event {
    LoanCreated { borrower: Address, amount: i128 },
    LoanSlashed { borrower: Address, total_slashed: i128 },
    LoanRepaid { borrower: Address, amount: i128 },
    PartialRepay { borrower: Address, payment: i128 },
}

/// Something that the host has to do for an operation, in order. If one of them fails, the
/// host undoes the whole operation.
#[derive(Clone, Copy, Debug, PartialEq, Eq, Structural)]
pub enum HostCall {
    /// Demand the authorization of an address.
    RequireAuth(Address),
    /// Move tokens.
    Transfer { token: Address, from: Address, to: Address, amount: i128 },
    /// Publish an event.
    Publish(Event),
}

/// How an operation ends.
#[derive(Clone, Copy, Debug, PartialEq, Eq, Structural)]
pub enum Outcome {
    /// The operation aborts without an error code: there is no configuration, or a number does
    /// not fit its type.
    Trap,
    /// The operation aborts with an error code.
    Abort(ContractError),
    /// The operation comes back with an error code.
    Refused(ContractError),
    /// The operation runs to its end.
    Done,
}

impl Outcome {
    /// True if the operation comes back to its caller.
    pub open spec fn comes_back(self) -> bool {
        self is Refused || self is Done
    }

    /// What an operation that comes back answers.
    pub open spec fn answer_spec(self) -> Result<(), ContractError> {
        match self {
            Outcome::Refused(e) => Err(e),
            _ => Ok(()),
        }
    }

    /// What an operation that comes back answers.
    pub fn answer(self) -> (r: Result<(), ContractError>)
        requires
            self.comes_back(),
        ensures
            r == self.answer_spec(),
    {
        match self {
            Outcome::Refused(e) => Err(e),
            _ => Ok(()),
        }
    }
}

/// The same end, but for a refusal with the code `e`, which becomes an abort.
pub open spec fn aborting_on(outcome: Outcome, e: ContractError) -> Outcome {
    if outcome == Outcome::Refused(e) {
        Outcome::Abort(e)
    } else {
        outcome
    }
}

/// The end that the code `e` stands for where `abort` aborts instead of coming back.
pub fn failure(e: ContractError, abort: ContractError) -> (r: Outcome)
    ensures
        r == aborting_on(Outcome::Refused(e), abort),
{
    if e == abort {
        Outcome::Abort(e)
    } else {
        Outcome::Refused(e)
    }
}

/// The protocol's settings.
#[derive(Debug)]
pub struct Config {
    pub admins: Vec<Address>,
    pub admin_threshold: u32,
    pub token: Address,
    pub allowed_tokens: Vec<Address>,
    pub yield_bps: i128,
    pub slash_bps: i128,
    pub max_vouchers: u32,
    pub min_loan_amount: i128,
    pub loan_duration: u64,
    pub max_loan_to_stake_ratio: u32,
    pub grace_period: u64,
    pub min_vouch_age_secs: u64,
    pub prepayment_penalty_bps: u32,
}

/// The view of a [`Config`].
#[verifier::ext_equal]
pub struct ConfigView {
    pub admins: Seq<Address>,
    pub admin_threshold: u32,
    pub token: Address,
    pub allowed_tokens: Seq<Address>,
    pub yield_bps: i128,
    pub slash_bps: i128,
    pub max_vouchers: u32,
    pub min_loan_amount: i128,
    pub loan_duration: u64,
    pub max_loan_to_stake_ratio: u32,
    pub grace_period: u64,
    pub min_vouch_age_secs: u64,
    pub prepayment_penalty_bps: u32,
}

impl View for Config {
    type V = ConfigView;

    open spec fn view(&self) -> ConfigView {
        ConfigView {
            admins: self.admins@,
            admin_threshold: self.admin_threshold,
            token: self.token,
            allowed_tokens: self.allowed_tokens@,
            yield_bps: self.yield_bps,
            slash_bps: self.slash_bps,
            max_vouchers: self.max_vouchers,
            min_loan_amount: self.min_loan_amount,
            loan_duration: self.loan_duration,
            max_loan_to_stake_ratio: self.max_loan_to_stake_ratio,
            grace_period: self.grace_period,
            min_vouch_age_secs: self.min_vouch_age_secs,
            prepayment_penalty_bps: self.prepayment_penalty_bps,
        }
    }
}

/// The terms that a deployment opens with.
#[derive(Clone, Copy, Debug, PartialEq, Eq, Structural)]
pub struct OpeningTerms {
    pub yield_bps: i128,
    pub slash_bps: i128,
    pub max_vouchers: u32,
    pub min_loan_amount: i128,
    pub loan_duration: u64,
    pub max_loan_to_stake_ratio: u32,
    pub min_vouch_age_secs: u64,
}

/// A loan, from the day it was paid out.
#[derive(Debug)]
pub struct LoanRecord {
    pub id: u64,
    pub borrower: Address,
    pub co_borrowers: Vec<Address>,
    pub amount: i128,
    pub amount_repaid: i128,
    pub total_yield: i128,
    pub status: LoanStatus,
    pub created_at: u64,
    pub disbursement_timestamp: u64,
    pub repayment_timestamp: Option<u64>,
    pub deadline: u64,
    pub loan_purpose: Vec<u8>,
    pub token_address: Address,
    pub amortization_schedule: Vec<Installment>,
    pub reminder_sent: bool,
    pub risk_score: u32,
}

/// The view of a [`LoanRecord`].
#[verifier::ext_equal]
pub struct LoanView {
    pub id: u64,
    pub borrower: Address,
    pub co_borrowers: Seq<Address>,
    pub amount: i128,
    pub amount_repaid: i128,
    pub total_yield: i128,
    pub status: LoanStatus,
    pub created_at: u64,
    pub disbursement_timestamp: u64,
    pub repayment_timestamp: Option<u64>,
    pub deadline: u64,
    pub loan_purpose: Seq<u8>,
    pub token_address: Address,
    pub amortization_schedule: Seq<Installment>,
    pub reminder_sent: bool,
    pub risk_score: u32,
}

impl View for LoanRecord {
    type V = LoanView;

    open spec fn view(&self) -> LoanView {
        LoanView {
            id: self.id,
            borrower: self.borrower,
            co_borrowers: self.co_borrowers@,
            amount: self.amount,
            amount_repaid: self.amount_repaid,
            total_yield: self.total_yield,
            status: self.status,
            created_at: self.created_at,
            disbursement_timestamp: self.disbursement_timestamp,
            repayment_timestamp: self.repayment_timestamp,
            deadline: self.deadline,
            loan_purpose: self.loan_purpose@,
            token_address: self.token_address,
            amortization_schedule: self.amortization_schedule@,
            reminder_sent: self.reminder_sent,
            risk_score: self.risk_score,
        }
    }
}

/// Copies a list of plain values.
pub fn copy_of<T: Copy>(list: &Vec<T>) -> (copy: Vec<T>)
    ensures
        copy@ == list@,
{
    let mut copy: Vec<T> = Vec::new();
    let mut i: usize = 0;
    while i < list.len()
        invariant
            i <= list@.len(),
            copy@ == list@.take(i as int),
        decreases list@.len() - i,
    {
        copy.push(list[i]);
        assert(list@.take(i + 1) =~= list@.take(i as int).push(list@[i as int]));
        i += 1;
    }
    assert(list@.take(i as int) =~= list@);
    copy
}

impl Clone for LoanRecord {
    fn clone(&self) -> (copy: LoanRecord)
        ensures
            copy@ == self@,
    {
        LoanRecord {
            id: self.id,
            borrower: self.borrower,
            co_borrowers: copy_of(&self.co_borrowers),
            amount: self.amount,
            amount_repaid: self.amount_repaid,
            total_yield: self.total_yield,
            status: self.status,
            created_at: self.created_at,
            disbursement_timestamp: self.disbursement_timestamp,
            repayment_timestamp: self.repayment_timestamp,
            deadline: self.deadline,
            loan_purpose: copy_of(&self.loan_purpose),
            token_address: self.token_address,
            amortization_schedule: copy_of(&self.amortization_schedule),
            reminder_sent: self.reminder_sent,
            risk_score: self.risk_score,
        }
    }
}

impl LoanView {
    /// Principal and yield together.
    pub open spec fn total_owed(self) -> int {
        self.amount + self.total_yield
    }

    /// What is still to be paid.
    pub open spec fn outstanding(self) -> int {
        self.total_owed() - self.amount_repaid
    }
}

} // verus!
