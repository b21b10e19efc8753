//! The contract's storage, together with the calls that it makes on the host.
use std::collections::BTreeMap;
use vstd::prelude::*;
use crate::types::{
    Address, Config, ConfigView, ContractError, HostCall, LoanRecord, LoanView, Outcome,
    VouchRecord, VoucherStats, YieldDistributionEntry, DEFAULT_INSURANCE_COVERAGE_BPS,
    DEFAULT_INSURANCE_FEE_BPS, copy_of,
};

verus! {

broadcast use vstd::std_specs::btree::group_btree_axioms;

/// What the contract has on record. Tables that belong to an address are keyed by its handle;
/// a number without an entry of its own counts as zero.
#[derive(Debug)]
pub struct Ledger {
    /// The contract's own address.
    pub contract: Address,
    /// The time of the current ledger, in seconds.
    pub now: u64,
    pub deployer: Option<Address>,
    /// The settings; absent until `initialize` has run.
    pub config: Option<Config>,
    pub paused: bool,
    /// The number of the last loan.
    pub loan_counter: u64,
    /// All loans, by number.
    pub loans: BTreeMap<u64, LoanRecord>,
    /// The number of each borrower's active loan.
    pub active_loans: BTreeMap<u64, u64>,
    /// The vouches behind each borrower.
    pub vouches: BTreeMap<u64, Vec<VouchRecord>>,
    /// The yields locked in for each loan, by the loan's number.
    pub yield_distributions: BTreeMap<u64, Vec<YieldDistributionEntry>>,
    /// How many loans each borrower has repaid.
    pub repayment_counts: BTreeMap<u64, u32>,
    /// How many loans each borrower has defaulted on.
    pub default_counts: BTreeMap<u64, u32>,
    pub voucher_stats: BTreeMap<u64, VoucherStats>,
    pub slash_treasury: i128,
    pub insurance_pool: i128,
    pub insurance_fee_bps: u32,
    pub insurance_coverage_bps: u32,
    pub yield_reserve: i128,
    /// What the host has to do, in order.
    pub calls: Vec<HostCall>,
}

/// The view of a [`Ledger`].
#[verifier::ext_equal]
pub struct LedgerView {
    pub contract: Address,
    pub now: u64,
    pub deployer: Option<Address>,
    pub config: Option<ConfigView>,
    pub paused: bool,
    pub loan_counter: u64,
    pub loans: Map<u64, LoanView>,
    pub active_loans: Map<u64, u64>,
    pub vouches: Map<u64, Seq<VouchRecord>>,
    pub yield_distributions: Map<u64, Seq<YieldDistributionEntry>>,
    pub repayment_counts: Map<u64, u32>,
    pub default_counts: Map<u64, u32>,
    pub voucher_stats: Map<u64, VoucherStats>,
    pub slash_treasury: i128,
    pub insurance_pool: i128,
    pub insurance_fee_bps: u32,
    pub insurance_coverage_bps: u32,
    pub yield_reserve: i128,
    pub calls: Seq<HostCall>,
}

impl View for Ledger {
    type V = LedgerView;

    open spec fn view(&self) -> LedgerView {
        LedgerView {
            contract: self.contract,
            now: self.now,
            deployer: self.deployer,
            config: match self.config {
                Some(c) => Some(c@),
                None => None,
            },
            paused: self.paused,
            loan_counter: self.loan_counter,
            loans: self.loans@.map_values(|r: LoanRecord| r@),
            active_loans: self.active_loans@,
            vouches: self.vouches@.map_values(|v: Vec<VouchRecord>| v@),
            yield_distributions: self.yield_distributions@.map_values(
                |d: Vec<YieldDistributionEntry>| d@,
            ),
            repayment_counts: self.repayment_counts@,
            default_counts: self.default_counts@,
            voucher_stats: self.voucher_stats@,
            slash_treasury: self.slash_treasury,
            insurance_pool: self.insurance_pool,
            insurance_fee_bps: self.insurance_fee_bps,
            insurance_coverage_bps: self.insurance_coverage_bps,
            yield_reserve: self.yield_reserve,
            calls: self.calls@,
        }
    }
}

/// The count on record for an address; zero without an entry.
pub open spec fn count_of(counts: Map<u64, u32>, address: Address) -> u32 {
    if counts.contains_key(address.id) {
        counts[address.id]
    } else {
        0
    }
}

/// The statistics of a voucher; all zero without an entry.
pub open spec fn stats_of(stats: Map<u64, VoucherStats>, voucher: Address) -> VoucherStats {
    if stats.contains_key(voucher.id) {
        stats[voucher.id]
    } else {
        VoucherStats {
            successful_vouches: 0,
            total_vouches_slashed: 0,
            total_yield_earned: 0,
            total_slashed: 0,
        }
    }
}

/// The calls that demand the authorization of each of `addresses`.
pub open spec fn auth_calls(addresses: Seq<Address>) -> Seq<HostCall> {
    addresses.map_values(|a: Address| HostCall::RequireAuth(a))
}

/// The signers that are admins, in order; a signer named twice counts twice.
pub open spec fn approvals(admins: Seq<Address>, signers: Seq<Address>) -> Seq<Address> {
    signers.filter(|s: Address| admins.contains(s))
}

impl LedgerView {
    /// The borrower's active loan.
    pub open spec fn active_loan(self, borrower: Address) -> Option<LoanView> {
        if self.active_loans.contains_key(borrower.id) && self.loans.contains_key(
            self.active_loans[borrower.id],
        ) {
            Some(self.loans[self.active_loans[borrower.id]])
        } else {
            None
        }
    }

    /// The vouches behind a borrower; none without an entry.
    pub open spec fn vouches_of(self, borrower: Address) -> Seq<VouchRecord> {
        if self.vouches.contains_key(borrower.id) {
            self.vouches[borrower.id]
        } else {
            Seq::empty()
        }
    }

    /// The yields locked in for a loan; none without an entry.
    pub open spec fn locked_yields_of(self, loan_id: u64) -> Seq<YieldDistributionEntry> {
        if self.yield_distributions.contains_key(loan_id) {
            self.yield_distributions[loan_id]
        } else {
            Seq::empty()
        }
    }

    /// True if the contract takes this token.
    pub open spec fn allows_token(self, token: Address) -> bool {
        self.config matches Some(cfg) && (cfg.token == token || cfg.allowed_tokens.contains(token))
    }

    /// The ledger after further calls on the host.
    pub open spec fn with_calls(self, calls: Seq<HostCall>) -> LedgerView {
        LedgerView { calls: self.calls + calls, ..self }
    }

    /// The ledger after the demand for the authorization of `address`.
    pub open spec fn asking(self, address: Address) -> LedgerView {
        self.with_calls(seq![HostCall::RequireAuth(address)])
    }

    /// The ledger after the admins among `signers` were asked for their authorization.
    pub open spec fn asking_admins(self, signers: Seq<Address>) -> LedgerView {
        match self.config {
            Some(cfg) => self.with_calls(auth_calls(approvals(cfg.admins, signers))),
            None => self,
        }
    }

    /// True if enough of the signers are admins.
    pub open spec fn approved_by(self, signers: Seq<Address>) -> bool {
        self.config matches Some(cfg) && approvals(cfg.admins, signers).len()
            >= cfg.admin_threshold
    }
}

/// A ledger with nothing on record, the insurance rates at their defaults.
pub open spec fn empty_ledger(contract: Address, now: u64) -> LedgerView {
    LedgerView {
        contract,
        now,
        deployer: None,
        config: None,
        paused: false,
        loan_counter: 0,
        loans: Map::empty(),
        active_loans: Map::empty(),
        vouches: Map::empty(),
        yield_distributions: Map::empty(),
        repayment_counts: Map::empty(),
        default_counts: Map::empty(),
        voucher_stats: Map::empty(),
        slash_treasury: 0,
        insurance_pool: 0,
        insurance_fee_bps: DEFAULT_INSURANCE_FEE_BPS,
        insurance_coverage_bps: DEFAULT_INSURANCE_COVERAGE_BPS,
        yield_reserve: 0,
        calls: Seq::empty(),
    }
}

/// How an operation ends and what it leaves behind: nothing changes when it traps, `refused` is
/// the ledger after an error code, and `done` the ledger after a run to the end.
pub open spec fn settled(
    outcome: Outcome,
    result: Outcome,
    before: LedgerView,
    refused: LedgerView,
    done: LedgerView,
    after: LedgerView,
) -> bool {
    &&& result == outcome
    &&& match outcome {
        Outcome::Trap => after == before,
        Outcome::Abort(_) => after == refused,
        Outcome::Refused(_) => after == refused,
        Outcome::Done => after == done,
    }
}

/// As [`settled`], for an operation that comes back to its caller.
pub open spec fn answered(
    outcome: Outcome,
    result: Result<(), ContractError>,
    refused: LedgerView,
    done: LedgerView,
    after: LedgerView,
) -> bool {
    match outcome {
        Outcome::Trap => false,
        Outcome::Abort(_) => false,
        Outcome::Refused(e) => result == Err::<(), ContractError>(e) && after == refused,
        Outcome::Done => result == Ok::<(), ContractError>(()) && after == done,
    }
}

/// True if `list` holds `address`.
pub fn holds(list: &Vec<Address>, address: Address) -> (r: bool)
    ensures
        r == list@.contains(address),
{
    let mut i: usize = 0;
    while i < list.len()
        invariant
            i <= list@.len(),
            forall|j: int| 0 <= j < i ==> list@[j] != address,
        decreases list@.len() - i,
    {
        if list[i] == address {
            assert(list@[i as int] == address);
            return true;
        }
        i += 1;
    }
    false
}

/// The signers that are admins, in order.
pub fn approving_signers(admins: &Vec<Address>, signers: &Vec<Address>) -> (r: Vec<Address>)
    ensures
        r@ == approvals(admins@, signers@),
{
    let mut r: Vec<Address> = Vec::new();
    let mut i: usize = 0;
    assert(signers@.take(0) =~= Seq::<Address>::empty());
    assert(r@ =~= approvals(admins@, signers@.take(0))) by {
        reveal(Seq::filter);
    }
    while i < signers.len()
        invariant
            i <= signers@.len(),
            r@ == approvals(admins@, signers@.take(i as int)),
        decreases signers@.len() - i,
    {
        assert(signers@.take(i + 1).drop_last() =~= signers@.take(i as int));
        assert(approvals(admins@, signers@.take(i + 1)) == (if admins@.contains(
            signers@[i as int],
        ) {
            r@.push(signers@[i as int])
        } else {
            r@
        })) by {
            reveal(Seq::filter);
        }
        if holds(admins, signers[i]) {
            r.push(signers[i]);
        }
        i += 1;
    }
    assert(signers@.take(i as int) =~= signers@);
    r
}

impl Ledger {
    /// An empty ledger: nothing on record, the insurance rates at their defaults.
    pub fn new(contract: Address, now: u64) -> (ledger: Ledger)
        ensures
            ledger@ == empty_ledger(contract, now),
    {
        let ledger = Ledger {
            contract,
            now,
            deployer: None,
            config: None,
            paused: false,
            loan_counter: 0,
            loans: BTreeMap::new(),
            active_loans: BTreeMap::new(),
            vouches: BTreeMap::new(),
            yield_distributions: BTreeMap::new(),
            repayment_counts: BTreeMap::new(),
            default_counts: BTreeMap::new(),
            voucher_stats: BTreeMap::new(),
            slash_treasury: 0,
            insurance_pool: 0,
            insurance_fee_bps: DEFAULT_INSURANCE_FEE_BPS,
            insurance_coverage_bps: DEFAULT_INSURANCE_COVERAGE_BPS,
            yield_reserve: 0,
            calls: Vec::new(),
        };
        assert(ledger@.loans =~= Map::empty());
        assert(ledger@.vouches =~= Map::empty());
        assert(ledger@.yield_distributions =~= Map::empty());
        ledger
    }

    /// Demands the authorization of `address`.
    pub fn ask(&mut self, address: Address)
        ensures
            final(self)@ == old(self)@.asking(address),
    {
        self.calls.push(HostCall::RequireAuth(address));
        assert(self@ =~= old(self)@.asking(address));
    }

    /// True if the borrower has an active loan.
    pub fn has_active_loan(&self, borrower: Address) -> (r: bool)
        ensures
            r == self@.active_loan(borrower) is Some,
    {
        self.active_loan_record(borrower).is_some()
    }

    /// The borrower's active loan.
    pub fn active_loan_record(&self, borrower: Address) -> (r: Option<&LoanRecord>)
        ensures
            r is Some <==> self@.active_loan(borrower) is Some,
            r matches Some(loan) ==> self@.active_loan(borrower) == Some(loan@),
    {
        match self.active_loans.get(&borrower.id) {
            None => None,
            Some(id) => self.loans.get(id),
        }
    }

    /// The borrower's active loan, or the error that there is none.
    pub fn get_active_loan_record(&self, borrower: Address) -> (r: Result<
        &LoanRecord,
        ContractError,
    >)
        ensures
            match self@.active_loan(borrower) {
                Some(v) => r matches Ok(loan) && loan@ == v,
                None => r matches Err(e) && e == ContractError::NoActiveLoan,
            },
    {
        match self.active_loan_record(borrower) {
            Some(loan) => Ok(loan),
            None => Err(ContractError::NoActiveLoan),
        }
    }

    /// The vouches behind a borrower.
    pub fn vouches_of(&self, borrower: Address) -> (r: Vec<VouchRecord>)
        ensures
            r@ == self@.vouches_of(borrower),
    {
        match self.vouches.get(&borrower.id) {
            Some(list) => copy_of(list),
            None => Vec::new(),
        }
    }

    /// The yields locked in for a loan.
    pub fn locked_yields_of(&self, loan_id: u64) -> (r: Vec<YieldDistributionEntry>)
        ensures
            r@ == self@.locked_yields_of(loan_id),
    {
        match self.yield_distributions.get(&loan_id) {
            Some(list) => copy_of(list),
            None => Vec::new(),
        }
    }

    /// Refuses while the contract is paused.
    pub fn require_not_paused(&self) -> (r: Result<(), ContractError>)
        ensures
            r == (if self@.paused {
                Err::<(), ContractError>(ContractError::ContractPaused)
            } else {
                Ok(())
            }),
    {
        if self.paused {
            Err(ContractError::ContractPaused)
        } else {
            Ok(())
        }
    }

    /// Refuses a token that the contract does not take.
    pub fn require_allowed_token(&self, token: Address) -> (r: Result<(), ContractError>)
        requires
            self@.config is Some,
        ensures
            r == (if self@.allows_token(token) {
                Ok::<(), ContractError>(())
            } else {
                Err(ContractError::InvalidToken)
            }),
    {
        match &self.config {
            Some(cfg) => {
                if cfg.token == token || holds(&cfg.allowed_tokens, token) {
                    Ok(())
                } else {
                    Err(ContractError::InvalidToken)
                }
            },
            None => Err(ContractError::InvalidToken),
        }
    }

    /// True if enough of the signers are admins.
    pub fn approved_by(&self, signers: &Vec<Address>) -> (r: bool)
        requires
            self@.config is Some,
        ensures
            r == self@.approved_by(signers@),
    {
        match &self.config {
            Some(cfg) => approving_signers(&cfg.admins, signers).len()
                >= cfg.admin_threshold as usize,
            None => false,
        }
    }

    /// Asks every signer that is an admin for its authorization.
    pub fn ask_admins(&mut self, signers: &Vec<Address>)
        ensures
            final(self)@ == old(self)@.asking_admins(signers@),
    {
        let approving = match &self.config {
            Some(cfg) => approving_signers(&cfg.admins, signers),
            None => Vec::new(),
        };
        let mut i: usize = 0;
        while i < approving.len()
            invariant
                i <= approving@.len(),
                self@ == old(self)@.with_calls(auth_calls(approving@.take(i as int))),
            decreases approving@.len() - i,
        {
            self.calls.push(HostCall::RequireAuth(approving[i]));
            assert(auth_calls(approving@.take(i + 1)) =~= auth_calls(
                approving@.take(i as int),
            ).push(HostCall::RequireAuth(approving@[i as int])));
            i += 1;
        }
        assert(approving@.take(i as int) =~= approving@);
    }

    /// Asks every signer that is an admin for its authorization, and refuses if there are
    /// fewer of them than the threshold.
    pub fn require_admin_approval(&mut self, signers: &Vec<Address>) -> (r: Result<
        (),
        ContractError,
    >)
        requires
            old(self)@.config is Some,
        ensures
            r == (if old(self)@.approved_by(signers@) {
                Ok::<(), ContractError>(())
            } else {
                Err(ContractError::UnauthorizedCaller)
            }),
            final(self)@ == old(self)@.asking_admins(signers@),
    {
        self.ask_admins(signers);
        if self.approved_by(signers) {
            Ok(())
        } else {
            Err(ContractError::UnauthorizedCaller)
        }
    }
}

} // verus!
