//! Lending against the stakes of people who vouch for a borrower: loans, repayments, slashes and
//! an insurance pool, with what each operation does stated and proved.
pub mod admission;
pub mod arith;
pub mod conservation;
pub mod contract;
pub mod insurance;
pub mod laws;
pub mod ledger;
pub mod loan;
pub mod shares;
pub mod types;

pub use crate::contract::QuorumCreditContract;
