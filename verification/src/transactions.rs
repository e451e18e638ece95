//! An earlier, simpler shape of the assignment record, kept for sources
//! that log by location string rather than by file and line.

use vstd::prelude::*;

use crate::symbol::{SymbolSetError, SymbolValue};

verus! {

/// Why a recorded assignment failed, where the source gave no detail.
#[derive(Debug)]
pub enum Cause {
    Unknown,
}

/// A recorded failure: its cause and the validator's error.
#[derive(Debug)]
pub struct TransactionError {
    pub cause: Cause,
    pub error: SymbolSetError,
}

/// One recorded assignment, located by a single source string.
#[derive(Debug)]
pub struct Transaction {
    pub symbol: String,
    pub from: String,
    pub value_before: SymbolValue,
    pub value_after: SymbolValue,
    pub error: Option<TransactionError>,
}

/// An append-only list of recorded assignments.
#[derive(Debug)]
pub struct TransactionHistory {
    entries: Vec<Transaction>,
}

impl TransactionHistory {
    pub closed spec fn spec_entries(self) -> Seq<Transaction> {
        self.entries@
    }

    /// An empty history.
    pub fn new() -> (r: TransactionHistory)
        ensures
            r.spec_entries().len() == 0,
    {
        TransactionHistory { entries: Vec::new() }
    }

    /// Append one record.
    pub fn add(&mut self, transaction: Transaction)
        ensures
            final(self).spec_entries() == old(self).spec_entries().push(transaction),
    {
        self.entries.push(transaction);
    }
}

impl Default for TransactionHistory {
    /// The empty history.
    fn default() -> (r: Self)
        ensures
            r.spec_entries().len() == 0,
    {
        TransactionHistory::new()
    }
}

} // verus!
