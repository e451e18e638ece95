//! The transaction journal: an append-only record of every attempted
//! assignment, and the diagnostic pass over it.

use vstd::prelude::*;

use crate::symbol::{SymbolSetError, SymbolValue};

verus! {

/// One attempted assignment: where it came from, what it intended, what
/// the symbol held before and after, and the error if it was refused.
/// The before and after values are absent where the symbol's value could
/// not be read as its declared type.
#[derive(Debug)]
pub struct Transaction {
    /// The affected symbol.
    pub symbol: String,
    /// The file the change originated from.
    pub file: String,
    /// The line the change originated from.
    pub line: u32,
    /// The full traceback of the change, where one was captured.
    pub traceback: Option<String>,
    /// The intended new value for the symbol.
    pub value: SymbolValue,
    /// The value of the symbol before the transaction.
    pub value_before: Option<SymbolValue>,
    /// The value of the symbol after the transaction.
    pub value_after: Option<SymbolValue>,
    /// Any error that occurred.
    pub error: Option<SymbolSetError>,
}

/// The diagnostics derived from one journal walk: the indices of the
/// failed transactions, and for every successful reassignment the pair of
/// the reassigning transaction and the nearest earlier transaction on the
/// same symbol.
#[derive(Debug)]
pub struct ValidationReport {
    /// Indices of transactions that carry an error, in journal order.
    pub errors: Vec<usize>,
    /// Reassignment warnings `(current, previous)`, ordered by `current`.
    pub warnings: Vec<(usize, usize)>,
}

/// The nearest index at or below `j` whose transaction touches the same
/// symbol as the one at `c`.
pub open spec fn spec_prev_same(h: Seq<Transaction>, c: int, j: int) -> Option<int>
    decreases j + 1,
{
    if j < 0 || j >= h.len() || c < 0 || c >= h.len() {
        None
    } else if h[j].symbol@ == h[c].symbol@ {
        Some(j)
    } else {
        spec_prev_same(h, c, j - 1)
    }
}

/// The report a run carries, whether it passed or failed.
pub open spec fn spec_report_of(r: Result<ValidationReport, ValidationReport>) -> ValidationReport {
    match r {
        Ok(rp) => rp,
        Err(rp) => rp,
    }
}

/// Walk the journal and derive its diagnostics: every transaction with an
/// error is an error; every successful transaction whose symbol was
/// already the target of an earlier transaction is a reassignment warning
/// naming both locations.  A reassignment warns whether or not the value
/// changed: repeating an assignment is what the warning is for, so an
/// identical second write still warns.  The walk fails exactly when any
/// error was found, carrying the full report either way.
#[verifier::rlimit(50)]
pub fn validate_transactions(history: &Vec<Transaction>) -> (r: Result<
    ValidationReport,
    ValidationReport,
>)
    ensures
        // the errors are exactly the failed transactions, in order
        forall|k: int|
            0 <= k < spec_report_of(r).errors@.len() ==> (#[trigger] spec_report_of(r).errors@[k])
                < history@.len() && history@[spec_report_of(r).errors@[k] as int].error is Some,
        forall|k1: int, k2: int|
            0 <= k1 < k2 < spec_report_of(r).errors@.len() ==> (#[trigger] spec_report_of(
                r,
            ).errors@[k1]) < (#[trigger] spec_report_of(r).errors@[k2]),
        forall|i: int|
            0 <= i < history@.len() && (#[trigger] history@[i]).error is Some ==> exists|k: int|
                0 <= k < spec_report_of(r).errors@.len() && (#[trigger] spec_report_of(r).errors@[
                    k
                ]) as int == i,
        // the warnings are exactly the successful reassignments, each
        // paired with the nearest earlier transaction on its symbol
        forall|k: int|
            0 <= k < spec_report_of(r).warnings@.len() ==> ((#[trigger] spec_report_of(
                r,
            ).warnings@[k]).0 < history@.len() && history@[spec_report_of(r).warnings@[
                k
            ].0 as int].error is None && spec_prev_same(
                history@,
                spec_report_of(r).warnings@[k].0 as int,
                spec_report_of(r).warnings@[k].0 - 1,
            ) == Some(spec_report_of(r).warnings@[k].1 as int)),
        forall|i: int|
            0 <= i < history@.len() && (#[trigger] history@[i]).error is None && spec_prev_same(
                history@,
                i,
                i - 1,
            ) is Some ==> exists|k: int|
                0 <= k < spec_report_of(r).warnings@.len() && (#[trigger] spec_report_of(
                    r,
                ).warnings@[k]).0 as int == i,
        // each transaction warns at most once: the warnings are strictly
        // increasing in their reassigning transaction
        forall|k1: int, k2: int|
            0 <= k1 < k2 < spec_report_of(r).warnings@.len() ==> (#[trigger] spec_report_of(
                r,
            ).warnings@[k1]).0 < (#[trigger] spec_report_of(r).warnings@[k2]).0,
        // a clean journal passes; any error fails the run
        r is Ok <==> forall|i: int|
            0 <= i < history@.len() ==> !((#[trigger] history@[i]).error is Some),
{
    let n = history.len();
    let mut errors: Vec<usize> = Vec::new();
    let mut warnings: Vec<(usize, usize)> = Vec::new();
    let mut i: usize = 0;
    while i < n
        invariant
            n == history@.len(),
            0 <= i <= n,
            forall|k: int|
                0 <= k < errors@.len() ==> (#[trigger] errors@[k]) < i && history@[errors@[
                    k
                ] as int].error is Some,
            forall|k1: int, k2: int|
                0 <= k1 < k2 < errors@.len() ==> (#[trigger] errors@[k1]) < (
                #[trigger] errors@[k2]),
            forall|j: int|
                0 <= j < i && (#[trigger] history@[j]).error is Some ==> exists|k: int|
                    0 <= k < errors@.len() && (#[trigger] errors@[k]) as int == j,
            forall|k: int|
                0 <= k < warnings@.len() ==> ((#[trigger] warnings@[k]).0 < i && history@[warnings@[
                    k
                ].0 as int].error is None && spec_prev_same(
                    history@,
                    warnings@[k].0 as int,
                    warnings@[k].0 - 1,
                ) == Some(warnings@[k].1 as int)),
            forall|j: int|
                0 <= j < i && (#[trigger] history@[j]).error is None && spec_prev_same(
                    history@,
                    j,
                    j - 1,
                ) is Some ==> exists|k: int|
                    0 <= k < warnings@.len() && (#[trigger] warnings@[k]).0 as int == j,
            forall|k1: int, k2: int|
                0 <= k1 < k2 < warnings@.len() ==> (#[trigger] warnings@[k1]).0 < (
                #[trigger] warnings@[k2]).0,
        decreases n - i,
    {
        let has_err = match &history[i].error {
            Some(_) => true,
            None => false,
        };
        if has_err {
            let ghost er0 = errors@;
            errors.push(i);
            proof {
                assert forall|j: int|
                    0 <= j < i + 1 && (#[trigger] history@[j]).error is Some implies exists|k: int|
                    0 <= k < errors@.len() && (#[trigger] errors@[k]) as int == j by {
                    if j == i {
                        assert(errors@[errors@.len() - 1] as int == j);
                    } else {
                        let k = choose|k: int|
                            0 <= k < er0.len() && (#[trigger] er0[k]) as int == j;
                        assert(errors@[k] as int == j);
                    }
                }
            }
        } else {
            // scan backward for the nearest earlier transaction on the
            // same symbol
            let mut j: usize = i;
            let mut found: Option<usize> = None;
            while j > 0 && matches!(found, None)
                invariant
                    n == history@.len(),
                    i < n,
                    0 <= j <= i,
                    match found {
                        Some(p) => p == j && j < i && history@[p as int].symbol@ == history@[
                            i as int
                        ].symbol@ && spec_prev_same(history@, i as int, i - 1) == Some(p as int),
                        None => spec_prev_same(history@, i as int, i - 1) == spec_prev_same(
                            history@,
                            i as int,
                            j - 1,
                        ),
                    },
                decreases j,
            {
                j -= 1;
                if history[j].symbol.eq(&history[i].symbol) {
                    found = Some(j);
                } else {
                }
            }
            match found {
                Some(p) => {
                    let ghost w0 = warnings@;
                    warnings.push((i, p));
                    proof {
                        assert forall|j: int|
                            0 <= j < i + 1 && (#[trigger] history@[j]).error is None
                            && spec_prev_same(history@, j, j - 1) is Some implies exists|k: int|
                            0 <= k < warnings@.len() && (#[trigger] warnings@[k]).0 as int
                            == j by {
                            if j == i {
                                assert(warnings@[warnings@.len() - 1].0 as int == j);
                            } else {
                                let k = choose|k: int|
                                    0 <= k < w0.len() && (#[trigger] w0[k]).0 as int == j;
                                assert(warnings@[k].0 as int == j);
                            }
                        }
                    }
                },
                None => {
                    proof {
                        assert(spec_prev_same(history@, i as int, -1) is None);
                    }
                },
            }
        }
        i += 1;
    }
    let clean = errors.len() == 0;
    let ghost evw = errors@;
    let ghost wvw = warnings@;
    proof {
        if clean {
            assert forall|ii: int|
                0 <= ii < history@.len() implies !((#[trigger] history@[ii]).error is Some) by {
                if history@[ii].error is Some {
                    let k = choose|k: int| 0 <= k < evw.len() && (#[trigger] evw[k]) as int == ii;
                }
            }
        } else {
            assert(history@[evw[0] as int].error is Some);
        }
    }
    let rep = ValidationReport { errors, warnings };
    proof {
        assert(rep.errors@ == evw);
        assert(rep.warnings@ == wvw);
        assert forall|ii: int|
            0 <= ii < history@.len() && (#[trigger] history@[ii]).error is Some implies exists|
                k: int,
            | 0 <= k < rep.errors@.len() && (#[trigger] rep.errors@[k]) as int == ii by {
            let k0 = choose|k: int| 0 <= k < evw.len() && (#[trigger] evw[k]) as int == ii;
            assert(rep.errors@[k0] as int == ii);
        }
        assert forall|ii: int|
            0 <= ii < history@.len() && (#[trigger] history@[ii]).error is None && spec_prev_same(
                history@,
                ii,
                ii - 1,
            ) is Some implies exists|k: int|
            0 <= k < rep.warnings@.len() && (#[trigger] rep.warnings@[k]).0 as int == ii by {
            let k0 = choose|k: int| 0 <= k < wvw.len() && (#[trigger] wvw[k]).0 as int == ii;
            assert(rep.warnings@[k0].0 as int == ii);
        }
    }
    if clean {
        Ok(rep)
    } else {
        Err(rep)
    }
}

} // verus!
