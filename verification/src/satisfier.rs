//! The dependency satisfier: derives an ordered list of assignments to
//! other symbols that would make a desired assignment legal.

use vstd::prelude::*;

use crate::expr::{spec_eval, Expr, Terminal};
use crate::schema::{spec_lookup, Schema};
use crate::symbol::{Symbol, SymbolId, SymbolType};
use crate::tristate::Tristate;

verus! {

/// An ordered list of assignments, one value per symbol name.
pub type Assignments = Vec<(String, Tristate)>;

/// A symbol that can only be selected and whose reverse dependencies offer
/// several alternative clauses: the solver cannot choose among them.
#[derive(Debug, Clone, PartialEq, Eq)]
pub struct Ambiguity {
    pub symbol: String,
    pub clauses: Vec<String>,
}

/// Failures of the satisfier.
#[derive(Debug, Clone, PartialEq, Eq)]
pub enum SolveError {
    /// The expression is provably unsatisfiable.
    Unsatisfiable,
    /// A negation of something other than a plain terminal.
    ComplexNot,
    /// The expression holds constructs the solver does not handle.
    UnsupportedConstituents,
    /// A comparison of two non-constant symbols.
    AmbiguousComparison,
    /// A symbol without a name, or one the schema does not hold.
    InvalidSymbol,
    /// An expression that could not be obtained.  The arena holds its
    /// expressions converted once at schema build, so no run of this
    /// engine produces it; it is kept for callers that match on it.
    InvalidExpression,
    /// The solution would need `Mod` on a symbol that cannot carry it.
    RequiresModForBoolean { symbol: String },
    /// Two branches demand different values for one symbol.
    ConflictingAssignment { symbol: String, a: Tristate, b: Tristate },
    /// The walk finished but at least one symbol's selection is ambiguous.
    AmbiguousSolution { symbols: Vec<Ambiguity> },
}

/// How a satisfaction run is to be driven.
#[derive(Debug, Clone, PartialEq, Eq)]
pub struct SolverConfig {
    /// The tristate value the target symbol should become assignable at.
    pub desired_value: Tristate,
    /// Whether to satisfy the dependencies of encountered symbols in turn.
    pub recursive: bool,
}

impl Default for SolverConfig {
    /// The default run solves for `Yes`, non-recursively.
    fn default() -> (r: Self)
        ensures
            r.desired_value == Tristate::Yes,
            !r.recursive,
    {
        SolverConfig { desired_value: Tristate::Yes, recursive: false }
    }
}

impl Ambiguity {
    /// A content-wise copy.
    pub fn duplicate(&self) -> (r: Ambiguity)
        ensures
            r.symbol@ == self.symbol@,
            r.clauses@.len() == self.clauses@.len(),
    {
        let mut cl: Vec<String> = Vec::new();
        let n = self.clauses.len();
        let mut i: usize = 0;
        while i < n
            invariant
                n == self.clauses@.len(),
                0 <= i <= n,
                cl@.len() == i,
            decreases n - i,
        {
            cl.push(self.clauses[i].clone());
            i += 1;
        }
        Ambiguity { symbol: self.symbol.clone(), clauses: cl }
    }
}

/// Two solver errors of the same shape: same variant, same offending
/// symbol where one is named.
pub open spec fn solve_err_like(a: SolveError, b: SolveError) -> bool {
    match (a, b) {
        (SolveError::Unsatisfiable, SolveError::Unsatisfiable) => true,
        (SolveError::ComplexNot, SolveError::ComplexNot) => true,
        (SolveError::UnsupportedConstituents, SolveError::UnsupportedConstituents) => true,
        (SolveError::AmbiguousComparison, SolveError::AmbiguousComparison) => true,
        (SolveError::InvalidSymbol, SolveError::InvalidSymbol) => true,
        (SolveError::InvalidExpression, SolveError::InvalidExpression) => true,
        (
            SolveError::RequiresModForBoolean { symbol: s1 },
            SolveError::RequiresModForBoolean { symbol: s2 },
        ) => s1@ == s2@,
        (
            SolveError::ConflictingAssignment { symbol: s1, a: a1, b: b1 },
            SolveError::ConflictingAssignment { symbol: s2, a: a2, b: b2 },
        ) => s1@ == s2@ && a1 == a2 && b1 == b2,
        (
            SolveError::AmbiguousSolution { .. },
            SolveError::AmbiguousSolution { .. },
        ) => true,
        _ => false,
    }
}

impl SolveError {
    /// A content-wise copy.
    pub fn duplicate(&self) -> (r: SolveError)
        ensures
            solve_err_like(*self, r),
            forall|k: SolveErrSpec| solve_err_corresponds(*self, k) ==> solve_err_corresponds(r, k),
    {
        match self {
            SolveError::Unsatisfiable => SolveError::Unsatisfiable,
            SolveError::ComplexNot => SolveError::ComplexNot,
            SolveError::UnsupportedConstituents => SolveError::UnsupportedConstituents,
            SolveError::AmbiguousComparison => SolveError::AmbiguousComparison,
            SolveError::InvalidSymbol => SolveError::InvalidSymbol,
            SolveError::InvalidExpression => SolveError::InvalidExpression,
            SolveError::RequiresModForBoolean { symbol } => SolveError::RequiresModForBoolean {
                symbol: symbol.clone(),
            },
            SolveError::ConflictingAssignment { symbol, a, b } => SolveError::ConflictingAssignment {
                symbol: symbol.clone(),
                a: *a,
                b: *b,
            },
            SolveError::AmbiguousSolution { symbols } => {
                let mut out: Vec<Ambiguity> = Vec::new();
                let n = symbols.len();
                let mut i: usize = 0;
                while i < n
                    invariant
                        n == symbols@.len(),
                        0 <= i <= n,
                    decreases n - i,
                {
                    out.push(symbols[i].duplicate());
                    i += 1;
                }
                SolveError::AmbiguousSolution { symbols: out }
            },
        }
    }
}

/// The structural solver that walks an expression tree.
pub struct SimpleSolver {}

/// The entries whose keys a list does not already hold.
pub open spec fn spec_not_in(a0: Seq<(String, Tristate)>) -> spec_fn((String, Tristate)) -> bool {
    |p: (String, Tristate)| !spec_has_key(a0, p.0@)
}

/// The map an assignment list denotes: later entries win, though lists the
/// engine builds never repeat a key.
pub open spec fn spec_assign_map(s: Seq<(String, Tristate)>) -> Map<Seq<char>, Tristate>
    decreases s.len(),
{
    if s.len() == 0 {
        Map::empty()
    } else {
        spec_assign_map(s.drop_last()).insert(s.last().0@, s.last().1)
    }
}

/// No symbol name occurs twice.
pub open spec fn spec_keys_unique(s: Seq<(String, Tristate)>) -> bool {
    forall|i: int, j: int| 0 <= i < j < s.len() ==> (#[trigger] s[i]).0@ != (#[trigger] s[j]).0@
}

pub open spec fn spec_has_key(s: Seq<(String, Tristate)>, k: Seq<char>) -> bool {
    exists|i: int| 0 <= i < s.len() && (#[trigger] s[i]).0@ == k
}

/// Two assignment lists conflict when they assign different values to one
/// symbol.
pub open spec fn spec_conflicts(a: Seq<(String, Tristate)>, b: Seq<(String, Tristate)>) -> bool {
    exists|i: int, j: int|
        0 <= i < a.len() && 0 <= j < b.len() && (#[trigger] a[i]).0@ == (#[trigger] b[j]).0@
            && a[i].1 != b[j].1
}

/// Every key an assignment list holds is in the denoted map's domain.
proof fn lemma_assign_map_dom(s: Seq<(String, Tristate)>)
    ensures
        forall|k: Seq<char>| spec_assign_map(s).dom().contains(k) <==> spec_has_key(s, k),
    decreases s.len(),
{
    if s.len() > 0 {
        lemma_assign_map_dom(s.drop_last());
        assert forall|k: Seq<char>| spec_assign_map(s).dom().contains(k) implies spec_has_key(
            s,
            k,
        ) by {
            if k == s.last().0@ {
                assert(s[s.len() - 1].0@ == k);
            } else {
                assert(spec_has_key(s.drop_last(), k));
                let i = choose|i: int|
                    0 <= i < s.drop_last().len() && (#[trigger] s.drop_last()[i]).0@ == k;
                assert(s[i].0@ == k);
            }
        }
        assert forall|k: Seq<char>| spec_has_key(s, k) implies spec_assign_map(s).dom().contains(
            k,
        ) by {
            let i = choose|i: int| 0 <= i < s.len() && (#[trigger] s[i]).0@ == k;
            if i < s.len() - 1 {
                assert(s.drop_last()[i].0@ == k);
                assert(spec_has_key(s.drop_last(), k));
            }
        }
    }
}

/// In a list without repeated keys, the denoted map sends each entry's key
/// to that entry's value.
proof fn lemma_assign_map_at(s: Seq<(String, Tristate)>, i: int)
    requires
        spec_keys_unique(s),
        0 <= i < s.len(),
    ensures
        spec_assign_map(s)[s[i].0@] == s[i].1,
    decreases s.len(),
{
    if i == s.len() - 1 {
        assert(s.last() == s[i]);
    } else {
        assert(spec_keys_unique(s.drop_last())) by {
            assert(forall|j: int| 0 <= j < s.drop_last().len() ==> s.drop_last()[j] == s[j]);
        }
        lemma_assign_map_at(s.drop_last(), i);
        assert(s.drop_last()[i] == s[i]);
        assert(s[i].0@ != s.last().0@);
    }
}

/// Concatenation holds a key exactly when one of the parts does.
proof fn lemma_concat_has_key(x: Seq<(String, Tristate)>, y: Seq<(String, Tristate)>)
    ensures
        forall|k: Seq<char>|
            #[trigger] spec_has_key(x + y, k) <==> spec_has_key(x, k) || spec_has_key(y, k),
{
    assert forall|k: Seq<char>| #[trigger] spec_has_key(x + y, k) implies spec_has_key(x, k)
        || spec_has_key(y, k) by {
        let i = choose|i: int| 0 <= i < (x + y).len() && (#[trigger] (x + y)[i]).0@ == k;
        if i < x.len() {
            assert(x[i].0@ == k);
        } else {
            assert(y[i - x.len()].0@ == k);
        }
    }
    assert forall|k: Seq<char>| spec_has_key(x, k) || spec_has_key(y, k) implies #[trigger]
        spec_has_key(x + y, k) by {
        if spec_has_key(x, k) {
            let i = choose|i: int| 0 <= i < x.len() && (#[trigger] x[i]).0@ == k;
            assert((x + y)[i].0@ == k);
        } else {
            let j = choose|j: int| 0 <= j < y.len() && (#[trigger] y[j]).0@ == k;
            assert((x + y)[x.len() + j].0@ == k);
        }
    }
}

/// Filtering a duplicate-free list for the keys another list lacks keeps
/// it duplicate-free, holds exactly the keys of the first not in the
/// second, and keeps only entries of the first.
proof fn lemma_filter_not_in(b: Seq<(String, Tristate)>, a0: Seq<(String, Tristate)>)
    requires
        spec_keys_unique(b),
    ensures
        spec_keys_unique(b.filter(spec_not_in(a0))),
        forall|k: Seq<char>|
            spec_has_key(b.filter(spec_not_in(a0)), k) <==> spec_has_key(b, k) && !spec_has_key(
                a0,
                k,
            ),
        forall|i: int|
            0 <= i < b.filter(spec_not_in(a0)).len() ==> b.contains(
                #[trigger] b.filter(spec_not_in(a0))[i],
            ),
    decreases b.len(),
{
    reveal(Seq::filter);
    let f = b.filter(spec_not_in(a0));
    if b.len() == 0 {
        assert(f =~= Seq::<(String, Tristate)>::empty());
        assert forall|k: Seq<char>| spec_has_key(f, k) implies false by {
            let i = choose|i: int| 0 <= i < f.len() && (#[trigger] f[i]).0@ == k;
        }
    } else {
        let d = b.drop_last();
        let fd = d.filter(spec_not_in(a0));
        assert(spec_keys_unique(d)) by {
            assert(forall|j: int| 0 <= j < d.len() ==> d[j] == b[j]);
        }
        lemma_filter_not_in(d, a0);
        assert(forall|i: int| 0 <= i < d.len() ==> d[i] == b[i]);
        assert forall|x: (String, Tristate)| d.contains(x) implies b.contains(x) by {
            let i = choose|i: int| 0 <= i < d.len() && d[i] == x;
            assert(b[i] == x);
        }
        if spec_not_in(a0)(b.last()) {
            assert(f == fd.push(b.last()));
            assert(forall|i: int| 0 <= i < fd.len() ==> f[i] == fd[i]);
            assert(f[f.len() - 1] == b.last());
            assert(b[b.len() - 1] == b.last());
            // the appended key is fresh: it is a key of `b`'s last entry,
            // and every key of `fd` is a key of `d`
            assert forall|j: int| 0 <= j < fd.len() implies fd[j].0@ != b.last().0@ by {
                assert(spec_has_key(fd, fd[j].0@));
                assert(spec_has_key(d, fd[j].0@));
                let m = choose|m: int| 0 <= m < d.len() && (#[trigger] d[m]).0@ == fd[j].0@;
                assert(b[m].0@ == fd[j].0@);
            }
            assert(spec_keys_unique(f)) by {
                assert(forall|i: int, j: int|
                    0 <= i < j < f.len() - 1 ==> (#[trigger] f[i]).0@ != (#[trigger] f[j]).0@);
            }
            assert forall|k: Seq<char>| spec_has_key(f, k) implies spec_has_key(b, k)
                && !spec_has_key(a0, k) by {
                let i = choose|i: int| 0 <= i < f.len() && (#[trigger] f[i]).0@ == k;
                if i < f.len() - 1 {
                    assert(spec_has_key(fd, k));
                    let m = choose|m: int| 0 <= m < d.len() && (#[trigger] d[m]).0@ == k;
                    assert(b[m].0@ == k);
                } else {
                    assert(b[b.len() - 1].0@ == k);
                }
            }
            assert forall|k: Seq<char>| spec_has_key(b, k) && !spec_has_key(a0, k) implies
                spec_has_key(f, k) by {
                let i = choose|i: int| 0 <= i < b.len() && (#[trigger] b[i]).0@ == k;
                if i < b.len() - 1 {
                    assert(d[i].0@ == k);
                    assert(spec_has_key(fd, k));
                    let m = choose|m: int| 0 <= m < fd.len() && (#[trigger] fd[m]).0@ == k;
                    assert(f[m].0@ == k);
                } else {
                    assert(f[f.len() - 1].0@ == k);
                }
            }
        } else {
            assert(f == fd);
            assert(b[b.len() - 1] == b.last());
            assert forall|k: Seq<char>| spec_has_key(b, k) && !spec_has_key(a0, k) implies
                spec_has_key(f, k) by {
                let i = choose|i: int| 0 <= i < b.len() && (#[trigger] b[i]).0@ == k;
                if i < b.len() - 1 {
                    assert(d[i].0@ == k);
                } else {
                    // the last entry's key is held by `a0`, so any witness
                    // for `k` lies before the last position
                    assert(!spec_not_in(a0)(b.last()));
                    assert(spec_has_key(a0, b.last().0@));
                }
            }
            assert forall|k: Seq<char>| spec_has_key(f, k) implies spec_has_key(b, k)
                && !spec_has_key(a0, k) by {
                assert(spec_has_key(fd, k));
                let m = choose|m: int| 0 <= m < d.len() && (#[trigger] d[m]).0@ == k;
                assert(b[m].0@ == k);
            }
        }
    }
}

/// The result of a conflict-free merge denotes the union of the two maps.
proof fn lemma_merge_map(
    a0: Seq<(String, Tristate)>,
    b: Seq<(String, Tristate)>,
    r: Seq<(String, Tristate)>,
)
    requires
        spec_keys_unique(a0),
        spec_keys_unique(b),
        !spec_conflicts(a0, b),
        r == a0 + b.filter(spec_not_in(a0)),
    ensures
        spec_keys_unique(r),
        spec_assign_map(r) == spec_assign_map(a0).union_prefer_right(spec_assign_map(b)),
{
    let f = b.filter(spec_not_in(a0));
    lemma_filter_not_in(b, a0);
    lemma_concat_has_key(a0, f);
    lemma_assign_map_dom(a0);
    lemma_assign_map_dom(b);
    lemma_assign_map_dom(r);
    assert forall|i: int, j: int| 0 <= i < j < r.len() implies (#[trigger] r[i]).0@ != (
    #[trigger] r[j]).0@ by {
        if j < a0.len() {
            assert(r[i] == a0[i] && r[j] == a0[j]);
        } else if i >= a0.len() {
            assert(r[i] == f[i - a0.len()] && r[j] == f[j - a0.len()]);
        } else {
            assert(r[i] == a0[i] && r[j] == f[j - a0.len()]);
            assert(spec_has_key(f, f[j - a0.len()].0@));
            assert(spec_has_key(a0, a0[i].0@));
        }
    }
    let m = spec_assign_map(r);
    let u = spec_assign_map(a0).union_prefer_right(spec_assign_map(b));
    assert forall|k: Seq<char>| #![trigger m.dom().contains(k)] m.dom().contains(k) implies u.dom().contains(k) && m[k]
        == u[k] by {
        assert(spec_has_key(r, k));
        let i = choose|i: int| 0 <= i < r.len() && (#[trigger] r[i]).0@ == k;
        lemma_assign_map_at(r, i);
        if i < a0.len() {
            assert(r[i] == a0[i]);
            lemma_assign_map_at(a0, i);
            if spec_has_key(b, k) {
                let j = choose|j: int| 0 <= j < b.len() && (#[trigger] b[j]).0@ == k;
                lemma_assign_map_at(b, j);
                assert(b[j].1 == a0[i].1);
            }
        } else {
            assert(r[i] == f[i - a0.len()]);
            assert(b.contains(f[i - a0.len()]));
            let j = choose|j: int| 0 <= j < b.len() && b[j] == r[i];
            assert(b[j].0@ == k);
            lemma_assign_map_at(b, j);
            assert(spec_has_key(f, k));
            assert(!spec_has_key(a0, k));
        }
    }
    assert forall|k: Seq<char>| #![trigger u.dom().contains(k)] u.dom().contains(k) implies m.dom().contains(k) by {
        assert(spec_has_key(a0, k) || spec_has_key(b, k));
        assert(spec_has_key(a0 + f, k));
        assert(spec_has_key(r, k));
    }
    assert(m.dom() =~= u.dom());
    assert(m =~= u);
}

/// Find the value an assignment list holds for a name.
fn assign_lookup(s: &Assignments, name: &String) -> (r: Option<Tristate>)
    ensures
        match r {
            Some(v) => spec_has_key(s@, name@) && (spec_keys_unique(s@)
                ==> spec_assign_map(s@)[name@] == v),
            None => !spec_has_key(s@, name@),
        },
{
    let n = s.len();
    let mut i: usize = 0;
    while i < n
        invariant
            n == s@.len(),
            0 <= i <= n,
            forall|j: int| 0 <= j < i ==> (#[trigger] s@[j]).0@ != name@,
        decreases n - i,
    {
        if s[i].0.eq(name) {
            proof {
                assert(s@[i as int].0@ == name@);
                if spec_keys_unique(s@) {
                    lemma_assign_map_at(s@, i as int);
                }
            }
            return Some(s[i].1);
        }
        i += 1;
    }
    proof {
        assert forall|k: Seq<char>| spec_has_key(s@, k) implies k != name@ by {
            let j = choose|j: int| 0 <= j < s@.len() && (#[trigger] s@[j]).0@ == k;
        }
    }
    None
}

/// Merge `b` into `a`: the union of the two maps, keeping `a`'s entries
/// and order and appending `b`'s new keys in `b`'s order.  A key assigned
/// different values by the two lists is a `ConflictingAssignment` naming
/// the symbol and both values, and `a` is left unchanged.
pub fn merge(a: &mut Assignments, b: Assignments) -> (r: Result<(), SolveError>)
    requires
        spec_keys_unique(old(a)@),
        spec_keys_unique(b@),
    ensures
        match r {
            Ok(_) => !spec_conflicts(old(a)@, b@) && spec_keys_unique(final(a)@) && final(a)@ == old(
                a,
            )@ + b@.filter(spec_not_in(old(a)@)) && spec_assign_map(final(a)@) == spec_assign_map(
                old(a)@,
            ).union_prefer_right(spec_assign_map(b@)),
            Err(e) => spec_conflicts(old(a)@, b@) && final(a)@ == old(a)@ && (e matches
                SolveError::ConflictingAssignment {
                    symbol,
                    a: va,
                    b: vb,
                } && spec_has_key(old(a)@, symbol@) && spec_has_key(b@, symbol@) && va != vb
                && spec_assign_map(old(a)@)[symbol@] == va && spec_assign_map(b@)[symbol@] == vb),
        },
{
    // First pass: detect a conflict without touching `a`.
    let n = b.len();
    let mut i: usize = 0;
    while i < n
        invariant
            n == b@.len(),
            0 <= i <= n,
            a@ == old(a)@,
            spec_keys_unique(a@),
            spec_keys_unique(b@),
            forall|j: int|
                0 <= j < i ==> !(spec_has_key(a@, (#[trigger] b@[j]).0@)
                    && spec_assign_map(a@)[b@[j].0@] != b@[j].1),
        decreases n - i,
    {
        match assign_lookup(a, &b[i].0) {
            Some(va) => {
                proof {
                    lemma_assign_map_at(b@, i as int);
                }
                if !(va == b[i].1) {
                    proof {
                        assert(spec_conflicts(a@, b@)) by {
                            let k = choose|ii: int|
                                0 <= ii < a@.len() && (#[trigger] a@[ii]).0@ == b@[i as int].0@;
                            lemma_assign_map_at(a@, k);
                            assert(a@[k].1 == va);
                        }
                    }
                    return Err(
                        SolveError::ConflictingAssignment {
                            symbol: b[i].0.clone(),
                            a: va,
                            b: b[i].1,
                        },
                    );
                }
            },
            None => {},
        }
        i += 1;
    }
    proof {
        assert(!spec_conflicts(a@, b@)) by {
            if spec_conflicts(a@, b@) {
                let (ii, jj) = choose|ii: int, jj: int|
                    0 <= ii < a@.len() && 0 <= jj < b@.len() && (#[trigger] a@[ii]).0@ == (
                    #[trigger] b@[jj]).0@ && a@[ii].1 != b@[jj].1;
                assert(spec_has_key(a@, b@[jj].0@));
                lemma_assign_map_at(a@, ii);
                lemma_assign_map_at(b@, jj);
            }
        }
    }
    // Second pass: append the new keys in order.
    let ghost a0 = a@;
    let mut i: usize = 0;
    while i < n
        invariant
            n == b@.len(),
            0 <= i <= n,
            spec_keys_unique(b@),
            spec_keys_unique(a0),
            a@ == a0 + b@.take(i as int).filter(spec_not_in(a0)),
        decreases n - i,
    {
        proof {
            reveal(Seq::filter);
            assert(b@.take(i + 1).drop_last() =~= b@.take(i as int));
            assert(b@.take(i + 1).last() == b@[i as int]);
        }
        let dup_key = match assign_lookup(a, &b[i].0) {
            Some(_) => true,
            None => false,
        };
        let ghost fi = b@.take(i as int).filter(spec_not_in(a0));
        if !dup_key {
            proof {
                // the key is not held by `a0`: `a0` embeds into `a`
                assert(!spec_has_key(a0, b@[i as int].0@)) by {
                    if spec_has_key(a0, b@[i as int].0@) {
                        let k = choose|kk: int|
                            0 <= kk < a0.len() && (#[trigger] a0[kk]).0@ == b@[i as int].0@;
                        assert(a@[k] == a0[k]);
                        assert(spec_has_key(a@, b@[i as int].0@));
                    }
                }
                assert(spec_not_in(a0)(b@[i as int]));
                assert(b@.take(i + 1).filter(spec_not_in(a0)) =~= fi + seq![b@[i as int]]);
            }
            let entry = (b[i].0.clone(), b[i].1);
            a.push(entry);
            proof {
                assert(a@ =~= a0 + b@.take(i + 1).filter(spec_not_in(a0)));
            }
        } else {
            proof {
                // the key is already held: by `a0` itself, not only by the
                // appended part, else `b` would repeat a key
                assert(spec_has_key(a@, b@[i as int].0@));
                lemma_concat_has_key(a0, fi);
                assert(spec_keys_unique(b@.take(i as int))) by {
                    assert(forall|p: int, q: int|
                        0 <= p < q < i ==> (#[trigger] b@.take(i as int)[p]).0@ != (
                        #[trigger] b@.take(i as int)[q]).0@);
                }
                lemma_filter_not_in(b@.take(i as int), a0);
                if !spec_has_key(a0, b@[i as int].0@) {
                    assert(spec_has_key(fi, b@[i as int].0@));
                    assert(spec_has_key(b@.take(i as int), b@[i as int].0@));
                    let p = choose|p: int|
                        0 <= p < i && (#[trigger] b@.take(i as int)[p]).0@ == b@[i as int].0@;
                    assert(b@[p].0@ == b@[i as int].0@);
                    assert(false);
                }
                assert(!spec_not_in(a0)(b@[i as int]));
                assert(b@.take(i + 1).filter(spec_not_in(a0)) =~= fi);
            }
        }
        i += 1;
    }
    proof {
        assert(b@.take(n as int) =~= b@);
        lemma_merge_map(a0, b@, a@);
    }
    Ok(())
}

/// Merging is symmetric up to the map it denotes: where neither order
/// conflicts, both orders denote the same assignment map; and one order
/// conflicts exactly when the other does.
pub proof fn lemma_merge_commutes(a: Seq<(String, Tristate)>, b: Seq<(String, Tristate)>)
    requires
        spec_keys_unique(a),
        spec_keys_unique(b),
    ensures
        spec_conflicts(a, b) <==> spec_conflicts(b, a),
        !spec_conflicts(a, b) ==> spec_assign_map(a).union_prefer_right(spec_assign_map(b))
            == spec_assign_map(b).union_prefer_right(spec_assign_map(a)),
{
    lemma_assign_map_dom(a);
    lemma_assign_map_dom(b);
    if !spec_conflicts(a, b) && !spec_conflicts(b, a) {
        let u1 = spec_assign_map(a).union_prefer_right(spec_assign_map(b));
        let u2 = spec_assign_map(b).union_prefer_right(spec_assign_map(a));
        assert forall|k: Seq<char>| u1.dom().contains(k) implies u2.dom().contains(k) && u1[k]
            == u2[k] by {
            assert(spec_has_key(a, k) || spec_has_key(b, k));
            if spec_has_key(a, k) && spec_has_key(b, k) {
                let i = choose|i: int| 0 <= i < a.len() && (#[trigger] a[i]).0@ == k;
                let j = choose|j: int| 0 <= j < b.len() && (#[trigger] b[j]).0@ == k;
                lemma_assign_map_at(a, i);
                lemma_assign_map_at(b, j);
                assert(a[i].1 == b[j].1);
            } else if spec_has_key(a, k) {
                let i = choose|i: int| 0 <= i < a.len() && (#[trigger] a[i]).0@ == k;
                lemma_assign_map_at(a, i);
            } else {
                let j = choose|j: int| 0 <= j < b.len() && (#[trigger] b[j]).0@ == k;
                lemma_assign_map_at(b, j);
            }
        }
        assert forall|k: Seq<char>| u2.dom().contains(k) implies u1.dom().contains(k) by {}
        assert(u1 =~= u2);
    }
}

/// The mathematical shape of a solver failure; diagnostic payloads beyond
/// the offending symbol's name are not pinned.
pub enum SolveErrSpec {
    Unsatisfiable,
    ComplexNot,
    UnsupportedConstituents,
    AmbiguousComparison,
    InvalidSymbol,
    InvalidExpression,
    RequiresModForBoolean { symbol: Seq<char> },
    ConflictingAssignment,
    AmbiguousSolution,
}

/// Whether a solver error reports the failure the specification names.
pub open spec fn solve_err_corresponds(e: SolveError, k: SolveErrSpec) -> bool {
    match (e, k) {
        (SolveError::Unsatisfiable, SolveErrSpec::Unsatisfiable) => true,
        (SolveError::ComplexNot, SolveErrSpec::ComplexNot) => true,
        (SolveError::UnsupportedConstituents, SolveErrSpec::UnsupportedConstituents) => true,
        (SolveError::AmbiguousComparison, SolveErrSpec::AmbiguousComparison) => true,
        (SolveError::InvalidSymbol, SolveErrSpec::InvalidSymbol) => true,
        (SolveError::InvalidExpression, SolveErrSpec::InvalidExpression) => true,
        (
            SolveError::RequiresModForBoolean { symbol: s1 },
            SolveErrSpec::RequiresModForBoolean { symbol: s2 },
        ) => s1@ == s2,
        (SolveError::ConflictingAssignment { .. }, SolveErrSpec::ConflictingAssignment) => true,
        (SolveError::AmbiguousSolution { .. }, SolveErrSpec::AmbiguousSolution) => true,
        _ => false,
    }
}

/// Two maps demand different values for a shared key.
pub open spec fn spec_maps_conflict(m1: Map<Seq<char>, Tristate>, m2: Map<Seq<char>, Tristate>) -> bool {
    exists|k: Seq<char>|
        #[trigger] m1.dom().contains(k) && m2.dom().contains(k) && m1[k] != m2[k]
}

/// Lists conflict exactly when the maps they denote do.
proof fn lemma_conflicts_maps(a: Seq<(String, Tristate)>, b: Seq<(String, Tristate)>)
    requires
        spec_keys_unique(a),
        spec_keys_unique(b),
    ensures
        spec_conflicts(a, b) <==> spec_maps_conflict(spec_assign_map(a), spec_assign_map(b)),
{
    lemma_assign_map_dom(a);
    lemma_assign_map_dom(b);
    if spec_conflicts(a, b) {
        let (i, j) = choose|i: int, j: int|
            0 <= i < a.len() && 0 <= j < b.len() && (#[trigger] a[i]).0@ == (#[trigger] b[j]).0@
                && a[i].1 != b[j].1;
        lemma_assign_map_at(a, i);
        lemma_assign_map_at(b, j);
        assert(spec_has_key(a, a[i].0@));
        assert(spec_has_key(b, a[i].0@));
        assert(spec_assign_map(a).dom().contains(a[i].0@));
    }
    if spec_maps_conflict(spec_assign_map(a), spec_assign_map(b)) {
        let k = choose|k: Seq<char>|
            #[trigger] spec_assign_map(a).dom().contains(k) && spec_assign_map(b).dom().contains(k)
                && spec_assign_map(a)[k] != spec_assign_map(b)[k];
        assert(spec_has_key(a, k));
        assert(spec_has_key(b, k));
        let i = choose|i: int| 0 <= i < a.len() && (#[trigger] a[i]).0@ == k;
        let j = choose|j: int| 0 <= j < b.len() && (#[trigger] b[j]).0@ == k;
        lemma_assign_map_at(a, i);
        lemma_assign_map_at(b, j);
    }
}

/// What requiring `s == b` emits: the single assignment `{s: b}`, refused
/// where `s` has no name or `b` is `Mod` on a non-tristate symbol.
pub open spec fn spec_satisfy_eq(s: Symbol, b: Tristate) -> Result<
    Map<Seq<char>, Tristate>,
    SolveErrSpec,
> {
    match s.name {
        None => Err(SolveErrSpec::InvalidSymbol),
        Some(n) => {
            if b == Tristate::Mod && s.sym_type != SymbolType::Tristate {
                Err(SolveErrSpec::RequiresModForBoolean { symbol: n@ })
            } else {
                Ok(Map::<Seq<char>, Tristate>::empty().insert(n@, b))
            }
        },
    }
}

/// The value that makes `s != b` hold while staying at or above the
/// desired level: `b == No` takes the desired value itself, `b == Mod`
/// takes `Yes`, `b == Yes` takes `Mod`.
pub open spec fn spec_neq_value(b: Tristate, desired: Tristate) -> Tristate {
    match b {
        Tristate::No => desired,
        Tristate::Mod => Tristate::Yes,
        Tristate::Yes => Tristate::Mod,
    }
}

pub open spec fn spec_satisfy_neq(s: Symbol, b: Tristate, desired: Tristate) -> Result<
    Map<Seq<char>, Tristate>,
    SolveErrSpec,
> {
    spec_satisfy_eq(s, spec_neq_value(b, desired))
}

/// The structural solver's walk: an expression already at or above the
/// desired value needs nothing; `And` merges both sides, `Or` takes the
/// left side or, where it fails, the right; negations and comparisons
/// resolve against constant sides only; a bare symbol is raised to the
/// desired value, promoted to `Yes` for boolean symbols.
pub open spec fn spec_solve(syms: Seq<Symbol>, e: Expr, desired: Tristate) -> Result<
    Map<Seq<char>, Tristate>,
    SolveErrSpec,
>
    decreases e,
{
    match spec_eval(syms, e) {
        Err(_) => Err(SolveErrSpec::UnsupportedConstituents),
        Ok(v) => {
            if desired.spec_le(v) {
                Ok(Map::<Seq<char>, Tristate>::empty())
            } else {
                match e {
                    Expr::And(a, b) => match spec_solve(syms, *a, desired) {
                        Err(k) => Err(k),
                        Ok(ma) => match spec_solve(syms, *b, desired) {
                            Err(k) => Err(k),
                            Ok(mb) => {
                                if spec_maps_conflict(ma, mb) {
                                    Err(SolveErrSpec::ConflictingAssignment)
                                } else {
                                    Ok(ma.union_prefer_right(mb))
                                }
                            },
                        },
                    },
                    Expr::Or(a, b) => match spec_solve(syms, *a, desired) {
                        Ok(m) => Ok(m),
                        Err(_) => spec_solve(syms, *b, desired),
                    },
                    Expr::Const(bv) => {
                        if bv {
                            Ok(Map::<Seq<char>, Tristate>::empty())
                        } else {
                            Err(SolveErrSpec::Unsatisfiable)
                        }
                    },
                    Expr::Not(inner) => match *inner {
                        Expr::Terminal(Terminal::Eq(x, y)) => {
                            if syms[x as int].spec_is_const() {
                                spec_satisfy_neq(syms[y as int], syms[x as int].cur_tri, desired)
                            } else if syms[y as int].spec_is_const() {
                                spec_satisfy_neq(syms[x as int], syms[y as int].cur_tri, desired)
                            } else {
                                Err(SolveErrSpec::AmbiguousComparison)
                            }
                        },
                        Expr::Terminal(Terminal::Neq(x, y)) => {
                            if syms[x as int].spec_is_const() {
                                spec_satisfy_eq(syms[y as int], syms[x as int].cur_tri)
                            } else if syms[y as int].spec_is_const() {
                                spec_satisfy_eq(syms[x as int], syms[y as int].cur_tri)
                            } else {
                                Err(SolveErrSpec::AmbiguousComparison)
                            }
                        },
                        Expr::Terminal(Terminal::Symbol(s)) => spec_satisfy_eq(
                            syms[s as int],
                            Tristate::No,
                        ),
                        Expr::Terminal(_) => Err(SolveErrSpec::UnsupportedConstituents),
                        _ => Err(SolveErrSpec::ComplexNot),
                    },
                    Expr::Terminal(Terminal::Eq(x, y)) => {
                        if syms[x as int].spec_is_const() {
                            spec_satisfy_eq(syms[y as int], syms[x as int].cur_tri)
                        } else if syms[y as int].spec_is_const() {
                            spec_satisfy_eq(syms[x as int], syms[y as int].cur_tri)
                        } else {
                            Err(SolveErrSpec::AmbiguousComparison)
                        }
                    },
                    Expr::Terminal(Terminal::Neq(x, y)) => {
                        if syms[x as int].spec_is_const() {
                            spec_satisfy_neq(syms[y as int], syms[x as int].cur_tri, desired)
                        } else if syms[y as int].spec_is_const() {
                            spec_satisfy_neq(syms[x as int], syms[y as int].cur_tri, desired)
                        } else {
                            Err(SolveErrSpec::AmbiguousComparison)
                        }
                    },
                    Expr::Terminal(Terminal::Symbol(s)) => spec_satisfy_neq(
                        syms[s as int],
                        Tristate::No,
                        if syms[s as int].sym_type == SymbolType::Boolean {
                            Tristate::Yes
                        } else {
                            desired
                        },
                    ),
                    Expr::Terminal(_) => Err(SolveErrSpec::UnsupportedConstituents),
                }
            }
        },
    }
}

impl SimpleSolver {
    /// Require `a == b`.
    fn satisfy_eq(&self, a: &Symbol, b: Tristate) -> (r: Result<Assignments, SolveError>)
        ensures
            match spec_satisfy_eq(*a, b) {
                Ok(m) => r is Ok && spec_keys_unique(r->Ok_0@) && spec_assign_map(r->Ok_0@) == m
                    && r->Ok_0@.len() == 1,
                Err(k) => r is Err && solve_err_corresponds(r->Err_0, k),
            },
    {
        let name = match a.name_owned() {
            Some(n) => n,
            None => {
                return Err(SolveError::InvalidSymbol);
            },
        };
        if matches!(b, Tristate::Mod) && !matches!(a.sym_type, SymbolType::Tristate) {
            return Err(SolveError::RequiresModForBoolean { symbol: name });
        }
        let mut out: Assignments = Vec::new();
        out.push((name, b));
        proof {
            assert(out@.drop_last() =~= Seq::<(String, Tristate)>::empty());
            assert(spec_assign_map(Seq::<(String, Tristate)>::empty()) == Map::<
                Seq<char>,
                Tristate,
            >::empty());
            assert(out@.last().0@ == a.name->Some_0@);
            assert(spec_assign_map(out@) == Map::<Seq<char>, Tristate>::empty().insert(
                a.name->Some_0@,
                b,
            ));
        }
        Ok(out)
    }

    /// Require `a != b`, at or above the desired value.
    fn satisfy_neq(&self, a: &Symbol, b: Tristate, desired_value: Tristate) -> (r: Result<
        Assignments,
        SolveError,
    >)
        ensures
            match spec_satisfy_neq(*a, b, desired_value) {
                Ok(m) => r is Ok && spec_keys_unique(r->Ok_0@) && spec_assign_map(r->Ok_0@) == m
                    && r->Ok_0@.len() == 1,
                Err(k) => r is Err && solve_err_corresponds(r->Err_0, k),
            },
    {
        let value = match b {
            Tristate::No => desired_value,
            Tristate::Mod => Tristate::Yes,
            Tristate::Yes => Tristate::Mod,
        };
        self.satisfy_eq(a, value)
    }

    /// Walk the expression, deriving the assignments that would raise it
    /// to at least the desired value.
    pub fn satisfy(&self, syms: &Vec<Symbol>, expr: &Expr, desired_value: Tristate) -> (r: Result<
        Assignments,
        SolveError,
    >)
        requires
            expr.wf(syms@.len() as nat),
        ensures
            match spec_solve(syms@, *expr, desired_value) {
                Ok(m) => r is Ok && spec_keys_unique(r->Ok_0@) && spec_assign_map(r->Ok_0@) == m,
                Err(k) => r is Err && solve_err_corresponds(r->Err_0, k),
            },
        decreases expr,
    {
        let v = match expr.eval(syms) {
            Ok(v) => v,
            Err(_) => {
                return Err(SolveError::UnsupportedConstituents);
            },
        };
        if desired_value.le(v) {
            let out: Assignments = Vec::new();
            return Ok(out);
        }
        match expr {
            Expr::And(a, b) => {
                let mut ma = self.satisfy(syms, a, desired_value)?;
                let mb = self.satisfy(syms, b, desired_value)?;
                proof {
                    lemma_conflicts_maps(ma@, mb@);
                }
                match merge(&mut ma, mb) {
                    Ok(_) => Ok(ma),
                    Err(e) => Err(e),
                }
            },
            Expr::Or(a, b) => match self.satisfy(syms, a, desired_value) {
                Ok(m) => Ok(m),
                Err(_) => self.satisfy(syms, b, desired_value),
            },
            Expr::Const(bv) => {
                if *bv {
                    let out: Assignments = Vec::new();
                    Ok(out)
                } else {
                    Err(SolveError::Unsatisfiable)
                }
            },
            Expr::Not(inner) => {
                proof {
                    assert((**inner).wf(syms@.len() as nat));
                }
                match &**inner {
                Expr::Terminal(Terminal::Eq(x, y)) => {
                    if syms[*x].flags.is_const() {
                        self.satisfy_neq(&syms[*y], syms[*x].cur_tri, desired_value)
                    } else if syms[*y].flags.is_const() {
                        self.satisfy_neq(&syms[*x], syms[*y].cur_tri, desired_value)
                    } else {
                        Err(SolveError::AmbiguousComparison)
                    }
                },
                Expr::Terminal(Terminal::Neq(x, y)) => {
                    if syms[*x].flags.is_const() {
                        self.satisfy_eq(&syms[*y], syms[*x].cur_tri)
                    } else if syms[*y].flags.is_const() {
                        self.satisfy_eq(&syms[*x], syms[*y].cur_tri)
                    } else {
                        Err(SolveError::AmbiguousComparison)
                    }
                },
                Expr::Terminal(Terminal::Symbol(s)) => self.satisfy_eq(&syms[*s], Tristate::No),
                Expr::Terminal(_) => Err(SolveError::UnsupportedConstituents),
                _ => Err(SolveError::ComplexNot),
            }
            },
            Expr::Terminal(Terminal::Eq(x, y)) => {
                if syms[*x].flags.is_const() {
                    self.satisfy_eq(&syms[*y], syms[*x].cur_tri)
                } else if syms[*y].flags.is_const() {
                    self.satisfy_eq(&syms[*x], syms[*y].cur_tri)
                } else {
                    Err(SolveError::AmbiguousComparison)
                }
            },
            Expr::Terminal(Terminal::Neq(x, y)) => {
                if syms[*x].flags.is_const() {
                    self.satisfy_neq(&syms[*y], syms[*x].cur_tri, desired_value)
                } else if syms[*y].flags.is_const() {
                    self.satisfy_neq(&syms[*x], syms[*y].cur_tri, desired_value)
                } else {
                    Err(SolveError::AmbiguousComparison)
                }
            },
            Expr::Terminal(Terminal::Symbol(s)) => {
                let sym = &syms[*s];
                let desired = if matches!(sym.sym_type, SymbolType::Boolean) {
                    Tristate::Yes
                } else {
                    desired_value
                };
                self.satisfy_neq(sym, Tristate::No, desired)
            },
            Expr::Terminal(_) => Err(SolveError::UnsupportedConstituents),
        }
    }
}

/// A name the schema resolves to a symbol the user may assign directly.
pub open spec fn spec_assignable(syms: Seq<Symbol>, k: Seq<char>) -> bool {
    match spec_lookup(syms, k) {
        Some(t) => syms[t].prompt_count > 0,
        None => false,
    }
}

spec fn spec_count_true(s: Seq<bool>) -> int
    decreases s.len(),
{
    if s.len() == 0 {
        0
    } else {
        spec_count_true(s.drop_last()) + if s.last() {
            1int
        } else {
            0int
        }
    }
}

proof fn lemma_count_all_false(s: Seq<bool>)
    requires
        forall|j: int| 0 <= j < s.len() ==> !(#[trigger] s[j]),
    ensures
        spec_count_true(s) == 0,
    decreases s.len(),
{
    if s.len() > 0 {
        lemma_count_all_false(s.drop_last());
    }
}

proof fn lemma_count_true_le(s: Seq<bool>)
    ensures
        0 <= spec_count_true(s) <= s.len(),
    decreases s.len(),
{
    if s.len() > 0 {
        lemma_count_true_le(s.drop_last());
    }
}

proof fn lemma_count_true_update(s: Seq<bool>, i: int)
    requires
        0 <= i < s.len(),
        !s[i],
    ensures
        spec_count_true(s.update(i, true)) == spec_count_true(s) + 1,
    decreases s.len(),
{
    let u = s.update(i, true);
    if i == s.len() - 1 {
        assert(u.drop_last() =~= s.drop_last());
    } else {
        assert(u.drop_last() =~= s.drop_last().update(i, true));
        lemma_count_true_update(s.drop_last(), i);
    }
}

/// A content-wise copy of an assignment list.
fn dup_assignments(src: &Assignments) -> (r: Assignments)
    ensures
        r@.len() == src@.len(),
        forall|i: int|
            0 <= i < src@.len() ==> (#[trigger] r@[i]).0@ == src@[i].0@ && r@[i].1 == src@[i].1,
{
    let n = src.len();
    let mut out: Assignments = Vec::new();
    let mut i: usize = 0;
    while i < n
        invariant
            n == src@.len(),
            0 <= i <= n,
            out@.len() == i,
            forall|j: int|
                0 <= j < i ==> (#[trigger] out@[j]).0@ == src@[j].0@ && out@[j].1 == src@[j].1,
        decreases n - i,
    {
        let entry = (src[i].0.clone(), src[i].1);
        out.push(entry);
        i += 1;
    }
    out
}

proof fn lemma_dup_unique(a: Seq<(String, Tristate)>, b: Seq<(String, Tristate)>)
    requires
        a.len() == b.len(),
        forall|i: int| 0 <= i < a.len() ==> (#[trigger] b[i]).0@ == a[i].0@ && b[i].1 == a[i].1,
        spec_keys_unique(a),
    ensures
        spec_keys_unique(b),
{
}


/// One symbol's satisfaction: build the effective constraint expression
/// (the visibility expression, conjoined for promptless symbols with the
/// one reverse-dependency clause that could select it, or `Const(true)`
/// with a recorded ambiguity where several could), walk it with the
/// structural solver, and split the result into the assignments to emit
/// (user-assignable symbols only) and the symbols the solution depends on.
/// The constraint expression one symbol is satisfied against: its
/// visibility expression (`Const(true)` where absent), conjoined for a
/// promptless symbol with the single reverse-dependency clause that could
/// select it, or with `Const(true)` where there is none to choose or the
/// choice is ambiguous.
pub open spec fn spec_effective_expr(s: Symbol) -> Expr {
    let vis = match s.vis_expr {
        Some(e) => e,
        None => Expr::Const(true),
    };
    if s.prompt_count == 0 {
        let chosen = match s.rev_expr {
            Some(re) => if re.spec_or_clauses().len() == 1 {
                re.spec_or_clauses()[0]
            } else {
                Expr::Const(true)
            },
            None => Expr::Const(true),
        };
        Expr::And(Box::new(vis), Box::new(chosen))
    } else {
        vis
    }
}

/// A promptless symbol whose reverse dependencies offer several clauses
/// to select it by: the walk records an ambiguity and continues with the
/// symbol unconstrained.
pub open spec fn spec_seed_ambiguous(s: Symbol) -> bool {
    s.prompt_count == 0 && (s.rev_expr matches Some(re) && re.spec_or_clauses().len() != 1)
}

/// Whether a dependency list holds an entry for the symbol.
pub open spec fn spec_has_id(d: Seq<(SymbolId, Vec<SymbolId>)>, id: SymbolId) -> bool {
    exists|i: int| 0 <= i < d.len() && (#[trigger] d[i]).0 == id
}

/// Whether an emitted entry matches, name and value, some entry of some
/// symbol's solution.
pub open spec fn spec_sourced(solved: Seq<(SymbolId, Assignments)>, p: (String, Tristate)) -> bool {
    exists|si: int, ej: int|
        0 <= si < solved.len() && 0 <= ej < solved[si].1@.len() && (
        #[trigger] solved[si].1@[ej]).0@ == p.0@ && solved[si].1@[ej].1 == p.1
}

/// Moving the head of one list onto another keeps the union of held ids.
proof fn lemma_ids_shuffle(
    dpre: Seq<(SymbolId, Vec<SymbolId>)>,
    fpre: Seq<(SymbolId, Vec<SymbolId>)>,
    rpre: Seq<(SymbolId, Vec<SymbolId>)>,
    dpost: Seq<(SymbolId, Vec<SymbolId>)>,
    fpost: Seq<(SymbolId, Vec<SymbolId>)>,
    rpost: Seq<(SymbolId, Vec<SymbolId>)>,
)
    requires
        dpre.len() > 0,
        dpost == dpre.remove(0),
        (fpost == fpre.push(dpre[0]) && rpost == rpre) || (rpost == rpre.push(dpre[0]) && fpost
            == fpre),
    ensures
        forall|id: SymbolId|
            #![trigger spec_has_id(dpost, id)]
            #![trigger spec_has_id(fpost, id)]
            #![trigger spec_has_id(rpost, id)]
            (spec_has_id(dpre, id) || spec_has_id(fpre, id) || spec_has_id(rpre, id)) <==> (
            spec_has_id(dpost, id) || spec_has_id(fpost, id) || spec_has_id(rpost, id)),
{
    assert forall|id: SymbolId|
        (spec_has_id(dpre, id) || spec_has_id(fpre, id) || spec_has_id(rpre, id)) implies (
    spec_has_id(dpost, id) || spec_has_id(fpost, id) || spec_has_id(rpost, id)) by {
        if spec_has_id(dpre, id) {
            let i = choose|i: int| 0 <= i < dpre.len() && (#[trigger] dpre[i]).0 == id;
            if i == 0 {
                if fpost == fpre.push(dpre[0]) {
                    assert(fpost[fpost.len() - 1].0 == id);
                } else {
                    assert(rpost[rpost.len() - 1].0 == id);
                }
            } else {
                assert(dpost[i - 1].0 == id);
            }
        } else if spec_has_id(fpre, id) {
            let i = choose|i: int| 0 <= i < fpre.len() && (#[trigger] fpre[i]).0 == id;
            assert(fpost[i].0 == id);
        } else {
            let i = choose|i: int| 0 <= i < rpre.len() && (#[trigger] rpre[i]).0 == id;
            assert(rpost[i].0 == id);
        }
    }
    assert forall|id: SymbolId|
        (spec_has_id(dpost, id) || spec_has_id(fpost, id) || spec_has_id(rpost, id)) implies (
    spec_has_id(dpre, id) || spec_has_id(fpre, id) || spec_has_id(rpre, id)) by {
        if spec_has_id(dpost, id) {
            let i = choose|i: int| 0 <= i < dpost.len() && (#[trigger] dpost[i]).0 == id;
            assert(dpre[i + 1].0 == id);
        } else if spec_has_id(fpost, id) {
            let i = choose|i: int| 0 <= i < fpost.len() && (#[trigger] fpost[i]).0 == id;
            if fpost == fpre.push(dpre[0]) && i == fpost.len() - 1 {
                assert(dpre[0].0 == id);
            } else {
                assert(fpre[i].0 == id);
            }
        } else {
            let i = choose|i: int| 0 <= i < rpost.len() && (#[trigger] rpost[i]).0 == id;
            if rpost == rpre.push(dpre[0]) && i == rpost.len() - 1 {
                assert(dpre[0].0 == id);
            } else {
                assert(rpre[i].0 == id);
            }
        }
    }
}

/// The emitted list is exactly the given one, entry for entry at the
/// level of names and values.
pub open spec fn spec_emitted_exactly(r: Seq<(String, Tristate)>, lst: Seq<(String, Tristate)>) -> bool {
    r.len() == lst.len() && forall|j: int|
        0 <= j < r.len() ==> (#[trigger] r[j]).0@ == lst[j].0@ && r[j].1 == lst[j].1
}

/// The structural solver never fails with an ambiguous solution: that
/// verdict belongs to the walk that aggregates the recorded ambiguities.
proof fn lemma_solve_not_ambiguous(syms: Seq<Symbol>, e: Expr, desired: Tristate)
    ensures
        spec_solve(syms, e, desired) matches Err(k) ==> !(k matches
        SolveErrSpec::AmbiguousSolution),
    decreases e,
{
    match spec_eval(syms, e) {
        Err(_) => {},
        Ok(v) => {
            if desired.spec_le(v) {
            } else {
                match e {
                    Expr::And(a, b) => {
                        lemma_solve_not_ambiguous(syms, *a, desired);
                        lemma_solve_not_ambiguous(syms, *b, desired);
                    },
                    Expr::Or(a, b) => {
                        lemma_solve_not_ambiguous(syms, *a, desired);
                        lemma_solve_not_ambiguous(syms, *b, desired);
                    },
                    _ => {},
                }
            }
        },
    }
}

/// Every key of the assignment map resolves through the name index.
pub open spec fn spec_all_resolve(syms: Seq<Symbol>, m: Map<Seq<char>, Tristate>) -> bool {
    forall|k: Seq<char>| #[trigger] m.dom().contains(k) ==> spec_lookup(syms, k) is Some
}

fn solve_one(
    schema: &Schema,
    id: SymbolId,
    desired: Tristate,
    ambiguities: &mut Vec<Ambiguity>,
) -> (r: Result<(Assignments, Vec<SymbolId>), SolveError>)
    requires
        schema.wf(),
        id < schema.symbols@.len(),
    ensures
        // ambiguity recording: exactly one entry, naming the symbol and
        // carrying one rendered clause per reverse-dependency clause, is
        // appended when the symbol's selection is ambiguous; nothing else
        spec_seed_ambiguous(schema.symbols@[id as int]) ==> final(ambiguities)@.len() == old(ambiguities)@.len() + 1 && final(ambiguities)@.last().symbol@ == schema.symbols@[
            id as int
        ].spec_name_chars() && (schema.symbols@[id as int].rev_expr matches Some(re) && final(ambiguities)@.last().clauses@.len() == re.spec_or_clauses().len() && (forall|i: int|
            0 <= i < re.spec_or_clauses().len() ==> (#[trigger] final(ambiguities)@.last().clauses@[i])@ == crate::display::spec_display(
                schema.symbols@,
                re.spec_or_clauses()[i],
            ))),
        !spec_seed_ambiguous(schema.symbols@[id as int]) ==> final(ambiguities)@ == old(ambiguities)@,
        forall|i: int|
            0 <= i < old(ambiguities)@.len() ==> final(ambiguities)@[i] == old(ambiguities)@[i],
        // the run is the structural solver on the effective expression:
        // its failure is returned; its solution, restricted to the
        // user-assignable symbols, is returned whenever every assigned
        // name resolves through the index
        match spec_solve(
            schema.symbols@,
            spec_effective_expr(schema.symbols@[id as int]),
            desired,
        ) {
            Err(k) => r is Err && solve_err_corresponds(r->Err_0, k),
            Ok(m) => (spec_all_resolve(schema.symbols@, m) ==> r is Ok) && (r matches Err(e2)
                ==> e2 == SolveError::InvalidSymbol) && (m == Map::<Seq<char>, Tristate>::empty()
                ==> (r matches Ok(p) ==> p.0@.len() == 0 && p.1@.len() == 0)) && (r matches Ok(p)
                ==> spec_keys_unique(p.0@)
                && (forall|j: int|
                0 <= j < p.0@.len() ==> spec_assignable(schema.symbols@, (#[trigger] p.0@[j]).0@)
                    && m.dom().contains(p.0@[j].0@) && m[p.0@[j].0@] == p.0@[j].1) && (forall|
                kk: Seq<char>,
            |
                #[trigger] m.dom().contains(kk) && spec_assignable(schema.symbols@, kk)
                    ==> spec_has_key(p.0@, kk)) && (forall|j: int|
                0 <= j < p.1@.len() ==> (#[trigger] p.1@[j]) < schema.symbols@.len())),
        },
{
    let ghost syms = schema.symbols@;
    let n = schema.symbols.len();
    let solver = SimpleSolver {};
    proof {
        assert(syms[id as int].vis_expr matches Some(e) ==> e.wf(n as nat));
        assert(syms[id as int].rev_expr matches Some(e) ==> e.wf(n as nat));
    }
    let vis: Expr = match &schema.symbols[id].vis_expr {
        Some(e) => e.dup(),
        None => Expr::Const(true),
    };
    proof {
        assert(vis.wf(n as nat));
        assert(vis == (match syms[id as int].vis_expr {
            Some(e) => e,
            None => Expr::Const(true),
        }));
    }
    let prompt_count = schema.symbols[id].prompt_count;
    let eff: Expr = if prompt_count == 0 {
        let chosen: Expr = match &schema.symbols[id].rev_expr {
            Some(re) => {
                proof {
                    crate::expr::lemma_clauses_nonempty(*re);
                    crate::expr::lemma_clauses_wf(*re, n as nat);
                }
                let clauses = re.or_clauses();
                if clauses.len() == 1 {
                    let c = clauses[0].dup();
                    proof {
                        assert(re.spec_or_clauses()[0].wf(n as nat));
                        assert(c == clauses@[0]);
                    }
                    c
                } else {
                    let displays = crate::display::display_clauses(&schema.symbols, &clauses);
                    let amb_name = schema.symbols[id].name_or_empty();
                    ambiguities.push(Ambiguity { symbol: amb_name, clauses: displays });
                    proof {
                        assert(ambiguities@.last().symbol@ == syms[id as int].spec_name_chars());
                        assert(ambiguities@.last().clauses@.len() == re.spec_or_clauses().len());
                        assert forall|i: int|
                            0 <= i < re.spec_or_clauses().len() implies (
                        #[trigger] ambiguities@.last().clauses@[i])@ == crate::display::spec_display(
                            syms,
                            re.spec_or_clauses()[i],
                        ) by {
                            assert(clauses@[i] == re.spec_or_clauses()[i]);
                        }
                    }
                    Expr::Const(true)
                }
            },
            None => Expr::Const(true),
        };
        proof {
            assert(chosen.wf(n as nat));
            assert(chosen == (match syms[id as int].rev_expr {
                Some(re) => if re.spec_or_clauses().len() == 1 {
                    re.spec_or_clauses()[0]
                } else {
                    Expr::Const(true)
                },
                None => Expr::Const(true),
            }));
        }
        Expr::And(Box::new(vis), Box::new(chosen))
    } else {
        vis
    };
    proof {
        assert(eff.wf(n as nat));
        assert(eff == spec_effective_expr(syms[id as int]));
        if spec_seed_ambiguous(syms[id as int]) {
            assert(ambiguities@.len() == old(ambiguities)@.len() + 1);
        } else {
            assert(ambiguities@ == old(ambiguities)@);
        }
    }
    let new_assignments = match solver.satisfy(&schema.symbols, &eff, desired) {
        Ok(m) => m,
        Err(e) => {
            return Err(e);
        },
    };
    let ghost amb1 = ambiguities@;
    let ghost msol = spec_assign_map(new_assignments@);
    let mut depends_on: Vec<SymbolId> = Vec::new();
    let mut filtered: Assignments = Vec::new();
    let m = new_assignments.len();
    let mut k: usize = 0;
    while k < m
        invariant
            schema.wf(),
            syms == schema.symbols@,
            n == syms.len(),
            id < n,
            ambiguities@ == amb1,
            spec_seed_ambiguous(syms[id as int]) ==> amb1.len() == old(ambiguities)@.len() + 1
                && amb1.last().symbol@ == syms[id as int].spec_name_chars() && (syms[
                id as int
            ].rev_expr matches Some(re) && amb1.last().clauses@.len()
                == re.spec_or_clauses().len() && (forall|i: int|
                0 <= i < re.spec_or_clauses().len() ==> (#[trigger] amb1.last().clauses@[i])@
                    == crate::display::spec_display(syms, re.spec_or_clauses()[i]))),
            !spec_seed_ambiguous(syms[id as int]) ==> amb1 == old(ambiguities)@,
            forall|i: int| 0 <= i < old(ambiguities)@.len() ==> amb1[i] == old(ambiguities)@[i],
            m == new_assignments@.len(),
            spec_keys_unique(new_assignments@),
            msol == spec_assign_map(new_assignments@),
            spec_solve(syms, spec_effective_expr(syms[id as int]), desired) == Ok::<
                Map<Seq<char>, Tristate>,
                SolveErrSpec,
            >(msol),
            0 <= k <= m,
            depends_on@.len() <= k,
            filtered@.len() <= k,
            forall|j: int| 0 <= j < depends_on@.len() ==> (#[trigger] depends_on@[j]) < n,
            spec_keys_unique(filtered@),
            forall|j: int|
                0 <= j < filtered@.len() ==> spec_assignable(syms, (#[trigger] filtered@[j]).0@),
            forall|j: int| #![trigger filtered@[j]]
                0 <= j < filtered@.len() ==> exists|p: int|
                    0 <= p < k && (#[trigger] new_assignments@[p]).0@ == filtered@[j].0@
                        && new_assignments@[p].1 == filtered@[j].1,
            forall|p: int| #![trigger new_assignments@[p]]
                0 <= p < k && spec_assignable(syms, new_assignments@[p].0@) ==> spec_has_key(
                    filtered@,
                    new_assignments@[p].0@,
                ),
        decreases m - k,
    {
        match schema.symbol(new_assignments[k].0.as_str()) {
            Some(sid2) => {
                if !matches!(new_assignments[k].1, Tristate::No) {
                    depends_on.push(sid2);
                }
                if schema.symbols[sid2].prompt_count > 0 {
                    let ghost f0 = filtered@;
                    let entry = (new_assignments[k].0.clone(), new_assignments[k].1);
                    filtered.push(entry);
                    proof {
                        assert(filtered@.last().0@ == new_assignments@[k as int].0@);
                        assert(filtered@.last().1 == new_assignments@[k as int].1);
                        assert forall|p: int, q: int|
                            0 <= p < q < filtered@.len() implies (#[trigger] filtered@[p]).0@ != (
                        #[trigger] filtered@[q]).0@ by {
                            if q == filtered@.len() - 1 {
                                assert(filtered@[p] == f0[p]);
                                let w = choose|w: int|
                                    0 <= w < k && (#[trigger] new_assignments@[w]).0@ == f0[p].0@
                                        && new_assignments@[w].1 == f0[p].1;
                                assert(new_assignments@[w].0@ != new_assignments@[k as int].0@);
                            } else {
                                assert(filtered@[p] == f0[p] && filtered@[q] == f0[q]);
                            }
                        }
                        assert forall|j: int| #![trigger filtered@[j]]
                            0 <= j < filtered@.len() implies exists|p: int|
                            0 <= p < k + 1 && (#[trigger] new_assignments@[p]).0@ == filtered@[j].0@
                                && new_assignments@[p].1 == filtered@[j].1 by {
                            if j < filtered@.len() - 1 {
                                assert(filtered@[j] == f0[j]);
                                let w = choose|w: int|
                                    0 <= w < k && (#[trigger] new_assignments@[w]).0@ == f0[j].0@
                                        && new_assignments@[w].1 == f0[j].1;
                            } else {
                                assert(new_assignments@[k as int].0@ == filtered@[j].0@);
                            }
                        }
                        assert forall|p: int| #![trigger new_assignments@[p]]
                            0 <= p < k + 1 && spec_assignable(syms, new_assignments@[p].0@)
                            implies spec_has_key(filtered@, new_assignments@[p].0@) by {
                            if p == k {
                                assert(filtered@[filtered@.len() - 1].0@ == new_assignments@[
                                    p
                                ].0@);
                            } else {
                                let w = choose|w: int|
                                    0 <= w < f0.len() && (#[trigger] f0[w]).0@
                                        == new_assignments@[p].0@;
                                assert(filtered@[w].0@ == new_assignments@[p].0@);
                            }
                        }
                    }
                } else {
                    proof {
                        // the resolved symbol is promptless, so the name
                        // is not user-assignable
                        assert(!spec_assignable(syms, new_assignments@[k as int].0@));
                        assert forall|p: int| #![trigger new_assignments@[p]]
                            0 <= p < k + 1 && spec_assignable(syms, new_assignments@[p].0@)
                            implies spec_has_key(filtered@, new_assignments@[p].0@) by {}
                    }
                }
            },
            None => {
                proof {
                    // the unresolved name is a key of the solver's map
                    lemma_assign_map_dom(new_assignments@);
                    assert(spec_has_key(new_assignments@, new_assignments@[k as int].0@));
                    assert(msol.dom().contains(new_assignments@[k as int].0@));
                    assert(!spec_all_resolve(syms, msol));
                }
                return Err(SolveError::InvalidSymbol);
            },
        }
        k += 1;
    }
    proof {
        // an empty solution map means an empty list, so nothing was
        // filtered or depended on
        lemma_assign_map_dom(new_assignments@);
        if msol == Map::<Seq<char>, Tristate>::empty() && new_assignments@.len() > 0 {
            assert(spec_has_key(new_assignments@, new_assignments@[0].0@));
            assert(msol.dom().contains(new_assignments@[0].0@));
            assert(false);
        }
        // every emitted entry carries the solver's value for its key, and
        // every assignable key of the solution is emitted
        assert forall|j: int|
            0 <= j < filtered@.len() implies spec_assignable(syms, (#[trigger] filtered@[j]).0@)
            && msol.dom().contains(filtered@[j].0@) && msol[filtered@[j].0@] == filtered@[j].1 by {
            let p = choose|p: int|
                0 <= p < m && (#[trigger] new_assignments@[p]).0@ == filtered@[j].0@
                    && new_assignments@[p].1 == filtered@[j].1;
            assert(spec_has_key(new_assignments@, filtered@[j].0@));
            lemma_assign_map_at(new_assignments@, p);
        }
        assert forall|kk: Seq<char>|
            #[trigger] msol.dom().contains(kk) && spec_assignable(syms, kk) implies spec_has_key(
            filtered@,
            kk,
        ) by {
            assert(spec_has_key(new_assignments@, kk));
            let p = choose|p: int| 0 <= p < m && (#[trigger] new_assignments@[p]).0@ == kk;
        }
    }
    Ok((filtered, depends_on))
}

/// Merge every per-symbol assignment list into one map to detect
/// cross-symbol conflicts; only a conflict between two lists can fail,
/// so a single list always passes.
fn check_conflicts(solved: &Vec<(SymbolId, Assignments)>) -> (r: Result<(), SolveError>)
    requires
        forall|i: int| 0 <= i < solved@.len() ==> spec_keys_unique((#[trigger] solved@[i]).1@),
    ensures
        r matches Err(e) ==> e matches SolveError::ConflictingAssignment { .. },
        solved@.len() <= 1 ==> r is Ok,
{
    let mut merged: Assignments = Vec::new();
    let n = solved.len();
    let mut i: usize = 0;
    while i < n
        invariant
            n == solved@.len(),
            0 <= i <= n,
            i == 0 ==> merged@.len() == 0,
            spec_keys_unique(merged@),
            forall|j: int| 0 <= j < solved@.len() ==> spec_keys_unique((#[trigger] solved@[j]).1@),
        decreases n - i,
    {
        let copy = dup_assignments(&solved[i].1);
        proof {
            lemma_dup_unique(solved@[i as int].1@, copy@);
        }
        match merge(&mut merged, copy) {
            Ok(_) => {},
            Err(e) => {
                proof {
                    // an empty accumulator cannot conflict, so the first
                    // list never fails
                    if i == 0 {
                        assert(!spec_conflicts(Seq::<(String, Tristate)>::empty(), copy@));
                        assert(false);
                    }
                }
                return Err(e);
            },
        }
        i += 1;
    }
    Ok(())
}

/// Emit the solved assignments so that every symbol's dependencies are
/// emitted before the symbol's own assignments: repeatedly take the
/// symbols whose dependency set is empty or already emitted, in insertion
/// order; where none qualifies (a dependency cycle), the earliest-queued
/// symbol breaks the cycle.  For a run over a single symbol with no
/// recorded dependencies the result is exactly that symbol's assignment
/// list, in order.
fn emit_ordered(
    Ghost(syms): Ghost<Seq<Symbol>>,
    solved: &Vec<(SymbolId, Assignments)>,
    deps0: Vec<(SymbolId, Vec<SymbolId>)>,
) -> (r: Assignments)
    requires
        forall|i: int, j: int|
            0 <= i < solved@.len() && 0 <= j < solved@[i].1@.len() ==> spec_assignable(
                syms,
                (#[trigger] solved@[i].1@[j]).0@,
            ),
    ensures
        spec_keys_unique(r@),
        forall|j: int| 0 <= j < r@.len() ==> spec_assignable(syms, (#[trigger] r@[j]).0@),
        // every emitted entry comes from some symbol's solution
        forall|w: int| #![trigger r@[w]]
            0 <= w < r@.len() ==> spec_sourced(solved@, r@[w]),
        // every queued symbol's solution is emitted
        forall|si: int, ej: int| #![trigger solved@[si].1@[ej]]
            0 <= si < solved@.len() && 0 <= ej < solved@[si].1@.len() && spec_has_id(
                deps0@,
                solved@[si].0,
            ) ==> spec_has_key(r@, solved@[si].1@[ej].0@),
        (solved@.len() == 1 && deps0@.len() == 1 && deps0@[0].0 == solved@[0].0 && deps0@[
            0
        ].1@.len() == 0 && spec_keys_unique(solved@[0].1@)) ==> r@.len() == solved@[0].1@.len()
            && (forall|j: int|
            0 <= j < r@.len() ==> (#[trigger] r@[j]).0@ == solved@[0].1@[j].0@ && r@[j].1
                == solved@[0].1@[j].1),
{
    let ghost special = solved@.len() == 1 && deps0@.len() == 1 && deps0@[0].0 == solved@[0].0
        && deps0@[0].1@.len() == 0 && spec_keys_unique(solved@[0].1@);
    let ghost lst = if solved@.len() == 1 {
        solved@[0].1@
    } else {
        Seq::<(String, Tristate)>::empty()
    };
    let mut assignments: Assignments = Vec::new();
    let mut dependencies = deps0;
    while dependencies.len() > 0
        invariant
            spec_keys_unique(assignments@),
            forall|j: int|
                0 <= j < assignments@.len() ==> spec_assignable(syms, (#[trigger] assignments@[j]).0@),
            forall|i: int, j: int|
                0 <= i < solved@.len() && 0 <= j < solved@[i].1@.len() ==> spec_assignable(
                    syms,
                    (#[trigger] solved@[i].1@[j]).0@,
                ),
            forall|w: int| #![trigger assignments@[w]]
                0 <= w < assignments@.len() ==> spec_sourced(solved@, assignments@[w]),
            forall|si: int, ej: int| #![trigger solved@[si].1@[ej]]
                0 <= si < solved@.len() && 0 <= ej < solved@[si].1@.len() && spec_has_id(
                    deps0@,
                    solved@[si].0,
                ) && !spec_has_id(dependencies@, solved@[si].0) ==> spec_has_key(
                    assignments@,
                    solved@[si].1@[ej].0@,
                ),
            special ==> (solved@.len() == 1 && deps0@.len() == 1 && deps0@[0].0 == solved@[0].0
                && deps0@[0].1@.len() == 0 && spec_keys_unique(lst) && lst == solved@[0].1@),
            special ==> ((dependencies@ =~= deps0@ && assignments@.len() == 0) || (
            dependencies@.len() == 0 && spec_emitted_exactly(assignments@, lst))),
        decreases dependencies.len(),
    {
        let ghost deps_in = dependencies@;
        // split into symbols with all dependencies emitted and the rest
        let mut fulfilled: Vec<(SymbolId, Vec<SymbolId>)> = Vec::new();
        let mut remaining: Vec<(SymbolId, Vec<SymbolId>)> = Vec::new();
        while dependencies.len() > 0
            invariant
                fulfilled@.len() + remaining@.len() + dependencies@.len() == deps_in.len(),
                forall|id: SymbolId|
                    #![trigger spec_has_id(deps_in, id)]
                    spec_has_id(deps_in, id) <==> (spec_has_id(fulfilled@, id) || spec_has_id(
                        remaining@,
                        id,
                    ) || spec_has_id(dependencies@, id)),
                special ==> (deps_in =~= deps0@ && deps0@.len() == 1 && deps0@[0].1@.len() == 0),
                special ==> remaining@.len() == 0,
                special ==> ((fulfilled@.len() == 0 && dependencies@ =~= deps_in) || (
                fulfilled@.len() == 1 && fulfilled@[0] == deps_in[0] && dependencies@.len() == 0)),
            decreases dependencies.len(),
        {
            let ghost dpre = dependencies@;
            let ghost fpre = fulfilled@;
            let ghost rpre = remaining@;
            let entry = dependencies.remove(0);
            if entry.1.len() == 0 {
                fulfilled.push(entry);
            } else {
                remaining.push(entry);
            }
            proof {
                lemma_ids_shuffle(dpre, fpre, rpre, dependencies@, fulfilled@, remaining@);
            }
        }
        if fulfilled.len() == 0 {
            // a dependency cycle: break it at the earliest-queued symbol
            let ghost fpre = fulfilled@;
            let ghost rpre = remaining@;
            let first = remaining.remove(0);
            fulfilled.push(first);
            proof {
                lemma_ids_shuffle(
                    rpre,
                    fpre,
                    Seq::<(SymbolId, Vec<SymbolId>)>::empty(),
                    remaining@,
                    fulfilled@,
                    Seq::<(SymbolId, Vec<SymbolId>)>::empty(),
                );
            }
        }
        // emit the assignments of the fulfilled symbols, first occurrence
        // of each symbol name winning
        let fl = fulfilled.len();
        let mut f: usize = 0;
        while f < fl
            invariant
                fl == fulfilled@.len(),
                0 <= f <= fl,
                spec_keys_unique(assignments@),
                forall|j: int|
                    0 <= j < assignments@.len() ==> spec_assignable(
                        syms,
                        (#[trigger] assignments@[j]).0@,
                    ),
                forall|i: int, j: int|
                    0 <= i < solved@.len() && 0 <= j < solved@[i].1@.len() ==> spec_assignable(
                        syms,
                        (#[trigger] solved@[i].1@[j]).0@,
                    ),
                forall|w: int| #![trigger assignments@[w]]
                    0 <= w < assignments@.len() ==> spec_sourced(solved@, assignments@[w]),
                forall|si2: int, ej2: int| #![trigger solved@[si2].1@[ej2]]
                    0 <= si2 < solved@.len() && 0 <= ej2 < solved@[si2].1@.len() && spec_has_id(
                        deps0@,
                        solved@[si2].0,
                    ) && !spec_has_id(deps_in, solved@[si2].0) ==> spec_has_key(
                        assignments@,
                        solved@[si2].1@[ej2].0@,
                    ),
                forall|si2: int, ej2: int| #![trigger solved@[si2].1@[ej2]]
                    0 <= si2 < solved@.len() && 0 <= ej2 < solved@[si2].1@.len() && (exists|
                        fp: int,
                    |
                        0 <= fp < f && (#[trigger] fulfilled@[fp]).0 == solved@[si2].0)
                        ==> spec_has_key(assignments@, solved@[si2].1@[ej2].0@),
                special ==> (solved@.len() == 1 && spec_keys_unique(lst) && lst == solved@[0].1@
                    && fl == 1 && fulfilled@[0].0 == solved@[0].0),
                special ==> ((f == 0 && assignments@.len() == 0) || (f == 1
                    && spec_emitted_exactly(assignments@, lst))),
            decreases fl - f,
        {
            let fid = fulfilled[f].0;
            let sl = solved.len();
            let mut si: usize = 0;
            while si < sl
                invariant
                    sl == solved@.len(),
                    0 <= si <= sl,
                    fl == fulfilled@.len(),
                    f < fl,
                    fid == fulfilled@[f as int].0,
                    spec_keys_unique(assignments@),
                    forall|j: int|
                        0 <= j < assignments@.len() ==> spec_assignable(
                            syms,
                            (#[trigger] assignments@[j]).0@,
                        ),
                    forall|i: int, j: int|
                        0 <= i < solved@.len() && 0 <= j < solved@[i].1@.len() ==> spec_assignable(
                            syms,
                            (#[trigger] solved@[i].1@[j]).0@,
                        ),
                forall|w: int| #![trigger assignments@[w]]
                    0 <= w < assignments@.len() ==> spec_sourced(solved@, assignments@[w]),
                forall|si2: int, ej2: int| #![trigger solved@[si2].1@[ej2]]
                    0 <= si2 < solved@.len() && 0 <= ej2 < solved@[si2].1@.len() && spec_has_id(
                        deps0@,
                        solved@[si2].0,
                    ) && !spec_has_id(deps_in, solved@[si2].0) ==> spec_has_key(
                        assignments@,
                        solved@[si2].1@[ej2].0@,
                    ),
                forall|si2: int, ej2: int| #![trigger solved@[si2].1@[ej2]]
                    0 <= si2 < solved@.len() && 0 <= ej2 < solved@[si2].1@.len() && (exists|
                        fp: int,
                    |
                        0 <= fp < f && (#[trigger] fulfilled@[fp]).0 == solved@[si2].0)
                        ==> spec_has_key(assignments@, solved@[si2].1@[ej2].0@),
                forall|si2: int, ej2: int| #![trigger solved@[si2].1@[ej2]]
                    0 <= si2 < si && 0 <= ej2 < solved@[si2].1@.len() && solved@[si2].0 == fid
                        ==> spec_has_key(assignments@, solved@[si2].1@[ej2].0@),
                    special ==> (solved@.len() == 1 && spec_keys_unique(lst) && lst == solved@[
                        0
                    ].1@ && fid == solved@[0].0),
                    special ==> ((si == 0 && assignments@.len() == 0) || (si >= 1
                        && spec_emitted_exactly(assignments@, lst))),
                decreases sl - si,
            {
                if solved[si].0 == fid {
                    let el = solved[si].1.len();
                    let mut e: usize = 0;
                    while e < el
                        invariant
                            sl == solved@.len(),
                            si < sl,
                            el == solved@[si as int].1@.len(),
                            0 <= e <= el,
                            spec_keys_unique(assignments@),
                            forall|j: int|
                                0 <= j < assignments@.len() ==> spec_assignable(
                                    syms,
                                    (#[trigger] assignments@[j]).0@,
                                ),
                            forall|i: int, j: int|
                                0 <= i < solved@.len() && 0 <= j < solved@[i].1@.len()
                                    ==> spec_assignable(syms, (#[trigger] solved@[i].1@[j]).0@),
                forall|w: int| #![trigger assignments@[w]]
                    0 <= w < assignments@.len() ==> spec_sourced(solved@, assignments@[w]),
                forall|si2: int, ej2: int| #![trigger solved@[si2].1@[ej2]]
                    0 <= si2 < solved@.len() && 0 <= ej2 < solved@[si2].1@.len() && spec_has_id(
                        deps0@,
                        solved@[si2].0,
                    ) && !spec_has_id(deps_in, solved@[si2].0) ==> spec_has_key(
                        assignments@,
                        solved@[si2].1@[ej2].0@,
                    ),
                forall|si2: int, ej2: int| #![trigger solved@[si2].1@[ej2]]
                    0 <= si2 < solved@.len() && 0 <= ej2 < solved@[si2].1@.len() && (exists|
                        fp: int,
                    |
                        0 <= fp < f && (#[trigger] fulfilled@[fp]).0 == solved@[si2].0)
                        ==> spec_has_key(assignments@, solved@[si2].1@[ej2].0@),
                forall|si2: int, ej2: int| #![trigger solved@[si2].1@[ej2]]
                    0 <= si2 < si && 0 <= ej2 < solved@[si2].1@.len() && solved@[si2].0 == fid
                        ==> spec_has_key(assignments@, solved@[si2].1@[ej2].0@),
                            forall|ej2: int|
                                0 <= ej2 < e ==> spec_has_key(
                                    assignments@,
                                    (#[trigger] solved@[si as int].1@[ej2]).0@,
                                ),
                            special ==> (si == 0 && spec_keys_unique(lst) && lst == solved@[0].1@
                                && assignments@.len() == e && (forall|j: int|
                                0 <= j < e ==> (#[trigger] assignments@[j]).0@ == lst[j].0@
                                    && assignments@[j].1 == lst[j].1)),
                        decreases el - e,
                    {
                        let already = match assign_lookup(&assignments, &solved[si].1[e].0) {
                            Some(_) => true,
                            None => false,
                        };
                        proof {
                            if special && already {
                                // distinct keys in one list: the next entry
                                // cannot be present yet
                                let w = choose|w: int|
                                    0 <= w < assignments@.len() && (#[trigger] assignments@[w]).0@
                                        == solved@[si as int].1@[e as int].0@;
                                assert(lst[w].0@ == lst[e as int].0@);
                                assert(false);
                            }
                        }
                        if !already {
                            let ghost a0 = assignments@;
                            let entry = (solved[si].1[e].0.clone(), solved[si].1[e].1);
                            assignments.push(entry);
                            proof {
                                assert(assignments@.last().0@ == solved@[si as int].1@[e as int].0@);
                                assert(assignments@.last().1 == solved@[si as int].1@[e as int].1);
                                assert(spec_assignable(syms, assignments@.last().0@));
                                assert forall|p: int, q: int|
                                    0 <= p < q < assignments@.len() implies (
                                #[trigger] assignments@[p]).0@ != (#[trigger] assignments@[q]).0@ by {
                                    if q == assignments@.len() - 1 {
                                        assert(assignments@[p] == a0[p]);
                                        assert(!spec_has_key(a0, assignments@[q].0@));
                                    } else {
                                        assert(assignments@[p] == a0[p] && assignments@[q] == a0[q]);
                                    }
                                }
                                // what was emitted stays emitted
                                assert forall|kk: Seq<char>|
                                    spec_has_key(a0, kk) implies spec_has_key(
                                    assignments@,
                                    kk,
                                ) by {
                                    let w = choose|w: int|
                                        0 <= w < a0.len() && (#[trigger] a0[w]).0@ == kk;
                                    assert(assignments@[w].0@ == kk);
                                }
                                // and every entry still has its source
                                assert forall|w: int| #![trigger assignments@[w]]
                                    0 <= w < assignments@.len() implies spec_sourced(
                                    solved@,
                                    assignments@[w],
                                ) by {
                                    if w < assignments@.len() - 1 {
                                        assert(assignments@[w] == a0[w]);
                                    } else {
                                        assert(solved@[si as int].1@[e as int].0@ == assignments@[
                                            w
                                        ].0@ && solved@[si as int].1@[e as int].1 == assignments@[
                                            w
                                        ].1);
                                    }
                                }
                            }
                        }
                        e += 1;
                    }
                    proof {
                        if special {
                            assert(spec_emitted_exactly(assignments@, lst));
                        }
                        // the whole list of this symbol is now emitted
                        assert forall|si2: int, ej2: int| #![trigger solved@[si2].1@[ej2]]
                            0 <= si2 < si + 1 && 0 <= ej2 < solved@[si2].1@.len() && solved@[
                            si2
                        ].0 == fid implies spec_has_key(assignments@, solved@[si2].1@[ej2].0@) by {}
                    }
                }
                si += 1;
            }
            proof {
                // everything fulfilled up to and including this symbol is
                // emitted
                assert forall|si2: int, ej2: int| #![trigger solved@[si2].1@[ej2]]
                    0 <= si2 < solved@.len() && 0 <= ej2 < solved@[si2].1@.len() && (exists|
                        fp: int,
                    |
                        0 <= fp < f + 1 && (#[trigger] fulfilled@[fp]).0 == solved@[si2].0)
                    implies spec_has_key(assignments@, solved@[si2].1@[ej2].0@) by {
                    let fp = choose|fp: int|
                        0 <= fp < f + 1 && (#[trigger] fulfilled@[fp]).0 == solved@[si2].0;
                }
            }
            f += 1;
        }
        // prune the emitted symbols from the remaining dependency sets
        let ghost rem0 = remaining@;
        let rl = remaining.len();
        let mut ri: usize = 0;
        while ri < rl
            invariant
                rl == remaining@.len(),
                rem0.len() == rl,
                0 <= ri <= rl,
                forall|j: int| 0 <= j < rl ==> (#[trigger] remaining@[j]).0 == rem0[j].0,
            decreases rl - ri,
        {
            let old_deps_len = remaining[ri].1.len();
            let mut kept: Vec<SymbolId> = Vec::new();
            let mut di: usize = 0;
            while di < old_deps_len
                invariant
                    rl == remaining@.len(),
                    ri < rl,
                    old_deps_len == remaining@[ri as int].1@.len(),
                    0 <= di <= old_deps_len,
                decreases old_deps_len - di,
            {
                let d = remaining[ri].1[di];
                let mut emitted = false;
                let mut fj: usize = 0;
                while fj < fulfilled.len()
                    invariant
                        0 <= fj <= fulfilled@.len(),
                    decreases fulfilled@.len() - fj,
                {
                    if fulfilled[fj].0 == d {
                        emitted = true;
                    }
                    fj += 1;
                }
                if !emitted {
                    kept.push(d);
                }
                di += 1;
            }
            let slot = &mut remaining[ri];
            slot.1 = kept;
            ri += 1;
        }
        proof {
            // the prune kept every symbol in place
            assert forall|id: SymbolId|
                spec_has_id(remaining@, id) <==> spec_has_id(rem0, id) by {
                if spec_has_id(remaining@, id) {
                    let i = choose|i: int|
                        0 <= i < remaining@.len() && (#[trigger] remaining@[i]).0 == id;
                    assert(rem0[i].0 == id);
                }
                if spec_has_id(rem0, id) {
                    let i = choose|i: int| 0 <= i < rem0.len() && (#[trigger] rem0[i]).0 == id;
                    assert(remaining@[i].0 == id);
                }
            }
        }
        dependencies = remaining;
        proof {
            assert(dependencies@.len() < deps_in.len());
            // everything that left the queue this round was fulfilled and
            // has been emitted
            assert forall|si2: int, ej2: int| #![trigger solved@[si2].1@[ej2]]
                0 <= si2 < solved@.len() && 0 <= ej2 < solved@[si2].1@.len() && spec_has_id(
                    deps0@,
                    solved@[si2].0,
                ) && !spec_has_id(dependencies@, solved@[si2].0) implies spec_has_key(
                assignments@,
                solved@[si2].1@[ej2].0@,
            ) by {
                let id = solved@[si2].0;
                if spec_has_id(deps_in, id) {
                    assert(spec_has_id(fulfilled@, id));
                    let fp = choose|fp: int|
                        0 <= fp < fulfilled@.len() && (#[trigger] fulfilled@[fp]).0 == id;
                }
            }
        }
    }
    assignments
}

/// Everything a satisfaction run promises of its result, for a seed
/// name against a schema state.
pub open spec fn spec_satisfy_post(
    syms: Seq<Symbol>,
    name: Seq<char>,
    config: SolverConfig,
    r: Result<Vec<(String, Tristate)>, SolveError>,
) -> bool {
    // a name the schema does not hold is an invalid symbol
    &&& (spec_lookup(syms, name) is None ==> r == Err::<Vec<(String, Tristate)>, SolveError>(
        SolveError::InvalidSymbol,
    ))
    // a successful run assigns each symbol once, and only assignable ones
    &&& (r is Ok ==> spec_keys_unique(r->Ok_0@))
    &&& (r is Ok ==> forall|j: int|
        0 <= j < r->Ok_0@.len() ==> spec_assignable(syms, (#[trigger] r->Ok_0@[j]).0@))
    // a promptless seed with several reverse-dependency clauses never
    // succeeds
    &&& (r is Ok ==> (spec_lookup(syms, name) matches Some(t) && !(syms[t].prompt_count == 0 && (
    syms[t].rev_expr matches Some(e) && e.spec_or_clauses().len() >= 2))))
    // the non-recursive run is the structural solver on the seed's
    // effective constraint: its failure is returned; with every assigned
    // name resolving, an unambiguous seed succeeds and an ambiguous one
    // is reported with its clauses; a success carries exactly the
    // solution restricted to the assignable symbols
    &&& (!config.recursive ==> (spec_lookup(syms, name) matches Some(t) ==> (match spec_solve(
        syms,
        spec_effective_expr(syms[t]),
        config.desired_value,
    ) {
        Err(k) => r is Err && solve_err_corresponds(r->Err_0, k),
        Ok(m) => (spec_all_resolve(syms, m) && !spec_seed_ambiguous(syms[t]) ==> r is Ok) && (
        spec_all_resolve(syms, m) && spec_seed_ambiguous(syms[t]) ==> (r matches Err(
            SolveError::AmbiguousSolution { symbols },
        ) && symbols@.len() == 1 && symbols@[0].symbol@ == syms[t].spec_name_chars() && (
        syms[t].rev_expr matches Some(re) && symbols@[0].clauses@.len()
            == re.spec_or_clauses().len() && (forall|i: int|
            0 <= i < re.spec_or_clauses().len() ==> (#[trigger] symbols@[0].clauses@[i])@
                == crate::display::spec_display(syms, re.spec_or_clauses()[i]))))) && (r matches Ok(
            l,
        ) ==> (forall|j: int|
            0 <= j < l@.len() ==> m.dom().contains((#[trigger] l@[j]).0@) && m[l@[j].0@]
                == l@[j].1) && (forall|kk: Seq<char>|
            #[trigger] m.dom().contains(kk) && spec_assignable(syms, kk) ==> spec_has_key(
                l@,
                kk,
            ))),
    })))
    // in the recursive run an ambiguous seed is reported first
    &&& (config.recursive ==> (spec_lookup(syms, name) matches Some(t) ==> (spec_seed_ambiguous(
        syms[t],
    ) ==> (r matches Err(SolveError::AmbiguousSolution { symbols }) ==> (symbols@.len() >= 1
        && symbols@[0].symbol@ == syms[t].spec_name_chars() && (syms[t].rev_expr matches Some(re)
        && symbols@[0].clauses@.len() == re.spec_or_clauses().len() && (forall|i: int|
        0 <= i < re.spec_or_clauses().len() ==> (#[trigger] symbols@[0].clauses@[i])@
            == crate::display::spec_display(syms, re.spec_or_clauses()[i]))))))))
    // a successful recursive run carries at least the seed's own solution,
    // restricted to the assignable symbols
    &&& (config.recursive ==> (spec_lookup(syms, name) matches Some(t) ==> (r matches Ok(l) ==> (
    match spec_solve(syms, spec_effective_expr(syms[t]), config.desired_value) {
        Ok(m) => forall|kk: Seq<char>|
            #[trigger] m.dom().contains(kk) && spec_assignable(syms, kk) ==> spec_has_key(l@, kk),
        Err(_) => true,
    }))))
    // an unambiguous seed whose constraint already holds succeeds with
    // nothing to do, in the recursive run too
    &&& (config.recursive ==> (spec_lookup(syms, name) matches Some(t) ==> ((spec_solve(
        syms,
        spec_effective_expr(syms[t]),
        config.desired_value,
    ) == Ok::<Map<Seq<char>, Tristate>, SolveErrSpec>(Map::empty()) && !spec_seed_ambiguous(
        syms[t],
    )) ==> (r matches Ok(l) && l@.len() == 0))))
}

/// Derive an ordered list of assignments that would make the named symbol
/// assumable at the desired value.  Each encountered symbol is satisfied
/// through the structural solver against its effective constraint
/// expression; in recursive mode the symbols a solution depends on are
/// chased in turn, with cross-symbol conflicts detected over the merged
/// assignments and the output emitted in dependency order.  A promptless
/// symbol offering several reverse-dependency clauses makes the result an
/// `AmbiguousSolution`; an unknown name is an `InvalidSymbol`.
///
/// The contract (`spec_satisfy_post`) pins the non-recursive run exactly
/// against the solver, and for the recursive run pins failure modes, the
/// seed's solution and an already-satisfied seed; the dependency-ordered
/// emission with insertion-order ties that `emit_ordered` performs is not
/// restated in the contract, as that would take a functional model of the
/// whole transitive walk.
pub fn satisfy(schema: &Schema, symbol: String, config: &SolverConfig) -> (r: Result<
    Vec<(String, Tristate)>,
    SolveError,
>)
    requires
        schema.wf(),
    ensures
        spec_satisfy_post(schema.symbols@, symbol@, *config, r),
{
    let ghost syms = schema.symbols@;
    let t = match schema.symbol(symbol.as_str()) {
        Some(t) => t,
        None => {
            return Err(SolveError::InvalidSymbol);
        },
    };
    let n = schema.symbols.len();
    let mut ambiguities: Vec<Ambiguity> = Vec::new();
    let mut dependencies: Vec<(SymbolId, Vec<SymbolId>)> = Vec::new();
    let mut solved: Vec<(SymbolId, Assignments)> = Vec::new();
    if !config.recursive {
        // non-recursive mode: the seed symbol alone
        match solve_one(schema, t, config.desired_value, &mut ambiguities) {
            Ok((filtered, _depends_on)) => {
                solved.push((t, filtered));
                let empty_deps: Vec<SymbolId> = Vec::new();
                dependencies.push((t, empty_deps));
            },
            Err(e) => {
                return Err(e);
            },
        }
    } else {
        let mut done: Vec<bool> = Vec::new();
        let mut f0: usize = 0;
        while f0 < n
            invariant
                0 <= f0 <= n,
                done@.len() == f0,
                forall|j: int| 0 <= j < f0 ==> !(#[trigger] done@[j]),
            decreases n - f0,
        {
            done.push(false);
            f0 += 1;
        }
        proof {
            lemma_count_all_false(done@);
        }
        let mut done_count: usize = 0;
        let mut queue: Vec<SymbolId> = Vec::new();
        queue.push(t);
        proof {
            assert(queue@[0] == t);
        }
        while queue.len() > 0
            invariant
                config.recursive,
                schema.wf(),
                syms == schema.symbols@,
                n == syms.len(),
                t < n,
                spec_lookup(syms, symbol@) == Some(t as int),
                done@.len() == n,
                done_count as int == spec_count_true(done@),
                done_count <= n,
                forall|j: int| 0 <= j < queue@.len() ==> (#[trigger] queue@[j]) < n,
                done@[t as int] || queue@.contains(t),
                !done@[t as int] ==> done_count == 0 && ambiguities@.len() == 0 && queue@ =~= seq![
                    t,
                ] && solved@.len() == 0 && dependencies@.len() == 0,
                done@[t as int] ==> (solved@.len() >= 1 && solved@[0].0 == t && spec_has_id(
                    dependencies@,
                    t,
                ) && (spec_solve(
                    syms,
                    spec_effective_expr(syms[t as int]),
                    config.desired_value,
                ) matches Ok(m) && (forall|kk: Seq<char>|
                    #[trigger] m.dom().contains(kk) && spec_assignable(syms, kk) ==> spec_has_key(
                        solved@[0].1@,
                        kk,
                    )))),
                (done@[t as int] && spec_solve(
                    syms,
                    spec_effective_expr(syms[t as int]),
                    config.desired_value,
                ) == Ok::<Map<Seq<char>, Tristate>, SolveErrSpec>(Map::empty())
                    && !spec_seed_ambiguous(syms[t as int])) ==> (queue@.len() == 0
                    && solved@.len() == 1 && solved@[0].1@.len() == 0 && dependencies@.len() == 1
                    && dependencies@[0].0 == t && dependencies@[0].1@.len() == 0
                    && ambiguities@.len() == 0),
                done@[t as int] && spec_seed_ambiguous(syms[t as int]) ==> ambiguities@.len() >= 1
                    && ambiguities@[0].symbol@ == syms[t as int].spec_name_chars() && (syms[
                    t as int
                ].rev_expr matches Some(re) && ambiguities@[0].clauses@.len()
                    == re.spec_or_clauses().len() && (forall|i: int|
                    0 <= i < re.spec_or_clauses().len() ==> (#[trigger] ambiguities@[0].clauses@[
                        i
                    ])@ == crate::display::spec_display(syms, re.spec_or_clauses()[i]))),
                (done@[t as int] && syms[t as int].prompt_count == 0 && (syms[t as int].rev_expr
                    matches Some(e) && e.spec_or_clauses().len() >= 2)) ==> ambiguities@.len() >= 1,
                forall|i: int, j: int|
                    0 <= i < solved@.len() && 0 <= j < solved@[i].1@.len() ==> spec_assignable(
                        syms,
                        (#[trigger] solved@[i].1@[j]).0@,
                    ),
                forall|i: int| 0 <= i < solved@.len() ==> spec_keys_unique(
                    (#[trigger] solved@[i]).1@,
                ),
            decreases n - done_count, queue.len(),
        {
            let ghost q0 = queue@;
            let ghost sv0 = solved@;
            let ghost dp0 = dependencies@;
            let ghost done0 = done@;
            let id = queue.remove(0);
            proof {
                assert(id == q0[0]);
                if !done@[t as int] && id != t {
                    let w = choose|w: int| 0 <= w < q0.len() && q0[w] == t;
                    assert(queue@[w - 1] == t);
                }
            }
            if !done[id] {
                let ghost d0 = done@;
                let slot = &mut done[id];
                *slot = true;
                proof {
                    assert(done@ =~= d0.update(id as int, true));
                    lemma_count_true_update(d0, id as int);
                    lemma_count_true_le(done@);
                }
                done_count += 1;
                match solve_one(schema, id, config.desired_value, &mut ambiguities) {
                    Ok((filtered, depends_on)) => {
                        solved.push((id, filtered));
                        let dl = depends_on.len();
                        let ghost qpre = queue@;
                        let mut k2: usize = 0;
                        while k2 < dl
                            invariant
                                dl == depends_on@.len(),
                                0 <= k2 <= dl,
                                n == syms.len(),
                                queue@ == qpre + depends_on@.take(k2 as int),
                                forall|j: int|
                                    0 <= j < depends_on@.len() ==> (#[trigger] depends_on@[j]) < n,
                                forall|j: int| 0 <= j < queue@.len() ==> (#[trigger] queue@[j]) < n,
                                done@[t as int] || queue@.contains(t),
                            decreases dl - k2,
                        {
                            let ghost qb = queue@;
                            queue.push(depends_on[k2]);
                            proof {
                                assert(queue@ =~= qpre + depends_on@.take(k2 + 1));
                                if !done@[t as int] {
                                    let w = choose|w: int| 0 <= w < qb.len() && qb[w] == t;
                                    assert(queue@[w] == t);
                                }
                            }
                            k2 += 1;
                        }
                        proof {
                            assert(depends_on@.take(dl as int) =~= depends_on@);
                        }
                        dependencies.push((id, depends_on));
                        proof {
                            if id == t {
                                assert(solved@[0].0 == t);
                                assert(dependencies@[dependencies@.len() - 1].0 == t);
                                assert(spec_solve(
                                    syms,
                                    spec_effective_expr(syms[t as int]),
                                    config.desired_value,
                                ) is Ok);
                            } else {
                                assert(done0[t as int]);
                                assert(solved@[0] == sv0[0]);
                                let w = choose|w: int|
                                    0 <= w < dp0.len() && (#[trigger] dp0[w]).0 == t;
                                assert(dependencies@[w].0 == t);
                            }
                        }
                    },
                    Err(e) => {
                        proof {
                            lemma_solve_not_ambiguous(
                                syms,
                                spec_effective_expr(syms[id as int]),
                                config.desired_value,
                            );
                        }
                        return Err(e);
                    },
                }
            }
        }
        proof {
            assert(done@[t as int]);
        }
    }
    match check_conflicts(&solved) {
        Ok(_) => {},
        Err(e) => {
            proof {
                if solved@.len() <= 1 {
                    assert(false);
                }
            }
            return Err(e);
        },
    }
    let out = emit_ordered(Ghost(syms), &solved, dependencies);
    proof {
        if !config.recursive {
            // the run solved the seed alone, so the emitted list is
            // exactly the seed's restricted solution
            assert(spec_emitted_exactly(out@, solved@[0].1@));
            let eff = spec_effective_expr(syms[t as int]);
            let sres = spec_solve(syms, eff, config.desired_value);
            if sres is Ok {
                let msol2 = sres->Ok_0;
                assert forall|j: int|
                    0 <= j < out@.len() implies msol2.dom().contains((#[trigger] out@[j]).0@)
                    && msol2[out@[j].0@] == out@[j].1 by {
                    assert(out@[j].0@ == solved@[0].1@[j].0@ && out@[j].1 == solved@[0].1@[j].1);
                }
                assert forall|kk: Seq<char>|
                    #[trigger] msol2.dom().contains(kk) && spec_assignable(syms, kk)
                    implies spec_has_key(out@, kk) by {
                    assert(spec_has_key(solved@[0].1@, kk));
                    let w = choose|w: int|
                        0 <= w < solved@[0].1@.len() && (#[trigger] solved@[0].1@[w]).0@ == kk;
                    assert(out@[w].0@ == kk);
                }
            }
        }
    }
    if ambiguities.len() > 0 {
        return Err(SolveError::AmbiguousSolution { symbols: ambiguities });
    }
    Ok(out)
}

/// The positive fragment: conjunctions and disjunctions of constants and
/// bare, named, tristate-typed symbols.  No negation, no comparison.
pub open spec fn spec_positive_tristate(syms: Seq<Symbol>, e: Expr) -> bool
    decreases e,
{
    match e {
        Expr::Const(_) => true,
        Expr::And(a, b) => spec_positive_tristate(syms, *a) && spec_positive_tristate(syms, *b),
        Expr::Or(a, b) => spec_positive_tristate(syms, *a) && spec_positive_tristate(syms, *b),
        Expr::Terminal(t) => match t {
            Terminal::Symbol(s) => s < syms.len() && syms[s as int].name is Some && syms[
                s as int
            ].sym_type == SymbolType::Tristate,
            _ => false,
        },
        Expr::Not(_) => false,
    }
}

/// In the positive fragment, evaluation never fails, in any state of the
/// same size.
proof fn lemma_positive_eval_ok(syms: Seq<Symbol>, s2: Seq<Symbol>, e: Expr)
    requires
        spec_positive_tristate(syms, e),
        s2.len() == syms.len(),
    ensures
        spec_eval(s2, e) is Ok,
    decreases e,
{
    match e {
        Expr::And(a, b) => {
            lemma_positive_eval_ok(syms, s2, *a);
            lemma_positive_eval_ok(syms, s2, *b);
        },
        Expr::Or(a, b) => {
            lemma_positive_eval_ok(syms, s2, *a);
            lemma_positive_eval_ok(syms, s2, *b);
        },
        _ => {},
    }
}

/// Every value a positive-fragment solution assigns is the desired value
/// itself.
proof fn lemma_positive_solve_values(syms: Seq<Symbol>, e: Expr, desired: Tristate)
    requires
        spec_positive_tristate(syms, e),
        spec_solve(syms, e, desired) is Ok,
    ensures
        forall|k: Seq<char>|
            #[trigger] spec_solve(syms, e, desired)->Ok_0.dom().contains(k) ==> spec_solve(
                syms,
                e,
                desired,
            )->Ok_0[k] == desired,
    decreases e,
{
    let m = spec_solve(syms, e, desired)->Ok_0;
    match spec_eval(syms, e) {
        Err(_) => {},
        Ok(v) => {
            if desired.spec_le(v) {
            } else {
                match e {
                    Expr::And(a, b) => {
                        lemma_positive_solve_values(syms, *a, desired);
                        lemma_positive_solve_values(syms, *b, desired);
                    },
                    Expr::Or(a, b) => {
                        match spec_solve(syms, *a, desired) {
                            Ok(_) => {
                                lemma_positive_solve_values(syms, *a, desired);
                            },
                            Err(_) => {
                                lemma_positive_solve_values(syms, *b, desired);
                            },
                        }
                    },
                    _ => {},
                }
            }
        },
    }
}

/// A satisfied positive expression stays satisfied when symbols move to
/// the desired value: evaluation is monotone over the fragment.
proof fn lemma_positive_eval_persists(
    syms: Seq<Symbol>,
    s2: Seq<Symbol>,
    e: Expr,
    desired: Tristate,
)
    requires
        spec_positive_tristate(syms, e),
        s2.len() == syms.len(),
        forall|j: int|
            0 <= j < syms.len() ==> (#[trigger] s2[j]).cur_tri == syms[j].cur_tri || s2[j].cur_tri
                == desired,
        spec_eval(syms, e) is Ok,
        desired.spec_le(spec_eval(syms, e)->Ok_0),
    ensures
        spec_eval(s2, e) is Ok,
        desired.spec_le(spec_eval(s2, e)->Ok_0),
    decreases e,
{
    lemma_positive_eval_ok(syms, s2, e);
    match e {
        Expr::And(a, b) => {
            lemma_positive_eval_persists(syms, s2, *a, desired);
            lemma_positive_eval_persists(syms, s2, *b, desired);
        },
        Expr::Or(a, b) => {
            lemma_positive_eval_ok(syms, s2, *a);
            lemma_positive_eval_ok(syms, s2, *b);
            lemma_positive_eval_ok(syms, syms, *a);
            lemma_positive_eval_ok(syms, syms, *b);
            if desired.spec_le(spec_eval(syms, *a)->Ok_0) {
                lemma_positive_eval_persists(syms, s2, *a, desired);
            } else {
                lemma_positive_eval_persists(syms, s2, *b, desired);
            }
        },
        _ => {},
    }
}

/// Whether `s2` is `syms` with the assignments of `m` applied: every
/// symbol whose name the map covers takes the mapped value, and nothing
/// else moves.
pub open spec fn spec_tri_applied(
    syms: Seq<Symbol>,
    m: Map<Seq<char>, Tristate>,
    s2: Seq<Symbol>,
) -> bool {
    s2.len() == syms.len() && forall|j: int|
        0 <= j < syms.len() ==> (#[trigger] s2[j]).cur_tri == (match syms[j].name {
            Some(nm) => if m.dom().contains(nm@) {
                m[nm@]
            } else {
                syms[j].cur_tri
            },
            None => syms[j].cur_tri,
        })
}

proof fn lemma_solver_sound_positive_rec(
    syms: Seq<Symbol>,
    s2: Seq<Symbol>,
    e: Expr,
    desired: Tristate,
    m: Map<Seq<char>, Tristate>,
)
    requires
        desired == Tristate::Mod || desired == Tristate::Yes,
        spec_positive_tristate(syms, e),
        spec_solve(syms, e, desired) is Ok,
        forall|k: Seq<char>|
            #[trigger] spec_solve(syms, e, desired)->Ok_0.dom().contains(k) ==> m.dom().contains(k),
        forall|k: Seq<char>| #[trigger] m.dom().contains(k) ==> m[k] == desired,
        spec_tri_applied(syms, m, s2),
    ensures
        spec_eval(s2, e) is Ok,
        desired.spec_le(spec_eval(s2, e)->Ok_0),
    decreases e,
{
    lemma_positive_eval_ok(syms, syms, e);
    lemma_positive_eval_ok(syms, s2, e);
    let v = spec_eval(syms, e)->Ok_0;
    if desired.spec_le(v) {
        assert(forall|j: int|
            0 <= j < syms.len() ==> (#[trigger] s2[j]).cur_tri == syms[j].cur_tri || s2[j].cur_tri
                == desired);
        lemma_positive_eval_persists(syms, s2, e, desired);
    } else {
        match e {
            Expr::And(a, b) => {
                let ma = spec_solve(syms, *a, desired)->Ok_0;
                let mb = spec_solve(syms, *b, desired)->Ok_0;
                assert(spec_solve(syms, *a, desired) is Ok);
                assert(spec_solve(syms, *b, desired) is Ok);
                assert(spec_solve(syms, e, desired)->Ok_0 == ma.union_prefer_right(mb));
                assert forall|k: Seq<char>| #[trigger] ma.dom().contains(k) implies m.dom().contains(
                    k,
                ) by {
                    assert(ma.union_prefer_right(mb).dom().contains(k));
                    assert(spec_solve(syms, e, desired)->Ok_0.dom().contains(k));
                }
                assert forall|k: Seq<char>| #[trigger] mb.dom().contains(k) implies m.dom().contains(
                    k,
                ) by {
                    assert(ma.union_prefer_right(mb).dom().contains(k));
                    assert(spec_solve(syms, e, desired)->Ok_0.dom().contains(k));
                }
                lemma_solver_sound_positive_rec(syms, s2, *a, desired, m);
                lemma_solver_sound_positive_rec(syms, s2, *b, desired, m);
            },
            Expr::Or(a, b) => {
                match spec_solve(syms, *a, desired) {
                    Ok(_) => {
                        lemma_solver_sound_positive_rec(syms, s2, *a, desired, m);
                        lemma_positive_eval_ok(syms, s2, *b);
                    },
                    Err(_) => {
                        lemma_solver_sound_positive_rec(syms, s2, *b, desired, m);
                        lemma_positive_eval_ok(syms, s2, *a);
                    },
                }
            },
            Expr::Const(_) => {},
            Expr::Terminal(t) => {
                match t {
                    Terminal::Symbol(sid) => {
                        let nm = syms[sid as int].name->Some_0;
                        assert(spec_solve(syms, e, desired)->Ok_0.dom().contains(nm@));
                        assert(m.dom().contains(nm@));
                        assert(s2[sid as int].cur_tri == desired);
                    },
                    _ => {},
                }
            },
            Expr::Not(_) => {},
        }
    }
}

/// Soundness of the structural solver on the positive fragment: where the
/// expression is built from `And`, `Or`, constants and bare named
/// tristate symbols, applying the returned assignments raises the
/// expression to at least the desired value.  Outside the fragment the
/// claim does not hold of this solver: a branch may be accepted for its
/// current evaluation and later invalidated by another branch's
/// assignment.
pub proof fn lemma_solver_sound_positive(
    syms: Seq<Symbol>,
    s2: Seq<Symbol>,
    e: Expr,
    desired: Tristate,
)
    requires
        desired == Tristate::Mod || desired == Tristate::Yes,
        spec_positive_tristate(syms, e),
        spec_solve(syms, e, desired) is Ok,
        spec_tri_applied(syms, spec_solve(syms, e, desired)->Ok_0, s2),
    ensures
        spec_eval(s2, e) is Ok,
        desired.spec_le(spec_eval(s2, e)->Ok_0),
{
    lemma_positive_solve_values(syms, e, desired);
    lemma_solver_sound_positive_rec(syms, s2, e, desired, spec_solve(syms, e, desired)->Ok_0);
}

} // verus!
