//! The dependency-expression algebra: a tagged tree over boolean and
//! comparison terminals, evaluated to a tristate, with structural
//! decomposition into top-level clauses.

use vstd::prelude::*;

use crate::symbol::{Symbol, SymbolId, SymbolType};
use crate::tristate::Tristate;

verus! {

/// A leaf of an expression: a bare symbol or a comparison of two symbols.
#[derive(Debug, Clone, Copy, PartialEq, Eq, Structural)]
pub enum Terminal {
    Eq(SymbolId, SymbolId),
    Neq(SymbolId, SymbolId),
    Lth(SymbolId, SymbolId),
    Leq(SymbolId, SymbolId),
    Gth(SymbolId, SymbolId),
    Geq(SymbolId, SymbolId),
    Symbol(SymbolId),
}

/// A dependency expression over symbols of one schema.
#[derive(Debug, PartialEq, Eq)]
pub enum Expr {
    Const(bool),
    Terminal(Terminal),
    And(Box<Expr>, Box<Expr>),
    Or(Box<Expr>, Box<Expr>),
    Not(Box<Expr>),
}

/// The comparison carried by a comparison terminal.
#[derive(Debug, Clone, Copy, PartialEq, Eq, Structural)]
pub enum CmpOp {
    Eq,
    Neq,
    Lth,
    Leq,
    Gth,
    Geq,
}

/// Evaluation failures.
#[derive(Debug, Clone, PartialEq, Eq)]
pub enum EvalError {
    /// A terminal whose two symbols are neither both tristate-carrying nor
    /// both integer-carrying.
    InvalidTerminal { terminal: Terminal },
    /// An integer-carrying symbol whose payload cannot be parsed; carries
    /// the symbol's name.
    InvalidIntegerSymbol { symbol: String },
}

/// The mathematical shape of an evaluation failure, with the offending
/// symbol's name as a character sequence.
pub enum EvalErrorSpec {
    InvalidTerminal { terminal: Terminal },
    InvalidIntegerSymbol { symbol: Seq<char> },
}

/// Whether an evaluation error reports the failure that the specification
/// names: same kind, same terminal or symbol name.
pub open spec fn eval_err_corresponds(e: EvalError, k: EvalErrorSpec) -> bool {
    match (e, k) {
        (
            EvalError::InvalidTerminal { terminal: t1 },
            EvalErrorSpec::InvalidTerminal { terminal: t2 },
        ) => t1 == t2,
        (
            EvalError::InvalidIntegerSymbol { symbol: s1 },
            EvalErrorSpec::InvalidIntegerSymbol { symbol: s2 },
        ) => s1@ == s2,
        _ => false,
    }
}

/// Symbols whose current value is carried as a tristate.
pub open spec fn spec_tri_compatible(t: SymbolType) -> bool {
    t == SymbolType::Tristate || t == SymbolType::Boolean
}

/// Symbols whose current value is read as an integer in comparisons; many
/// `Unknown` symbols exist only to hold a constant value.
pub open spec fn spec_int_compatible(t: SymbolType) -> bool {
    t == SymbolType::Int || t == SymbolType::Hex || t == SymbolType::Unknown
}

pub open spec fn spec_cmp_tri(op: CmpOp, a: Tristate, b: Tristate) -> bool {
    match op {
        CmpOp::Eq => a == b,
        CmpOp::Neq => a != b,
        CmpOp::Lth => a.spec_lt(b),
        CmpOp::Leq => a.spec_le(b),
        CmpOp::Gth => b.spec_lt(a),
        CmpOp::Geq => b.spec_le(a),
    }
}

pub open spec fn spec_cmp_int(op: CmpOp, a: u64, b: u64) -> bool {
    match op {
        CmpOp::Eq => a == b,
        CmpOp::Neq => a != b,
        CmpOp::Lth => a < b,
        CmpOp::Leq => a <= b,
        CmpOp::Gth => a > b,
        CmpOp::Geq => a >= b,
    }
}

impl Terminal {
    /// All symbol ids in the terminal address the arena.
    pub open spec fn wf(self, n: nat) -> bool {
        match self {
            Terminal::Eq(a, b) => a < n && b < n,
            Terminal::Neq(a, b) => a < n && b < n,
            Terminal::Lth(a, b) => a < n && b < n,
            Terminal::Leq(a, b) => a < n && b < n,
            Terminal::Gth(a, b) => a < n && b < n,
            Terminal::Geq(a, b) => a < n && b < n,
            Terminal::Symbol(s) => s < n,
        }
    }

    /// The comparison parts of the terminal; absent for a bare symbol.
    pub open spec fn spec_cmp_parts(self) -> Option<(CmpOp, SymbolId, SymbolId)> {
        match self {
            Terminal::Eq(a, b) => Some((CmpOp::Eq, a, b)),
            Terminal::Neq(a, b) => Some((CmpOp::Neq, a, b)),
            Terminal::Lth(a, b) => Some((CmpOp::Lth, a, b)),
            Terminal::Leq(a, b) => Some((CmpOp::Leq, a, b)),
            Terminal::Gth(a, b) => Some((CmpOp::Gth, a, b)),
            Terminal::Geq(a, b) => Some((CmpOp::Geq, a, b)),
            Terminal::Symbol(_) => None,
        }
    }
}

/// Evaluation of a terminal against the arena.  A comparison is possible
/// only when both symbols are tristate-carrying (compared as tristates) or
/// both integer-carrying (payloads parsed and compared as `u64`).
pub open spec fn spec_eval_terminal(syms: Seq<Symbol>, t: Terminal) -> Result<
    Tristate,
    EvalErrorSpec,
> {
    match t {
        Terminal::Symbol(id) => Ok(syms[id as int].cur_tri),
        _ => {
            let (op, a, b) = t.spec_cmp_parts()->Some_0;
            let sa = syms[a as int];
            let sb = syms[b as int];
            if spec_tri_compatible(sa.sym_type) && spec_tri_compatible(sb.sym_type) {
                Ok(Tristate::spec_from_bool(spec_cmp_tri(op, sa.cur_tri, sb.cur_tri)))
            } else if spec_int_compatible(sa.sym_type) && spec_int_compatible(sb.sym_type) {
                match sa.spec_int_val() {
                    None => Err(
                        EvalErrorSpec::InvalidIntegerSymbol { symbol: sa.spec_name_chars() },
                    ),
                    Some(va) => match sb.spec_int_val() {
                        None => Err(
                            EvalErrorSpec::InvalidIntegerSymbol { symbol: sb.spec_name_chars() },
                        ),
                        Some(vb) => Ok(Tristate::spec_from_bool(spec_cmp_int(op, va, vb))),
                    },
                }
            } else {
                Err(EvalErrorSpec::InvalidTerminal { terminal: t })
            }
        },
    }
}

/// Evaluation of an expression: `And` is the pointwise minimum, `Or` the
/// pointwise maximum, `Not` the inversion, a constant is its boolean lift,
/// and terminals evaluate as `spec_eval_terminal` says.  Failures propagate
/// left to right.
pub open spec fn spec_eval(syms: Seq<Symbol>, e: Expr) -> Result<Tristate, EvalErrorSpec>
    decreases e,
{
    match e {
        Expr::Const(b) => Ok(Tristate::spec_from_bool(b)),
        Expr::Terminal(t) => spec_eval_terminal(syms, t),
        Expr::And(a, b) => match spec_eval(syms, *a) {
            Ok(x) => match spec_eval(syms, *b) {
                Ok(y) => Ok(x.spec_min(y)),
                Err(k) => Err(k),
            },
            Err(k) => Err(k),
        },
        Expr::Or(a, b) => match spec_eval(syms, *a) {
            Ok(x) => match spec_eval(syms, *b) {
                Ok(y) => Ok(x.spec_max(y)),
                Err(k) => Err(k),
            },
            Err(k) => Err(k),
        },
        Expr::Not(a) => match spec_eval(syms, *a) {
            Ok(x) => Ok(x.spec_invert()),
            Err(k) => Err(k),
        },
    }
}

impl Expr {
    /// All symbol ids in the expression address the arena.
    pub open spec fn wf(self, n: nat) -> bool
        decreases self,
    {
        match self {
            Expr::Const(_) => true,
            Expr::Terminal(t) => t.wf(n),
            Expr::And(a, b) => a.wf(n) && b.wf(n),
            Expr::Or(a, b) => a.wf(n) && b.wf(n),
            Expr::Not(a) => a.wf(n),
        }
    }

    /// The left-to-right flattening of the top-level `Or` structure.
    pub open spec fn spec_or_clauses(self) -> Seq<Expr>
        decreases self,
    {
        match self {
            Expr::Or(a, b) => a.spec_or_clauses() + b.spec_or_clauses(),
            _ => seq![self],
        }
    }

    /// The left-to-right flattening of the top-level `And` structure.
    pub open spec fn spec_and_clauses(self) -> Seq<Expr>
        decreases self,
    {
        match self {
            Expr::And(a, b) => a.spec_and_clauses() + b.spec_and_clauses(),
            _ => seq![self],
        }
    }

    /// A structural copy.
    pub fn dup(&self) -> (r: Expr)
        ensures
            r == *self,
        decreases self,
    {
        match self {
            Expr::Const(b) => Expr::Const(*b),
            Expr::Terminal(t) => Expr::Terminal(*t),
            Expr::And(a, b) => Expr::And(Box::new(a.dup()), Box::new(b.dup())),
            Expr::Or(a, b) => Expr::Or(Box::new(a.dup()), Box::new(b.dup())),
            Expr::Not(a) => Expr::Not(Box::new(a.dup())),
        }
    }

    /// The top-level `Or` clauses, left to right: for `Or(a, b)` the
    /// clauses of `a` followed by those of `b`, else the expression itself.
    pub fn or_clauses(&self) -> (r: Vec<Expr>)
        ensures
            r@ == self.spec_or_clauses(),
        decreases self,
    {
        match self {
            Expr::Or(a, b) => {
                let mut v = a.or_clauses();
                let mut w = b.or_clauses();
                v.append(&mut w);
                v
            },
            _ => {
                let mut v = Vec::new();
                v.push(self.dup());
                proof {
                    assert(v@ =~= self.spec_or_clauses());
                }
                v
            },
        }
    }

    /// The top-level `And` clauses, left to right.
    pub fn and_clauses(&self) -> (r: Vec<Expr>)
        ensures
            r@ == self.spec_and_clauses(),
        decreases self,
    {
        match self {
            Expr::And(a, b) => {
                let mut v = a.and_clauses();
                let mut w = b.and_clauses();
                v.append(&mut w);
                v
            },
            _ => {
                let mut v = Vec::new();
                v.push(self.dup());
                proof {
                    assert(v@ =~= self.spec_and_clauses());
                }
                v
            },
        }
    }

    /// Evaluate the expression against the arena.
    pub fn eval(&self, syms: &Vec<Symbol>) -> (r: Result<Tristate, EvalError>)
        requires
            self.wf(syms@.len() as nat),
        ensures
            match spec_eval(syms@, *self) {
                Ok(v) => r == Ok::<Tristate, EvalError>(v),
                Err(k) => r is Err && eval_err_corresponds(r->Err_0, k),
            },
        decreases self,
    {
        match self {
            Expr::Const(b) => Ok(Tristate::from_bool(*b)),
            Expr::Terminal(t) => eval_terminal(t, syms),
            Expr::And(a, b) => {
                let x = a.eval(syms)?;
                let y = b.eval(syms)?;
                Ok(x.min(y))
            },
            Expr::Or(a, b) => {
                let x = a.eval(syms)?;
                let y = b.eval(syms)?;
                Ok(x.max(y))
            },
            Expr::Not(a) => {
                let x = a.eval(syms)?;
                Ok(x.invert())
            },
        }
    }
}

impl Clone for Expr {
    /// Clones are structurally equal to the original.
    fn clone(&self) -> (r: Self)
        ensures
            r == *self,
    {
        self.dup()
    }
}

fn cmp_tri(op: CmpOp, a: Tristate, b: Tristate) -> (r: bool)
    ensures
        r == spec_cmp_tri(op, a, b),
{
    match op {
        CmpOp::Eq => a == b,
        CmpOp::Neq => !(a == b),
        CmpOp::Lth => a.lt(b),
        CmpOp::Leq => a.le(b),
        CmpOp::Gth => b.lt(a),
        CmpOp::Geq => b.le(a),
    }
}

fn cmp_int(op: CmpOp, a: u64, b: u64) -> (r: bool)
    ensures
        r == spec_cmp_int(op, a, b),
{
    match op {
        CmpOp::Eq => a == b,
        CmpOp::Neq => a != b,
        CmpOp::Lth => a < b,
        CmpOp::Leq => a <= b,
        CmpOp::Gth => a > b,
        CmpOp::Geq => a >= b,
    }
}

fn is_tri_compatible(t: SymbolType) -> (r: bool)
    ensures
        r == spec_tri_compatible(t),
{
    match t {
        SymbolType::Tristate | SymbolType::Boolean => true,
        _ => false,
    }
}

fn is_int_compatible(t: SymbolType) -> (r: bool)
    ensures
        r == spec_int_compatible(t),
{
    match t {
        SymbolType::Int | SymbolType::Hex | SymbolType::Unknown => true,
        _ => false,
    }
}

fn eval_cmp(t: &Terminal, op: CmpOp, a: SymbolId, b: SymbolId, syms: &Vec<Symbol>) -> (r: Result<
    Tristate,
    EvalError,
>)
    requires
        a < syms@.len(),
        b < syms@.len(),
        t.spec_cmp_parts() == Some((op, a, b)),
    ensures
        match spec_eval_terminal(syms@, *t) {
            Ok(v) => r == Ok::<Tristate, EvalError>(v),
            Err(k) => r is Err && eval_err_corresponds(r->Err_0, k),
        },
{
    let sa = &syms[a];
    let sb = &syms[b];
    if is_tri_compatible(sa.sym_type) && is_tri_compatible(sb.sym_type) {
        Ok(Tristate::from_bool(cmp_tri(op, sa.cur_tri, sb.cur_tri)))
    } else if is_int_compatible(sa.sym_type) && is_int_compatible(sb.sym_type) {
        match sa.get_int_value() {
            None => Err(EvalError::InvalidIntegerSymbol { symbol: sa.name_or_empty() }),
            Some(va) => match sb.get_int_value() {
                None => Err(EvalError::InvalidIntegerSymbol { symbol: sb.name_or_empty() }),
                Some(vb) => Ok(Tristate::from_bool(cmp_int(op, va, vb))),
            },
        }
    } else {
        Err(EvalError::InvalidTerminal { terminal: *t })
    }
}

fn eval_terminal(t: &Terminal, syms: &Vec<Symbol>) -> (r: Result<Tristate, EvalError>)
    requires
        t.wf(syms@.len() as nat),
    ensures
        match spec_eval_terminal(syms@, *t) {
            Ok(v) => r == Ok::<Tristate, EvalError>(v),
            Err(k) => r is Err && eval_err_corresponds(r->Err_0, k),
        },
{
    match t {
        Terminal::Symbol(id) => Ok(syms[*id].cur_tri),
        Terminal::Eq(a, b) => eval_cmp(t, CmpOp::Eq, *a, *b, syms),
        Terminal::Neq(a, b) => eval_cmp(t, CmpOp::Neq, *a, *b, syms),
        Terminal::Lth(a, b) => eval_cmp(t, CmpOp::Lth, *a, *b, syms),
        Terminal::Leq(a, b) => eval_cmp(t, CmpOp::Leq, *a, *b, syms),
        Terminal::Gth(a, b) => eval_cmp(t, CmpOp::Gth, *a, *b, syms),
        Terminal::Geq(a, b) => eval_cmp(t, CmpOp::Geq, *a, *b, syms),
    }
}

/// Negation inverts: where `e` evaluates, `Not(e)` evaluates to the
/// inversion of `e`'s value.
pub proof fn lemma_eval_not(syms: Seq<Symbol>, e: Expr)
    requires
        spec_eval(syms, e) is Ok,
    ensures
        spec_eval(syms, Expr::Not(Box::new(e))) == Ok::<Tristate, EvalErrorSpec>(
            spec_eval(syms, e)->Ok_0.spec_invert(),
        ),
{
}

/// Conjunction is the pointwise minimum of the two sides' values.
pub proof fn lemma_eval_and(syms: Seq<Symbol>, a: Expr, b: Expr)
    requires
        spec_eval(syms, a) is Ok,
        spec_eval(syms, b) is Ok,
    ensures
        spec_eval(syms, Expr::And(Box::new(a), Box::new(b))) == Ok::<Tristate, EvalErrorSpec>(
            spec_eval(syms, a)->Ok_0.spec_min(spec_eval(syms, b)->Ok_0),
        ),
{
}

/// Disjunction is the pointwise maximum of the two sides' values.
pub proof fn lemma_eval_or(syms: Seq<Symbol>, a: Expr, b: Expr)
    requires
        spec_eval(syms, a) is Ok,
        spec_eval(syms, b) is Ok,
    ensures
        spec_eval(syms, Expr::Or(Box::new(a), Box::new(b))) == Ok::<Tristate, EvalErrorSpec>(
            spec_eval(syms, a)->Ok_0.spec_max(spec_eval(syms, b)->Ok_0),
        ),
{
}

/// The `Or` clauses of `Or(a, b)` are the clauses of `a` followed by the
/// clauses of `b`.
pub proof fn lemma_or_clauses_split(a: Expr, b: Expr)
    ensures
        Expr::Or(Box::new(a), Box::new(b)).spec_or_clauses() == a.spec_or_clauses()
            + b.spec_or_clauses(),
{
}

/// The `And` clauses of `And(a, b)` are the clauses of `a` followed by the
/// clauses of `b`.
pub proof fn lemma_and_clauses_split(a: Expr, b: Expr)
    ensures
        Expr::And(Box::new(a), Box::new(b)).spec_and_clauses() == a.spec_and_clauses()
            + b.spec_and_clauses(),
{
}

/// Every expression has at least one `Or` clause and one `And` clause.
pub proof fn lemma_clauses_nonempty(e: Expr)
    ensures
        e.spec_or_clauses().len() >= 1,
        e.spec_and_clauses().len() >= 1,
    decreases e,
{
    match e {
        Expr::Or(a, b) => {
            lemma_clauses_nonempty(*a);
            lemma_clauses_nonempty(*b);
        },
        Expr::And(a, b) => {
            lemma_clauses_nonempty(*a);
            lemma_clauses_nonempty(*b);
        },
        _ => {},
    }
}

/// Every clause of a well-formed expression is well-formed.
pub proof fn lemma_clauses_wf(e: Expr, n: nat)
    requires
        e.wf(n),
    ensures
        forall|i: int| 0 <= i < e.spec_or_clauses().len() ==> (#[trigger] e.spec_or_clauses()[i]).wf(
            n,
        ),
        forall|i: int|
            0 <= i < e.spec_and_clauses().len() ==> (#[trigger] e.spec_and_clauses()[i]).wf(n),
    decreases e,
{
    match e {
        Expr::Or(a, b) => {
            lemma_clauses_wf(*a, n);
            lemma_clauses_wf(*b, n);
            assert forall|i: int|
                0 <= i < e.spec_or_clauses().len() implies (#[trigger] e.spec_or_clauses()[i]).wf(
                n,
            ) by {
                if i < a.spec_or_clauses().len() {
                    assert(e.spec_or_clauses()[i] == a.spec_or_clauses()[i]);
                } else {
                    assert(e.spec_or_clauses()[i] == b.spec_or_clauses()[i
                        - a.spec_or_clauses().len()]);
                }
            }
        },
        Expr::And(a, b) => {
            lemma_clauses_wf(*a, n);
            lemma_clauses_wf(*b, n);
            assert forall|i: int|
                0 <= i < e.spec_and_clauses().len() implies (
            #[trigger] e.spec_and_clauses()[i]).wf(n) by {
                if i < a.spec_and_clauses().len() {
                    assert(e.spec_and_clauses()[i] == a.spec_and_clauses()[i]);
                } else {
                    assert(e.spec_and_clauses()[i] == b.spec_and_clauses()[i
                        - a.spec_and_clauses().len()]);
                }
            }
        },
        _ => {},
    }
}

/// Evaluation reads only a symbol's type, tristate value, textual payload
/// and name: two arenas that agree on those agree on every evaluation.
pub proof fn lemma_eval_frame(s1: Seq<Symbol>, s2: Seq<Symbol>, e: Expr)
    requires
        s1.len() == s2.len(),
        e.wf(s1.len() as nat),
        forall|i: int|
            0 <= i < s1.len() ==> (#[trigger] s1[i]).sym_type == s2[i].sym_type && s1[i].cur_tri
                == s2[i].cur_tri && s1[i].cur_str@ == s2[i].cur_str@ && s1[i].spec_name_chars()
                == s2[i].spec_name_chars(),
    ensures
        spec_eval(s1, e) == spec_eval(s2, e),
    decreases e,
{
    match e {
        Expr::Const(_) => {},
        Expr::Terminal(t) => {
            match t.spec_cmp_parts() {
                Some((op, a, b)) => {
                    lemma_symbol_int_val_frame(s1[a as int], s2[a as int]);
                    lemma_symbol_int_val_frame(s1[b as int], s2[b as int]);
                },
                None => {},
            }
        },
        Expr::And(a, b) => {
            lemma_eval_frame(s1, s2, *a);
            lemma_eval_frame(s1, s2, *b);
        },
        Expr::Or(a, b) => {
            lemma_eval_frame(s1, s2, *a);
            lemma_eval_frame(s1, s2, *b);
        },
        Expr::Not(a) => {
            lemma_eval_frame(s1, s2, *a);
        },
    }
}

proof fn lemma_symbol_int_val_frame(a: Symbol, b: Symbol)
    requires
        a.cur_str@ == b.cur_str@,
    ensures
        a.spec_int_val() == b.spec_int_val(),
{
}

} // verus!
