//! Rendering of expressions for diagnostics.  The textual form is the one
//! `spec_display` defines: symbol names (placeholders for unnamed
//! symbols), parenthesised comparisons, `&&`/`||` joins with parentheses
//! at operator boundaries only, and a `!` prefix for negations.

use vstd::prelude::*;

use crate::expr::{Expr, Terminal};
use crate::symbol::Symbol;

verus! {

/// The operator context an expression is rendered under: parentheses are
/// elided when nesting within the same operator.
pub enum ParentKind {
    UnderAnd,
    UnderOr,
    Other,
}

/// The name a symbol shows in diagnostics: its name where it has one, a
/// placeholder for choice containers and other unnamed symbols.
pub open spec fn spec_display_symbol(syms: Seq<Symbol>, id: int) -> Seq<char> {
    match syms[id].name {
        Some(n) => n@,
        None => {
            if syms[id].spec_is_choice() {
                "<choice>"@
            } else {
                "<?>"@
            }
        },
    }
}

/// The rendering of a terminal: a bare symbol name, or a parenthesised
/// comparison of two symbol names.
pub open spec fn spec_display_terminal(syms: Seq<Symbol>, t: Terminal) -> Seq<char> {
    match t {
        Terminal::Symbol(s) => spec_display_symbol(syms, s as int),
        Terminal::Eq(a, b) => seq!['('] + spec_display_symbol(syms, a as int) + " == "@
            + spec_display_symbol(syms, b as int) + seq![')'],
        Terminal::Neq(a, b) => seq!['('] + spec_display_symbol(syms, a as int) + " != "@
            + spec_display_symbol(syms, b as int) + seq![')'],
        Terminal::Lth(a, b) => seq!['('] + spec_display_symbol(syms, a as int) + " < "@
            + spec_display_symbol(syms, b as int) + seq![')'],
        Terminal::Leq(a, b) => seq!['('] + spec_display_symbol(syms, a as int) + " <= "@
            + spec_display_symbol(syms, b as int) + seq![')'],
        Terminal::Gth(a, b) => seq!['('] + spec_display_symbol(syms, a as int) + " > "@
            + spec_display_symbol(syms, b as int) + seq![')'],
        Terminal::Geq(a, b) => seq!['('] + spec_display_symbol(syms, a as int) + " >= "@
            + spec_display_symbol(syms, b as int) + seq![')'],
    }
}

/// The rendering of an expression under an operator context: `And` joins
/// with `" && "` and `Or` with `" || "`, parenthesised unless nested
/// within the same operator; `Not` prefixes `!`; constants render as
/// `true`/`false`.
pub open spec fn spec_display_under(syms: Seq<Symbol>, e: Expr, parent: ParentKind) -> Seq<char>
    decreases e,
{
    match e {
        Expr::And(l, r) => {
            let body = spec_display_under(syms, *l, ParentKind::UnderAnd) + " && "@
                + spec_display_under(syms, *r, ParentKind::UnderAnd);
            if parent is UnderAnd {
                body
            } else {
                seq!['('] + body + seq![')']
            }
        },
        Expr::Or(l, r) => {
            let body = spec_display_under(syms, *l, ParentKind::UnderOr) + " || "@
                + spec_display_under(syms, *r, ParentKind::UnderOr);
            if parent is UnderOr {
                body
            } else {
                seq!['('] + body + seq![')']
            }
        },
        Expr::Not(inner) => seq!['!'] + spec_display_under(syms, *inner, ParentKind::Other),
        Expr::Const(b) => if b {
            "true"@
        } else {
            "false"@
        },
        Expr::Terminal(t) => spec_display_terminal(syms, t),
    }
}

/// The diagnostic rendering of an expression.
pub open spec fn spec_display(syms: Seq<Symbol>, e: Expr) -> Seq<char> {
    spec_display_under(syms, e, ParentKind::Other)
}

fn display_symbol(syms: &Vec<Symbol>, id: usize) -> (r: String)
    requires
        id < syms@.len(),
    ensures
        r@ == spec_display_symbol(syms@, id as int),
{
    let s = &syms[id];
    match &s.name {
        Some(n) => n.clone(),
        None => {
            if s.flags.is_choice() {
                String::from_str("<choice>")
            } else {
                String::from_str("<?>")
            }
        },
    }
}

impl Terminal {
    /// Render the terminal as `spec_display_terminal` says.
    pub fn display(&self, syms: &Vec<Symbol>) -> (r: String)
        requires
            self.wf(syms@.len() as nat),
        ensures
            r@ == spec_display_terminal(syms@, *self),
    {
        match self {
            Terminal::Symbol(s) => display_symbol(syms, *s),
            Terminal::Eq(a, b) => display_cmp(syms, *a, *b, " == "),
            Terminal::Neq(a, b) => display_cmp(syms, *a, *b, " != "),
            Terminal::Lth(a, b) => display_cmp(syms, *a, *b, " < "),
            Terminal::Leq(a, b) => display_cmp(syms, *a, *b, " <= "),
            Terminal::Gth(a, b) => display_cmp(syms, *a, *b, " > "),
            Terminal::Geq(a, b) => display_cmp(syms, *a, *b, " >= "),
        }
    }
}

fn display_cmp(syms: &Vec<Symbol>, a: usize, b: usize, op: &str) -> (r: String)
    requires
        a < syms@.len(),
        b < syms@.len(),
    ensures
        r@ == seq!['('] + spec_display_symbol(syms@, a as int) + op@ + spec_display_symbol(
            syms@,
            b as int,
        ) + seq![')'],
{
    proof {
        reveal_strlit("(");
        reveal_strlit(")");
    }
    let mut out = String::from_str("(");
    let left = display_symbol(syms, a);
    out.append(left.as_str());
    out.append(op);
    let right = display_symbol(syms, b);
    out.append(right.as_str());
    out.append(")");
    proof {
        assert(out@ =~= seq!['('] + spec_display_symbol(syms@, a as int) + op@
            + spec_display_symbol(syms@, b as int) + seq![')']);
    }
    out
}

fn display_under(syms: &Vec<Symbol>, e: &Expr, parent: ParentKind) -> (r: String)
    requires
        e.wf(syms@.len() as nat),
    ensures
        r@ == spec_display_under(syms@, *e, parent),
    decreases e,
{
    proof {
        reveal_strlit("(");
        reveal_strlit(")");
        reveal_strlit("!");
    }
    match e {
        Expr::And(l, rr) => {
            let wrap = !matches!(parent, ParentKind::UnderAnd);
            let mut out = if wrap {
                String::from_str("(")
            } else {
                String::new()
            };
            let ls = display_under(syms, l, ParentKind::UnderAnd);
            out.append(ls.as_str());
            out.append(" && ");
            let rs = display_under(syms, rr, ParentKind::UnderAnd);
            out.append(rs.as_str());
            if wrap {
                out.append(")");
                proof {
                    assert(out@ =~= spec_display_under(syms@, *e, parent));
                }
            } else {
                proof {
                    assert(out@ =~= spec_display_under(syms@, *e, parent));
                }
            }
            out
        },
        Expr::Or(l, rr) => {
            let wrap = !matches!(parent, ParentKind::UnderOr);
            let mut out = if wrap {
                String::from_str("(")
            } else {
                String::new()
            };
            let ls = display_under(syms, l, ParentKind::UnderOr);
            out.append(ls.as_str());
            out.append(" || ");
            let rs = display_under(syms, rr, ParentKind::UnderOr);
            out.append(rs.as_str());
            if wrap {
                out.append(")");
                proof {
                    assert(out@ =~= spec_display_under(syms@, *e, parent));
                }
            } else {
                proof {
                    assert(out@ =~= spec_display_under(syms@, *e, parent));
                }
            }
            out
        },
        Expr::Not(inner) => {
            let mut out = String::from_str("!");
            let is_ = display_under(syms, inner, ParentKind::Other);
            out.append(is_.as_str());
            proof {
                assert(out@ =~= spec_display_under(syms@, *e, parent));
            }
            out
        },
        Expr::Const(b) => {
            if *b {
                String::from_str("true")
            } else {
                String::from_str("false")
            }
        },
        Expr::Terminal(t) => t.display(syms),
    }
}

impl Expr {
    /// Render the expression as `spec_display` says.
    pub fn display(&self, syms: &Vec<Symbol>) -> (r: String)
        requires
            self.wf(syms@.len() as nat),
        ensures
            r@ == spec_display(syms@, *self),
    {
        display_under(syms, self, ParentKind::Other)
    }
}

/// Render each expression of a list, in order.
pub fn display_clauses(syms: &Vec<Symbol>, clauses: &Vec<Expr>) -> (r: Vec<String>)
    requires
        forall|i: int| 0 <= i < clauses@.len() ==> (#[trigger] clauses@[i]).wf(syms@.len() as nat),
    ensures
        r@.len() == clauses@.len(),
        forall|i: int|
            0 <= i < clauses@.len() ==> (#[trigger] r@[i])@ == spec_display(syms@, clauses@[i]),
{
    let n = clauses.len();
    let mut out: Vec<String> = Vec::new();
    let mut i: usize = 0;
    while i < n
        invariant
            n == clauses@.len(),
            0 <= i <= n,
            out@.len() == i,
            forall|j: int|
                0 <= j < clauses@.len() ==> (#[trigger] clauses@[j]).wf(syms@.len() as nat),
            forall|j: int|
                0 <= j < i ==> (#[trigger] out@[j])@ == spec_display(syms@, clauses@[j]),
        decreases n - i,
    {
        let s = clauses[i].display(syms);
        out.push(s);
        i += 1;
    }
    out
}

} // verus!
