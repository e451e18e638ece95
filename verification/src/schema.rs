//! The schema: the arena of all symbols of one loaded configuration
//! model, the name index, the recalculation sweep and the journal.

use vstd::prelude::*;

use crate::expr::{spec_eval, Expr};
use crate::numparse::{format_dec, format_hex_prefixed, spec_dec_str, spec_hex_str, spec_parse_dec,
    spec_parse_hex};
use crate::satisfier::{SolveError, SolverConfig};
use crate::symbol::{set_err_corresponds, SetErrorSpec, Symbol, SymbolId, SymbolSetError,
    SymbolType, SymbolValue};
use crate::transaction::Transaction;
use crate::tristate::Tristate;

verus! {

/// `Mod` promoted to `Yes` for symbols that cannot carry it.
pub open spec fn spec_promote(t: SymbolType, v: Tristate) -> Tristate {
    if t == SymbolType::Boolean && v == Tristate::Mod {
        Tristate::Yes
    } else {
        v
    }
}

/// The tristate an optional expression derives: its evaluation where it is
/// present and evaluates; `No` where it is absent or fails to evaluate, so
/// that a bound nothing supports is not asserted.
pub open spec fn spec_derived(syms: Seq<Symbol>, e_opt: Option<Expr>) -> Tristate {
    match e_opt {
        Some(e) => match spec_eval(syms, e) {
            Ok(v) => v,
            Err(_) => Tristate::No,
        },
        None => Tristate::No,
    }
}

/// The first phase of recalculating one symbol: `visible` and
/// `rev_dep_floor` recomputed from the two expressions against the given
/// state, promoted for symbols that cannot carry `Mod`.  Symbols outside
/// the sweep (constant or unnamed) are untouched.
pub open spec fn spec_rederived(syms: Seq<Symbol>, i: int) -> Symbol {
    let s = syms[i];
    if s.in_sweep() {
        Symbol {
            visible: spec_promote(s.sym_type, spec_derived(syms, s.vis_expr)),
            rev_dep_floor: spec_promote(s.sym_type, spec_derived(syms, s.rev_expr)),
            ..s
        }
    } else {
        s
    }
}

pub open spec fn spec_phase1(syms: Seq<Symbol>) -> Seq<Symbol> {
    Seq::new(syms.len(), |i: int| spec_rederived(syms, i))
}

/// The second phase: the current value of a swept tristate-valued symbol
/// is clamped to `max(floor, min(current, visible))`, the floor winning
/// over visibility, and promoted for boolean symbols.
pub open spec fn spec_clamp_sym(s: Symbol) -> Symbol {
    if s.in_sweep() && s.is_tristate_valued() {
        Symbol {
            cur_tri: spec_promote(
                s.sym_type,
                s.rev_dep_floor.spec_max(s.cur_tri.spec_min(s.visible)),
            ),
            ..s
        }
    } else {
        s
    }
}

/// The full recalculation sweep: every symbol's bounds recomputed against
/// the incoming state, then every swept tristate value clamped into them.
pub open spec fn spec_recalc(syms: Seq<Symbol>) -> Seq<Symbol> {
    spec_phase1(syms).map_values(|s: Symbol| spec_clamp_sym(s))
}

/// Two arena states of the same shape: every structural field of every
/// symbol agrees, only the values and derived bounds may differ.
pub open spec fn spec_same_shape(a: Seq<Symbol>, b: Seq<Symbol>) -> bool {
    b.len() == a.len() && forall|j: int|
        0 <= j < a.len() ==> (#[trigger] b[j]).name == a[j].name && b[j].sym_type == a[j].sym_type
            && b[j].flags == a[j].flags && b[j].prompt_count == a[j].prompt_count && b[j].vis_expr
            == a[j].vis_expr && b[j].rev_expr == a[j].rev_expr && b[j].int_min == a[j].int_min
            && b[j].int_max == a[j].int_max
}

/// The recalculation sweep only moves values and bounds.
pub proof fn lemma_recalc_same_shape(syms: Seq<Symbol>)
    ensures
        spec_same_shape(syms, spec_recalc(syms)),
{
    let r = spec_recalc(syms);
    assert forall|j: int|
        0 <= j < syms.len() implies (#[trigger] r[j]).name == syms[j].name && r[j].sym_type
        == syms[j].sym_type && r[j].flags == syms[j].flags && r[j].prompt_count == syms[
        j
    ].prompt_count && r[j].vis_expr == syms[j].vis_expr && r[j].rev_expr == syms[j].rev_expr && r[
        j
    ].int_min == syms[j].int_min && r[j].int_max == syms[j].int_max by {
        assert(r[j] == spec_clamp_sym(spec_phase1(syms)[j]));
        assert(spec_phase1(syms)[j] == spec_rederived(syms, j));
    }
}

/// The name index reads only a symbol's name and type, so it agrees on
/// states of the same shape.
pub proof fn lemma_lookup_frame(a: Seq<Symbol>, b: Seq<Symbol>, name: Seq<char>, i: int)
    requires
        spec_same_shape(a, b),
    ensures
        spec_lookup_from(a, name, i) == spec_lookup_from(b, name, i),
    decreases a.len() - i,
{
    if 0 <= i < a.len() {
        assert(b[i].name == a[i].name && b[i].sym_type == a[i].sym_type);
        if !(a[i].sym_type != SymbolType::Unknown && (a[i].name matches Some(n) && n@ == name)) {
            lemma_lookup_frame(a, b, name, i + 1);
        }
    }
}

/// All expressions held by the arena address the arena.
pub open spec fn spec_syms_wf(syms: Seq<Symbol>) -> bool {
    forall|i: int|
        0 <= i < syms.len() ==> ((#[trigger] syms[i]).vis_expr matches Some(e) ==> e.wf(
            syms.len() as nat,
        )) && (syms[i].rev_expr matches Some(e) ==> e.wf(syms.len() as nat))
}

/// Index of the first named, non-`Unknown` symbol carrying the name, as
/// the name index holds it.
pub open spec fn spec_lookup_from(syms: Seq<Symbol>, name: Seq<char>, i: int) -> Option<int>
    decreases syms.len() - i,
{
    if i < 0 || i >= syms.len() {
        None
    } else if syms[i].sym_type != SymbolType::Unknown && (syms[i].name matches Some(n) && n@
        == name) {
        Some(i)
    } else {
        spec_lookup_from(syms, name, i + 1)
    }
}

pub open spec fn spec_lookup(syms: Seq<Symbol>, name: Seq<char>) -> Option<int> {
    spec_lookup_from(syms, name, 0)
}

/// The tristate of the `MODULES` symbol; `No` where the schema lacks one,
/// so that module support is then treated as disabled.
pub open spec fn spec_modules_tri(syms: Seq<Symbol>) -> Tristate {
    match spec_lookup(syms, "MODULES"@) {
        Some(i) => syms[i].cur_tri,
        None => Tristate::No,
    }
}

/// The schema arena and the transaction journal that records every
/// attempted assignment.
pub struct Schema {
    pub symbols: Vec<Symbol>,
    pub history: Vec<Transaction>,
}

impl Schema {
    pub open spec fn wf(self) -> bool {
        spec_syms_wf(self.symbols@)
    }

    /// An empty schema, to be populated with `push_symbol`.
    pub fn new() -> (r: Schema)
        ensures
            r.symbols@.len() == 0,
            r.history@.len() == 0,
            r.wf(),
    {
        Schema { symbols: Vec::new(), history: Vec::new() }
    }

    /// Add a symbol; refused exactly when one of its expressions does not
    /// address the arena it would live in.
    pub fn push_symbol(&mut self, s: Symbol) -> (r: bool)
        requires
            old(self).wf(),
        ensures
            r <==> ((s.vis_expr matches Some(e) ==> e.wf(old(self).symbols@.len() as nat)) && (
            s.rev_expr matches Some(e) ==> e.wf(old(self).symbols@.len() as nat))),
            r ==> final(self).symbols@ == old(self).symbols@.push(s) && final(self).wf(),
            !r ==> *final(self) == *old(self),
            final(self).history == old(self).history,
    {
        let n = self.symbols.len();
        let ok_vis = match &s.vis_expr {
            Some(e) => expr_wf_check(e, n),
            None => true,
        };
        let ok_rev = match &s.rev_expr {
            Some(e) => expr_wf_check(e, n),
            None => true,
        };
        if ok_vis && ok_rev {
            self.symbols.push(s);
            proof {
                assert forall|i: int| 0 <= i < self.symbols@.len() implies ((
                #[trigger] self.symbols@[i]).vis_expr matches Some(e) ==> e.wf(
                    self.symbols@.len() as nat,
                )) && (self.symbols@[i].rev_expr matches Some(e) ==> e.wf(
                    self.symbols@.len() as nat,
                )) by {
                    if i < self.symbols@.len() - 1 {
                        assert(self.symbols@[i] == old(self).symbols@[i]);
                        lemma_expr_wf_widen(old(self).symbols@[i], old(self).symbols@.len() as nat,
                            self.symbols@.len() as nat);
                    } else {
                        assert(self.symbols@[i] == s);
                        lemma_expr_wf_widen(s, n as nat, self.symbols@.len() as nat);
                    }
                }
            }
            true
        } else {
            false
        }
    }

    /// The id of the symbol carrying a name, through the name index:
    /// `Unknown`-typed symbols hold constants and are not indexed.
    pub fn symbol(&self, name: &str) -> (r: Option<SymbolId>)
        ensures
            match r {
                Some(id) => spec_lookup(self.symbols@, name@) == Some(id as int) && id
                    < self.symbols@.len() && self.symbols@[id as int].spec_name_chars() == name@
                    && self.symbols@[id as int].name is Some && self.symbols@[id as int].sym_type
                    != SymbolType::Unknown,
                None => spec_lookup(self.symbols@, name@) is None,
            },
    {
        let owned: String = name.to_owned();
        let n = self.symbols.len();
        let mut i: usize = 0;
        while i < n
            invariant
                n == self.symbols@.len(),
                0 <= i <= n,
                owned@ == name@,
                spec_lookup(self.symbols@, name@) == spec_lookup_from(
                    self.symbols@,
                    name@,
                    i as int,
                ),
            decreases n - i,
        {
            let s = &self.symbols[i];
            let hit = if matches!(s.sym_type, SymbolType::Unknown) {
                false
            } else {
                match &s.name {
                    Some(sn) => sn.eq(&owned),
                    None => false,
                }
            };
            if hit {
                return Some(i);
            }
            i += 1;
        }
        None
    }

    /// The tristate of `MODULES`, `No` where the schema lacks the symbol.
    pub fn modules_tristate(&self) -> (r: Tristate)
        ensures
            r == spec_modules_tri(self.symbols@),
    {
        match self.symbol("MODULES") {
            Some(id) => self.symbols[id].cur_tri,
            None => Tristate::No,
        }
    }

    /// Recalculate one symbol: recompute its bounds from the current
    /// state, then clamp its value into them.
    pub fn recalculate(&mut self, id: SymbolId)
        requires
            old(self).wf(),
            id < old(self).symbols@.len(),
        ensures
            final(self).wf(),
            final(self).history == old(self).history,
            final(self).symbols@ == old(self).symbols@.update(
                id as int,
                spec_clamp_sym(spec_rederived(old(self).symbols@, id as int)),
            ),
    {
        let in_sweep = {
            let s = &self.symbols[id];
            s.name.is_some() && !s.flags.is_const()
        };
        if in_sweep {
            let vis = derived_tri(&self.symbols, id, true);
            let floor = derived_tri(&self.symbols, id, false);
            let ty = self.symbols[id].sym_type;
            let pvis = promote(ty, vis);
            let pfloor = promote(ty, floor);
            let sy = &mut self.symbols[id];
            sy.visible = pvis;
            sy.rev_dep_floor = pfloor;
            let tri_valued = matches!(sy.sym_type, SymbolType::Boolean | SymbolType::Tristate);
            if tri_valued {
                let clamped = promote(
                    sy.sym_type,
                    sy.rev_dep_floor.max(sy.cur_tri.min(sy.visible)),
                );
                sy.cur_tri = clamped;
            }
            proof {
                assert(self.symbols@[id as int] == spec_clamp_sym(
                    spec_rederived(old(self).symbols@, id as int),
                ));
                assert(self.symbols@ =~= old(self).symbols@.update(
                    id as int,
                    spec_clamp_sym(spec_rederived(old(self).symbols@, id as int)),
                ));
                assert forall|j: int|
                    0 <= j < self.symbols@.len() implies (#[trigger] self.symbols@[j]).vis_expr
                    == old(self).symbols@[j].vis_expr && self.symbols@[j].rev_expr == old(
                    self,
                ).symbols@[j].rev_expr by {
                    if j != id {
                        assert(self.symbols@[j] == old(self).symbols@[j]);
                    }
                }
                lemma_syms_wf_framed(old(self).symbols@, self.symbols@);
            }
        } else {
            proof {
                assert(spec_clamp_sym(spec_rederived(old(self).symbols@, id as int)) == old(
                    self,
                ).symbols@[id as int]);
                assert(self.symbols@ =~= old(self).symbols@.update(
                    id as int,
                    spec_clamp_sym(spec_rederived(old(self).symbols@, id as int)),
                ));
            }
        }
    }

    /// The full recalculation sweep over every symbol, in two phases so
    /// that every bound is derived from one consistent state: first all
    /// bounds, then all clamps.
    pub fn recalculate_all_symbols(&mut self)
        requires
            old(self).wf(),
        ensures
            final(self).wf(),
            final(self).history == old(self).history,
            final(self).symbols@ == spec_recalc(old(self).symbols@),
            forall|i: int|
                0 <= i < final(self).symbols@.len() ==> spec_in_bounds(
                    #[trigger] final(self).symbols@[i],
                ),
    {
        let ghost orig = self.symbols@;
        let n = self.symbols.len();
        let mut i: usize = 0;
        while i < n
            invariant
                self.wf(),
                n == self.symbols@.len(),
                orig.len() == n,
                spec_syms_wf(orig),
                0 <= i <= n,
                self.history == old(self).history,
                forall|j: int| i <= j < n ==> self.symbols@[j] == orig[j],
                forall|j: int| 0 <= j < i ==> self.symbols@[j] == spec_rederived(orig, j),
            decreases n - i,
        {
            let in_sweep = {
                let s = &self.symbols[i];
                s.name.is_some() && !s.flags.is_const()
            };
            if in_sweep {
                proof {
                    lemma_phase1_partial_frame(orig, self.symbols@, i as int);
                }
                let vis = derived_tri(&self.symbols, i, true);
                let floor = derived_tri(&self.symbols, i, false);
                let ty = self.symbols[i].sym_type;
                let pvis = promote(ty, vis);
                let pfloor = promote(ty, floor);
                let sy = &mut self.symbols[i];
                sy.visible = pvis;
                sy.rev_dep_floor = pfloor;
                proof {
                    assert(self.symbols@[i as int] == spec_rederived(orig, i as int));
                    assert forall|j: int|
                        0 <= j < self.symbols@.len() implies (#[trigger] self.symbols@[j]).vis_expr
                        == orig[j].vis_expr && self.symbols@[j].rev_expr == orig[j].rev_expr by {
                        if j < i + 1 && j != i {
                            assert(self.symbols@[j] == spec_rederived(orig, j));
                        }
                    }
                    lemma_syms_wf_framed(orig, self.symbols@);
                }
            } else {
                proof {
                    assert(self.symbols@[i as int] == spec_rederived(orig, i as int));
                }
            }
            i += 1;
        }
        proof {
            assert(self.symbols@ =~= spec_phase1(orig));
        }
        let ghost mid = self.symbols@;
        let mut i: usize = 0;
        while i < n
            invariant
                n == self.symbols@.len(),
                mid.len() == n,
                0 <= i <= n,
                self.history == old(self).history,
                spec_syms_wf(mid),
                forall|j: int| i <= j < n ==> self.symbols@[j] == mid[j],
                forall|j: int| 0 <= j < i ==> self.symbols@[j] == spec_clamp_sym(mid[j]),
            decreases n - i,
        {
            let clamp = {
                let s = &self.symbols[i];
                s.name.is_some() && !s.flags.is_const() && matches!(
                    s.sym_type,
                    SymbolType::Boolean | SymbolType::Tristate,
                )
            };
            if clamp {
                let sy = &mut self.symbols[i];
                let clamped = promote(
                    sy.sym_type,
                    sy.rev_dep_floor.max(sy.cur_tri.min(sy.visible)),
                );
                sy.cur_tri = clamped;
                proof {
                    assert(self.symbols@[i as int] == spec_clamp_sym(mid[i as int]));
                }
            } else {
                proof {
                    assert(self.symbols@[i as int] == spec_clamp_sym(mid[i as int]));
                }
            }
            i += 1;
        }
        proof {
            assert(self.symbols@ =~= spec_recalc(orig));
            lemma_syms_wf_framed(orig, self.symbols@);
            assert forall|j: int| 0 <= j < self.symbols@.len() implies spec_in_bounds(
                #[trigger] self.symbols@[j],
            ) by {
                assert(mid[j] == spec_rederived(orig, j));
                lemma_clamp_in_bounds(mid[j]);
            }
        }
    }
}

/// The bounds invariant of a symbol at rest: a swept, tristate-valued
/// symbol sits at or above its floor, and at or below its visibility
/// wherever floor and visibility are consistent.
pub open spec fn spec_in_bounds(s: Symbol) -> bool {
    s.in_sweep() && s.is_tristate_valued() ==> s.rev_dep_floor.spec_le(s.cur_tri) && (
    s.rev_dep_floor.spec_le(s.visible) ==> s.cur_tri.spec_le(s.visible))
}

proof fn lemma_clamp_in_bounds(s: Symbol)
    requires
        s.in_sweep() && s.is_tristate_valued() ==> s.visible == spec_promote(s.sym_type, s.visible)
            && s.rev_dep_floor == spec_promote(s.sym_type, s.rev_dep_floor),
    ensures
        spec_in_bounds(spec_clamp_sym(s)),
{
}

fn promote(t: SymbolType, v: Tristate) -> (r: Tristate)
    ensures
        r == spec_promote(t, v),
{
    if matches!(t, SymbolType::Boolean) && matches!(v, Tristate::Mod) {
        Tristate::Yes
    } else {
        v
    }
}

/// Evaluate the visibility (or reverse-dependency) expression of one
/// symbol against the arena, `No` where absent or failing.
fn derived_tri(syms: &Vec<Symbol>, i: usize, vis: bool) -> (r: Tristate)
    requires
        i < syms@.len(),
        (if vis {
            syms@[i as int].vis_expr
        } else {
            syms@[i as int].rev_expr
        }) matches Some(e) ==> e.wf(syms@.len() as nat),
    ensures
        r == spec_derived(
            syms@,
            if vis {
                syms@[i as int].vis_expr
            } else {
                syms@[i as int].rev_expr
            },
        ),
{
    let e_opt: &Option<Expr> = if vis {
        &syms[i].vis_expr
    } else {
        &syms[i].rev_expr
    };
    match e_opt {
        Some(e) => match e.eval(syms) {
            Ok(v) => v,
            Err(_) => Tristate::No,
        },
        None => Tristate::No,
    }
}

fn expr_wf_check(e: &Expr, n: usize) -> (r: bool)
    ensures
        r == e.wf(n as nat),
    decreases e,
{
    match e {
        Expr::Const(_) => true,
        Expr::Terminal(t) => match t {
            crate::expr::Terminal::Eq(a, b) => *a < n && *b < n,
            crate::expr::Terminal::Neq(a, b) => *a < n && *b < n,
            crate::expr::Terminal::Lth(a, b) => *a < n && *b < n,
            crate::expr::Terminal::Leq(a, b) => *a < n && *b < n,
            crate::expr::Terminal::Gth(a, b) => *a < n && *b < n,
            crate::expr::Terminal::Geq(a, b) => *a < n && *b < n,
            crate::expr::Terminal::Symbol(s) => *s < n,
        },
        Expr::And(a, b) => expr_wf_check(a, n) && expr_wf_check(b, n),
        Expr::Or(a, b) => expr_wf_check(a, n) && expr_wf_check(b, n),
        Expr::Not(a) => expr_wf_check(a, n),
    }
}

proof fn lemma_expr_wf_widen_rec(e: Expr, n: nat, m: nat)
    requires
        e.wf(n),
        n <= m,
    ensures
        e.wf(m),
    decreases e,
{
    match e {
        Expr::And(a, b) => {
            lemma_expr_wf_widen_rec(*a, n, m);
            lemma_expr_wf_widen_rec(*b, n, m);
        },
        Expr::Or(a, b) => {
            lemma_expr_wf_widen_rec(*a, n, m);
            lemma_expr_wf_widen_rec(*b, n, m);
        },
        Expr::Not(a) => {
            lemma_expr_wf_widen_rec(*a, n, m);
        },
        _ => {},
    }
}

proof fn lemma_expr_wf_widen(s: Symbol, n: nat, m: nat)
    requires
        n <= m,
        s.vis_expr matches Some(e) ==> e.wf(n),
        s.rev_expr matches Some(e) ==> e.wf(n),
    ensures
        s.vis_expr matches Some(e) ==> e.wf(m),
        s.rev_expr matches Some(e) ==> e.wf(m),
{
    match s.vis_expr {
        Some(e) => lemma_expr_wf_widen_rec(e, n, m),
        None => {},
    }
    match s.rev_expr {
        Some(e) => lemma_expr_wf_widen_rec(e, n, m),
        None => {},
    }
}

/// Neither recalculation phase touches a symbol's expressions, so
/// well-formedness carries over to any state whose expressions agree.
proof fn lemma_syms_wf_framed(orig: Seq<Symbol>, cur: Seq<Symbol>)
    requires
        spec_syms_wf(orig),
        cur.len() == orig.len(),
        forall|j: int|
            0 <= j < cur.len() ==> (#[trigger] cur[j]).vis_expr == orig[j].vis_expr && cur[j].rev_expr
                == orig[j].rev_expr,
    ensures
        spec_syms_wf(cur),
{
    assert forall|i: int|
        0 <= i < cur.len() implies ((#[trigger] cur[i]).vis_expr matches Some(e) ==> e.wf(
        cur.len() as nat,
    )) && (cur[i].rev_expr matches Some(e) ==> e.wf(cur.len() as nat)) by {
        assert(orig[i].vis_expr matches Some(e) ==> e.wf(orig.len() as nat));
        assert(orig[i].rev_expr matches Some(e) ==> e.wf(orig.len() as nat));
    }
}

/// During the first phase, the fields evaluation reads are those of the
/// incoming state, so every evaluation agrees with one over that state.
proof fn lemma_phase1_partial_frame(orig: Seq<Symbol>, cur: Seq<Symbol>, i: int)
    requires
        spec_syms_wf(orig),
        cur.len() == orig.len(),
        0 <= i < orig.len(),
        forall|j: int|
            0 <= j < cur.len() ==> cur[j] == spec_rederived(orig, j) || (#[trigger] cur[j]) == orig[j],
    ensures
        cur[i].vis_expr == orig[i].vis_expr,
        cur[i].rev_expr == orig[i].rev_expr,
        cur[i].vis_expr matches Some(e) ==> e.wf(cur.len() as nat) && spec_eval(cur, e) == spec_eval(
            orig,
            e,
        ),
        cur[i].rev_expr matches Some(e) ==> e.wf(cur.len() as nat) && spec_eval(cur, e) == spec_eval(
            orig,
            e,
        ),
        spec_derived(cur, cur[i].vis_expr) == spec_derived(orig, orig[i].vis_expr),
        spec_derived(cur, cur[i].rev_expr) == spec_derived(orig, orig[i].rev_expr),
{
    assert(forall|j: int|
        0 <= j < cur.len() ==> (#[trigger] cur[j]).sym_type == orig[j].sym_type && cur[j].cur_tri
            == orig[j].cur_tri && cur[j].cur_str@ == orig[j].cur_str@ && cur[j].spec_name_chars()
            == orig[j].spec_name_chars() && cur[j].vis_expr == orig[j].vis_expr && cur[j].rev_expr
            == orig[j].rev_expr);
    match cur[i].vis_expr {
        Some(e) => {
            crate::expr::lemma_eval_frame(cur, orig, e);
        },
        None => {},
    }
    match cur[i].rev_expr {
        Some(e) => {
            crate::expr::lemma_eval_frame(cur, orig, e);
        },
        None => {},
    }
}

/// No clamp fires: every swept tristate value already lies inside its
/// freshly derived bounds.
pub open spec fn spec_clamp_stable(syms: Seq<Symbol>) -> bool {
    forall|i: int|
        0 <= i < syms.len() ==> spec_clamp_sym(#[trigger] spec_phase1(syms)[i]) == spec_phase1(
            syms,
        )[i]
}

/// Where no clamp fires, the sweep's stored bounds reflect the final
/// state: re-evaluating any swept symbol's expressions against the state
/// the sweep produced yields exactly the stored `visible` and
/// `rev_dep_floor`.
pub proof fn lemma_recalc_reflects(syms: Seq<Symbol>, i: int)
    requires
        spec_syms_wf(syms),
        spec_clamp_stable(syms),
        0 <= i < syms.len(),
        syms[i].in_sweep(),
    ensures
        spec_recalc(syms)[i].visible == spec_promote(
            syms[i].sym_type,
            spec_derived(spec_recalc(syms), syms[i].vis_expr),
        ),
        spec_recalc(syms)[i].rev_dep_floor == spec_promote(
            syms[i].sym_type,
            spec_derived(spec_recalc(syms), syms[i].rev_expr),
        ),
{
    let p = spec_phase1(syms);
    let r = spec_recalc(syms);
    assert(r =~= p);
    assert(forall|j: int|
        0 <= j < r.len() ==> (#[trigger] r[j]).sym_type == syms[j].sym_type && r[j].cur_tri
            == syms[j].cur_tri && r[j].cur_str@ == syms[j].cur_str@ && r[j].spec_name_chars()
            == syms[j].spec_name_chars() && r[j].vis_expr == syms[j].vis_expr && r[j].rev_expr
            == syms[j].rev_expr);
    match syms[i].vis_expr {
        Some(e) => {
            crate::expr::lemma_eval_frame(r, syms, e);
        },
        None => {},
    }
    match syms[i].rev_expr {
        Some(e) => {
            crate::expr::lemma_eval_frame(r, syms, e);
        },
        None => {},
    }
}

/// What an accepted assignment writes: a new tristate, a new textual
/// payload, or (for the value kinds that carry both) one of the two.
pub enum SetOutcome {
    Written { tri: Option<Tristate>, text: Option<Seq<char>> },
    Refused(SetErrorSpec),
}

/// Ordering rank that bounds the coercion chain: `Auto` coerces to a
/// concrete value, `Number` reclassifies to `Int` or `Hex`.
pub open spec fn spec_value_rank(v: SymbolValue) -> int {
    match v {
        SymbolValue::Auto(_) => 2,
        SymbolValue::Number(_) => 1,
        _ => 0,
    }
}

/// The reverse-dependency clauses the diagnostics list: the top-level
/// `Or` clauses of the expression, `false` alone standing in where the
/// symbol has none.
pub open spec fn spec_rev_clauses(s: Symbol) -> Seq<Expr> {
    match s.rev_expr {
        Some(re) => re.spec_or_clauses(),
        None => Expr::Const(false).spec_or_clauses(),
    }
}

pub open spec fn spec_rev_clause_count(s: Symbol) -> int {
    match s.rev_expr {
        Some(re) => re.spec_or_clauses().len() as int,
        None => 1,
    }
}

/// The rendered reverse-dependency clauses: one string per clause, each
/// the clause's diagnostic rendering.
pub open spec fn spec_rev_displays(syms: Seq<Symbol>, s: Symbol, out: Seq<String>) -> bool {
    out.len() == spec_rev_clauses(s).len() && forall|i: int|
        0 <= i < out.len() ==> (#[trigger] out[i])@ == crate::display::spec_display(
            syms,
            spec_rev_clauses(s)[i],
        )
}

/// The tristate write gate: the value must lie between the symbol's
/// reverse-dependency floor and its visibility, and `Mod` needs module
/// support.  A value above an absent visibility can only be selected.
/// The refusals carry one rendered clause per top-level clause of the
/// expression they point at.
pub open spec fn spec_tri_write(s: Symbol, modules: Tristate, v: Tristate) -> SetOutcome {
    let min = s.rev_dep_floor;
    let max = s.visible;
    if max.spec_lt(v) {
        if s.vis_expr is Some {
            SetOutcome::Refused(
                SetErrorSpec::UnmetDependencies {
                    min,
                    max,
                    n_deps: s.vis_expr->Some_0.spec_and_clauses().len() as int,
                    desired: v,
                },
            )
        } else {
            SetOutcome::Refused(SetErrorSpec::MustBeSelected { n_rev: spec_rev_clause_count(s) })
        }
    } else if v.spec_lt(min) {
        SetOutcome::Refused(
            SetErrorSpec::RequiredByOther { min, max, n_rev: spec_rev_clause_count(s) },
        )
    } else if max.spec_lt(min) {
        SetOutcome::Refused(SetErrorSpec::InvalidVisibility { min, max })
    } else if v == Tristate::Mod && modules != Tristate::Yes {
        SetOutcome::Refused(SetErrorSpec::ModulesNotEnabled)
    } else {
        SetOutcome::Written { tri: Some(v), text: None }
    }
}

/// The integer write gate: within the declared range, unless the range is
/// `(0, 0)`, which accepts any `u64`; the payload written is the canonical
/// decimal or `0x`-prefixed hexadecimal rendering.
pub open spec fn spec_num_write(s: Symbol, v: u64, hex: bool) -> SetOutcome {
    if !(s.int_min == 0 && s.int_max == 0) && !(s.int_min <= v && v <= s.int_max) {
        SetOutcome::Refused(SetErrorSpec::OutOfRange { min: s.int_min, max: s.int_max })
    } else {
        SetOutcome::Written {
            tri: None,
            text: Some(
                if hex {
                    seq!['0', 'x'] + spec_hex_str(v as int)
                } else {
                    spec_dec_str(v as int)
                },
            ),
        }
    }
}

/// The whole validator, in the order the checks are applied: non-assignable
/// targets first, then late-bound coercion of `Auto` against the declared
/// type, then cross-type compatibility, then the type-specific write gate.
pub open spec fn spec_set_outcome(
    syms: Seq<Symbol>,
    modules: Tristate,
    id: int,
    value: SymbolValue,
) -> SetOutcome
    decreases spec_value_rank(value),
{
    let s = syms[id];
    if s.spec_is_const() {
        SetOutcome::Refused(SetErrorSpec::IsConst)
    } else if s.spec_is_choice() {
        SetOutcome::Refused(SetErrorSpec::IsChoice)
    } else if s.prompt_count == 0 {
        SetOutcome::Refused(SetErrorSpec::CannotSetManually)
    } else {
        match value {
            SymbolValue::Auto(txt) => match s.sym_type {
                SymbolType::Unknown => SetOutcome::Refused(SetErrorSpec::UnknownType),
                SymbolType::Boolean => match Tristate::spec_from_str(txt@) {
                    Some(Tristate::Yes) => spec_set_outcome(
                        syms,
                        modules,
                        id,
                        SymbolValue::Boolean(true),
                    ),
                    Some(Tristate::No) => spec_set_outcome(
                        syms,
                        modules,
                        id,
                        SymbolValue::Boolean(false),
                    ),
                    _ => SetOutcome::Refused(SetErrorSpec::InvalidBoolean),
                },
                SymbolType::Tristate => match Tristate::spec_from_str(txt@) {
                    Some(t) => spec_set_outcome(syms, modules, id, SymbolValue::Tristate(t)),
                    None => SetOutcome::Refused(SetErrorSpec::InvalidTristate),
                },
                SymbolType::Int => match spec_parse_dec(txt@) {
                    Some(n) => spec_set_outcome(syms, modules, id, SymbolValue::Int(n)),
                    None => SetOutcome::Refused(SetErrorSpec::InvalidInt),
                },
                SymbolType::Hex => {
                    let cs = txt@;
                    if cs.len() >= 2 && cs[0] == '0' && cs[1] == 'x' {
                        match spec_parse_hex(cs.skip(2)) {
                            Some(n) => spec_set_outcome(syms, modules, id, SymbolValue::Hex(n)),
                            None => SetOutcome::Refused(SetErrorSpec::InvalidHex),
                        }
                    } else {
                        SetOutcome::Refused(SetErrorSpec::InvalidHex)
                    }
                },
                SymbolType::String => spec_set_outcome(syms, modules, id, SymbolValue::String(txt)),
            },
            SymbolValue::Number(n) => match s.sym_type {
                SymbolType::Int => spec_set_outcome(syms, modules, id, SymbolValue::Int(n)),
                SymbolType::Hex => spec_set_outcome(syms, modules, id, SymbolValue::Hex(n)),
                _ => SetOutcome::Refused(SetErrorSpec::InvalidValue),
            },
            SymbolValue::Boolean(b) => {
                if s.sym_type == SymbolType::Boolean || s.sym_type == SymbolType::Tristate {
                    spec_tri_write(s, modules, Tristate::spec_from_bool(b))
                } else {
                    SetOutcome::Refused(SetErrorSpec::InvalidValue)
                }
            },
            SymbolValue::Tristate(t) => {
                if s.sym_type == SymbolType::Tristate || (s.sym_type == SymbolType::Boolean && t
                    != Tristate::Mod) {
                    spec_tri_write(s, modules, t)
                } else {
                    SetOutcome::Refused(SetErrorSpec::InvalidValue)
                }
            },
            SymbolValue::Int(v) => {
                if s.sym_type == SymbolType::Int {
                    spec_num_write(s, v, false)
                } else {
                    SetOutcome::Refused(SetErrorSpec::InvalidValue)
                }
            },
            SymbolValue::Hex(v) => {
                if s.sym_type == SymbolType::Hex {
                    spec_num_write(s, v, true)
                } else {
                    SetOutcome::Refused(SetErrorSpec::InvalidValue)
                }
            },
            SymbolValue::String(txt) => {
                if s.sym_type == SymbolType::String {
                    SetOutcome::Written { tri: None, text: Some(txt@) }
                } else {
                    SetOutcome::Refused(SetErrorSpec::InvalidValue)
                }
            },
        }
    }
}

/// The written symbol: the given payloads replace the old ones, every
/// other field untouched.
pub open spec fn spec_written_sym(
    s0: Symbol,
    s1: Symbol,
    tri: Option<Tristate>,
    text: Option<Seq<char>>,
) -> bool {
    s1.name == s0.name && s1.sym_type == s0.sym_type && s1.flags == s0.flags && s1.prompt_count
        == s0.prompt_count && s1.visible == s0.visible && s1.rev_dep_floor == s0.rev_dep_floor
        && s1.vis_expr == s0.vis_expr && s1.rev_expr == s0.rev_expr && s1.int_min == s0.int_min
        && s1.int_max == s0.int_max && s1.cur_tri == (match tri {
        Some(t) => t,
        None => s0.cur_tri,
    }) && s1.cur_str@ == (match text {
        Some(cs) => cs,
        None => s0.cur_str@,
    })
}

/// The arena right after a write to one symbol, before recalculation.
pub open spec fn spec_write_rel(
    syms: Seq<Symbol>,
    id: int,
    tri: Option<Tristate>,
    text: Option<Seq<char>>,
    w: Seq<Symbol>,
) -> bool {
    w.len() == syms.len() && (forall|j: int|
        0 <= j < syms.len() && j != id ==> w[j] == syms[j]) && spec_written_sym(
        syms[id],
        w[id],
        tri,
        text,
    )
}

impl Schema {
    /// The visibility expression as the model reads it: `Const(true)`
    /// where the symbol has none.
    pub fn visibility_expression(&self, id: SymbolId) -> (r: Expr)
        requires
            id < self.symbols@.len(),
        ensures
            r == (match self.symbols@[id as int].vis_expr {
                Some(e) => e,
                None => Expr::Const(true),
            }),
    {
        match &self.symbols[id].vis_expr {
            Some(e) => e.dup(),
            None => Expr::Const(true),
        }
    }

    /// The visibility expression exactly as the symbol holds it.
    pub fn visibility_expression_bare(&self, id: SymbolId) -> (r: Option<Expr>)
        requires
            id < self.symbols@.len(),
        ensures
            r == self.symbols@[id as int].vis_expr,
    {
        match &self.symbols[id].vis_expr {
            Some(e) => Some(e.dup()),
            None => None,
        }
    }

    /// The reverse-dependencies expression: `Const(false)` where absent.
    pub fn reverse_dependencies(&self, id: SymbolId) -> (r: Expr)
        requires
            id < self.symbols@.len(),
        ensures
            r == (match self.symbols@[id as int].rev_expr {
                Some(e) => e,
                None => Expr::Const(false),
            }),
    {
        match &self.symbols[id].rev_expr {
            Some(e) => e.dup(),
            None => Expr::Const(false),
        }
    }

    /// The reverse-dependencies expression exactly as the symbol holds it.
    pub fn reverse_dependencies_bare(&self, id: SymbolId) -> (r: Option<Expr>)
        requires
            id < self.symbols@.len(),
        ensures
            r == self.symbols@[id as int].rev_expr,
    {
        match &self.symbols[id].rev_expr {
            Some(e) => Some(e.dup()),
            None => None,
        }
    }

    /// The symbol's visibility, recalculated first so that it reflects the
    /// current state.
    pub fn visible(&mut self, id: SymbolId) -> (r: Tristate)
        requires
            old(self).wf(),
            id < old(self).symbols@.len(),
        ensures
            final(self).wf(),
            final(self).history == old(self).history,
            final(self).symbols@ == old(self).symbols@.update(
                id as int,
                spec_clamp_sym(spec_rederived(old(self).symbols@, id as int)),
            ),
            r == final(self).symbols@[id as int].visible,
    {
        self.recalculate(id);
        self.symbols[id].visible
    }

    /// Derive the assignments that would let this symbol take the desired
    /// value; the symbol must carry a name to be solved for, and the run
    /// promises everything a satisfaction run on that name promises.
    pub fn satisfy(&self, id: SymbolId, config: &SolverConfig) -> (r: Result<
        Vec<(String, Tristate)>,
        SolveError,
    >)
        requires
            self.wf(),
            id < self.symbols@.len(),
        ensures
            self.symbols@[id as int].name is None ==> r == Err::<
                Vec<(String, Tristate)>,
                SolveError,
            >(SolveError::InvalidSymbol),
            self.symbols@[id as int].name matches Some(nm)
                ==> crate::satisfier::spec_satisfy_post(self.symbols@, nm@, *config, r),
            r is Ok ==> crate::satisfier::spec_keys_unique(r->Ok_0@),
            r is Ok ==> forall|j: int|
                0 <= j < r->Ok_0@.len() ==> crate::satisfier::spec_assignable(
                    self.symbols@,
                    (#[trigger] r->Ok_0@[j]).0@,
                ),
    {
        match self.symbols[id].name_owned() {
            Some(nm) => crate::satisfier::satisfy(self, nm, config),
            None => Err(SolveError::InvalidSymbol),
        }
    }

    /// The rendered top-level `Or` clauses of the reverse dependencies,
    /// `false` standing in where the symbol has none.
    fn rev_clause_displays(&self, id: SymbolId) -> (r: Vec<String>)
        requires
            self.wf(),
            id < self.symbols@.len(),
        ensures
            r@.len() == spec_rev_clause_count(self.symbols@[id as int]),
            spec_rev_displays(self.symbols@, self.symbols@[id as int], r@),
    {
        match &self.symbols[id].rev_expr {
            Some(re) => {
                proof {
                    crate::expr::lemma_clauses_wf(*re, self.symbols@.len() as nat);
                }
                let cl = re.or_clauses();
                crate::display::display_clauses(&self.symbols, &cl)
            },
            None => {
                let c = Expr::Const(false);
                let cl = c.or_clauses();
                proof {
                    crate::expr::lemma_clauses_wf(c, self.symbols@.len() as nat);
                }
                crate::display::display_clauses(&self.symbols, &cl)
            },
        }
    }

    /// The tristate write gate and, on acceptance, the write itself and
    /// the full recalculation sweep.
    fn write_tristate(&mut self, id: SymbolId, v: Tristate, modules: Tristate) -> (r: Result<
        (),
        SymbolSetError,
    >)
        requires
            old(self).wf(),
            id < old(self).symbols@.len(),
        ensures
            final(self).wf(),
            final(self).history@ == old(self).history@,
            final(self).symbols@.len() == old(self).symbols@.len(),
            spec_same_shape(old(self).symbols@, final(self).symbols@),
            match spec_tri_write(old(self).symbols@[id as int], modules, v) {
                SetOutcome::Refused(k) => r is Err && set_err_corresponds(r->Err_0, k) && final(self).symbols@ == old(self).symbols@,
                SetOutcome::Written { tri, text } => r is Ok && (exists|w: Seq<Symbol>|
                    #[trigger] spec_write_rel(old(self).symbols@, id as int, tri, text, w) && final(self).symbols@ == spec_recalc(w)),
            },
            // the carried suggestion is the recursive satisfaction run on
            // this symbol for this value
            r matches Err(SymbolSetError::UnmetDependencies { satisfying_configuration: sc, .. })
                ==> (match old(self).symbols@[id as int].name {
                Some(nm) => crate::satisfier::spec_satisfy_post(
                    old(self).symbols@,
                    nm@,
                    SolverConfig { desired_value: v, recursive: true },
                    sc,
                ),
                None => sc == Err::<Vec<(String, Tristate)>, SolveError>(SolveError::InvalidSymbol),
            }),
            // the carried clause lists render the expressions they point at
            r matches Err(SymbolSetError::UnmetDependencies { deps, .. }) ==> (old(self).symbols@[
                id as int
            ].vis_expr matches Some(ve) && deps@.len() == ve.spec_and_clauses().len() && (forall|
                i: int,
            |
                0 <= i < deps@.len() ==> (#[trigger] deps@[i])@ == crate::display::spec_display(
                    old(self).symbols@,
                    ve.spec_and_clauses()[i],
                ))),
            r matches Err(SymbolSetError::MustBeSelected { rev_deps }) ==> spec_rev_displays(
                old(self).symbols@,
                old(self).symbols@[id as int],
                rev_deps@,
            ),
            r matches Err(SymbolSetError::RequiredByOther { rev_deps, .. }) ==> spec_rev_displays(
                old(self).symbols@,
                old(self).symbols@[id as int],
                rev_deps@,
            ),
            r is Ok ==> forall|i: int|
                0 <= i < final(self).symbols@.len() ==> spec_in_bounds(
                    #[trigger] final(self).symbols@[i],
                ),
    {
        let min = self.symbols[id].rev_dep_floor;
        let max = self.symbols[id].visible;
        if max.lt(v) {
            let has_vis = match &self.symbols[id].vis_expr {
                Some(_) => true,
                None => false,
            };
            if has_vis {
                let deps = match &self.symbols[id].vis_expr {
                    Some(ve) => {
                        proof {
                            crate::expr::lemma_clauses_wf(*ve, self.symbols@.len() as nat);
                        }
                        let cl = ve.and_clauses();
                        crate::display::display_clauses(&self.symbols, &cl)
                    },
                    None => Vec::new(),
                };
                let sc = self.satisfy(
                    id,
                    &SolverConfig { desired_value: v, recursive: true },
                );
                Err(
                    SymbolSetError::UnmetDependencies {
                        min,
                        max,
                        deps,
                        satisfying_configuration: sc,
                    },
                )
            } else {
                let rev_deps = self.rev_clause_displays(id);
                Err(SymbolSetError::MustBeSelected { rev_deps })
            }
        } else if v.lt(min) {
            let rev_deps = self.rev_clause_displays(id);
            Err(SymbolSetError::RequiredByOther { min, max, rev_deps })
        } else if max.lt(min) {
            Err(SymbolSetError::InvalidVisibility { min, max })
        } else if matches!(v, Tristate::Mod) && !matches!(modules, Tristate::Yes) {
            Err(SymbolSetError::ModulesNotEnabled)
        } else {
            let ghost pre = self.symbols@;
            {
                let sy = &mut self.symbols[id];
                sy.cur_tri = v;
            }
            proof {
                assert(spec_write_rel(
                    pre,
                    id as int,
                    Some(v),
                    None::<Seq<char>>,
                    self.symbols@,
                ));
                assert forall|j: int|
                    0 <= j < self.symbols@.len() implies (#[trigger] self.symbols@[j]).vis_expr
                    == pre[j].vis_expr && self.symbols@[j].rev_expr == pre[j].rev_expr by {
                    if j != id {
                        assert(self.symbols@[j] == pre[j]);
                    }
                }
                lemma_syms_wf_framed(pre, self.symbols@);
                assert(spec_same_shape(pre, self.symbols@));
            }
            let ghost w1 = self.symbols@;
            self.recalculate_all_symbols();
            proof {
                lemma_recalc_same_shape(w1);
                assert(spec_same_shape(pre, self.symbols@));
            }
            Ok(())
        }
    }

    /// The integer write gate and, on acceptance, the canonical rendering
    /// written back and the full recalculation sweep.
    fn write_number(&mut self, id: SymbolId, v: u64, hex: bool) -> (r: Result<(), SymbolSetError>)
        requires
            old(self).wf(),
            id < old(self).symbols@.len(),
        ensures
            final(self).wf(),
            final(self).history@ == old(self).history@,
            final(self).symbols@.len() == old(self).symbols@.len(),
            spec_same_shape(old(self).symbols@, final(self).symbols@),
            match spec_num_write(old(self).symbols@[id as int], v, hex) {
                SetOutcome::Refused(k) => r is Err && set_err_corresponds(r->Err_0, k) && final(self).symbols@ == old(self).symbols@,
                SetOutcome::Written { tri, text } => r is Ok && (exists|w: Seq<Symbol>|
                    #[trigger] spec_write_rel(old(self).symbols@, id as int, tri, text, w) && final(self).symbols@ == spec_recalc(w)),
            },
            r is Ok ==> forall|i: int|
                0 <= i < final(self).symbols@.len() ==> spec_in_bounds(
                    #[trigger] final(self).symbols@[i],
                ),
    {
        let mn = self.symbols[id].int_min;
        let mx = self.symbols[id].int_max;
        if !(mn == 0 && mx == 0) && !(v >= mn && v <= mx) {
            return Err(SymbolSetError::OutOfRange { min: mn, max: mx });
        }
        let txt = if hex {
            format_hex_prefixed(v)
        } else {
            format_dec(v)
        };
        let ghost pre = self.symbols@;
        {
            let sy = &mut self.symbols[id];
            sy.cur_str = txt;
        }
        proof {
            assert(spec_write_rel(
                pre,
                id as int,
                None::<Tristate>,
                Some(
                    if hex {
                        seq!['0', 'x'] + spec_hex_str(v as int)
                    } else {
                        spec_dec_str(v as int)
                    },
                ),
                self.symbols@,
            ));
            assert forall|j: int|
                0 <= j < self.symbols@.len() implies (#[trigger] self.symbols@[j]).vis_expr
                == pre[j].vis_expr && self.symbols@[j].rev_expr == pre[j].rev_expr by {
                if j != id {
                    assert(self.symbols@[j] == pre[j]);
                }
            }
            lemma_syms_wf_framed(pre, self.symbols@);
            assert(spec_same_shape(pre, self.symbols@));
        }
        let ghost w1 = self.symbols@;
        self.recalculate_all_symbols();
        proof {
            lemma_recalc_same_shape(w1);
            assert(spec_same_shape(pre, self.symbols@));
        }
        Ok(())
    }

    /// Write a string payload and run the full recalculation sweep.
    fn write_string(&mut self, id: SymbolId, txt: String) -> (r: Result<(), SymbolSetError>)
        requires
            old(self).wf(),
            id < old(self).symbols@.len(),
        ensures
            final(self).wf(),
            final(self).history@ == old(self).history@,
            final(self).symbols@.len() == old(self).symbols@.len(),
            spec_same_shape(old(self).symbols@, final(self).symbols@),
            r is Ok,
            exists|w: Seq<Symbol>|
                #[trigger] spec_write_rel(
                    old(self).symbols@,
                    id as int,
                    None::<Tristate>,
                    Some(txt@),
                    w,
                ) && final(self).symbols@ == spec_recalc(w),
            forall|i: int|
                0 <= i < final(self).symbols@.len() ==> spec_in_bounds(
                    #[trigger] final(self).symbols@[i],
                ),
    {
        let ghost pre = self.symbols@;
        {
            let sy = &mut self.symbols[id];
            sy.cur_str = txt;
        }
        proof {
            assert(spec_write_rel(pre, id as int, None::<Tristate>, Some(txt@), self.symbols@));
            assert forall|j: int|
                0 <= j < self.symbols@.len() implies (#[trigger] self.symbols@[j]).vis_expr
                == pre[j].vis_expr && self.symbols@[j].rev_expr == pre[j].rev_expr by {
                if j != id {
                    assert(self.symbols@[j] == pre[j]);
                }
            }
            lemma_syms_wf_framed(pre, self.symbols@);
            assert(spec_same_shape(pre, self.symbols@));
        }
        let ghost w1 = self.symbols@;
        self.recalculate_all_symbols();
        proof {
            lemma_recalc_same_shape(w1);
            assert(spec_same_shape(pre, self.symbols@));
        }
        Ok(())
    }

    /// The validator: check the assignment against the symbol's type,
    /// flags, bounds and module support, refuse it with a structured
    /// error, or write it and recalculate the whole schema.
    pub fn set_value(&mut self, id: SymbolId, value: SymbolValue) -> (r: Result<
        (),
        SymbolSetError,
    >)
        requires
            old(self).wf(),
            id < old(self).symbols@.len(),
        ensures
            final(self).wf(),
            final(self).history@ == old(self).history@,
            final(self).symbols@.len() == old(self).symbols@.len(),
            spec_same_shape(old(self).symbols@, final(self).symbols@),
            match spec_set_outcome(
                old(self).symbols@,
                spec_modules_tri(old(self).symbols@),
                id as int,
                value,
            ) {
                SetOutcome::Refused(k) => r is Err && set_err_corresponds(r->Err_0, k) && final(self).symbols@ == old(self).symbols@,
                SetOutcome::Written { tri, text } => r is Ok && (exists|w: Seq<Symbol>|
                    #[trigger] spec_write_rel(old(self).symbols@, id as int, tri, text, w) && final(self).symbols@ == spec_recalc(w)),
            },
            // the carried clause lists render the expressions they point at
            r matches Err(SymbolSetError::UnmetDependencies { deps, .. }) ==> (old(self).symbols@[
                id as int
            ].vis_expr matches Some(ve) && deps@.len() == ve.spec_and_clauses().len() && (forall|
                i: int,
            |
                0 <= i < deps@.len() ==> (#[trigger] deps@[i])@ == crate::display::spec_display(
                    old(self).symbols@,
                    ve.spec_and_clauses()[i],
                ))),
            r matches Err(SymbolSetError::MustBeSelected { rev_deps }) ==> spec_rev_displays(
                old(self).symbols@,
                old(self).symbols@[id as int],
                rev_deps@,
            ),
            r matches Err(SymbolSetError::RequiredByOther { rev_deps, .. }) ==> spec_rev_displays(
                old(self).symbols@,
                old(self).symbols@[id as int],
                rev_deps@,
            ),
            // a carried suggestion is the recursive satisfaction run on
            // this symbol for the tristate being written
            r matches Err(SymbolSetError::UnmetDependencies { satisfying_configuration: sc, .. })
                ==> (match spec_set_outcome(
                old(self).symbols@,
                spec_modules_tri(old(self).symbols@),
                id as int,
                value,
            ) {
                SetOutcome::Refused(
                    SetErrorSpec::UnmetDependencies { desired, .. },
                ) => match old(self).symbols@[id as int].name {
                    Some(nm) => crate::satisfier::spec_satisfy_post(
                        old(self).symbols@,
                        nm@,
                        SolverConfig { desired_value: desired, recursive: true },
                        sc,
                    ),
                    None => sc == Err::<Vec<(String, Tristate)>, SolveError>(
                        SolveError::InvalidSymbol,
                    ),
                },
                _ => false,
            }),
            r is Ok ==> forall|i: int|
                0 <= i < final(self).symbols@.len() ==> spec_in_bounds(
                    #[trigger] final(self).symbols@[i],
                ),
    {
        let ghost pre0 = self.symbols@;
        let ghost v0 = value;
        let modules = self.modules_tristate();
        if self.symbols[id].flags.is_const() {
            return Err(SymbolSetError::IsConst);
        }
        if self.symbols[id].flags.is_choice() {
            return Err(SymbolSetError::IsChoice);
        }
        if self.symbols[id].prompt_count == 0 {
            return Err(SymbolSetError::CannotSetManually);
        }
        let st = self.symbols[id].sym_type;
        let conc: SymbolValue = match value {
            SymbolValue::Auto(txt) => match st {
                SymbolType::Unknown => {
                    return Err(SymbolSetError::UnknownType);
                },
                SymbolType::Boolean => match Tristate::from_str(txt.as_str()) {
                    Some(Tristate::Yes) => SymbolValue::Boolean(true),
                    Some(Tristate::No) => SymbolValue::Boolean(false),
                    _ => {
                        return Err(SymbolSetError::InvalidBoolean);
                    },
                },
                SymbolType::Tristate => match Tristate::from_str(txt.as_str()) {
                    Some(t) => SymbolValue::Tristate(t),
                    None => {
                        return Err(SymbolSetError::InvalidTristate);
                    },
                },
                SymbolType::Int => match crate::numparse::parse_dec(txt.as_str()) {
                    Some(n) => SymbolValue::Int(n),
                    None => {
                        return Err(SymbolSetError::InvalidInt);
                    },
                },
                SymbolType::Hex => {
                    let sref: &str = txt.as_str();
                    let ln = sref.unicode_len();
                    if ln >= 2 && sref.get_char(0) == '0' && sref.get_char(1) == 'x' {
                        match crate::symbol::parse_hex_suffix(sref) {
                            Some(n) => SymbolValue::Hex(n),
                            None => {
                                return Err(SymbolSetError::InvalidHex);
                            },
                        }
                    } else {
                        return Err(SymbolSetError::InvalidHex);
                    }
                },
                SymbolType::String => SymbolValue::String(txt),
            },
            SymbolValue::Number(n) => match st {
                SymbolType::Int => SymbolValue::Int(n),
                SymbolType::Hex => SymbolValue::Hex(n),
                _ => {
                    return Err(SymbolSetError::InvalidValue);
                },
            },
            other => other,
        };
        proof {
            assert(spec_set_outcome(pre0, modules, id as int, v0) == spec_set_outcome(
                pre0,
                modules,
                id as int,
                conc,
            ));
        }
        match conc {
            SymbolValue::Boolean(b) => {
                if matches!(st, SymbolType::Boolean | SymbolType::Tristate) {
                    self.write_tristate(id, Tristate::from_bool(b), modules)
                } else {
                    Err(SymbolSetError::InvalidValue)
                }
            },
            SymbolValue::Tristate(t) => {
                if matches!(st, SymbolType::Tristate) || (matches!(st, SymbolType::Boolean)
                    && !matches!(t, Tristate::Mod)) {
                    self.write_tristate(id, t, modules)
                } else {
                    Err(SymbolSetError::InvalidValue)
                }
            },
            SymbolValue::Int(nv) => {
                if matches!(st, SymbolType::Int) {
                    self.write_number(id, nv, false)
                } else {
                    Err(SymbolSetError::InvalidValue)
                }
            },
            SymbolValue::Hex(nv) => {
                if matches!(st, SymbolType::Hex) {
                    self.write_number(id, nv, true)
                } else {
                    Err(SymbolSetError::InvalidValue)
                }
            },
            SymbolValue::String(txt2) => {
                if matches!(st, SymbolType::String) {
                    self.write_string(id, txt2)
                } else {
                    Err(SymbolSetError::InvalidValue)
                }
            },
            SymbolValue::Number(_) => {
                proof {
                    assert(false);
                }
                Err(SymbolSetError::InvalidValue)
            },
            SymbolValue::Auto(_) => {
                proof {
                    assert(false);
                }
                Err(SymbolSetError::InvalidValue)
            },
        }
    }
}

impl Schema {
    /// The validator, with the attempt recorded in the journal whatever
    /// its outcome: the affected symbol, the source location, the value
    /// intended, the values read before and after, and the error if the
    /// assignment was refused.  Errors are returned and recorded, never
    /// raised past the journal: a script run sees all its errors at once.
    pub fn set_value_tracked(
        &mut self,
        id: SymbolId,
        value: SymbolValue,
        file: String,
        line: u32,
        traceback: Option<String>,
    ) -> (r: Result<(), SymbolSetError>)
        requires
            old(self).wf(),
            id < old(self).symbols@.len(),
        ensures
            final(self).wf(),
            final(self).symbols@.len() == old(self).symbols@.len(),
            spec_same_shape(old(self).symbols@, final(self).symbols@),
            final(self).history@.len() == old(self).history@.len() + 1,
            forall|i: int|
                0 <= i < old(self).history@.len() ==> final(self).history@[i] == old(
                    self,
                ).history@[i],
            final(self).history@.last().symbol@ == old(self).symbols@[
                id as int
            ].spec_name_chars(),
            final(self).history@.last().file@ == file@,
            final(self).history@.last().line == line,
            final(self).history@.last().value.spec_eq(value),
            final(self).history@.last().traceback == traceback,
            final(self).history@.last().value_before == old(self).symbols@[
                id as int
            ].spec_read_value(),
            final(self).history@.last().value_after == final(self).symbols@[
                id as int
            ].spec_read_value(),
            (final(self).history@.last().error is Some) <==> (r is Err),
            // the carried clause lists render the expressions they point at
            r matches Err(SymbolSetError::UnmetDependencies { deps, .. }) ==> (old(self).symbols@[
                id as int
            ].vis_expr matches Some(ve) && deps@.len() == ve.spec_and_clauses().len() && (forall|
                i: int,
            |
                0 <= i < deps@.len() ==> (#[trigger] deps@[i])@ == crate::display::spec_display(
                    old(self).symbols@,
                    ve.spec_and_clauses()[i],
                ))),
            r matches Err(SymbolSetError::MustBeSelected { rev_deps }) ==> spec_rev_displays(
                old(self).symbols@,
                old(self).symbols@[id as int],
                rev_deps@,
            ),
            r matches Err(SymbolSetError::RequiredByOther { rev_deps, .. }) ==> spec_rev_displays(
                old(self).symbols@,
                old(self).symbols@[id as int],
                rev_deps@,
            ),
            // a carried suggestion is the recursive satisfaction run on
            // this symbol for the tristate being written
            r matches Err(SymbolSetError::UnmetDependencies { satisfying_configuration: sc, .. })
                ==> (match spec_set_outcome(
                old(self).symbols@,
                spec_modules_tri(old(self).symbols@),
                id as int,
                value,
            ) {
                SetOutcome::Refused(
                    SetErrorSpec::UnmetDependencies { desired, .. },
                ) => match old(self).symbols@[id as int].name {
                    Some(nm) => crate::satisfier::spec_satisfy_post(
                        old(self).symbols@,
                        nm@,
                        SolverConfig { desired_value: desired, recursive: true },
                        sc,
                    ),
                    None => sc == Err::<Vec<(String, Tristate)>, SolveError>(
                        SolveError::InvalidSymbol,
                    ),
                },
                _ => false,
            }),
            match spec_set_outcome(
                old(self).symbols@,
                spec_modules_tri(old(self).symbols@),
                id as int,
                value,
            ) {
                SetOutcome::Refused(k) => r is Err && set_err_corresponds(r->Err_0, k) && final(self).symbols@ == old(self).symbols@ && (final(self).history@.last().error matches Some(
                    e,
                ) && set_err_corresponds(e, k)),
                SetOutcome::Written { tri, text } => r is Ok && (exists|w: Seq<Symbol>|
                    #[trigger] spec_write_rel(old(self).symbols@, id as int, tri, text, w) && final(self).symbols@ == spec_recalc(w)),
            },
    {
        let value_before = match self.symbols[id].get_value() {
            Ok(v) => Some(v),
            Err(_) => None,
        };
        let nm = self.symbols[id].name_or_empty();
        let v_copy = value.duplicate();
        let ret = self.set_value(id, value);
        let value_after = match self.symbols[id].get_value() {
            Ok(v) => Some(v),
            Err(_) => None,
        };
        match ret {
            Ok(_) => {
                self.history.push(
                    Transaction {
                        symbol: nm,
                        file,
                        line,
                        traceback,
                        value: v_copy,
                        value_before,
                        value_after,
                        error: None,
                    },
                );
                Ok(())
            },
            Err(e) => {
                let stored = e.duplicate();
                self.history.push(
                    Transaction {
                        symbol: nm,
                        file,
                        line,
                        traceback,
                        value: v_copy,
                        value_before,
                        value_after,
                        error: Some(stored),
                    },
                );
                Err(e)
            },
        }
    }

    /// A satisfaction run whose failure is recorded in the journal as a
    /// `SatisfyFailed` transaction; a successful run leaves no record.
    pub fn satisfy_track_error(
        &mut self,
        id: SymbolId,
        value: SymbolValue,
        file: String,
        line: u32,
        traceback: Option<String>,
        config: &SolverConfig,
    ) -> (r: Result<Vec<(String, Tristate)>, SolveError>)
        requires
            old(self).wf(),
            id < old(self).symbols@.len(),
        ensures
            final(self).wf(),
            final(self).symbols@ == old(self).symbols@,
            // the result is the satisfaction run on this symbol's name
            old(self).symbols@[id as int].name is None ==> r == Err::<
                Vec<(String, Tristate)>,
                SolveError,
            >(SolveError::InvalidSymbol),
            old(self).symbols@[id as int].name matches Some(nm)
                ==> crate::satisfier::spec_satisfy_post(old(self).symbols@, nm@, *config, r),
            r is Ok ==> final(self).history@ == old(self).history@,
            r is Ok ==> crate::satisfier::spec_keys_unique(r->Ok_0@),
            // a failure appends one record carrying the attempt and the
            // solver's error
            r is Err ==> final(self).history@.len() == old(self).history@.len() + 1 && (final(self).history@.last().error matches Some(e) && (e matches SymbolSetError::SatisfyFailed {
                error: e2,
            } && crate::satisfier::solve_err_like(r->Err_0, e2))),
            r is Err ==> final(self).history@.last().symbol@ == old(self).symbols@[
                id as int
            ].spec_name_chars() && final(self).history@.last().file@ == file@ && final(self).history@.last().line == line && final(self).history@.last().traceback == traceback
                && final(self).history@.last().value == value && final(self).history@.last().value_before == old(self).symbols@[id as int].spec_read_value() && final(self).history@.last().value_after == old(self).symbols@[id as int].spec_read_value(),
            r is Err ==> forall|i: int|
                0 <= i < old(self).history@.len() ==> final(self).history@[i] == old(
                    self,
                ).history@[i],
    {
        let ret = self.satisfy(id, config);
        match ret {
            Ok(v) => Ok(v),
            Err(e) => {
                let value_before = match self.symbols[id].get_value() {
                    Ok(v) => Some(v),
                    Err(_) => None,
                };
                let value_after = match self.symbols[id].get_value() {
                    Ok(v) => Some(v),
                    Err(_) => None,
                };
                let nm = self.symbols[id].name_or_empty();
                let stored = e.duplicate();
                self.history.push(
                    Transaction {
                        symbol: nm,
                        file,
                        line,
                        traceback,
                        value,
                        value_before,
                        value_after,
                        error: Some(SymbolSetError::SatisfyFailed { error: stored }),
                    },
                );
                Err(e)
            },
        }
    }
}

/// An `Int` symbol whose declared range is `(0, 0)` accepts any `u64`
/// value, whatever it is.
pub proof fn lemma_unbounded_int_accepts(syms: Seq<Symbol>, modules: Tristate, id: int, v: u64)
    requires
        0 <= id < syms.len(),
        !syms[id].spec_is_const(),
        !syms[id].spec_is_choice(),
        syms[id].prompt_count > 0,
        syms[id].sym_type == SymbolType::Int,
        syms[id].int_min == 0 && syms[id].int_max == 0,
    ensures
        spec_set_outcome(syms, modules, id, SymbolValue::Int(v)) matches SetOutcome::Written { .. },
{
}

/// Assigning `Tristate(Mod)` to a `Boolean` symbol is refused as an
/// incompatible value, never silently truncated.
pub proof fn lemma_bool_mod_rejected(syms: Seq<Symbol>, modules: Tristate, id: int)
    requires
        0 <= id < syms.len(),
        !syms[id].spec_is_const(),
        !syms[id].spec_is_choice(),
        syms[id].prompt_count > 0,
        syms[id].sym_type == SymbolType::Boolean,
    ensures
        spec_set_outcome(syms, modules, id, SymbolValue::Tristate(Tristate::Mod)) == SetOutcome::Refused(
            SetErrorSpec::InvalidValue,
        ),
{
}

/// Idempotence of a fully-valid assignment: where the recalculation sweep
/// after a write fires no clamp, the same accepted write applied once
/// more is a write of values already present, and its sweep returns the
/// same state — the second identical assignment leaves every symbol
/// exactly where the first left it.
pub proof fn lemma_assignment_idempotent(
    w: Seq<Symbol>,
    id: int,
    tri: Option<Tristate>,
    text: Option<Seq<char>>,
)
    requires
        spec_syms_wf(w),
        spec_clamp_stable(w),
        0 <= id < w.len(),
        tri matches Some(t) ==> w[id].cur_tri == t,
        text matches Some(cs) ==> w[id].cur_str@ == cs,
    ensures
        spec_write_rel(spec_recalc(w), id, tri, text, spec_recalc(w)),
        spec_recalc(spec_recalc(w)) == spec_recalc(w),
{
    let s1 = spec_recalc(w);
    let p1 = spec_phase1(w);
    assert(s1 =~= p1);
    // the sweep's first phase keeps every field evaluation reads
    assert(forall|j: int|
        0 <= j < s1.len() ==> (#[trigger] s1[j]).sym_type == w[j].sym_type && s1[j].cur_tri == w[
            j
        ].cur_tri && s1[j].cur_str@ == w[j].cur_str@ && s1[j].spec_name_chars() == w[
            j
        ].spec_name_chars() && s1[j].vis_expr == w[j].vis_expr && s1[j].rev_expr == w[j].rev_expr
            && s1[j].flags == w[j].flags && s1[j].prompt_count == w[j].prompt_count && s1[j].name
            == w[j].name && s1[j].int_min == w[j].int_min && s1[j].int_max == w[j].int_max);
    assert(spec_write_rel(s1, id, tri, text, s1));
    // re-deriving the bounds against the swept state changes nothing
    assert forall|j: int| 0 <= j < s1.len() implies spec_rederived(s1, j) =~= s1[j] by {
        if s1[j].in_sweep() {
            match s1[j].vis_expr {
                Some(e) => {
                    assert(w[j].vis_expr matches Some(e2) ==> e2.wf(w.len() as nat));
                    crate::expr::lemma_eval_frame(s1, w, e);
                },
                None => {},
            }
            match s1[j].rev_expr {
                Some(e) => {
                    assert(w[j].rev_expr matches Some(e2) ==> e2.wf(w.len() as nat));
                    crate::expr::lemma_eval_frame(s1, w, e);
                },
                None => {},
            }
            assert(spec_derived(s1, s1[j].vis_expr) == spec_derived(w, w[j].vis_expr));
            assert(spec_derived(s1, s1[j].rev_expr) == spec_derived(w, w[j].rev_expr));
        }
    }
    assert(spec_phase1(s1) =~= s1);
    assert forall|j: int| 0 <= j < s1.len() implies spec_clamp_sym(#[trigger] spec_phase1(s1)[j])
        == s1[j] by {
        assert(spec_phase1(s1)[j] == s1[j]);
        assert(s1[j] == spec_phase1(w)[j]);
        assert(spec_clamp_sym(spec_phase1(w)[j]) == spec_phase1(w)[j]);
    }
    assert(spec_recalc(s1) =~= s1);
}

} // verus!
