use autokernel::expr::{Expr, Terminal};
use autokernel::satisfier::{merge, satisfy, SolveError, SolverConfig};
use autokernel::schema::Schema;
use autokernel::symbol::{Symbol, SymbolFlags, SymbolSetError, SymbolType, SymbolValue, FLAG_CHOICE,
    FLAG_CONST};
use autokernel::transaction::validate_transactions;
use autokernel::tristate::Tristate;

fn sym(name: &str, ty: SymbolType) -> Symbol {
    Symbol {
        name: Some(name.to_string()),
        sym_type: ty,
        flags: SymbolFlags::new(0),
        prompt_count: 1,
        cur_tri: Tristate::No,
        cur_str: String::new(),
        visible: Tristate::Yes,
        rev_dep_floor: Tristate::No,
        vis_expr: Some(Expr::Const(true)),
        rev_expr: None,
        int_min: 0,
        int_max: 0,
    }
}

fn schema_of(symbols: Vec<Symbol>) -> Schema {
    Schema { symbols, history: Vec::new() }
}

#[test]
fn simple_tristate_set() {
    // a boolean symbol starting at No accepts Boolean(true) and reads Yes
    let mut schema = schema_of(vec![sym("CMDLINE_BOOL", SymbolType::Boolean)]);
    let id = schema.symbol("CMDLINE_BOOL").unwrap();
    assert_eq!(schema.symbols[id].get_tristate_value(), Tristate::No);
    schema.set_value(id, SymbolValue::Boolean(true)).unwrap();
    assert_eq!(schema.symbols[id].get_tristate_value(), Tristate::Yes);
}

#[test]
fn rejected_by_visibility() {
    // CRYPTO depends on DEP which is No: setting it to Yes names the
    // unmet dependency
    let mut dep = sym("DEP", SymbolType::Boolean);
    dep.cur_tri = Tristate::No;
    let mut crypto = sym("CRYPTO", SymbolType::Boolean);
    crypto.vis_expr = Some(Expr::Terminal(Terminal::Symbol(0)));
    crypto.visible = Tristate::No;
    let mut schema = schema_of(vec![dep, crypto]);
    let id = schema.symbol("CRYPTO").unwrap();
    let err = schema.set_value(id, SymbolValue::Boolean(true)).unwrap_err();
    match err {
        SymbolSetError::UnmetDependencies { min, max, deps, .. } => {
            assert_eq!(min, Tristate::No);
            assert_eq!(max, Tristate::No);
            assert!(deps.len() >= 1);
            assert_eq!(deps[0], "DEP");
        }
        other => panic!("expected UnmetDependencies, got {:?}", other),
    }
}

#[test]
fn auto_coercion_parity() {
    // Auto("0x100") on a Hex symbol in [0, 0x200] succeeds and reads back
    // Hex(0x100); Auto("100") lacks the prefix and is InvalidHex
    let mut h = sym("FRAME_WARN", SymbolType::Hex);
    h.cur_str = "0x0".to_string();
    h.int_min = 0;
    h.int_max = 0x200;
    let mut schema = schema_of(vec![h]);
    let id = schema.symbol("FRAME_WARN").unwrap();
    schema
        .set_value(id, SymbolValue::Auto("0x100".to_string()))
        .unwrap();
    assert_eq!(schema.symbols[id].get_value().unwrap(), SymbolValue::Hex(0x100));
    assert_eq!(schema.symbols[id].get_string_value(), "0x100");
    let err = schema
        .set_value(id, SymbolValue::Auto("100".to_string()))
        .unwrap_err();
    assert_eq!(err, SymbolSetError::InvalidHex);
}

#[test]
fn satisfier_success_in_order() {
    // X's visibility is A && B, both independently settable: the solution
    // assigns both to Yes with no element depending on a later one
    let a = sym("A", SymbolType::Tristate);
    let b = sym("B", SymbolType::Tristate);
    let mut x = sym("X", SymbolType::Tristate);
    x.vis_expr = Some(Expr::And(
        Box::new(Expr::Terminal(Terminal::Symbol(0))),
        Box::new(Expr::Terminal(Terminal::Symbol(1))),
    ));
    x.visible = Tristate::No;
    let schema = schema_of(vec![a, b, x]);
    let cfg = SolverConfig { desired_value: Tristate::Yes, recursive: true };
    let got = satisfy(&schema, "X".to_string(), &cfg).unwrap();
    assert_eq!(
        got,
        vec![("A".to_string(), Tristate::Yes), ("B".to_string(), Tristate::Yes)]
    );
}

#[test]
fn satisfier_applied_makes_assignable() {
    // applying the solver's suggestion and then the target assignment
    // produces zero errors
    let a = sym("A", SymbolType::Tristate);
    let b = sym("B", SymbolType::Tristate);
    let mut x = sym("X", SymbolType::Tristate);
    x.vis_expr = Some(Expr::And(
        Box::new(Expr::Terminal(Terminal::Symbol(0))),
        Box::new(Expr::Terminal(Terminal::Symbol(1))),
    ));
    x.visible = Tristate::No;
    let mut schema = schema_of(vec![a, b, x]);
    let cfg = SolverConfig { desired_value: Tristate::Yes, recursive: true };
    let plan = satisfy(&schema, "X".to_string(), &cfg).unwrap();
    for (name, v) in plan {
        let id = schema.symbol(&name).unwrap();
        schema
            .set_value_tracked(id, SymbolValue::Tristate(v), "plan".to_string(), 1, None)
            .unwrap();
    }
    let xid = schema.symbol("X").unwrap();
    schema
        .set_value_tracked(
            xid,
            SymbolValue::Tristate(Tristate::Yes),
            "plan".to_string(),
            2,
            None,
        )
        .unwrap();
    let report = validate_transactions(&schema.history).unwrap();
    assert_eq!(report.errors.len(), 0);
    assert_eq!(schema.symbols[xid].get_tristate_value(), Tristate::Yes);
}

#[test]
fn ambiguous_select() {
    // X has no prompt and reverse dependencies P || Q: the run reports an
    // ambiguous solution naming X and both clauses
    let p = sym("P", SymbolType::Tristate);
    let q = sym("Q", SymbolType::Tristate);
    let mut x = sym("X", SymbolType::Tristate);
    x.prompt_count = 0;
    x.rev_expr = Some(Expr::Or(
        Box::new(Expr::Terminal(Terminal::Symbol(0))),
        Box::new(Expr::Terminal(Terminal::Symbol(1))),
    ));
    let schema = schema_of(vec![p, q, x]);
    let cfg = SolverConfig { desired_value: Tristate::Yes, recursive: false };
    let err = satisfy(&schema, "X".to_string(), &cfg).unwrap_err();
    match err {
        SolveError::AmbiguousSolution { symbols } => {
            assert_eq!(symbols.len(), 1);
            assert_eq!(symbols[0].symbol, "X");
            assert_eq!(symbols[0].clauses, vec!["P".to_string(), "Q".to_string()]);
        }
        other => panic!("expected AmbiguousSolution, got {:?}", other),
    }
}

#[test]
fn promptless_single_clause_solvable() {
    // with exactly one reverse-dependency clause the selection is forced
    let p = sym("P", SymbolType::Tristate);
    let mut x = sym("X", SymbolType::Tristate);
    x.prompt_count = 0;
    x.rev_expr = Some(Expr::Terminal(Terminal::Symbol(0)));
    let schema = schema_of(vec![p, x]);
    let cfg = SolverConfig { desired_value: Tristate::Yes, recursive: false };
    let got = satisfy(&schema, "X".to_string(), &cfg).unwrap();
    assert_eq!(got, vec![("P".to_string(), Tristate::Yes)]);
}

#[test]
fn satisfier_nothing_to_do() {
    // a seed whose constraint already holds solves to the empty list,
    // recursively too
    let mut a = sym("A", SymbolType::Tristate);
    a.cur_tri = Tristate::Yes;
    let mut x = sym("X", SymbolType::Tristate);
    x.vis_expr = Some(Expr::Terminal(Terminal::Symbol(0)));
    let schema = schema_of(vec![a, x]);
    let cfg = SolverConfig { desired_value: Tristate::Yes, recursive: true };
    assert_eq!(satisfy(&schema, "X".to_string(), &cfg).unwrap(), vec![]);
    let cfg2 = SolverConfig { desired_value: Tristate::Yes, recursive: false };
    assert_eq!(satisfy(&schema, "X".to_string(), &cfg2).unwrap(), vec![]);
}

#[test]
fn reassignment_warning() {
    // two successful tracked assignments to one symbol: one warning with
    // both locations, zero errors
    let mut schema = schema_of(vec![sym("S", SymbolType::Tristate)]);
    let id = schema.symbol("S").unwrap();
    schema
        .set_value_tracked(
            id,
            SymbolValue::Tristate(Tristate::Yes),
            "conf".to_string(),
            3,
            None,
        )
        .unwrap();
    schema
        .set_value_tracked(
            id,
            SymbolValue::Tristate(Tristate::No),
            "conf".to_string(),
            7,
            None,
        )
        .unwrap();
    let report = validate_transactions(&schema.history).unwrap();
    assert_eq!(report.errors.len(), 0);
    assert_eq!(report.warnings, vec![(1, 0)]);
    assert_eq!(schema.history[report.warnings[0].1].line, 3);
    assert_eq!(schema.history[report.warnings[0].0].line, 7);
}

#[test]
fn idempotent_assignment() {
    // the same fully-valid assignment twice: the same final state, and
    // one reassignment warning
    let mut schema = schema_of(vec![sym("S", SymbolType::Tristate)]);
    let id = schema.symbol("S").unwrap();
    schema
        .set_value_tracked(
            id,
            SymbolValue::Tristate(Tristate::Yes),
            "conf".to_string(),
            1,
            None,
        )
        .unwrap();
    let first = schema.symbols[id].get_tristate_value();
    schema
        .set_value_tracked(
            id,
            SymbolValue::Tristate(Tristate::Yes),
            "conf".to_string(),
            2,
            None,
        )
        .unwrap();
    assert_eq!(schema.symbols[id].get_tristate_value(), first);
    let report = validate_transactions(&schema.history).unwrap();
    assert_eq!(report.errors.len(), 0);
    assert_eq!(report.warnings.len(), 1);
}

#[test]
fn journal_records_before_and_after() {
    // the record carries the values read before and after the write, the
    // intended value and the source location
    let mut schema = schema_of(vec![sym("S", SymbolType::Tristate)]);
    let id = schema.symbol("S").unwrap();
    schema
        .set_value_tracked(
            id,
            SymbolValue::Tristate(Tristate::Yes),
            "conf".to_string(),
            5,
            Some("trace".to_string()),
        )
        .unwrap();
    let tx = &schema.history[0];
    assert_eq!(tx.symbol, "S");
    assert_eq!(tx.file, "conf");
    assert_eq!(tx.line, 5);
    assert_eq!(tx.traceback.as_deref(), Some("trace"));
    assert_eq!(tx.value, SymbolValue::Tristate(Tristate::Yes));
    assert_eq!(tx.value_before, Some(SymbolValue::Tristate(Tristate::No)));
    assert_eq!(tx.value_after, Some(SymbolValue::Tristate(Tristate::Yes)));
    assert!(tx.error.is_none());
}

#[test]
fn unbounded_int_accepts_any_u64() {
    let mut i = sym("BIG", SymbolType::Int);
    i.cur_str = "0".to_string();
    let mut schema = schema_of(vec![i]);
    let id = schema.symbol("BIG").unwrap();
    schema.set_value(id, SymbolValue::Int(u64::MAX)).unwrap();
    assert_eq!(
        schema.symbols[id].get_value().unwrap(),
        SymbolValue::Int(u64::MAX)
    );
}

#[test]
fn out_of_range_int() {
    let mut i = sym("SMALL", SymbolType::Int);
    i.cur_str = "2".to_string();
    i.int_min = 1;
    i.int_max = 10;
    let mut schema = schema_of(vec![i]);
    let id = schema.symbol("SMALL").unwrap();
    let err = schema.set_value(id, SymbolValue::Int(11)).unwrap_err();
    assert_eq!(err, SymbolSetError::OutOfRange { min: 1, max: 10 });
    schema.set_value(id, SymbolValue::Number(10)).unwrap();
    assert_eq!(schema.symbols[id].get_string_value(), "10");
}

#[test]
fn boolean_mod_rejected() {
    let mut schema = schema_of(vec![sym("B", SymbolType::Boolean)]);
    let id = schema.symbol("B").unwrap();
    let err = schema
        .set_value(id, SymbolValue::Tristate(Tristate::Mod))
        .unwrap_err();
    assert_eq!(err, SymbolSetError::InvalidValue);
}

#[test]
fn modules_gate() {
    // Mod needs MODULES=y; an absent or disabled MODULES refuses it
    let t = sym("T", SymbolType::Tristate);
    let mut schema = schema_of(vec![t]);
    let id = schema.symbol("T").unwrap();
    let err = schema
        .set_value(id, SymbolValue::Tristate(Tristate::Mod))
        .unwrap_err();
    assert_eq!(err, SymbolSetError::ModulesNotEnabled);

    let modules = sym("MODULES", SymbolType::Boolean);
    let t2 = sym("T", SymbolType::Tristate);
    let mut schema2 = schema_of(vec![modules, t2]);
    let mid = schema2.symbol("MODULES").unwrap();
    schema2.set_value(mid, SymbolValue::Boolean(true)).unwrap();
    let tid = schema2.symbol("T").unwrap();
    schema2
        .set_value(tid, SymbolValue::Tristate(Tristate::Mod))
        .unwrap();
    assert_eq!(schema2.symbols[tid].get_tristate_value(), Tristate::Mod);
}

#[test]
fn const_choice_promptless_rejected() {
    let mut c = sym("FIXED", SymbolType::Boolean);
    c.flags = SymbolFlags::new(FLAG_CONST);
    let mut ch = sym("GROUP", SymbolType::Boolean);
    ch.flags = SymbolFlags::new(FLAG_CHOICE);
    let mut np = sym("PULLED", SymbolType::Boolean);
    np.prompt_count = 0;
    let mut schema = schema_of(vec![c, ch, np]);
    assert_eq!(
        schema.set_value(0, SymbolValue::Boolean(true)).unwrap_err(),
        SymbolSetError::IsConst
    );
    assert_eq!(
        schema.set_value(1, SymbolValue::Boolean(true)).unwrap_err(),
        SymbolSetError::IsChoice
    );
    assert_eq!(
        schema.set_value(2, SymbolValue::Boolean(true)).unwrap_err(),
        SymbolSetError::CannotSetManually
    );
}

#[test]
fn must_be_selected() {
    // no visibility expression and a stored visibility of No: the symbol
    // can only be pulled in through its reverse dependencies
    let p = sym("P", SymbolType::Tristate);
    let mut x = sym("X", SymbolType::Tristate);
    x.vis_expr = None;
    x.visible = Tristate::No;
    x.rev_expr = Some(Expr::Terminal(Terminal::Symbol(0)));
    let mut schema = schema_of(vec![p, x]);
    let id = schema.symbol("X").unwrap();
    match schema
        .set_value(id, SymbolValue::Tristate(Tristate::Yes))
        .unwrap_err()
    {
        SymbolSetError::MustBeSelected { rev_deps } => {
            assert_eq!(rev_deps, vec!["P".to_string()]);
        }
        other => panic!("expected MustBeSelected, got {:?}", other),
    }
}

#[test]
fn required_by_other() {
    // a floor above the assigned value names the selecting clauses
    let p = sym("P", SymbolType::Tristate);
    let mut x = sym("X", SymbolType::Tristate);
    x.rev_dep_floor = Tristate::Yes;
    x.cur_tri = Tristate::Yes;
    x.rev_expr = Some(Expr::Terminal(Terminal::Symbol(0)));
    let mut schema = schema_of(vec![p, x]);
    let id = schema.symbol("X").unwrap();
    match schema
        .set_value(id, SymbolValue::Tristate(Tristate::No))
        .unwrap_err()
    {
        SymbolSetError::RequiredByOther { min, max, rev_deps } => {
            assert_eq!(min, Tristate::Yes);
            assert_eq!(max, Tristate::Yes);
            assert_eq!(rev_deps, vec!["P".to_string()]);
        }
        other => panic!("expected RequiredByOther, got {:?}", other),
    }
}

#[test]
fn select_raises_selected_symbol() {
    // setting a selector recalculates the floor of the selected symbol
    // and pulls its value up
    let sel = sym("SEL", SymbolType::Tristate);
    let mut tgt = sym("TGT", SymbolType::Tristate);
    tgt.prompt_count = 0;
    tgt.vis_expr = None;
    tgt.visible = Tristate::No;
    tgt.rev_expr = Some(Expr::Terminal(Terminal::Symbol(0)));
    let mut schema = schema_of(vec![sel, tgt]);
    let sid = schema.symbol("SEL").unwrap();
    schema
        .set_value(sid, SymbolValue::Tristate(Tristate::Yes))
        .unwrap();
    let tid = schema.symbol("TGT").unwrap();
    assert_eq!(schema.symbols[tid].rev_dep_floor, Tristate::Yes);
    assert_eq!(schema.symbols[tid].get_tristate_value(), Tristate::Yes);
}

#[test]
fn merge_union_and_conflict() {
    // a conflict-free merge is the union; a conflicting key names itself
    // and both values
    let mut a = vec![("A".to_string(), Tristate::Yes)];
    let b = vec![("B".to_string(), Tristate::Mod), ("A".to_string(), Tristate::Yes)];
    merge(&mut a, b).unwrap();
    assert_eq!(
        a,
        vec![("A".to_string(), Tristate::Yes), ("B".to_string(), Tristate::Mod)]
    );
    let c = vec![("A".to_string(), Tristate::No)];
    match merge(&mut a, c).unwrap_err() {
        SolveError::ConflictingAssignment { symbol, a: va, b: vb } => {
            assert_eq!(symbol, "A");
            assert_eq!(va, Tristate::Yes);
            assert_eq!(vb, Tristate::No);
        }
        other => panic!("expected ConflictingAssignment, got {:?}", other),
    }
}

#[test]
fn unknown_symbol_unsolvable() {
    let schema = schema_of(vec![sym("A", SymbolType::Tristate)]);
    let cfg = SolverConfig::default();
    assert_eq!(
        satisfy(&schema, "MISSING".to_string(), &cfg).unwrap_err(),
        SolveError::InvalidSymbol
    );
}

#[test]
fn journal_counts_errors() {
    // refused assignments are journalled and fail the validation pass
    let mut c = sym("FIXED", SymbolType::Boolean);
    c.flags = SymbolFlags::new(FLAG_CONST);
    let mut schema = schema_of(vec![c]);
    let err = schema
        .set_value_tracked(
            0,
            SymbolValue::Boolean(true),
            "conf".to_string(),
            1,
            None,
        )
        .unwrap_err();
    assert_eq!(err, SymbolSetError::IsConst);
    let report = validate_transactions(&schema.history).unwrap_err();
    assert_eq!(report.errors, vec![0]);
}
