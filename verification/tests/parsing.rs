use autokernel::expr::{EvalError, Expr, Terminal};
use autokernel::kconfig::{ApplyError, KConfig, KConfigError};
use autokernel::kconfig_types;
use autokernel::numparse::{format_dec, format_hex_prefixed, parse_dec, parse_hex,
    parse_kernel_version};
use autokernel::rawexpr::{convert_expression, ExprConvertError, RawExpr};
use autokernel::schema::Schema;
use autokernel::symbol::{Symbol, SymbolFlags, SymbolType, SymbolValue};
use autokernel::tristate::Tristate;
use autokernel::validate::validate_dotconfig;

fn sym(name: &str, ty: SymbolType) -> Symbol {
    Symbol {
        name: Some(name.to_string()),
        sym_type: ty,
        flags: SymbolFlags::new(0),
        prompt_count: 1,
        cur_tri: Tristate::No,
        cur_str: String::new(),
        visible: Tristate::Yes,
        rev_dep_floor: Tristate::No,
        vis_expr: Some(Expr::Const(true)),
        rev_expr: None,
        int_min: 0,
        int_max: 0,
    }
}

#[test]
fn tristate_char_round_trip() {
    for (c, t) in [('n', Tristate::No), ('m', Tristate::Mod), ('y', Tristate::Yes)] {
        assert_eq!(Tristate::from_char(c), Some(t));
        assert_eq!(t.to_char(), c);
    }
    assert_eq!(Tristate::from_char('x'), None);
    assert_eq!(Tristate::from_str("m"), Some(Tristate::Mod));
    assert_eq!(Tristate::from_str("yes"), None);
    assert_eq!(Tristate::from_str(""), None);
}

#[test]
fn tristate_algebra() {
    assert_eq!(Tristate::No.invert(), Tristate::Yes);
    assert_eq!(Tristate::Mod.invert(), Tristate::Mod);
    assert_eq!(Tristate::Yes.invert(), Tristate::No);
    assert_eq!(Tristate::No.max(Tristate::Mod), Tristate::Mod);
    assert_eq!(Tristate::Yes.min(Tristate::Mod), Tristate::Mod);
    assert!(Tristate::No.lt(Tristate::Mod));
    assert!(Tristate::Mod.le(Tristate::Mod));
}

#[test]
fn number_round_trips() {
    assert_eq!(parse_dec("184467"), Some(184467));
    assert_eq!(parse_dec("18446744073709551615"), Some(u64::MAX));
    assert_eq!(parse_dec("18446744073709551616"), None);
    assert_eq!(parse_dec(""), None);
    assert_eq!(parse_dec("12a"), None);
    assert_eq!(parse_hex("1fF"), Some(0x1ff));
    assert_eq!(parse_hex("g"), None);
    assert_eq!(format_dec(0), "0");
    assert_eq!(format_dec(90210), "90210");
    assert_eq!(format_hex_prefixed(0x2a), "0x2a");
    assert_eq!(parse_dec(&format_dec(123456789)), Some(123456789));
    assert_eq!(parse_hex(&format_hex_prefixed(0xdead_beef)[2..]), Some(0xdead_beef));
}

#[test]
fn kernel_version_parsing() {
    assert_eq!(parse_kernel_version("5.19.1"), Some((5, 19, 1)));
    assert_eq!(parse_kernel_version("6.1"), Some((6, 1, 0)));
    assert_eq!(parse_kernel_version("6"), None);
    assert_eq!(parse_kernel_version("a.b.c"), None);
}

#[test]
fn eval_laws_on_values() {
    // Not inverts, And is the minimum, Or is the maximum
    let mut a = sym("A", SymbolType::Tristate);
    a.cur_tri = Tristate::Mod;
    let mut b = sym("B", SymbolType::Tristate);
    b.cur_tri = Tristate::Yes;
    let schema = Schema { symbols: vec![a, b], history: Vec::new() };
    let ea = Expr::Terminal(Terminal::Symbol(0));
    let eb = Expr::Terminal(Terminal::Symbol(1));
    assert_eq!(ea.eval(&schema.symbols).unwrap(), Tristate::Mod);
    let not_a = Expr::Not(Box::new(ea.dup()));
    assert_eq!(not_a.eval(&schema.symbols).unwrap(), Tristate::Mod);
    let and = Expr::And(Box::new(ea.dup()), Box::new(eb.dup()));
    assert_eq!(and.eval(&schema.symbols).unwrap(), Tristate::Mod);
    let or = Expr::Or(Box::new(ea.dup()), Box::new(eb.dup()));
    assert_eq!(or.eval(&schema.symbols).unwrap(), Tristate::Yes);
    let c = Expr::Const(false);
    assert_eq!(c.eval(&schema.symbols).unwrap(), Tristate::No);
}

#[test]
fn eval_comparisons() {
    // tristate-carrying symbols compare as tristates, integer-carrying
    // ones by their parsed payloads
    let mut a = sym("A", SymbolType::Tristate);
    a.cur_tri = Tristate::Mod;
    let mut b = sym("B", SymbolType::Boolean);
    b.cur_tri = Tristate::Yes;
    let mut i = sym("I", SymbolType::Int);
    i.cur_str = "10".to_string();
    let mut h = sym("H", SymbolType::Hex);
    h.cur_str = "0xa".to_string();
    let mut s = sym("S", SymbolType::String);
    s.cur_str = "hi".to_string();
    let schema = Schema { symbols: vec![a, b, i, h, s], history: Vec::new() };
    let lt = Expr::Terminal(Terminal::Lth(0, 1));
    assert_eq!(lt.eval(&schema.symbols).unwrap(), Tristate::Yes);
    let eq = Expr::Terminal(Terminal::Eq(2, 3));
    assert_eq!(eq.eval(&schema.symbols).unwrap(), Tristate::Yes);
    let bad = Expr::Terminal(Terminal::Eq(0, 2));
    match bad.eval(&schema.symbols).unwrap_err() {
        EvalError::InvalidTerminal { .. } => {}
        other => panic!("expected InvalidTerminal, got {:?}", other),
    }
    let mut u = sym("U", SymbolType::Unknown);
    u.cur_str = "oops".to_string();
    let schema2 = Schema {
        symbols: vec![u, schema.symbols[2].clone()],
        history: Vec::new(),
    };
    let cmp = Expr::Terminal(Terminal::Eq(0, 1));
    match cmp.eval(&schema2.symbols).unwrap_err() {
        EvalError::InvalidIntegerSymbol { symbol } => assert_eq!(symbol, "U"),
        other => panic!("expected InvalidIntegerSymbol, got {:?}", other),
    }
}

#[test]
fn clause_decomposition() {
    let t0 = Expr::Terminal(Terminal::Symbol(0));
    let t1 = Expr::Terminal(Terminal::Symbol(1));
    let t2 = Expr::Terminal(Terminal::Symbol(2));
    let or = Expr::Or(
        Box::new(Expr::Or(Box::new(t0.dup()), Box::new(t1.dup()))),
        Box::new(t2.dup()),
    );
    assert_eq!(or.or_clauses(), vec![t0.dup(), t1.dup(), t2.dup()]);
    assert_eq!(or.and_clauses(), vec![or.dup()]);
    let and = Expr::And(
        Box::new(t0.dup()),
        Box::new(Expr::And(Box::new(t1.dup()), Box::new(t2.dup()))),
    );
    assert_eq!(and.and_clauses(), vec![t0.dup(), t1.dup(), t2.dup()]);
    assert_eq!(and.or_clauses(), vec![and.dup()]);
}

#[test]
fn expression_display() {
    let a = sym("A", SymbolType::Tristate);
    let b = sym("B", SymbolType::Tristate);
    let c = sym("C", SymbolType::Tristate);
    let schema = Schema { symbols: vec![a, b, c], history: Vec::new() };
    let e = Expr::Or(
        Box::new(Expr::And(
            Box::new(Expr::Terminal(Terminal::Symbol(0))),
            Box::new(Expr::Not(Box::new(Expr::Terminal(Terminal::Symbol(1))))),
        )),
        Box::new(Expr::Terminal(Terminal::Eq(1, 2))),
    );
    assert_eq!(e.display(&schema.symbols), "((A && !B) || (B == C))");
}

#[test]
fn from_content_parses_assignments() {
    let content = "\n# a comment\nCONFIG_FOO=y\n  CONFIG_BAR = \"quoted\"  \nBAZ=0x10\n";
    let k = KConfig::from_content("demo".to_string(), content.to_string()).unwrap();
    assert_eq!(k.filename, "demo");
    assert_eq!(k.assignments.len(), 3);
    assert_eq!(k.assignments[0].symbol, "FOO");
    assert_eq!(k.assignments[0].value, "y");
    assert_eq!(k.assignments[0].line, 3);
    assert_eq!(k.assignments[1].symbol, "BAR");
    assert_eq!(k.assignments[1].value, "quoted");
    assert_eq!(k.assignments[1].line, 4);
    assert_eq!(k.assignments[2].symbol, "BAZ");
    assert_eq!(k.assignments[2].value, "0x10");
    assert_eq!(k.assignments[2].line, 5);
}

#[test]
fn from_content_rejects_invalid_line() {
    let content = "CONFIG_FOO=y\nnot an assignment\n";
    match KConfig::from_content("demo".to_string(), content.to_string()).unwrap_err() {
        KConfigError::InvalidLine { line } => assert_eq!(line, 2),
    }
}

#[test]
fn apply_drives_the_validator() {
    let content = "CONFIG_FOO=y\nCONFIG_BAR=n\n";
    let k = KConfig::from_content("demo".to_string(), content.to_string()).unwrap();
    let foo = sym("FOO", SymbolType::Boolean);
    let bar = sym("BAR", SymbolType::Tristate);
    let mut schema = Schema { symbols: vec![foo, bar], history: Vec::new() };
    k.apply(&mut schema).unwrap();
    assert_eq!(schema.history.len(), 2);
    let id = schema.symbol("FOO").unwrap();
    assert_eq!(schema.symbols[id].get_tristate_value(), Tristate::Yes);
    assert_eq!(schema.history[0].file, "demo");
    assert_eq!(schema.history[0].line, 1);
}

#[test]
fn apply_continues_past_refusals() {
    // a refused assignment is journalled and the run continues; an
    // unknown symbol stops it
    let content = "CONFIG_FIXED=y\nCONFIG_BAR=y\n";
    let k = KConfig::from_content("demo".to_string(), content.to_string()).unwrap();
    let mut fixed = sym("FIXED", SymbolType::Boolean);
    fixed.flags = autokernel::symbol::SymbolFlags::new(autokernel::symbol::FLAG_CONST);
    let bar = sym("BAR", SymbolType::Boolean);
    let mut schema = Schema { symbols: vec![fixed, bar], history: Vec::new() };
    k.apply(&mut schema).unwrap();
    assert_eq!(schema.history.len(), 2);
    assert!(schema.history[0].error.is_some());
    assert!(schema.history[1].error.is_none());
    let bid = schema.symbol("BAR").unwrap();
    assert_eq!(schema.symbols[bid].get_tristate_value(), Tristate::Yes);

    let k2 = KConfig::from_content("demo".to_string(), "CONFIG_MISSING=y\n".to_string()).unwrap();
    match k2.apply(&mut schema).unwrap_err() {
        ApplyError::UnknownSymbol { symbol, line } => {
            assert_eq!(symbol, "MISSING");
            assert_eq!(line, 1);
        }
    }
}

#[test]
fn get_value_dispatch() {
    let mut b = sym("B", SymbolType::Boolean);
    b.cur_tri = Tristate::Yes;
    let mut t = sym("T", SymbolType::Tristate);
    t.cur_tri = Tristate::Mod;
    let mut i = sym("I", SymbolType::Int);
    i.cur_str = "42".to_string();
    let mut s = sym("S", SymbolType::String);
    s.cur_str = "text".to_string();
    assert_eq!(b.get_value().unwrap(), SymbolValue::Boolean(true));
    assert_eq!(t.get_value().unwrap(), SymbolValue::Tristate(Tristate::Mod));
    assert_eq!(i.get_value().unwrap(), SymbolValue::Int(42));
    assert_eq!(s.get_value().unwrap(), SymbolValue::String("text".to_string()));
    assert_eq!(b.get_string_value(), "y");
    assert_eq!(t.get_string_value(), "m");
    assert_eq!(i.get_string_value(), "42");
}

fn dump_sym(name: &str) -> kconfig_types::Symbol {
    kconfig_types::Symbol {
        curr: kconfig_types::Curr { tri: "n".to_string(), val: None },
        def: kconfig_types::Def {
            user: kconfig_types::Curr { tri: "n".to_string(), val: None },
            auto: kconfig_types::Curr { tri: "n".to_string(), val: None },
            def3: kconfig_types::Curr { tri: "n".to_string(), val: None },
            def4: kconfig_types::Curr { tri: "n".to_string(), val: None },
        },
        dir_dep: kconfig_types::Dep { expr: None, tri: "n".to_string() },
        flags: "0".to_string(),
        implied: kconfig_types::Dep { expr: None, tri: "n".to_string() },
        name: Some(name.to_string()),
        properties: Vec::new(),
        ptr: "0x0".to_string(),
        rev_dep: kconfig_types::Dep { expr: None, tri: "n".to_string() },
        typ: "Boolean".to_string(),
        visible: "y".to_string(),
    }
}

#[test]
fn raw_expression_conversion() {
    // a well-shaped tree converts structurally; an absent root is no
    // expression; a missing child or symbol and the unsupported forms
    // are refused
    let raw = RawExpr::And(
        Some(Box::new(RawExpr::Symbol(Some(0)))),
        Some(Box::new(RawExpr::Not(Some(Box::new(RawExpr::Eq(Some(1), Some(2))))))),
    );
    let expected = Expr::And(
        Box::new(Expr::Terminal(Terminal::Symbol(0))),
        Box::new(Expr::Not(Box::new(Expr::Terminal(Terminal::Eq(1, 2))))),
    );
    assert_eq!(convert_expression(&Some(Box::new(raw))), Ok(Some(expected)));
    assert_eq!(convert_expression(&None), Ok(None));
    assert_eq!(
        convert_expression(&Some(Box::new(RawExpr::Or(Some(Box::new(RawExpr::List)), None)))),
        Err(ExprConvertError::List)
    );
    assert_eq!(
        convert_expression(&Some(Box::new(RawExpr::Symbol(None)))),
        Err(ExprConvertError::NullSymbol)
    );
    assert_eq!(
        convert_expression(&Some(Box::new(RawExpr::Untyped))),
        Err(ExprConvertError::NoneType)
    );
    assert_eq!(
        convert_expression(&Some(Box::new(RawExpr::Range))),
        Err(ExprConvertError::Range)
    );
}

#[test]
fn dotconfig_validation() {
    let dump = kconfig_types::Symbols { symbols: vec![dump_sym("FOO"), dump_sym("BAR")] };
    assert!(validate_dotconfig(&dump, "# comment\nCONFIG_FOO=y\nCONFIG_BAR=m\n").is_ok());
    // an assignment to a symbol the dump lacks fails, naming the line
    assert_eq!(
        validate_dotconfig(&dump, "CONFIG_FOO=y\nCONFIG_MISSING=y\n"),
        Err(2)
    );
    // a name without the prefix fails
    assert_eq!(validate_dotconfig(&dump, "FOO=y\n"), Err(1));
    // an empty value fails
    assert_eq!(validate_dotconfig(&dump, "CONFIG_FOO=\n"), Err(1));
}
