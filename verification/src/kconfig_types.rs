//! A plain mirror of an exported symbol dump: the shape a schema takes
//! when serialised for inspection outside the engine.

use vstd::prelude::*;

verus! {

/// One side of a dumped expression node: absent, a pointer rendering, or
/// a nested expression.
#[derive(Debug)]
pub enum Direction {
    Absent,
    Ptr(String),
    There(Box<Expr>),
}

/// A dumped expression node.
#[derive(Debug)]
pub struct Expr {
    pub dummy: Option<String>,
    pub left: Direction,
    pub right: Direction,
    pub typ: String,
}

/// A dumped menu entry.
#[derive(Debug)]
pub struct Menu {
    pub dep: Option<Expr>,
    pub flags: String,
    pub help: Option<String>,
    pub visibility: Option<String>,
}

/// A dumped dependency: its expression and its tristate rendering.
#[derive(Debug)]
pub struct Dep {
    pub expr: Option<Expr>,
    pub tri: String,
}

/// A dumped property of a symbol.
#[derive(Debug)]
pub struct Property {
    pub typ: String,
    pub text: Option<String>,
    pub visible: Dep,
    pub expr: Option<Expr>,
    pub menu: Menu,
    pub file: Option<String>,
    pub lineno: String,
}

/// A current value: its tristate rendering and its textual payload.
#[derive(Debug)]
pub struct Curr {
    pub tri: String,
    pub val: Option<String>,
}

/// The four default-value slots of a dumped symbol.
#[derive(Debug)]
pub struct Def {
    pub user: Curr,
    pub auto: Curr,
    pub def3: Curr,
    pub def4: Curr,
}

/// A tristate rendering on its own.
#[derive(Debug)]
pub struct TriStr {
    pub tri: String,
}

/// One dumped symbol.
#[derive(Debug)]
pub struct Symbol {
    pub curr: Curr,
    pub def: Def,
    pub dir_dep: Dep,
    pub flags: String,
    pub implied: Dep,
    pub name: Option<String>,
    pub properties: Vec<Property>,
    pub ptr: String,
    pub rev_dep: Dep,
    pub typ: String,
    pub visible: String,
}

/// A whole dump.
#[derive(Debug)]
pub struct Symbols {
    pub symbols: Vec<Symbol>,
}

} // verus!
