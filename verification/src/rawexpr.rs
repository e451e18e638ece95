//! Construction of engine expressions from a raw expression dump: the
//! structural conversion that the schema's native trees go through, with
//! absent children and absent symbols modelling null pointers.

use vstd::prelude::*;

use crate::expr::{Expr, Terminal};
use crate::symbol::SymbolId;

verus! {

/// A raw expression node as the schema dump shapes it.  A missing child
/// or symbol stands for a null pointer; `Untyped` for a node without a
/// type; `List` and `Range` for the source forms the engine does not
/// take.
#[derive(Debug)]
pub enum RawExpr {
    Untyped,
    Or(Option<Box<RawExpr>>, Option<Box<RawExpr>>),
    And(Option<Box<RawExpr>>, Option<Box<RawExpr>>),
    Not(Option<Box<RawExpr>>),
    Eq(Option<SymbolId>, Option<SymbolId>),
    Neq(Option<SymbolId>, Option<SymbolId>),
    Lth(Option<SymbolId>, Option<SymbolId>),
    Leq(Option<SymbolId>, Option<SymbolId>),
    Gth(Option<SymbolId>, Option<SymbolId>),
    Geq(Option<SymbolId>, Option<SymbolId>),
    Symbol(Option<SymbolId>),
    List,
    Range,
}

/// Why a raw tree cannot become an expression.
#[derive(Debug, Clone, Copy, PartialEq, Eq, Structural)]
pub enum ExprConvertError {
    /// A node without a type.
    NoneType,
    /// A missing child where one is required.
    NullExpr,
    /// A missing symbol where one is required.
    NullSymbol,
    /// `List` forms are not supported and do not occur in dependency or
    /// visibility contexts.
    List,
    /// `Range` forms are not supported there either.
    Range,
}

/// What converting one required child yields.
pub open spec fn spec_convert_child(c: Option<Box<RawExpr>>) -> Result<Expr, ExprConvertError>
    decreases c,
{
    match c {
        None => Err(ExprConvertError::NullExpr),
        Some(b) => spec_convert(*b),
    }
}

/// What converting one required symbol yields.
pub open spec fn spec_convert_sym(s: Option<SymbolId>) -> Result<SymbolId, ExprConvertError> {
    match s {
        None => Err(ExprConvertError::NullSymbol),
        Some(id) => Ok(id),
    }
}

/// The structural conversion, left child first.
pub open spec fn spec_convert(r: RawExpr) -> Result<Expr, ExprConvertError>
    decreases r,
{
    match r {
        RawExpr::Untyped => Err(ExprConvertError::NoneType),
        RawExpr::Or(a, b) => match (spec_convert_child(a), spec_convert_child(b)) {
            (Ok(x), Ok(y)) => Ok(Expr::Or(Box::new(x), Box::new(y))),
            (Err(e), _) => Err(e),
            (_, Err(e)) => Err(e),
        },
        RawExpr::And(a, b) => match (spec_convert_child(a), spec_convert_child(b)) {
            (Ok(x), Ok(y)) => Ok(Expr::And(Box::new(x), Box::new(y))),
            (Err(e), _) => Err(e),
            (_, Err(e)) => Err(e),
        },
        RawExpr::Not(a) => match spec_convert_child(a) {
            Ok(x) => Ok(Expr::Not(Box::new(x))),
            Err(e) => Err(e),
        },
        RawExpr::Eq(a, b) => match (spec_convert_sym(a), spec_convert_sym(b)) {
            (Ok(x), Ok(y)) => Ok(Expr::Terminal(Terminal::Eq(x, y))),
            _ => Err(ExprConvertError::NullSymbol),
        },
        RawExpr::Neq(a, b) => match (spec_convert_sym(a), spec_convert_sym(b)) {
            (Ok(x), Ok(y)) => Ok(Expr::Terminal(Terminal::Neq(x, y))),
            _ => Err(ExprConvertError::NullSymbol),
        },
        RawExpr::Lth(a, b) => match (spec_convert_sym(a), spec_convert_sym(b)) {
            (Ok(x), Ok(y)) => Ok(Expr::Terminal(Terminal::Lth(x, y))),
            _ => Err(ExprConvertError::NullSymbol),
        },
        RawExpr::Leq(a, b) => match (spec_convert_sym(a), spec_convert_sym(b)) {
            (Ok(x), Ok(y)) => Ok(Expr::Terminal(Terminal::Leq(x, y))),
            _ => Err(ExprConvertError::NullSymbol),
        },
        RawExpr::Gth(a, b) => match (spec_convert_sym(a), spec_convert_sym(b)) {
            (Ok(x), Ok(y)) => Ok(Expr::Terminal(Terminal::Gth(x, y))),
            _ => Err(ExprConvertError::NullSymbol),
        },
        RawExpr::Geq(a, b) => match (spec_convert_sym(a), spec_convert_sym(b)) {
            (Ok(x), Ok(y)) => Ok(Expr::Terminal(Terminal::Geq(x, y))),
            _ => Err(ExprConvertError::NullSymbol),
        },
        RawExpr::Symbol(s) => match spec_convert_sym(s) {
            Ok(x) => Ok(Expr::Terminal(Terminal::Symbol(x))),
            Err(e) => Err(e),
        },
        RawExpr::List => Err(ExprConvertError::List),
        RawExpr::Range => Err(ExprConvertError::Range),
    }
}

fn convert_child(c: &Option<Box<RawExpr>>) -> (r: Result<Expr, ExprConvertError>)
    ensures
        r == spec_convert_child(*c),
    decreases c,
{
    match c {
        None => Err(ExprConvertError::NullExpr),
        Some(b) => convert_raw(b),
    }
}

fn convert_sym(s: &Option<SymbolId>) -> (r: Result<SymbolId, ExprConvertError>)
    ensures
        r == spec_convert_sym(*s),
{
    match s {
        None => Err(ExprConvertError::NullSymbol),
        Some(id) => Ok(*id),
    }
}

fn convert_cmp(
    a: &Option<SymbolId>,
    b: &Option<SymbolId>,
) -> (r: Result<(SymbolId, SymbolId), ExprConvertError>)
    ensures
        match (spec_convert_sym(*a), spec_convert_sym(*b)) {
            (Ok(x), Ok(y)) => r == Ok::<(SymbolId, SymbolId), ExprConvertError>((x, y)),
            _ => r == Err::<(SymbolId, SymbolId), ExprConvertError>(ExprConvertError::NullSymbol),
        },
{
    match (convert_sym(a), convert_sym(b)) {
        (Ok(x), Ok(y)) => Ok((x, y)),
        _ => Err(ExprConvertError::NullSymbol),
    }
}

fn convert_raw(r: &RawExpr) -> (out: Result<Expr, ExprConvertError>)
    ensures
        out == spec_convert(*r),
    decreases r,
{
    match r {
        RawExpr::Untyped => Err(ExprConvertError::NoneType),
        RawExpr::Or(a, b) => {
            let x = convert_child(a)?;
            let y = convert_child(b)?;
            Ok(Expr::Or(Box::new(x), Box::new(y)))
        },
        RawExpr::And(a, b) => {
            let x = convert_child(a)?;
            let y = convert_child(b)?;
            Ok(Expr::And(Box::new(x), Box::new(y)))
        },
        RawExpr::Not(a) => {
            let x = convert_child(a)?;
            Ok(Expr::Not(Box::new(x)))
        },
        RawExpr::Eq(a, b) => {
            let (x, y) = convert_cmp(a, b)?;
            Ok(Expr::Terminal(Terminal::Eq(x, y)))
        },
        RawExpr::Neq(a, b) => {
            let (x, y) = convert_cmp(a, b)?;
            Ok(Expr::Terminal(Terminal::Neq(x, y)))
        },
        RawExpr::Lth(a, b) => {
            let (x, y) = convert_cmp(a, b)?;
            Ok(Expr::Terminal(Terminal::Lth(x, y)))
        },
        RawExpr::Leq(a, b) => {
            let (x, y) = convert_cmp(a, b)?;
            Ok(Expr::Terminal(Terminal::Leq(x, y)))
        },
        RawExpr::Gth(a, b) => {
            let (x, y) = convert_cmp(a, b)?;
            Ok(Expr::Terminal(Terminal::Gth(x, y)))
        },
        RawExpr::Geq(a, b) => {
            let (x, y) = convert_cmp(a, b)?;
            Ok(Expr::Terminal(Terminal::Geq(x, y)))
        },
        RawExpr::Symbol(s) => {
            let x = convert_sym(s)?;
            Ok(Expr::Terminal(Terminal::Symbol(x)))
        },
        RawExpr::List => Err(ExprConvertError::List),
        RawExpr::Range => Err(ExprConvertError::Range),
    }
}

/// Convert a raw tree; an absent root is no expression at all rather than
/// a failure.
pub fn convert_expression(root: &Option<Box<RawExpr>>) -> (r: Result<
    Option<Expr>,
    ExprConvertError,
>)
    ensures
        r == (match *root {
            None => Ok::<Option<Expr>, ExprConvertError>(None),
            Some(b) => match spec_convert(*b) {
                Ok(e) => Ok(Some(e)),
                Err(k) => Err(k),
            },
        }),
{
    match root {
        None => Ok(None),
        Some(b) => match convert_raw(b) {
            Ok(e) => Ok(Some(e)),
            Err(k) => Err(k),
        },
    }
}

} // verus!
