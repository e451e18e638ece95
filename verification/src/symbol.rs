//! The symbol model: typed configuration symbols held in a schema arena
//! and addressed by integer ids.

use vstd::prelude::*;

use crate::expr::Expr;
use crate::numparse::{parse_dec, parse_hex, spec_parse_dec, spec_parse_hex};
use crate::tristate::Tristate;

verus! {

/// Index of a symbol in the schema arena.
pub type SymbolId = usize;

/// The declared type of a symbol, immutable over the life of a schema.
#[derive(Debug, Clone, Copy, PartialEq, Eq, Structural)]
pub enum SymbolType {
    Unknown,
    Boolean,
    Tristate,
    Int,
    Hex,
    String,
}

/// Schema-maintenance flags of a symbol.  The engine interprets only
/// `CONST` (the value is fixed) and `CHOICE` (the symbol is a choice-group
/// container); the remaining bits are carried through unread.
#[derive(Debug, Clone, Copy, PartialEq, Eq, Structural)]
pub struct SymbolFlags {
    pub bits: u32,
}

pub const FLAG_CONST: u32 = 0x0001;

pub const FLAG_CHOICE: u32 = 0x0010;

impl SymbolFlags {
    pub open spec fn spec_is_const(self) -> bool {
        self.bits & FLAG_CONST != 0
    }

    pub open spec fn spec_is_choice(self) -> bool {
        self.bits & FLAG_CHOICE != 0
    }

    pub fn empty() -> (r: SymbolFlags)
        ensures
            r.bits == 0,
    {
        SymbolFlags { bits: 0 }
    }

    pub fn new(bits: u32) -> (r: SymbolFlags)
        ensures
            r.bits == bits,
    {
        SymbolFlags { bits }
    }

    pub fn is_const(self) -> (r: bool)
        ensures
            r == self.spec_is_const(),
    {
        self.bits & FLAG_CONST != 0
    }

    pub fn is_choice(self) -> (r: bool)
        ensures
            r == self.spec_is_choice(),
    {
        self.bits & FLAG_CHOICE != 0
    }
}

/// A value to assign to a symbol.  `Auto` is a late-bound textual form that
/// is coerced against the symbol's declared type at assignment time;
/// `Number` is the unifying form for `Int` and `Hex`.
#[derive(Debug, Clone, PartialEq, Eq)]
pub enum SymbolValue {
    Boolean(bool),
    Tristate(Tristate),
    Int(u64),
    Hex(u64),
    Number(u64),
    String(String),
    Auto(String),
}

impl SymbolValue {
    /// Equality of two values, with string payloads compared by content.
    pub open spec fn spec_eq(self, other: SymbolValue) -> bool {
        match (self, other) {
            (SymbolValue::Boolean(a), SymbolValue::Boolean(b)) => a == b,
            (SymbolValue::Tristate(a), SymbolValue::Tristate(b)) => a == b,
            (SymbolValue::Int(a), SymbolValue::Int(b)) => a == b,
            (SymbolValue::Hex(a), SymbolValue::Hex(b)) => a == b,
            (SymbolValue::Number(a), SymbolValue::Number(b)) => a == b,
            (SymbolValue::String(a), SymbolValue::String(b)) => a@ == b@,
            (SymbolValue::Auto(a), SymbolValue::Auto(b)) => a@ == b@,
            _ => false,
        }
    }

    pub fn value_eq(&self, other: &SymbolValue) -> (r: bool)
        ensures
            r == self.spec_eq(*other),
    {
        match (self, other) {
            (SymbolValue::Boolean(a), SymbolValue::Boolean(b)) => *a == *b,
            (SymbolValue::Tristate(a), SymbolValue::Tristate(b)) => *a == *b,
            (SymbolValue::Int(a), SymbolValue::Int(b)) => *a == *b,
            (SymbolValue::Hex(a), SymbolValue::Hex(b)) => *a == *b,
            (SymbolValue::Number(a), SymbolValue::Number(b)) => *a == *b,
            (SymbolValue::String(a), SymbolValue::String(b)) => a.eq(b),
            (SymbolValue::Auto(a), SymbolValue::Auto(b)) => a.eq(b),
            _ => false,
        }
    }

    pub fn duplicate(&self) -> (r: SymbolValue)
        ensures
            r.spec_eq(*self),
    {
        match self {
            SymbolValue::Boolean(b) => SymbolValue::Boolean(*b),
            SymbolValue::Tristate(t) => SymbolValue::Tristate(*t),
            SymbolValue::Int(v) => SymbolValue::Int(*v),
            SymbolValue::Hex(v) => SymbolValue::Hex(*v),
            SymbolValue::Number(v) => SymbolValue::Number(*v),
            SymbolValue::String(s) => SymbolValue::String(s.clone()),
            SymbolValue::Auto(s) => SymbolValue::Auto(s.clone()),
        }
    }
}

/// Reading a symbol's value can fail on these.
#[derive(Debug, Clone, PartialEq, Eq)]
pub enum SymbolGetError {
    UnknownType,
    InvalidInt,
    InvalidHex,
}

/// Why an assignment was refused.  The structured payloads drive the
/// diagnostics: the offending bounds, the clauses still to satisfy, and
/// the solver's suggestion where one could be derived.
#[derive(Debug, PartialEq, Eq)]
pub enum SymbolSetError {
    /// The symbol's declared type is unknown.
    UnknownType,
    /// The symbol's value is fixed.
    IsConst,
    /// The symbol is a choice-group container; assign a child instead.
    IsChoice,
    /// The textual value does not parse as a decimal integer.
    InvalidInt,
    /// The textual value is not `0x` followed by hexadecimal digits.
    InvalidHex,
    /// The textual value is not one of `n`, `m`, `y`.
    InvalidTristate,
    /// The textual value is not one of `n`, `y`.
    InvalidBoolean,
    /// A tracked satisfaction run failed; carries the solver's error.
    SatisfyFailed { error: crate::satisfier::SolveError },
    /// The value lies above the visibility bound: dependencies are unmet.
    /// `deps` renders the visibility expression's top-level `And` clauses;
    /// `satisfying_configuration` is the solver's suggestion.
    UnmetDependencies {
        min: Tristate,
        max: Tristate,
        deps: Vec<String>,
        satisfying_configuration: Result<
            Vec<(String, Tristate)>,
            crate::satisfier::SolveError,
        >,
    },
    /// The value lies below the floor other symbols force.
    RequiredByOther { min: Tristate, max: Tristate, rev_deps: Vec<String> },
    /// The symbol has no prompt and cannot be assigned directly.
    CannotSetManually,
    /// No visibility expression exists: the symbol can only be pulled in
    /// by satisfying one of its reverse-dependency clauses.
    MustBeSelected { rev_deps: Vec<String> },
    /// The schema contradicts itself: the floor exceeds the visibility.
    InvalidVisibility { min: Tristate, max: Tristate },
    /// `Mod` was assigned while module support is not enabled.
    ModulesNotEnabled,
    /// An integer value outside the declared range.
    OutOfRange { min: u64, max: u64 },
    /// The value's type does not fit the symbol's declared type.
    InvalidValue,
    /// The write was rejected by the model.
    AssignmentFailed,
}

/// The mathematical shape of a refused assignment: the error's variant
/// and its bounds.  Rendered clause lists and solver suggestions are
/// diagnostic payloads and are not pinned.
pub enum SetErrorSpec {
    UnknownType,
    IsConst,
    IsChoice,
    CannotSetManually,
    InvalidInt,
    InvalidHex,
    InvalidTristate,
    InvalidBoolean,
    UnmetDependencies { min: Tristate, max: Tristate, n_deps: int, desired: Tristate },
    MustBeSelected { n_rev: int },
    RequiredByOther { min: Tristate, max: Tristate, n_rev: int },
    InvalidVisibility { min: Tristate, max: Tristate },
    ModulesNotEnabled,
    OutOfRange { min: u64, max: u64 },
    InvalidValue,
}

/// Whether an assignment error reports the refusal the specification
/// names: same variant, same bounds.
pub open spec fn set_err_corresponds(e: SymbolSetError, k: SetErrorSpec) -> bool {
    match (e, k) {
        (SymbolSetError::UnknownType, SetErrorSpec::UnknownType) => true,
        (SymbolSetError::IsConst, SetErrorSpec::IsConst) => true,
        (SymbolSetError::IsChoice, SetErrorSpec::IsChoice) => true,
        (SymbolSetError::CannotSetManually, SetErrorSpec::CannotSetManually) => true,
        (SymbolSetError::InvalidInt, SetErrorSpec::InvalidInt) => true,
        (SymbolSetError::InvalidHex, SetErrorSpec::InvalidHex) => true,
        (SymbolSetError::InvalidTristate, SetErrorSpec::InvalidTristate) => true,
        (SymbolSetError::InvalidBoolean, SetErrorSpec::InvalidBoolean) => true,
        (
            SymbolSetError::UnmetDependencies { min: m1, max: x1, deps, .. },
            SetErrorSpec::UnmetDependencies { min: m2, max: x2, n_deps, .. },
        ) => m1 == m2 && x1 == x2 && deps@.len() == n_deps,
        (
            SymbolSetError::MustBeSelected { rev_deps },
            SetErrorSpec::MustBeSelected { n_rev },
        ) => rev_deps@.len() == n_rev,
        (
            SymbolSetError::RequiredByOther { min: m1, max: x1, rev_deps },
            SetErrorSpec::RequiredByOther { min: m2, max: x2, n_rev },
        ) => m1 == m2 && x1 == x2 && rev_deps@.len() == n_rev,
        (
            SymbolSetError::InvalidVisibility { min: m1, max: x1 },
            SetErrorSpec::InvalidVisibility { min: m2, max: x2 },
        ) => m1 == m2 && x1 == x2,
        (SymbolSetError::ModulesNotEnabled, SetErrorSpec::ModulesNotEnabled) => true,
        (
            SymbolSetError::OutOfRange { min: m1, max: x1 },
            SetErrorSpec::OutOfRange { min: m2, max: x2 },
        ) => m1 == m2 && x1 == x2,
        (SymbolSetError::InvalidValue, SetErrorSpec::InvalidValue) => true,
        _ => false,
    }
}

impl SymbolSetError {
    /// A content-wise copy, reporting the same refusal.
    pub fn duplicate(&self) -> (r: SymbolSetError)
        ensures
            forall|k: SetErrorSpec| set_err_corresponds(*self, k) ==> set_err_corresponds(r, k),
    {
        match self {
            SymbolSetError::UnknownType => SymbolSetError::UnknownType,
            SymbolSetError::IsConst => SymbolSetError::IsConst,
            SymbolSetError::IsChoice => SymbolSetError::IsChoice,
            SymbolSetError::InvalidInt => SymbolSetError::InvalidInt,
            SymbolSetError::InvalidHex => SymbolSetError::InvalidHex,
            SymbolSetError::InvalidTristate => SymbolSetError::InvalidTristate,
            SymbolSetError::InvalidBoolean => SymbolSetError::InvalidBoolean,
            SymbolSetError::SatisfyFailed { error } => SymbolSetError::SatisfyFailed {
                error: error.duplicate(),
            },
            SymbolSetError::UnmetDependencies { min, max, deps, satisfying_configuration } => {
                let sc = match satisfying_configuration {
                    Ok(lst) => Ok(dup_pairs(lst)),
                    Err(e) => Err(e.duplicate()),
                };
                SymbolSetError::UnmetDependencies {
                    min: *min,
                    max: *max,
                    deps: dup_strings(deps),
                    satisfying_configuration: sc,
                }
            },
            SymbolSetError::RequiredByOther { min, max, rev_deps } => {
                SymbolSetError::RequiredByOther {
                    min: *min,
                    max: *max,
                    rev_deps: dup_strings(rev_deps),
                }
            },
            SymbolSetError::CannotSetManually => SymbolSetError::CannotSetManually,
            SymbolSetError::MustBeSelected { rev_deps } => SymbolSetError::MustBeSelected {
                rev_deps: dup_strings(rev_deps),
            },
            SymbolSetError::InvalidVisibility { min, max } => SymbolSetError::InvalidVisibility {
                min: *min,
                max: *max,
            },
            SymbolSetError::ModulesNotEnabled => SymbolSetError::ModulesNotEnabled,
            SymbolSetError::OutOfRange { min, max } => SymbolSetError::OutOfRange {
                min: *min,
                max: *max,
            },
            SymbolSetError::InvalidValue => SymbolSetError::InvalidValue,
            SymbolSetError::AssignmentFailed => SymbolSetError::AssignmentFailed,
        }
    }
}

fn dup_strings(src: &Vec<String>) -> (r: Vec<String>)
    ensures
        r@.len() == src@.len(),
        forall|i: int| 0 <= i < src@.len() ==> (#[trigger] r@[i])@ == src@[i]@,
{
    let n = src.len();
    let mut out: Vec<String> = Vec::new();
    let mut i: usize = 0;
    while i < n
        invariant
            n == src@.len(),
            0 <= i <= n,
            out@.len() == i,
            forall|j: int| 0 <= j < i ==> (#[trigger] out@[j])@ == src@[j]@,
        decreases n - i,
    {
        out.push(src[i].clone());
        i += 1;
    }
    out
}

fn dup_pairs(src: &Vec<(String, Tristate)>) -> (r: Vec<(String, Tristate)>)
    ensures
        r@.len() == src@.len(),
        forall|i: int|
            0 <= i < src@.len() ==> (#[trigger] r@[i]).0@ == src@[i].0@ && r@[i].1 == src@[i].1,
{
    let n = src.len();
    let mut out: Vec<(String, Tristate)> = Vec::new();
    let mut i: usize = 0;
    while i < n
        invariant
            n == src@.len(),
            0 <= i <= n,
            out@.len() == i,
            forall|j: int|
                0 <= j < i ==> (#[trigger] out@[j]).0@ == src@[j].0@ && out@[j].1 == src@[j].1,
        decreases n - i,
    {
        let entry = (src[i].0.clone(), src[i].1);
        out.push(entry);
        i += 1;
    }
    out
}

/// One configuration symbol at rest in the schema arena.
///
/// `cur_tri` carries the value of boolean and tristate symbols; `cur_str`
/// carries the canonical textual payload of the other types (decimal for
/// `Int`, `0x`-prefixed hexadecimal for `Hex`, verbatim for `String` and
/// for the constants held by `Unknown` symbols).  `visible` and
/// `rev_dep_floor` are derived from the two expressions by recalculation.
#[derive(Debug, Clone)]
#[verifier::ext_equal]
pub struct Symbol {
    /// Name; absent for choice-group containers and some internal constants.
    pub name: Option<String>,
    pub sym_type: SymbolType,
    pub flags: SymbolFlags,
    /// Number of user-visible prompts; a symbol with none cannot be set
    /// directly, only pulled in through its reverse dependencies.
    pub prompt_count: usize,
    pub cur_tri: Tristate,
    pub cur_str: String,
    /// Upper bound on the assignable value, derived from `vis_expr`.
    pub visible: Tristate,
    /// Lower bound forced by other symbols, derived from `rev_expr`.
    pub rev_dep_floor: Tristate,
    /// Direct-dependencies-with-prompts (visibility) expression.
    pub vis_expr: Option<Expr>,
    /// Reverse-dependencies expression: who selects this symbol.
    pub rev_expr: Option<Expr>,
    /// Declared integer range; `(0, 0)` means unbounded.
    pub int_min: u64,
    pub int_max: u64,
}

impl Symbol {
    pub open spec fn spec_is_const(self) -> bool {
        self.flags.spec_is_const()
    }

    pub open spec fn spec_is_choice(self) -> bool {
        self.flags.spec_is_choice()
    }

    /// A symbol the recalculation sweep touches: named and not constant.
    pub open spec fn in_sweep(self) -> bool {
        self.name is Some && !self.spec_is_const()
    }

    /// Whether the symbol's current value is tristate-carried.
    pub open spec fn is_tristate_valued(self) -> bool {
        self.sym_type == SymbolType::Boolean || self.sym_type == SymbolType::Tristate
    }

    /// The integer reading of the symbol's textual payload: hexadecimal
    /// when `0x`-prefixed, decimal otherwise; absent when unparseable.
    pub open spec fn spec_int_val(self) -> Option<u64> {
        let cs = self.cur_str@;
        if cs.len() >= 2 && cs[0] == '0' && cs[1] == 'x' {
            spec_parse_hex(cs.skip(2))
        } else {
            spec_parse_dec(cs)
        }
    }

    /// The symbol's name, or the empty string where it has none.
    pub open spec fn spec_name_chars(self) -> Seq<char> {
        match self.name {
            Some(n) => n@,
            None => Seq::<char>::empty(),
        }
    }

    pub fn is_const(&self) -> (r: bool)
        ensures
            r == self.spec_is_const(),
    {
        self.flags.is_const()
    }

    pub fn is_choice(&self) -> (r: bool)
        ensures
            r == self.spec_is_choice(),
    {
        self.flags.is_choice()
    }

    pub fn symbol_type(&self) -> (r: SymbolType)
        ensures
            r == self.sym_type,
    {
        self.sym_type
    }

    pub fn flags(&self) -> (r: SymbolFlags)
        ensures
            r == self.flags,
    {
        self.flags
    }

    pub fn prompt_count(&self) -> (r: usize)
        ensures
            r == self.prompt_count,
    {
        self.prompt_count
    }

    pub fn get_tristate_value(&self) -> (r: Tristate)
        ensures
            r == self.cur_tri,
    {
        self.cur_tri
    }

    pub fn name_owned(&self) -> (r: Option<String>)
        ensures
            match r {
                Some(n) => self.name is Some && n@ == self.name->Some_0@,
                None => self.name is None,
            },
    {
        match &self.name {
            Some(n) => Some(n.clone()),
            None => None,
        }
    }

    /// The symbol's name, or the empty string where it has none.
    pub fn name_or_empty(&self) -> (r: String)
        ensures
            r@ == self.spec_name_chars(),
    {
        match &self.name {
            Some(n) => n.clone(),
            None => String::new(),
        }
    }

    /// Integer reading of the textual payload; relied on when two
    /// integer-carrying symbols are compared inside an expression.
    pub fn get_int_value(&self) -> (r: Option<u64>)
        ensures
            r == self.spec_int_val(),
    {
        let s: &str = self.cur_str.as_str();
        let n = s.unicode_len();
        if n >= 2 && s.get_char(0) == '0' && s.get_char(1) == 'x' {
            parse_hex_suffix(s)
        } else {
            parse_dec(s)
        }
    }

    /// Canonical textual rendering of the current value: `y|m|n` for
    /// boolean and tristate symbols, the stored payload otherwise.
    pub fn get_string_value(&self) -> (r: String)
        ensures
            r@ == self.spec_string_value(),
    {
        match self.sym_type {
            SymbolType::Boolean | SymbolType::Tristate => {
                let mut s = String::new();
                s.append(self.cur_tri.to_str());
                proof {
                    assert(s@ =~= seq![self.cur_tri.spec_to_char()]);
                }
                s
            },
            _ => self.cur_str.clone(),
        }
    }

    pub open spec fn spec_string_value(self) -> Seq<char> {
        match self.sym_type {
            SymbolType::Boolean | SymbolType::Tristate => seq![self.cur_tri.spec_to_char()],
            _ => self.cur_str@,
        }
    }

    /// The typed reading of the current value, dispatched on the symbol's
    /// declared type.
    pub fn get_value(&self) -> (r: Result<SymbolValue, SymbolGetError>)
        ensures
            r == self.spec_get_value(),
    {
        match self.sym_type {
            SymbolType::Unknown => Err(SymbolGetError::UnknownType),
            SymbolType::Boolean => Ok(
                SymbolValue::Boolean(self.cur_tri == Tristate::Yes),
            ),
            SymbolType::Tristate => Ok(SymbolValue::Tristate(self.cur_tri)),
            SymbolType::Int => match parse_dec(self.cur_str.as_str()) {
                Some(v) => Ok(SymbolValue::Int(v)),
                None => Err(SymbolGetError::InvalidInt),
            },
            SymbolType::Hex => {
                let s: &str = self.cur_str.as_str();
                let n = s.unicode_len();
                if n >= 2 && s.get_char(0) == '0' && s.get_char(1) == 'x' {
                    match parse_hex_suffix(s) {
                        Some(v) => Ok(SymbolValue::Hex(v)),
                        None => Err(SymbolGetError::InvalidHex),
                    }
                } else {
                    Err(SymbolGetError::InvalidHex)
                }
            },
            SymbolType::String => Ok(SymbolValue::String(self.cur_str.clone())),
        }
    }

    /// The typed reading as the journal records it: absent where the
    /// value cannot be read as the declared type.
    pub open spec fn spec_read_value(self) -> Option<SymbolValue> {
        match self.spec_get_value() {
            Ok(v) => Some(v),
            Err(_) => None,
        }
    }

    pub open spec fn spec_get_value(self) -> Result<SymbolValue, SymbolGetError> {
        match self.sym_type {
            SymbolType::Unknown => Err(SymbolGetError::UnknownType),
            SymbolType::Boolean => Ok(SymbolValue::Boolean(self.cur_tri == Tristate::Yes)),
            SymbolType::Tristate => Ok(SymbolValue::Tristate(self.cur_tri)),
            SymbolType::Int => match spec_parse_dec(self.cur_str@) {
                Some(v) => Ok(SymbolValue::Int(v)),
                None => Err(SymbolGetError::InvalidInt),
            },
            SymbolType::Hex => {
                let cs = self.cur_str@;
                if cs.len() >= 2 && cs[0] == '0' && cs[1] == 'x' {
                    match spec_parse_hex(cs.skip(2)) {
                        Some(v) => Ok(SymbolValue::Hex(v)),
                        None => Err(SymbolGetError::InvalidHex),
                    }
                } else {
                    Err(SymbolGetError::InvalidHex)
                }
            },
            SymbolType::String => Ok(SymbolValue::String(self.cur_str)),
        }
    }
}

/// Parse the hexadecimal digits that follow a `0x` prefix.
pub(crate) fn parse_hex_suffix(s: &str) -> (r: Option<u64>)
    requires
        s@.len() >= 2,
        s@[0] == '0',
        s@[1] == 'x',
    ensures
        r == spec_parse_hex(s@.skip(2)),
{
    let n = s.unicode_len();
    let rest = s.substring_char(2, n);
    parse_hex(rest)
}

} // verus!
