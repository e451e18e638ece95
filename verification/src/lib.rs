//! Verified core of a Linux kernel configuration engine.
//!
//! The engine keeps an in-memory model of the kernel's configuration
//! schema: an arena of symbols addressed by integer ids, each carrying a
//! type, flags, a current value, derived visibility bounds and the
//! dependency expressions they are derived from.  Assignments are checked
//! by a validator before they touch the model, a solver can derive the
//! prerequisite assignments that would make a rejected assignment legal,
//! and every attempted assignment is recorded in a transaction journal
//! from which diagnostics are produced.

pub mod config;
pub mod display;
pub mod expr;
pub mod kconfig;
pub mod kconfig_types;
pub mod numparse;
pub mod rawexpr;
pub mod satisfier;
pub mod schema;
pub mod symbol;
pub mod transaction;
pub mod transactions;
pub mod validate;
pub mod tristate;

pub use expr::Expr;
pub use expr::Terminal;
pub use symbol::Symbol;
pub use symbol::SymbolType;
pub use symbol::SymbolValue;
pub use tristate::Tristate;
