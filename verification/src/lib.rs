//! Trace-construction front end of a lazily evaluated array computation
//! engine.  Client code builds a directed acyclic graph of typed operations
//! inside a [`trace::Trace`]; nothing runs until [`funcs::eval`] flushes the
//! scheduled nodes through the bound backend.  The library ships with a
//! deterministic reference backend that materializes integer, boolean and
//! bit-level operations; lanes are stored as canonical bit patterns.

pub mod error;
pub mod eval;
pub mod funcs;
pub mod sem;
pub mod trace;
pub mod var;
pub mod vartype;
