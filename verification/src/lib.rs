//! Expansion of inline functions at their call sites.
//!
//! A compiled function receives one value, the environment: nested pairs
//! that hold its arguments. `inline` gives the path by which each parameter
//! is read from the environment, finds what a parameter's name is bound to
//! when a parameter pattern is matched against the arguments of a call, and
//! rewrites the body of an inline function for a call of it. `guarantees`
//! states what holds of these for all inputs.

pub mod codegen;
pub mod comptypes;
pub mod guarantees;
pub mod inline;
pub mod number;
pub mod sexp;
pub mod srcloc;
