//! Failure values for a span-tracking reader of a TOML-like text format,
//! built to work without a heap: every failure is one fixed-size value that
//! holds what went wrong and where in the input it happened.

pub mod cause;
pub mod error;
pub mod kind;
pub mod sink;
pub mod token;
pub mod writer;
