//! Compilation of hot code.
//!
//! A trace is the code that is reachable from a hot instruction without an
//! effect. It is compiled to straight-line operations on integer slots,
//! which a native backend can take over one for one.

pub mod agree;
pub mod clif;
pub mod code;
pub mod compiler;
pub mod dispatch;
pub mod emit;
pub mod error;
pub mod exit;
pub mod laws;
pub mod meaning;
pub mod native;
pub mod region;
pub mod runtime;
pub mod semantics;
pub mod trace;
pub mod whole;
