//! Interpreter of one flow.
//!
//! The machine touches no thread, mailbox, timer or capability table. It
//! runs until it finishes, uses up its budget, or needs something that only
//! the scheduler or the host can do.

pub mod assembled;
pub mod fault;
pub mod frame;
pub mod laws;
pub mod machine;
pub mod meaning;
pub mod native;
pub mod result;
pub mod state;
