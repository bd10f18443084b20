//! A bytecode virtual machine with capabilities, quotas and a flow scheduler.

pub mod attest;
pub mod bytecode;
pub mod entropy;
pub mod idmap;
pub mod jit;
pub mod memory;
pub mod namemap;
pub mod natives;
pub mod prng;
pub mod scheduler;
pub mod text;
pub mod vm;
