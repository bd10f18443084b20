//! Scheduling of flows: identities, quotas, authority, mailboxes and
//! lifecycle.

pub mod capability;
pub mod delegate;
pub mod deliver;
pub mod departures;
pub mod directory;
pub mod drive;
pub mod error;
pub mod exchange;
pub mod failure;
pub mod finalize;
pub mod flow_limit;
pub mod handle;
pub mod hops;
pub mod host_await;
pub mod jit;
pub mod lifecycle;
pub mod link;
pub mod link_admin;
pub mod mailbox;
pub mod monitor;
pub mod process;
pub mod quota;
pub mod registry;
pub mod runqueue;
pub mod runtime;
pub mod shared;
pub mod spawn;
pub mod supervisor;
pub mod timer;
pub mod turns;
pub mod waits;
pub mod worker;
