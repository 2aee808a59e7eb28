//! The decisions behind sandboxed sessions: policies and what they do to a
//! capability set, the proxy that they ask for, what is prepared before a
//! command is forked, and the records of snapshots and sessions.

pub mod bytes;
pub mod caps;
pub mod clock;
pub mod error;
pub mod group_laws;
pub mod hash;
pub mod host;
pub mod json;
pub mod launch;
pub mod launch_laws;
pub mod laws;
pub mod order;
pub mod overlap;
pub mod path;
pub mod path_laws;
pub mod policy;
pub mod policy_laws;
pub mod proxy;
pub mod proxy_laws;
pub mod record_laws;
pub mod resolve;
pub mod rule_laws;
pub mod seatbelt;
pub mod session;
pub mod snapshot;
pub mod step_laws;
pub mod table;
pub mod text;
