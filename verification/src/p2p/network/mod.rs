//! The network: what a node is set up with, and what it keeps.
use vstd::prelude::*;

pub mod backend;
pub mod client;
pub mod config;
pub mod laws;
pub mod types;

verus! {

/// The version of the network layer.
pub const VERSION: &'static str = "0.1.0";

/// What a node calls itself.
pub const USER_AGENT: &'static str = "guardian-db-network-core/0.1.0";

} // verus!
