//! A DNS sinkhole: the decisions of a resolver that answers queries for
//! blocked names with a negative response and relays all others upstream.

pub mod blocklist;
pub mod config;
pub mod dns;
pub mod domain_set;
pub mod hosts;
pub mod pattern;
pub mod stats;
pub mod text;
pub mod wire;
