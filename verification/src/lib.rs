//! 9helius — a transparent Helius RPC load balancer: the decisions behind the gateway.
//!
//! Several Helius api-keys are pooled behind one endpoint. This library classifies a
//! request and estimates its cost ([`credits`]), picks a key for it in round-robin
//! order ([`upstream`], [`ratelimit`]), takes it from one key to the next until it is
//! served or given up ([`proxy`], [`error`]), and keeps the books ([`stats`],
//! [`persistence`], [`metrics`]). It does no input or output of its own.

pub mod config;
pub mod credits;
pub mod error;
pub mod json;
pub mod keepalive;
pub mod laws;
pub mod metrics;
pub mod name_map;
pub mod persistence;
pub mod proxy;
pub mod ratelimit;
pub mod stats;
pub mod text;
pub mod upstream;
