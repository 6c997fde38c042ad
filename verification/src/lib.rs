//! The decision-making core of a reverse-proxy load balancer: an
//! upstream registry with random selection and failover, active
//! health checking, per-client rate limiting, and the per-connection
//! session state machine. Alongside it stand smaller verified
//! companions from the same workshop: breakpoint bookkeeping for a
//! ptrace-style debugger, a letter-guessing game, and the assembly
//! of out-of-order batch results.

use vstd::prelude::*;

pub mod debug;
pub mod jobs;
pub mod rate;
pub mod registry;
pub mod session;
pub mod words;

verus! {

/// Errors produced by the load-balancing core.
#[derive(Debug, PartialEq, Eq, Structural, Clone, Copy)]
pub enum ProxyError {
    /// No upstream is currently believed live, so none can be selected.
    NoLiveUpstreams,
    /// Every selection attempt ended in a connect failure and the live
    /// set is now empty.
    AllUpstreamsDead,
    /// The client exceeded its per-window request ceiling.
    RateLimited,
}

} // verus!
