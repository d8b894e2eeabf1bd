//! A load-generation harness core for a staking network: deterministic
//! population derivation, size-bounded operation batching, two-phase
//! validator provisioning, a fund/bond/nominate pipeline, era-boundary
//! synchronization, and payout verification.

pub mod batcher;
pub mod calls;
pub mod era;
pub mod model;
pub mod orchestrator;
pub mod pipeline;
pub mod population;
pub mod provisioner;
pub mod util;
pub mod payout;

use vstd::prelude::*;

verus! {

/// Connection settings for the remote network: the node endpoint and the
/// seed of the signing authority.
pub struct ConnectionConfig {
    pub node_endpoint: String,
    pub signer_seed: String,
}

impl ConnectionConfig {
    pub fn new(node_endpoint: String, signer_seed: String) -> (r: Self)
        ensures
            r.node_endpoint@ == node_endpoint@,
            r.signer_seed@ == signer_seed@,
    {
        ConnectionConfig { node_endpoint, signer_seed }
    }
}

} // verus!
