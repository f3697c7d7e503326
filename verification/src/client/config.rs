//! How a client is set up.

use vstd::prelude::*;
use vstd::string::*;
use crate::pek::ProofPolicy;

verus! {

/// Where the runtime lives.
#[derive(Debug, Clone)]
pub enum ClientMode {
    Embedded,
    Remote { base_url: String, api_key: Option<String> },
}

/// A client's identity, proof policy and mode.
#[derive(Debug, Clone)]
pub struct ClientConfig {
    pub identity: String,
    pub policy: ProofPolicy,
    pub mode: ClientMode,
}

impl ClientConfig {
    /// An embedded client enforcing proofs.
    pub fn embedded(identity: &str) -> (r: Self)
        ensures
            r.identity@ == identity@,
            r.policy == ProofPolicy::Enforced,
            r.mode is Embedded,
    {
        Self { identity: String::from_str(identity), policy: ProofPolicy::Enforced, mode: ClientMode::Embedded }
    }

    /// A remote client enforcing proofs, without an API key.
    pub fn remote(identity: &str, base_url: &str) -> (r: Self)
        ensures
            r.identity@ == identity@,
            r.policy == ProofPolicy::Enforced,
            r.mode matches ClientMode::Remote { base_url: u, api_key: None } && u@ == base_url@,
    {
        Self {
            identity: String::from_str(identity),
            policy: ProofPolicy::Enforced,
            mode: ClientMode::Remote { base_url: String::from_str(base_url), api_key: None },
        }
    }

    /// The configuration with another proof policy.
    pub fn with_policy(self, policy: ProofPolicy) -> (r: Self)
        ensures
            r == (ClientConfig { policy, ..self }),
    {
        let mut c = self;
        c.policy = policy;
        c
    }

    /// The configuration with an API key, for a remote client; an embedded
    /// one is unchanged.
    pub fn with_api_key(self, key: &str) -> (r: Self)
        ensures
            r.identity == self.identity,
            r.policy == self.policy,
            self.mode is Embedded ==> r.mode is Embedded,
            self.mode matches ClientMode::Remote { base_url: u, .. } ==> (r.mode matches ClientMode::Remote {
                base_url: u2,
                api_key: Some(k),
            } && u2 == u && k@ == key@),
    {
        let mut c = self;
        c.mode = match c.mode {
            ClientMode::Remote { base_url, .. } => ClientMode::Remote { base_url, api_key: Some(String::from_str(key)) },
            ClientMode::Embedded => ClientMode::Embedded,
        };
        c
    }
}

} // verus!
