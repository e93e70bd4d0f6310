//! A peer-to-peer transport: whitelist reconciliation, boot node parsing,
//! swarm start-up planning and the publish retry queue.
use vstd::prelude::*;

pub mod address;
pub mod behaviour;
pub mod builder;
pub mod cli;
pub mod foreign;
pub mod peer;
pub mod text;
pub mod transport;

verus! {

/// The name and version with which a node introduces itself.
#[derive(Debug, Clone, Copy)]
pub struct AgentInfo {
    pub name: &'static str,
    pub version: &'static str,
}

impl AgentInfo {
    /// The agent as text: `<name>/<version>`.
    pub fn to_string(&self) -> (r: String)
        ensures
            r@ == self.name@ + "/"@ + self.version@,
    {
        let mut s = self.name.to_owned();
        s.append("/");
        s.append(self.version);
        s
    }
}

} // verus!
