//! Core of a SWIM-style cluster membership protocol with the Lifeguard
//! extensions: node-state ordering and merge, probe bookkeeping, suspicion
//! arbitration, local health awareness and the timing rules built on them.
pub mod awareness;
pub mod config;
pub mod membership;
pub mod node;
pub mod node_set;
pub mod ping;
pub mod suspicions;
pub mod timing;
mod set_facts;

pub use awareness::Awareness;
pub use config::{
    AwarenessConfig, BroadcastConfig, Cause, Configs, GossipConfig, IOConfig, NullEventHandler,
    PingConfig, PingSchedulerConfig, ReclaimConfig, StateConfig, SyncConfig, SyncSchedulerConfig,
};
pub use node::{Node, NodeState};
pub use ping::{PingRequestTarget, PingTarget, RequestSource};
