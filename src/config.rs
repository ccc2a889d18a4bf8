use vstd::prelude::*;

verus! {

/// Presets of a configuration for common network settings.
pub trait Configs: Sized {
    fn loopback() -> Self;

    fn lan() -> Self;

    fn wan() -> Self;
}

/// Timeouts of the connection-oriented full-state sync, in milliseconds.
#[derive(Debug, Clone)]
pub struct SyncConfig {
    pub connect_timeout: u64,
    pub read_timeout: u64,
    pub write_timeout: u64,
}

/// How broadcasts are piggybacked on probe traffic.
#[derive(Debug, Clone)]
pub struct BroadcastConfig {
    /// Retransmission multiplier; at least `1`.
    pub multiplier: u32,
    pub free_bytes: usize,
}

/// Probe settings: the number of helpers asked for an indirect probe, if any.
#[derive(Debug, Clone)]
pub struct PingConfig {
    pub indirect_checks: Option<usize>,
}

/// Gossip settings: how many nodes each gossip round goes to, drawn from
/// `[node_range.start, node_range.end)`.
#[derive(Debug)]
pub struct GossipConfig {
    pub node_range: std::ops::Range<usize>,
}

/// The initial state that the local node announces.
#[derive(Debug, Clone)]
pub struct StateConfig {
    pub incarnation: u64,
    pub metadata: Option<Vec<u8>>,
}

/// Buffer sizes of the transport, and whether dead nodes are probed.
#[derive(Debug, Clone)]
pub struct IOConfig {
    pub out_buffer_size: u16,
    pub in_buffer_size: u16,
    pub suspect_dead: bool,
}

/// The upper bound of the awareness score; at least `1`.
#[derive(Debug, Clone)]
pub struct AwarenessConfig {
    pub max: u32,
}

/// How long dead and left nodes are kept before they are removed, in
/// milliseconds.
#[derive(Debug, Clone)]
pub struct ReclaimConfig {
    pub dead: u64,
    pub left: u64,
}

/// The full-state sync cadence: the base interval in milliseconds, and the
/// cluster size up to which it is not stretched (at least `1`).
#[derive(Debug, Clone)]
pub struct SyncSchedulerConfig {
    pub base_interval: u64,
    pub scale: u32,
}

/// The probe cadence and the probe timeout, in milliseconds.
#[derive(Debug, Clone)]
pub struct PingSchedulerConfig {
    pub base_interval: u64,
    pub base_timeout: u64,
}

/// Why the observer's node event was invoked.
#[derive(Debug, Clone, Copy, PartialEq, Eq, Structural)]
pub enum Cause {
    /// An update about the state of the node was received.
    Update,
    /// The node could not be reached and is now suspected.
    Suspicion,
    /// The node could not be reached and its suspicion period is over.
    Death,
}

/// An observer that handles no event.
#[derive(Debug, Clone, Copy)]
pub struct NullEventHandler;

} // verus!
