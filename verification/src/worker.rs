//! What the daemon tells the worker about its job.

use vstd::prelude::*;

verus! {

/// What a worker does with the packets that it accepts.
#[derive(Debug, Clone, Copy, PartialEq, Eq, Structural)]
pub enum OperationMode {
    /// Pass them on; `"forward"` in a configuration.
    Forward,
    /// Send them back; `"echo"` in a configuration.
    Echo,
}

/// The configuration that the daemon passes to the worker ahead of the descriptors.
#[derive(Debug, Clone, Copy, PartialEq, Eq, Structural)]
pub struct WorkerConfig {
    /// Number of UMEM frames (must be a power of two).
    pub frame_count: u32,
    /// Size of each UMEM frame in bytes (typically 2048).
    pub frame_size: u32,
    /// Number of entries in the RX ring.
    pub rx_size: u32,
    /// Number of entries in the TX ring.
    pub tx_size: u32,
    /// Number of entries in the Fill ring.
    pub fill_size: u32,
    /// Number of entries in the Completion ring.
    pub comp_size: u32,
    /// NIC hardware queue index.
    pub queue_id: u32,
    /// Packet processing mode.
    pub mode: OperationMode,
    /// Target TCP destination port for gRPC validation.
    pub target_port: u16,
}

} // verus!
