//! The configuration surface the node consumes.
//!
//! The launcher parses its configuration file and hands the core these plain
//! values. The compute limits are contract inputs to the external sandboxed
//! task-execution collaborator; the core neither parses nor enforces them.

use vstd::prelude::*;

use crate::addr::Addr;

verus! {

/// Everything a node is configured with.
pub struct Config {
    /// The network section.
    pub network: Network,
    /// The task-execution section.
    pub compute: Compute,
}

/// Network settings: where to bind and whom to bootstrap from.
pub struct Network {
    /// The UDP port the node binds on all interfaces.
    pub udp_port: u16,
    /// Bootstrap addresses that seed the Peer Table at startup.
    pub known_peers: Vec<Addr>,
}

/// Limits for the sandboxed task-execution collaborator.
#[derive(Clone, Copy, PartialEq, Eq, Structural, Debug)]
pub struct Compute {
    /// How many tasks may run at once.
    pub max_tasks: u8,
    /// Whether tasks may touch the file system.
    pub allow_file_io: bool,
    /// Whether tasks may open network connections.
    pub allow_networking: bool,
}

} // verus!
