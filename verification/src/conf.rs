//! The configuration that the core is started with.

use vstd::prelude::*;

verus! {

/// The address of a nameserver: the IP address as a number (an IPv4
/// address in its IPv6-mapped form) and the port.
#[derive(Clone, Copy, Debug, PartialEq, Eq, Hash, Structural)]
pub struct ServerAddr {
    pub ip: u128,
    pub port: u16,
}

/// The transport that a machine speaks.
#[derive(Clone, Copy, Debug, PartialEq, Eq, Hash, Structural)]
pub enum Protocol {
    Udp,
    Tcp,
}

/// Names one transport machine: the place of its server in the
/// configuration, and its protocol.
#[derive(Clone, Copy, Debug, PartialEq, Eq, Hash, Structural)]
pub struct TransportId {
    pub server: usize,
    pub protocol: Protocol,
}

/// What the core needs to know: the servers in the order of preference,
/// how long to wait for a response, how often to send a query at most, and
/// whether new queries start at the first server or take turns.
#[derive(Debug)]
pub struct ResolvConf {
    pub servers: Vec<ServerAddr>,
    pub timeout_ms: u64,
    pub attempts: u32,
    pub rotate: bool,
}

} // verus!
