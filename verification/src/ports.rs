//! What the daemon needs from the machine it runs on.
use vstd::prelude::*;

verus! {

/// Finds the CAN interfaces of the machine.
pub trait DiscoveryPort: Send + Sync {
    /// Whether `listed` is an answer this discovery gives. One that asks the
    /// machine may give any; one with a fixed answer gives only that.
    open spec fn reports(&self, listed: Result<Vec<String>, String>) -> bool {
        true
    }

    /// The interface names, or why they could not be listed.
    fn list_can_ifaces(&self) -> (listed: Result<Vec<String>, String>)
        ensures
            self.reports(listed),
    ;
}

/// A CAN frame to put on an interface.
#[derive(Debug, Clone)]
pub struct FrameToSend {
    pub iface: String,
    pub id: u32,
    pub is_fd: bool,
    pub brs: bool,
    pub esi: bool,
    pub data: Vec<u8>,
}

} // verus!
