//! Bluetooth, WiFi and local network discovery: the parsing, merging and
//! decision logic, with contracts proved by Verus.
pub mod bluetooth;
pub mod bluetooth_client;
pub mod daemon;
pub mod lang;
pub mod localnet;
pub mod mdns;
pub mod text;
pub mod types;
pub mod util;
pub mod wifi;
pub mod wifi_client;

use vstd::prelude::*;
use bluetooth::Bluetooth;
use localnet::LocalNetwork;
use wifi::Wifi;

verus! {

/// Shared handle to all three network domains.
#[derive(Debug, Clone, Copy)]
pub struct NetworkKit {
    pub bluetooth: Bluetooth,
    pub wifi: Wifi,
    pub local_network: LocalNetwork,
}

impl NetworkKit {
    pub fn new() -> Self {
        NetworkKit {
            bluetooth: Bluetooth::new(),
            wifi: Wifi::new(),
            local_network: LocalNetwork::new(),
        }
    }
}

impl Default for NetworkKit {
    fn default() -> Self {
        NetworkKit::new()
    }
}

} // verus!
