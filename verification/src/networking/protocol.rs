//! The link technologies a network device may speak.
use vstd::prelude::*;
use crate::common::owned;

verus! {

#[derive(Debug, Clone, Copy, PartialEq, Eq, Hash, Structural)]
pub enum NetworkProtocol {
    Ethernet,
    WiFi,
    Bluetooth,
    Cellular,
    Rdma,
    Can,
    Tsn,
}

/// The protocol's name.
pub open spec fn protocol_label(p: NetworkProtocol) -> Seq<char> {
    match p {
        NetworkProtocol::Ethernet => "Ethernet"@,
        NetworkProtocol::WiFi => "WiFi"@,
        NetworkProtocol::Bluetooth => "Bluetooth"@,
        NetworkProtocol::Cellular => "Cellular"@,
        NetworkProtocol::Rdma => "Rdma"@,
        NetworkProtocol::Can => "Can"@,
        NetworkProtocol::Tsn => "Tsn"@,
    }
}

impl NetworkProtocol {
    pub fn to_string(&self) -> (s: String)
        ensures
            s@ == protocol_label(*self),
    {
        match self {
            NetworkProtocol::Ethernet => owned("Ethernet"),
            NetworkProtocol::WiFi => owned("WiFi"),
            NetworkProtocol::Bluetooth => owned("Bluetooth"),
            NetworkProtocol::Cellular => owned("Cellular"),
            NetworkProtocol::Rdma => owned("Rdma"),
            NetworkProtocol::Can => owned("Can"),
            NetworkProtocol::Tsn => owned("Tsn"),
        }
    }
}

} // verus!
