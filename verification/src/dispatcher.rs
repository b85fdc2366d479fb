//! Transport-boundary data: which local subsystem receives a delivered
//! payload, and the envelope the transport hands in around one package's raw
//! bytes.

use vstd::prelude::*;

verus! {

/// The local subsystem designated as the final recipient of a routed
/// payload.
#[derive(Clone, Copy, Debug, PartialEq, Eq, Structural)]
pub enum Component {
    Dispatcher,
    ProxyClient,
    ProxyServer,
    Neighborhood,
    Accountant,
}

/// The byte a component tag travels as inside a route's terminal layer.
pub open spec fn component_tag(c: Component) -> u8 {
    match c {
        Component::Dispatcher => 0,
        Component::ProxyClient => 1,
        Component::ProxyServer => 2,
        Component::Neighborhood => 3,
        Component::Accountant => 4,
    }
}

pub open spec fn component_of_tag(t: u8) -> Option<Component> {
    if t == 0 {
        Some(Component::Dispatcher)
    } else if t == 1 {
        Some(Component::ProxyClient)
    } else if t == 2 {
        Some(Component::ProxyServer)
    } else if t == 3 {
        Some(Component::Neighborhood)
    } else if t == 4 {
        Some(Component::Accountant)
    } else {
        None
    }
}

pub fn component_tag_of(c: Component) -> (r: u8)
    ensures
        r == component_tag(c),
{
    match c {
        Component::Dispatcher => 0,
        Component::ProxyClient => 1,
        Component::ProxyServer => 2,
        Component::Neighborhood => 3,
        Component::Accountant => 4,
    }
}

pub fn component_from_tag(t: u8) -> (r: Option<Component>)
    ensures
        r == component_of_tag(t),
{
    if t == 0 {
        Some(Component::Dispatcher)
    } else if t == 1 {
        Some(Component::ProxyClient)
    } else if t == 2 {
        Some(Component::ProxyServer)
    } else if t == 3 {
        Some(Component::Neighborhood)
    } else if t == 4 {
        Some(Component::Accountant)
    } else {
        None
    }
}

/// A peer's socket address, as plain values.
#[derive(Clone, Copy, Debug, PartialEq, Eq, Structural)]
pub struct PeerAddr {
    pub octet1: u8,
    pub octet2: u8,
    pub octet3: u8,
    pub octet4: u8,
    pub port: u16,
}

/// What the transport collaborator hands in for one inbound event: a
/// transport-level envelope around the serialized, encrypted bytes of one
/// transmitted package.  It carries no routing state of its own.
#[derive(Debug)]
pub struct InboundClientData {
    pub peer_addr: PeerAddr,
    pub reception_port: Option<u16>,
    pub last_data: bool,
    pub is_clandestine: bool,
    pub sequence_number: Option<u64>,
    pub data: Vec<u8>,
}

} // verus!
