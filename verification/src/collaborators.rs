//! The one-way channels toward this core's collaborators.
//!
//! Cross-component communication is fire-and-forget: a service only ever
//! appends a request to a collaborator's queue and never learns a result.
//! Each sink records, in order, what has been handed to one collaborator, so
//! a contract can say exactly what a call emitted.

use vstd::prelude::*;
use crate::cryptde::PublicKey;
use crate::dispatcher::{Component, PeerAddr};
use crate::messages::MessageType;

verus! {

/// Send requests handed to the transport: the key of the peer to dial, and
/// the raw bytes to put on the wire.
#[derive(Debug)]
pub struct TransportSink {
    pub sends: Vec<(PublicKey, Vec<u8>)>,
}

impl TransportSink {
    pub fn new() -> (r: Self)
        ensures
            r.sends@.len() == 0,
    {
        TransportSink { sends: Vec::new() }
    }
}

/// Relay-cost reports handed to the accounting collaborator: the serviced
/// peer, and the charge for the relay.
#[derive(Debug)]
pub struct AccountingSink {
    pub reports: Vec<(PeerAddr, u64)>,
}

impl AccountingSink {
    pub fn new() -> (r: Self)
        ensures
            r.reports@.len() == 0,
    {
        AccountingSink { reports: Vec::new() }
    }
}

/// Payloads delivered to local components at the end of a route.
#[derive(Debug)]
pub struct DeliverySink {
    pub deliveries: Vec<(Component, MessageType)>,
}

impl DeliverySink {
    pub fn new() -> (r: Self)
        ensures
            r.deliveries@.len() == 0,
    {
        DeliverySink { deliveries: Vec::new() }
    }
}

} // verus!
