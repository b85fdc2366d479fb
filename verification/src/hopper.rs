//! The orchestrator: owns the outbound and inbound services, wires them to
//! their collaborators exactly once, and dispatches the two message kinds to
//! the correct service.
//!
//! It starts unbound, with neither service constructed.  A one-time bind
//! constructs both services; the transition happens at most once.  Handing
//! the orchestrator a package while unbound, or binding it twice, is a
//! wiring bug, not a runtime condition: those calls are excluded by
//! precondition, and the surrounding process aborts instead.

use vstd::prelude::*;
use crate::collaborators::{AccountingSink, DeliverySink, TransportSink};
use crate::consuming_service::{consumable, consume_wire, ConsumingService, RouteEncryptionError};
use crate::cryptde::{crypt_data_views, key_ok, CryptDe};
use crate::dispatcher::InboundClientData;
use crate::live_cores_package::IncipientCoresPackage;
use crate::routing_service::{inbound_outcome, spec_charge, InboundOutcome, RoutingError,
    RoutingService};

verus! {

/// Everything the orchestrator is built from: this node's crypto
/// capability, its bootstrap flag, and the two relay fee rates.
pub struct HopperConfig {
    pub cryptde: CryptDe,
    pub is_bootstrap_node: bool,
    pub per_routing_service: u64,
    pub per_routing_byte: u64,
}

/// The orchestrator itself.
pub struct Hopper {
    cryptde: CryptDe,
    is_bootstrap_node: bool,
    consuming_service: Option<ConsumingService>,
    routing_service: Option<RoutingService>,
    per_routing_service: u64,
    per_routing_byte: u64,
}

impl Hopper {
    /// Whether both services have been constructed.
    pub closed spec fn bound(&self) -> bool {
        &&& self.consuming_service is Some
        &&& self.routing_service is Some
    }

    /// Bound, with both services carrying this orchestrator's own key,
    /// bootstrap flag and fee rates — what a completed bind establishes.
    pub closed spec fn wired(&self) -> bool {
        &&& self.consuming_service matches Some(cs) && cs.cryptde@ == self.cryptde@
            && cs.is_bootstrap_node == self.is_bootstrap_node
        &&& self.routing_service matches Some(rs) && rs.cryptde@ == self.cryptde@
            && rs.is_bootstrap_node == self.is_bootstrap_node && rs.per_routing_service
            == self.per_routing_service && rs.per_routing_byte == self.per_routing_byte
    }

    /// The bytes of this node's key pair.
    pub closed spec fn key(&self) -> Seq<u8> {
        self.cryptde@
    }

    pub closed spec fn service_rate(&self) -> u64 {
        self.per_routing_service
    }

    pub closed spec fn byte_rate(&self) -> u64 {
        self.per_routing_byte
    }

    pub closed spec fn bootstrap(&self) -> bool {
        self.is_bootstrap_node
    }

    /// A new orchestrator is unbound: neither service exists yet.
    pub fn new(config: HopperConfig) -> (r: Hopper)
        ensures
            !r.bound(),
            r.key() == config.cryptde@,
            r.bootstrap() == config.is_bootstrap_node,
            r.service_rate() == config.per_routing_service,
            r.byte_rate() == config.per_routing_byte,
    {
        Hopper {
            cryptde: config.cryptde,
            is_bootstrap_node: config.is_bootstrap_node,
            consuming_service: None,
            routing_service: None,
            per_routing_service: config.per_routing_service,
            per_routing_byte: config.per_routing_byte,
        }
    }

    pub fn is_bound(&self) -> (r: bool)
        ensures
            r == self.bound(),
    {
        self.consuming_service.is_some() && self.routing_service.is_some()
    }

    /// The one-time bind: constructs both services around this node's
    /// crypto capability and fee rates.  Binding an already-bound
    /// orchestrator is a wiring bug and is excluded here; the process
    /// aborts instead.
    pub fn handle_bind(&mut self)
        requires
            !old(self).bound(),
        ensures
            final(self).bound(),
            final(self).wired(),
            final(self).key() == old(self).key(),
            final(self).bootstrap() == old(self).bootstrap(),
            final(self).service_rate() == old(self).service_rate(),
            final(self).byte_rate() == old(self).byte_rate(),
    {
        self.consuming_service = Some(
            ConsumingService::new(self.cryptde.dup(), self.is_bootstrap_node),
        );
        self.routing_service = Some(
            RoutingService::new(
                self.cryptde.dup(),
                self.is_bootstrap_node,
                self.per_routing_service,
                self.per_routing_byte,
            ),
        );
    }

    /// Dispatches one caller-built package to the outbound service.
    /// Receiving one while unbound is a wiring bug, excluded here.
    pub fn handle_incipient(
        &self,
        package: IncipientCoresPackage,
        transport: &mut TransportSink,
    ) -> (r: Result<(), RouteEncryptionError>)
        requires
            self.wired(),
            consumable(package),
        ensures
            r is Ok <==> key_ok(package.payload_destination_key@) && key_ok(
                package.route.first_hop@,
            ),
            r is Err ==> final(transport).sends@ == old(transport).sends@,
            r is Ok ==> ({
                let s = final(transport).sends@;
                &&& s.len() == old(transport).sends@.len() + 1
                &&& s.subrange(0, old(transport).sends@.len() as int) == old(transport).sends@
                &&& s.last().0@ == package.route.first_hop@
                &&& s.last().1@ == consume_wire(
                    package.route.first_hop@,
                    crypt_data_views(package.route.hops@),
                    package.payload_destination_key@,
                    package.payload@,
                )
            }),
    {
        match &self.consuming_service {
            Some(cs) => cs.consume(package, transport),
            None => Err(RouteEncryptionError),
        }
    }

    /// Dispatches one inbound transport envelope to the inbound routing
    /// service.  Receiving one while unbound is a wiring bug, excluded
    /// here.
    pub fn handle_inbound(
        &self,
        icd: InboundClientData,
        transport: &mut TransportSink,
        accountant: &mut AccountingSink,
        delivery: &mut DeliverySink,
    ) -> (r: Result<(), RoutingError>)
        requires
            self.wired(),
        ensures
            ({
                let o = inbound_outcome(self.key(), icd.data@);
                match o {
                    InboundOutcome::Reject(e) => {
                        &&& r == Err::<(), RoutingError>(e)
                        &&& final(transport).sends@ == old(transport).sends@
                        &&& final(accountant).reports@ == old(accountant).reports@
                        &&& final(delivery).deliveries@ == old(delivery).deliveries@
                    },
                    InboundOutcome::Deliver(c, m) => {
                        &&& r is Ok
                        &&& final(transport).sends@ == old(transport).sends@
                        &&& final(accountant).reports@ == old(accountant).reports@
                        &&& final(delivery).deliveries@.len() == old(delivery).deliveries@.len()
                            + 1
                        &&& final(delivery).deliveries@.subrange(
                            0,
                            old(delivery).deliveries@.len() as int,
                        ) == old(delivery).deliveries@
                        &&& final(delivery).deliveries@.last().0 == c
                        &&& final(delivery).deliveries@.last().1@ == m
                    },
                    InboundOutcome::Forward(nk, w) => {
                        &&& r is Ok
                        &&& final(delivery).deliveries@ == old(delivery).deliveries@
                        &&& final(transport).sends@.len() == old(transport).sends@.len() + 1
                        &&& final(transport).sends@.subrange(
                            0,
                            old(transport).sends@.len() as int,
                        ) == old(transport).sends@
                        &&& final(transport).sends@.last().0@ == nk
                        &&& final(transport).sends@.last().1@ == w
                        &&& final(accountant).reports@.len() == old(accountant).reports@.len() + 1
                        &&& final(accountant).reports@.subrange(
                            0,
                            old(accountant).reports@.len() as int,
                        ) == old(accountant).reports@
                        &&& final(accountant).reports@.last() == (
                            icd.peer_addr,
                            spec_charge(self.service_rate(), self.byte_rate(), w.len()),
                        )
                    },
                }
            }),
    {
        match &self.routing_service {
            Some(rs) => rs.route(icd, transport, accountant, delivery),
            None => Err(RoutingError::MalformedPackageError),
        }
    }
}

} // verus!
