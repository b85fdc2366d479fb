//! The inbound routing service: interprets raw inbound bytes as one
//! transmitted package, strips exactly one encryption layer with this node's
//! own key, and either delivers the payload to a local component or forwards
//! the one-hop-reduced package — billing the relay to the accounting
//! collaborator.
//!
//! The service keeps no per-package memory: a route's continuation lives
//! entirely in the package bytes, never in this node.  Whatever cannot be
//! decrypted or parsed is dropped silently — no fee, no response to the
//! sender.

use vstd::prelude::*;
use crate::collaborators::{AccountingSink, DeliverySink, TransportSink};
use crate::cryptde::{crypt_data_views, dec, dec_ok, enc, key_ok, CryptData, CryptDe, PlainData};
use crate::dispatcher::{Component, InboundClientData};
use crate::live_cores_package::LiveCoresPackage;
use crate::messages::{parse_message, parse_msg, MessageTypeView};
use crate::route::{parse_step, parse_step_bytes, RouteStep, StepView};
use crate::wire::{parse_lcp, ser_lcp};

verus! {

/// Why an inbound package was dropped.  Neither case is answered or billed:
/// a sender probing with garbage learns nothing.
#[derive(Clone, Copy, Debug, PartialEq, Eq, Structural)]
pub enum RoutingError {
    /// A layer was not addressed to this node, or its ciphertext is
    /// corrupted.
    DecryptionError,
    /// The bytes of a decrypted layer are not the serialization of any
    /// package, step, or terminal payload.
    MalformedPackageError,
}

/// What handling one inbound package amounts to.
pub enum InboundOutcome {
    /// The package is dropped.
    Reject(RoutingError),
    /// This node is the final hop: the payload goes to a local component.
    Deliver(Component, MessageTypeView),
    /// Some later hop is the target: the reduced package's wire bytes go to
    /// the next hop's key.
    Forward(Seq<u8>, Seq<u8>),
}

/// The complete decision tree for one inbound package at a node whose key
/// is `key`: strip the outer layer, read the package, read this hop's own
/// route entry, then deliver (empty remaining route) or forward (non-empty).
pub open spec fn inbound_outcome(key: Seq<u8>, data: Seq<u8>) -> InboundOutcome {
    if !dec_ok(key, data) {
        InboundOutcome::Reject(RoutingError::DecryptionError)
    } else {
        match parse_lcp(dec(key, data)) {
            None => InboundOutcome::Reject(RoutingError::MalformedPackageError),
            Some((first, entries, pct)) => {
                if entries.len() == 0 {
                    InboundOutcome::Reject(RoutingError::MalformedPackageError)
                } else if !dec_ok(key, entries[0]) {
                    InboundOutcome::Reject(RoutingError::DecryptionError)
                } else {
                    match parse_step(dec(key, entries[0])) {
                        None => InboundOutcome::Reject(RoutingError::MalformedPackageError),
                        Some(step) => {
                            let remaining = entries.drop_first();
                            if remaining.len() == 0 {
                                match step {
                                    StepView::Relay(_) => InboundOutcome::Reject(
                                        RoutingError::MalformedPackageError,
                                    ),
                                    StepView::Deliver(c) => {
                                        if !dec_ok(key, pct) {
                                            InboundOutcome::Reject(RoutingError::DecryptionError)
                                        } else {
                                            match parse_msg(dec(key, pct)) {
                                                None => InboundOutcome::Reject(
                                                    RoutingError::MalformedPackageError,
                                                ),
                                                Some(m) => InboundOutcome::Deliver(c, m),
                                            }
                                        }
                                    },
                                }
                            } else {
                                match step {
                                    StepView::Deliver(_) => InboundOutcome::Reject(
                                        RoutingError::MalformedPackageError,
                                    ),
                                    StepView::Relay(nk) => {
                                        if !key_ok(nk) {
                                            InboundOutcome::Reject(
                                                RoutingError::MalformedPackageError,
                                            )
                                        } else {
                                            InboundOutcome::Forward(
                                                nk,
                                                enc(nk, ser_lcp(nk, remaining, pct)),
                                            )
                                        }
                                    },
                                }
                            }
                        },
                    }
                }
            },
        }
    }
}

/// The relay charge: the flat fee plus the per-byte fee over the forwarded
/// ciphertext, saturating at the largest expressible charge.
pub open spec fn spec_charge(flat: u64, per_byte: u64, len: nat) -> u64 {
    if flat + per_byte * len > u64::MAX {
        u64::MAX
    } else {
        (flat + per_byte * len) as u64
    }
}

/// Computes the relay charge.
pub fn charge(flat: u64, per_byte: u64, len: u64) -> (r: u64)
    ensures
        r == spec_charge(flat, per_byte, len as nat),
{
    match per_byte.checked_mul(len) {
        Some(p) => match flat.checked_add(p) {
            Some(t) => t,
            None => u64::MAX,
        },
        None => {
            proof {
                assert(per_byte * len > u64::MAX);
            }
            u64::MAX
        },
    }
}

/// The inbound routing service.  Constructed once at bind time; holds this
/// node's crypto capability and the two relay fee rates, and no per-package
/// state.
pub struct RoutingService {
    pub cryptde: CryptDe,
    pub is_bootstrap_node: bool,
    pub per_routing_service: u64,
    pub per_routing_byte: u64,
}

impl RoutingService {
    pub fn new(
        cryptde: CryptDe,
        is_bootstrap_node: bool,
        per_routing_service: u64,
        per_routing_byte: u64,
    ) -> (r: Self)
        ensures
            r.cryptde@ == cryptde@,
            r.is_bootstrap_node == is_bootstrap_node,
            r.per_routing_service == per_routing_service,
            r.per_routing_byte == per_routing_byte,
    {
        RoutingService { cryptde, is_bootstrap_node, per_routing_service, per_routing_byte }
    }

    /// Handles one inbound package, exactly as `inbound_outcome` decides:
    /// a rejected package changes nothing and is dropped silently; a
    /// delivery appends exactly one payload for a local component and is
    /// never billed; a forward appends exactly one send request and exactly
    /// one accounting report, charged over the forwarded ciphertext.
    #[verifier::rlimit(100)]
    pub fn route(
        &self,
        icd: InboundClientData,
        transport: &mut TransportSink,
        accountant: &mut AccountingSink,
        delivery: &mut DeliverySink,
    ) -> (r: Result<(), RoutingError>)
        ensures
            ({
                let o = inbound_outcome(self.cryptde@, icd.data@);
                match o {
                    InboundOutcome::Reject(e) => {
                        &&& r == Err::<(), RoutingError>(e)
                        &&& final(transport).sends@ == old(transport).sends@
                        &&& final(accountant).reports@ == old(accountant).reports@
                        &&& final(delivery).deliveries@ == old(delivery).deliveries@
                    },
                    InboundOutcome::Deliver(c, m) => {
                        &&& r is Ok
                        &&& final(transport).sends@ == old(transport).sends@
                        &&& final(accountant).reports@ == old(accountant).reports@
                        &&& final(delivery).deliveries@.len() == old(delivery).deliveries@.len()
                            + 1
                        &&& final(delivery).deliveries@.subrange(
                            0,
                            old(delivery).deliveries@.len() as int,
                        ) == old(delivery).deliveries@
                        &&& final(delivery).deliveries@.last().0 == c
                        &&& final(delivery).deliveries@.last().1@ == m
                    },
                    InboundOutcome::Forward(nk, w) => {
                        &&& r is Ok
                        &&& final(delivery).deliveries@ == old(delivery).deliveries@
                        &&& final(transport).sends@.len() == old(transport).sends@.len() + 1
                        &&& final(transport).sends@.subrange(
                            0,
                            old(transport).sends@.len() as int,
                        ) == old(transport).sends@
                        &&& final(transport).sends@.last().0@ == nk
                        &&& final(transport).sends@.last().1@ == w
                        &&& final(accountant).reports@.len() == old(accountant).reports@.len() + 1
                        &&& final(accountant).reports@.subrange(
                            0,
                            old(accountant).reports@.len() as int,
                        ) == old(accountant).reports@
                        &&& final(accountant).reports@.last() == (
                            icd.peer_addr,
                            spec_charge(self.per_routing_service, self.per_routing_byte, w.len()),
                        )
                    },
                }
            }),
    {
        let ghost o = inbound_outcome(self.cryptde@, icd.data@);
        let peer_addr = icd.peer_addr;
        let data_ct = CryptData::new(icd.data);
        let plain = match self.cryptde.decode(&data_ct) {
            Ok(p) => p,
            Err(_) => {
                proof {
                    assert(o == InboundOutcome::Reject(RoutingError::DecryptionError));
                }
                return Err(RoutingError::DecryptionError);
            },
        };
        let mut lcp = match LiveCoresPackage::deserialize(&plain) {
            Some(l) => l,
            None => {
                proof {
                    assert(o == InboundOutcome::Reject(RoutingError::MalformedPackageError));
                }
                return Err(RoutingError::MalformedPackageError);
            },
        };
        let ghost entries = crypt_data_views(lcp.route.hops@);
        let ghost pct = lcp.payload@;
        proof {
            assert(parse_lcp(dec(self.cryptde@, icd.data@)) == Some(
                (lcp.route.first_hop@, entries, pct),
            ));
        }
        if lcp.route.hops.len() == 0 {
            proof {
                assert(o == InboundOutcome::Reject(RoutingError::MalformedPackageError));
            }
            return Err(RoutingError::MalformedPackageError);
        }
        let entry0 = lcp.route.hops.remove(0);
        proof {
            assert(entry0@ == entries[0]);
            assert(crypt_data_views(lcp.route.hops@) =~= entries.drop_first());
        }
        let step_plain = match self.cryptde.decode(&entry0) {
            Ok(p) => p,
            Err(_) => {
                proof {
                    assert(o == InboundOutcome::Reject(RoutingError::DecryptionError));
                }
                return Err(RoutingError::DecryptionError);
            },
        };
        let step = match parse_step_bytes(step_plain.as_bytes()) {
            Some(s) => s,
            None => {
                proof {
                    assert(o == InboundOutcome::Reject(RoutingError::MalformedPackageError));
                }
                return Err(RoutingError::MalformedPackageError);
            },
        };
        let ghost remaining = entries.drop_first();
        proof {
            assert(parse_step(dec(self.cryptde@, entries[0])) == Some(step@));
        }
        if lcp.route.hops.len() == 0 {
            match step {
                RouteStep::Relay { next_key: _ } => {
                    proof {
                        assert(o == InboundOutcome::Reject(RoutingError::MalformedPackageError));
                    }
                    Err(RoutingError::MalformedPackageError)
                },
                RouteStep::Deliver { component } => {
                    let msg_plain = match self.cryptde.decode(&lcp.payload) {
                        Ok(p) => p,
                        Err(_) => {
                            proof {
                                assert(o == InboundOutcome::Reject(
                                    RoutingError::DecryptionError,
                                ));
                            }
                            return Err(RoutingError::DecryptionError);
                        },
                    };
                    let msg = match parse_message(msg_plain.as_bytes()) {
                        Some(m) => m,
                        None => {
                            proof {
                                assert(o == InboundOutcome::Reject(
                                    RoutingError::MalformedPackageError,
                                ));
                            }
                            return Err(RoutingError::MalformedPackageError);
                        },
                    };
                    proof {
                        assert(o == InboundOutcome::Deliver(component, msg@));
                    }
                    delivery.deliveries.push((component, msg));
                    proof {
                        assert(final(delivery).deliveries@.subrange(
                            0,
                            old(delivery).deliveries@.len() as int,
                        ) =~= old(delivery).deliveries@);
                    }
                    Ok(())
                },
            }
        } else {
            match step {
                RouteStep::Deliver { component: _ } => {
                    proof {
                        assert(o == InboundOutcome::Reject(RoutingError::MalformedPackageError));
                    }
                    Err(RoutingError::MalformedPackageError)
                },
                RouteStep::Relay { next_key } => {
                    let nk_len = next_key.len();
                    if nk_len == 0 || nk_len > 255 {
                        proof {
                            assert(!key_ok(next_key@));
                            assert(o == InboundOutcome::Reject(
                                RoutingError::MalformedPackageError,
                            ));
                        }
                        return Err(RoutingError::MalformedPackageError);
                    }
                    proof {
                        assert(o == InboundOutcome::Forward(
                            next_key@,
                            enc(next_key@, ser_lcp(next_key@, remaining, pct)),
                        ));
                    }
                    lcp.route.first_hop = next_key;
                    proof {
                        crate::wire::lemma_ser_of_parse_lcp(plain@);
                    }
                    let wire_bytes = lcp.serialize();
                    let wire_ct = match self.cryptde.encode(
                        &lcp.route.first_hop,
                        &PlainData::new(wire_bytes),
                    ) {
                        Ok(c) => c,
                        Err(_) => {
                            proof {
                                assert(key_ok(lcp.route.first_hop@));
                                assert(false);
                            }
                            return Err(RoutingError::MalformedPackageError);
                        },
                    };
                    let fee = charge(
                        self.per_routing_service,
                        self.per_routing_byte,
                        wire_ct.len() as u64,
                    );
                    transport.sends.push((lcp.route.first_hop, wire_ct.into_bytes()));
                    accountant.reports.push((peer_addr, fee));
                    proof {
                        assert(final(transport).sends@.subrange(
                            0,
                            old(transport).sends@.len() as int,
                        ) =~= old(transport).sends@);
                        assert(final(accountant).reports@.subrange(
                            0,
                            old(accountant).reports@.len() as int,
                        ) =~= old(accountant).reports@);
                    }
                    Ok(())
                },
            }
        }
    }
}

} // verus!
