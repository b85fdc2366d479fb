//! The outbound encryption service: turns one caller-built package into one
//! wire-ready transmitted package and hands it to the transport addressed at
//! the route's first hop.

use vstd::prelude::*;
use crate::collaborators::TransportSink;
use crate::cryptde::{crypt_data_views, enc, key_ok, CryptDe, PlainData};
use crate::live_cores_package::{IncipientCoresPackage, LiveCoresPackage};
use crate::messages::{ser_msg, serialize_message, MessageTypeView};
use crate::wire::{hops_ok, ser_lcp, FIELD_LIMIT};

verus! {

/// The outbound service could not encrypt a layer — some hop's key is
/// malformed.  Non-retryable; the package is dropped and nothing is sent.
#[derive(Clone, Copy, Debug, PartialEq, Eq, Structural)]
pub struct RouteEncryptionError;

/// The bytes the outbound service puts on the wire for a package: the
/// payload encrypted for its destination key, wrapped with the remaining
/// route in the wire grammar, the whole encrypted for the first hop.
pub open spec fn consume_wire(
    first_hop: Seq<u8>,
    entries: Seq<Seq<u8>>,
    dest_key: Seq<u8>,
    payload: MessageTypeView,
) -> Seq<u8> {
    enc(first_hop, ser_lcp(first_hop, entries, enc(dest_key, ser_msg(payload))))
}

/// The size limits the wire grammar imposes on an outbound package.
pub open spec fn consumable(package: IncipientCoresPackage) -> bool {
    &&& package.route.hops@.len() < FIELD_LIMIT
    &&& hops_ok(crypt_data_views(package.route.hops@))
    &&& ser_msg(package.payload@).len() + 260 < FIELD_LIMIT
}

/// The outbound encryption service.  Constructed once at bind time; holds
/// this node's crypto capability and no per-package state.
pub struct ConsumingService {
    pub cryptde: CryptDe,
    pub is_bootstrap_node: bool,
}

impl ConsumingService {
    pub fn new(cryptde: CryptDe, is_bootstrap_node: bool) -> (r: Self)
        ensures
            r.cryptde@ == cryptde@,
            r.is_bootstrap_node == is_bootstrap_node,
    {
        ConsumingService { cryptde, is_bootstrap_node }
    }

    /// Consumes one caller-built package: encrypts the payload for its
    /// destination key, wraps it with the route in the wire grammar,
    /// encrypts the whole for the first hop, and emits exactly one send
    /// request addressed at the first hop — or fails, emitting nothing,
    /// exactly when the destination key or the first hop's key cannot be
    /// encrypted for.
    pub fn consume(&self, package: IncipientCoresPackage, transport: &mut TransportSink) -> (r:
        Result<(), RouteEncryptionError>)
        requires
            consumable(package),
        ensures
            r is Ok <==> key_ok(package.payload_destination_key@) && key_ok(
                package.route.first_hop@,
            ),
            r is Err ==> final(transport).sends@ == old(transport).sends@,
            r is Ok ==> ({
                let s = final(transport).sends@;
                &&& s.len() == old(transport).sends@.len() + 1
                &&& s.subrange(0, old(transport).sends@.len() as int) == old(transport).sends@
                &&& s.last().0@ == package.route.first_hop@
                &&& s.last().1@ == consume_wire(
                    package.route.first_hop@,
                    crypt_data_views(package.route.hops@),
                    package.payload_destination_key@,
                    package.payload@,
                )
            }),
    {
        let payload_bytes = serialize_message(&package.payload);
        let payload_ct = match self.cryptde.encode(
            &package.payload_destination_key,
            &PlainData::new(payload_bytes),
        ) {
            Ok(c) => c,
            Err(_) => {
                return Err(RouteEncryptionError);
            },
        };
        let first_len = package.route.first_hop.len();
        if first_len == 0 || first_len > 255 {
            return Err(RouteEncryptionError);
        }
        let first_hop = package.route.first_hop.clone();
        let lcp = LiveCoresPackage::new(package.route, payload_ct);
        let wire_bytes = lcp.serialize();
        let wire_ct = match self.cryptde.encode(&first_hop, &PlainData::new(wire_bytes)) {
            Ok(c) => c,
            Err(_) => {
                return Err(RouteEncryptionError);
            },
        };
        transport.sends.push((first_hop, wire_ct.into_bytes()));
        proof {
            assert(final(transport).sends@.subrange(0, old(transport).sends@.len() as int)
                =~= old(transport).sends@);
        }
        Ok(())
    }
}

} // verus!
