use hopper_core::collaborators::{AccountingSink, DeliverySink, TransportSink};
use hopper_core::consuming_service::ConsumingService;
use hopper_core::cryptde::{CryptDe, CryptdeError, PlainData, PublicKey};
use hopper_core::dispatcher::{Component, InboundClientData, PeerAddr};
use hopper_core::hopper::{Hopper, HopperConfig};
use hopper_core::live_cores_package::{IncipientCoresPackage, LiveCoresPackage};
use hopper_core::messages::MessageType;
use hopper_core::route::{Route, RouteError, RouteSegment};
use hopper_core::routing_service::{charge, RoutingError, RoutingService};

fn cryptde(key: &[u8]) -> CryptDe {
    CryptDe::new(key.to_vec()).unwrap()
}

fn peer() -> PeerAddr {
    PeerAddr { octet1: 1, octet2: 2, octet3: 3, octet4: 4, port: 5678 }
}

fn icd(data: Vec<u8>) -> InboundClientData {
    InboundClientData {
        peer_addr: peer(),
        reception_port: None,
        last_data: false,
        is_clandestine: true,
        sequence_number: None,
        data,
    }
}

fn one_way_route(keys: &[&[u8]], recipient: Component, origin: &CryptDe) -> Route {
    let key_vec: Vec<PublicKey> = keys.iter().map(|k| PublicKey::new(k.to_vec())).collect();
    Route::one_way(RouteSegment::new(key_vec, recipient), origin).unwrap()
}

#[test]
fn two_hop_route_relays_then_delivers_dns_failure() {
    let origin = cryptde(b"origin");
    let hop_a = cryptde(b"hop-a-key");
    let hop_b = cryptde(b"hop-b-key");
    let route = one_way_route(&[b"hop-a-key", b"hop-b-key"], Component::Neighborhood, &origin);
    let package = IncipientCoresPackage::new(
        route,
        MessageType::DnsResolveFailed,
        PublicKey::new(b"hop-b-key".to_vec()),
    );
    let consuming = ConsumingService::new(origin.dup(), false);
    let mut origin_transport = TransportSink::new();

    consuming.consume(package, &mut origin_transport).unwrap();

    assert_eq!(origin_transport.sends.len(), 1);
    let (first_target, wire_a) = &origin_transport.sends[0];
    assert_eq!(first_target, &PublicKey::new(b"hop-a-key".to_vec()));

    // Hop A: strips its layer, forwards to hop B, and bills exactly once.
    let routing_a = RoutingService::new(hop_a, false, 100, 200);
    let mut transport_a = TransportSink::new();
    let mut accountant_a = AccountingSink::new();
    let mut delivery_a = DeliverySink::new();
    routing_a
        .route(icd(wire_a.clone()), &mut transport_a, &mut accountant_a, &mut delivery_a)
        .unwrap();
    assert_eq!(transport_a.sends.len(), 1);
    let (next_target, wire_b) = &transport_a.sends[0];
    assert_eq!(next_target, &PublicKey::new(b"hop-b-key".to_vec()));
    assert_eq!(accountant_a.reports.len(), 1);
    assert_eq!(accountant_a.reports[0], (peer(), 100 + 200 * wire_b.len() as u64));
    assert_eq!(delivery_a.deliveries.len(), 0);

    // Hop B: finds an empty remaining route, delivers locally, bills nothing.
    let routing_b = RoutingService::new(hop_b, false, 100, 200);
    let mut transport_b = TransportSink::new();
    let mut accountant_b = AccountingSink::new();
    let mut delivery_b = DeliverySink::new();
    routing_b
        .route(icd(wire_b.clone()), &mut transport_b, &mut accountant_b, &mut delivery_b)
        .unwrap();
    assert_eq!(transport_b.sends.len(), 0);
    assert_eq!(accountant_b.reports.len(), 0);
    assert_eq!(
        delivery_b.deliveries,
        vec![(Component::Neighborhood, MessageType::DnsResolveFailed)]
    );
}

#[test]
fn single_hop_route_delivers_original_payload_bytes() {
    let origin = cryptde(b"origin");
    let dest = cryptde(b"destination");
    let payload = MessageType::ClientRequest(vec![9, 8, 7, 6]);
    let route = one_way_route(&[b"destination"], Component::ProxyClient, &origin);
    let package =
        IncipientCoresPackage::new(route, payload.clone(), PublicKey::new(b"destination".to_vec()));
    let consuming = ConsumingService::new(origin, false);
    let mut transport = TransportSink::new();
    consuming.consume(package, &mut transport).unwrap();
    let (_, wire) = &transport.sends[0];

    let routing = RoutingService::new(dest, false, 1, 1);
    let mut t = TransportSink::new();
    let mut a = AccountingSink::new();
    let mut d = DeliverySink::new();
    routing.route(icd(wire.clone()), &mut t, &mut a, &mut d).unwrap();

    assert_eq!(d.deliveries, vec![(Component::ProxyClient, payload)]);
    assert_eq!(a.reports.len(), 0);
}

#[test]
fn serialized_package_round_trips_byte_identically() {
    let origin = cryptde(b"origin");
    let route = one_way_route(&[b"alpha", b"beta"], Component::Dispatcher, &origin);
    let package = LiveCoresPackage::new(route, hopper_core::cryptde::CryptData::new(vec![
        1, 2, 3, 4, 5,
    ]));

    let bytes = package.serialize();
    let reparsed = LiveCoresPackage::deserialize(&PlainData::new(bytes.clone())).unwrap();
    let bytes_again = reparsed.serialize();

    assert_eq!(bytes, bytes_again);
}

#[test]
fn wrong_key_always_yields_decryption_error() {
    let sender = cryptde(b"sender");
    let intended = PublicKey::new(b"intended-target".to_vec());
    let body = PlainData::new(vec![1, 2, 3, 4]);
    let ciphertext = sender.encode(&intended, &body).unwrap();

    let other_node = cryptde(b"someone-else!!!");
    assert_eq!(other_node.decode(&ciphertext), Err(CryptdeError::DecryptionError));

    let routing = RoutingService::new(other_node, false, 1, 1);
    let mut t = TransportSink::new();
    let mut a = AccountingSink::new();
    let mut d = DeliverySink::new();
    let result = routing.route(
        icd(ciphertext.as_bytes().clone()),
        &mut t,
        &mut a,
        &mut d,
    );
    assert_eq!(result, Err(RoutingError::DecryptionError));
    assert_eq!(t.sends.len(), 0);
    assert_eq!(a.reports.len(), 0);
    assert_eq!(d.deliveries.len(), 0);
}

#[test]
fn truncated_package_is_rejected_without_fee() {
    let origin = cryptde(b"origin");
    let hop_a = cryptde(b"hop-a-key");
    let route = one_way_route(&[b"hop-a-key", b"hop-b-key"], Component::Neighborhood, &origin);
    let package = IncipientCoresPackage::new(
        route,
        MessageType::DnsResolveFailed,
        PublicKey::new(b"hop-b-key".to_vec()),
    );
    let consuming = ConsumingService::new(origin, false);
    let mut transport = TransportSink::new();
    consuming.consume(package, &mut transport).unwrap();
    let mut wire = transport.sends[0].1.clone();
    wire.pop();

    let routing = RoutingService::new(hop_a, false, 100, 200);
    let mut t = TransportSink::new();
    let mut a = AccountingSink::new();
    let mut d = DeliverySink::new();
    let result = routing.route(icd(wire), &mut t, &mut a, &mut d);

    assert_eq!(result, Err(RoutingError::MalformedPackageError));
    assert_eq!(t.sends.len(), 0);
    assert_eq!(a.reports.len(), 0);
    assert_eq!(d.deliveries.len(), 0);
}

#[test]
fn garbage_under_own_key_is_malformed() {
    let node = cryptde(b"node-key");
    let ciphertext = node.encode(&node.public_key(), &PlainData::new(vec![7, 7, 7])).unwrap();

    let routing = RoutingService::new(node, false, 1, 1);
    let mut t = TransportSink::new();
    let mut a = AccountingSink::new();
    let mut d = DeliverySink::new();
    let result = routing.route(icd(ciphertext.as_bytes().clone()), &mut t, &mut a, &mut d);

    assert_eq!(result, Err(RoutingError::MalformedPackageError));
    assert_eq!(a.reports.len(), 0);
}

#[test]
fn encoding_for_an_empty_key_fails() {
    let node = cryptde(b"node-key");
    let result = node.encode(&PublicKey::new(vec![]), &PlainData::new(vec![1]));
    assert_eq!(result, Err(CryptdeError::EncryptionError));
}

#[test]
fn route_construction_rejects_bad_segments() {
    let origin = cryptde(b"origin");
    let empty = Route::one_way(RouteSegment::new(vec![], Component::Neighborhood), &origin);
    assert_eq!(empty.err().unwrap(), RouteError::EmptyRouteSegment);

    let bad_key = Route::one_way(
        RouteSegment::new(
            vec![PublicKey::new(b"good-key".to_vec()), PublicKey::new(vec![])],
            Component::Neighborhood,
        ),
        &origin,
    );
    assert_eq!(bad_key.err().unwrap(), RouteError::EncryptionFailed);
}

#[test]
fn consume_with_bad_destination_key_sends_nothing() {
    let origin = cryptde(b"origin");
    let route = one_way_route(&[b"hop-a-key"], Component::Neighborhood, &origin);
    let package =
        IncipientCoresPackage::new(route, MessageType::DnsResolveFailed, PublicKey::new(vec![]));
    let consuming = ConsumingService::new(origin, false);
    let mut transport = TransportSink::new();

    let result = consuming.consume(package, &mut transport);

    assert!(result.is_err());
    assert_eq!(transport.sends.len(), 0);
}

#[test]
fn charge_is_flat_fee_plus_per_byte_fee_and_saturates() {
    assert_eq!(charge(100, 200, 3), 700);
    assert_eq!(charge(0, 0, 12345), 0);
    assert_eq!(charge(u64::MAX, 1, 1), u64::MAX);
    assert_eq!(charge(5, u64::MAX, 2), u64::MAX);
}

#[test]
fn hopper_binds_once_and_dispatches_both_kinds() {
    let origin = cryptde(b"origin");
    let dest = cryptde(b"destination");
    let mut sender = Hopper::new(HopperConfig {
        cryptde: origin,
        is_bootstrap_node: false,
        per_routing_service: 100,
        per_routing_byte: 200,
    });
    assert!(!sender.is_bound());
    sender.handle_bind();
    assert!(sender.is_bound());

    let route = one_way_route(&[b"destination"], Component::Accountant, &cryptde(b"origin"));
    let package = IncipientCoresPackage::new(
        route,
        MessageType::ClientResponse(vec![42]),
        PublicKey::new(b"destination".to_vec()),
    );
    let mut transport = TransportSink::new();
    sender.handle_incipient(package, &mut transport).unwrap();
    assert_eq!(transport.sends.len(), 1);

    let mut receiver = Hopper::new(HopperConfig {
        cryptde: dest,
        is_bootstrap_node: false,
        per_routing_service: 100,
        per_routing_byte: 200,
    });
    receiver.handle_bind();
    let mut t = TransportSink::new();
    let mut a = AccountingSink::new();
    let mut d = DeliverySink::new();
    receiver
        .handle_inbound(icd(transport.sends[0].1.clone()), &mut t, &mut a, &mut d)
        .unwrap();
    assert_eq!(
        d.deliveries,
        vec![(Component::Accountant, MessageType::ClientResponse(vec![42]))]
    );
    assert_eq!(a.reports.len(), 0);
}

#[test]
fn three_hop_route_bills_each_relay_once() {
    let origin = cryptde(b"origin");
    let keys: [&[u8]; 3] = [b"key-aaa", b"key-bbb", b"key-ccc"];
    let route = one_way_route(&keys, Component::ProxyServer, &origin);
    let payload = MessageType::ClientRequest(vec![1, 2, 3]);
    let package =
        IncipientCoresPackage::new(route, payload.clone(), PublicKey::new(b"key-ccc".to_vec()));
    let consuming = ConsumingService::new(origin, false);
    let mut transport = TransportSink::new();
    consuming.consume(package, &mut transport).unwrap();

    let mut wire = transport.sends[0].1.clone();
    let mut fees: u64 = 0;
    for (i, key) in keys.iter().enumerate() {
        let routing = RoutingService::new(cryptde(key), false, 10, 1);
        let mut t = TransportSink::new();
        let mut a = AccountingSink::new();
        let mut d = DeliverySink::new();
        routing.route(icd(wire.clone()), &mut t, &mut a, &mut d).unwrap();
        if i < 2 {
            assert_eq!(t.sends.len(), 1);
            assert_eq!(a.reports.len(), 1);
            fees += a.reports[0].1;
            assert_eq!(d.deliveries.len(), 0);
            wire = t.sends[0].1.clone();
        } else {
            assert_eq!(t.sends.len(), 0);
            assert_eq!(a.reports.len(), 0);
            assert_eq!(d.deliveries, vec![(Component::ProxyServer, payload.clone())]);
        }
    }
    assert!(fees > 0);
}

#[test]
fn round_trip_route_ends_at_the_return_recipient() {
    let origin = cryptde(b"origin-key");
    let over = RouteSegment::new(
        vec![
            PublicKey::new(b"relay-key-1".to_vec()),
            PublicKey::new(b"exit-key-22".to_vec()),
        ],
        Component::ProxyClient,
    );
    let back = RouteSegment::new(
        vec![PublicKey::new(b"origin-key".to_vec())],
        Component::ProxyServer,
    );
    let route = Route::round_trip(over, back, &origin).unwrap();
    let package = IncipientCoresPackage::new(
        route,
        MessageType::ClientResponse(vec![5]),
        PublicKey::new(b"origin-key".to_vec()),
    );
    let consuming = ConsumingService::new(origin, false);
    let mut transport = TransportSink::new();
    consuming.consume(package, &mut transport).unwrap();

    let hops: [&[u8]; 3] = [b"relay-key-1", b"exit-key-22", b"origin-key"];
    let mut wire = transport.sends[0].1.clone();
    let mut last_delivery = None;
    for (i, key) in hops.iter().enumerate() {
        let routing = RoutingService::new(cryptde(key), false, 1, 1);
        let mut t = TransportSink::new();
        let mut a = AccountingSink::new();
        let mut d = DeliverySink::new();
        routing.route(icd(wire.clone()), &mut t, &mut a, &mut d).unwrap();
        if i < 2 {
            wire = t.sends[0].1.clone();
        } else {
            last_delivery = d.deliveries.pop();
        }
    }
    assert_eq!(
        last_delivery,
        Some((Component::ProxyServer, MessageType::ClientResponse(vec![5])))
    );
}
