//! The protocol-level guarantees of the core, stated and proved over the
//! same spec functions the services' contracts use.

use vstd::prelude::*;
use crate::consuming_service::consume_wire;
use crate::cryptde::{dec, dec_ok, enc, key_ok, lemma_enc_dec, lemma_enc_wrong_key};
use crate::dispatcher::Component;
use crate::messages::{lemma_parse_msg_of_ser, ser_msg, MessageTypeView};
use crate::route::{keys_ok, lemma_parse_step_of_ser, route_entries, ser_step, step_at, StepView};
use crate::routing_service::{inbound_outcome, InboundOutcome, RoutingError};
use crate::wire::{lcp_serializable, lemma_parse_lcp_of_ser, lemma_parse_lcp_truncated, parse_lcp,
    ser_lcp, FIELD_LIMIT};

verus! {

/// A payload small enough for its ciphertext to fit a wire field.
pub open spec fn payload_fits(payload: MessageTypeView) -> bool {
    ser_msg(payload).len() + 260 < FIELD_LIMIT
}

/// Running the inbound service once per hop, in hop order: each hop
/// processes the wire bytes addressed to it, and every forwarded package is
/// carried to the next hop.  The result is what the last reached hop did.
pub open spec fn run_hops(keys: Seq<Seq<u8>>, wire: Seq<u8>) -> InboundOutcome
    recommends
        keys.len() >= 1,
    decreases keys.len(),
{
    let o = inbound_outcome(keys[0], wire);
    if keys.len() <= 1 {
        o
    } else {
        match o {
            InboundOutcome::Forward(_nk, w) => run_hops(keys.drop_first(), w),
            _ => o,
        }
    }
}

/// The sizes of the route entries a route over valid keys is made of:
/// every field of such a package fits the wire grammar's length prefixes,
/// which is what the outbound service asks of a package it consumes.
pub proof fn lemma_entries_serializable(keys: Seq<Seq<u8>>, comp: Component, payload: MessageTypeView)
    requires
        keys.len() >= 1,
        keys.len() < FIELD_LIMIT,
        keys_ok(keys),
        payload_fits(payload),
    ensures
        lcp_serializable(keys[0], route_entries(keys, comp), enc(keys.last(), ser_msg(payload))),
    decreases keys.len(),
{
    let entries = route_entries(keys, comp);
    assert forall|i: int| 0 <= i < entries.len() implies #[trigger] entries[i].len()
        < FIELD_LIMIT by {
        let s = ser_step(step_at(keys, comp, i));
        assert(entries[i] == enc(keys[i], s));
        if i == keys.len() - 1 {
            assert(s.len() == 2);
        } else {
            assert(s.len() == 1 + keys[i + 1].len());
        }
        assert(entries[i].len() == 1 + keys[i].len() + s.len());
    }
    assert(enc(keys.last(), ser_msg(payload)).len() == 1 + keys.last().len() + ser_msg(
        payload,
    ).len());
}

/// At the final hop, the arriving package decrypts, parses, and delivers
/// exactly the original payload to exactly the original component.
proof fn lemma_final_hop(keys: Seq<Seq<u8>>, comp: Component, payload: MessageTypeView)
    requires
        keys.len() == 1,
        keys.len() < FIELD_LIMIT,
        keys_ok(keys),
        payload_fits(payload),
    ensures
        inbound_outcome(
            keys[0],
            consume_wire(keys[0], route_entries(keys, comp), keys.last(), payload),
        ) == InboundOutcome::Deliver(comp, payload),
{
    let k = keys[0];
    let entries = route_entries(keys, comp);
    let pct = enc(keys.last(), ser_msg(payload));
    let body = ser_lcp(k, entries, pct);
    lemma_entries_serializable(keys, comp, payload);
    lemma_enc_dec(k, body);
    lemma_parse_lcp_of_ser(k, entries, pct);
    assert(entries[0] == enc(k, ser_step(StepView::Deliver(comp))));
    lemma_enc_dec(k, ser_step(StepView::Deliver(comp)));
    lemma_parse_step_of_ser(StepView::Deliver(comp));
    assert(entries.drop_first().len() == 0);
    lemma_enc_dec(k, ser_msg(payload));
    lemma_parse_msg_of_ser(payload);
}

/// At every earlier hop, the arriving package decrypts, parses, and is
/// forwarded to exactly the next hop, carrying exactly the wire bytes the
/// rest of the route calls for.
#[verifier::rlimit(100)]
#[verifier::spinoff_prover]
proof fn lemma_relay_hop(keys: Seq<Seq<u8>>, comp: Component, payload: MessageTypeView)
    requires
        keys.len() >= 2,
        keys.len() < FIELD_LIMIT,
        keys_ok(keys),
        payload_fits(payload),
    ensures
        inbound_outcome(
            keys[0],
            consume_wire(keys[0], route_entries(keys, comp), keys.last(), payload),
        ) == InboundOutcome::Forward(
            keys[1],
            consume_wire(
                keys.drop_first()[0],
                route_entries(keys.drop_first(), comp),
                keys.drop_first().last(),
                payload,
            ),
        ),
{
    let k = keys[0];
    let entries = route_entries(keys, comp);
    let pct = enc(keys.last(), ser_msg(payload));
    let body = ser_lcp(k, entries, pct);
    lemma_entries_serializable(keys, comp, payload);
    lemma_enc_dec(k, body);
    lemma_parse_lcp_of_ser(k, entries, pct);
    assert(entries[0] == enc(k, ser_step(StepView::Relay(keys[1]))));
    lemma_enc_dec(k, ser_step(StepView::Relay(keys[1])));
    lemma_parse_step_of_ser(StepView::Relay(keys[1]));
    assert((seq![0u8] + keys[1]).drop_first() =~= keys[1]);
    let tail = keys.drop_first();
    let remaining = entries.drop_first();
    assert forall|j: int| 0 <= j < remaining.len() implies remaining[j] == route_entries(
        tail,
        comp,
    )[j] by {
        assert(remaining[j] == entries[j + 1]);
        assert(tail[j] == keys[j + 1]);
        if j == tail.len() - 1 {
            assert(step_at(tail, comp, j) == StepView::Deliver(comp));
            assert(step_at(keys, comp, j + 1) == StepView::Deliver(comp));
        } else {
            assert(step_at(tail, comp, j) == StepView::Relay(tail[j + 1]));
            assert(step_at(keys, comp, j + 1) == StepView::Relay(keys[j + 2]));
        }
    }
    assert(remaining =~= route_entries(tail, comp));
    assert(keys.last() == tail.last());
    assert(tail[0] == keys[1]);
    assert(remaining.len() >= 1);
    assert(key_ok(keys[1]));
}

/// For every route with at least one hop and every payload: the outbound
/// service's wire package, handed through the inbound service once per hop
/// in hop order, yields at the last hop exactly the original payload and
/// exactly the original terminal component.
pub proof fn theorem_route_round_trip(
    keys: Seq<Seq<u8>>,
    comp: Component,
    payload: MessageTypeView,
)
    requires
        keys.len() >= 1,
        keys.len() < FIELD_LIMIT,
        keys_ok(keys),
        payload_fits(payload),
    ensures
        run_hops(keys, consume_wire(keys[0], route_entries(keys, comp), keys.last(), payload))
            == InboundOutcome::Deliver(comp, payload),
    decreases keys.len(),
{
    if keys.len() == 1 {
        lemma_final_hop(keys, comp, payload);
    } else {
        lemma_relay_hop(keys, comp, payload);
        let tail = keys.drop_first();
        assert(keys_ok(tail)) by {
            assert(forall|i: int| 0 <= i < tail.len() ==> #[trigger] tail[i] == keys[i + 1]);
        }
        theorem_route_round_trip(tail, comp, payload);
        assert(tail[0] == keys[1]);
    }
}

/// Decrypting a layer with a key other than the one it was encrypted for
/// always fails: the inbound service rejects it as a decryption error, and
/// never succeeds with wrong output.
pub proof fn theorem_wrong_key_rejected(node_key: Seq<u8>, target_key: Seq<u8>, body: Seq<u8>)
    requires
        key_ok(node_key),
        key_ok(target_key),
        node_key != target_key,
    ensures
        inbound_outcome(node_key, enc(target_key, body)) == InboundOutcome::Reject(
            RoutingError::DecryptionError,
        ),
{
    lemma_enc_wrong_key(target_key, node_key, body);
}

/// A package the inbound service accepts stops being accepted when its wire
/// bytes are truncated by one byte: the outer layer still decrypts — the
/// cut is at the end — but no package parses from the shortened plaintext,
/// so the result is a structural rejection, never a misleading payload.
pub proof fn theorem_truncated_wire_rejected(key: Seq<u8>, data: Seq<u8>)
    requires
        key_ok(key),
        !(inbound_outcome(key, data) matches InboundOutcome::Reject(_)),
    ensures
        inbound_outcome(key, data.drop_last()) == InboundOutcome::Reject(
            RoutingError::MalformedPackageError,
        ),
{
    assert(dec_ok(key, data));
    let plain = dec(key, data);
    assert(parse_lcp(plain) is Some);
    assert(plain.len() >= 4);
    let d2 = data.drop_last();
    assert(d2.subrange(0, key.len() + 1 as int) =~= data.subrange(0, key.len() + 1 as int));
    assert(d2.subrange(1, key.len() + 1 as int) =~= data.subrange(1, key.len() + 1 as int));
    assert(dec_ok(key, d2));
    assert(dec(key, d2) =~= plain.drop_last());
    lemma_parse_lcp_truncated(plain);
}

} // verus!
