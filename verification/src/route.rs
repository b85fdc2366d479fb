//! Routes: an ordered, fully-specified hop list, onion-encrypted per hop.
//!
//! Each entry of a route is readable only by its own hop's private key and
//! reveals only that hop's step: the next hop's key, or — in the terminal
//! layer alone — the component that receives the payload.

use vstd::prelude::*;
use crate::cryptde::{
    enc, key_ok, key_views, crypt_data_views, CryptDe, CryptData, PlainData, PublicKey,
};
use crate::dispatcher::{component_of_tag, component_tag, component_from_tag, component_tag_of,
    Component};

verus! {

/// What one decrypted route entry tells its hop to do.
#[derive(Debug)]
pub enum RouteStep {
    Relay { next_key: PublicKey },
    Deliver { component: Component },
}

/// The mathematical shape of a route entry's plaintext.
pub enum StepView {
    Relay(Seq<u8>),
    Deliver(Component),
}

impl View for RouteStep {
    type V = StepView;

    open spec fn view(&self) -> StepView {
        match self {
            RouteStep::Relay { next_key } => StepView::Relay(next_key@),
            RouteStep::Deliver { component } => StepView::Deliver(*component),
        }
    }
}

/// The byte form of a route entry's plaintext: a tag byte, then the next
/// hop's key bytes or the terminal component's tag.
pub open spec fn ser_step(s: StepView) -> Seq<u8> {
    match s {
        StepView::Relay(k) => seq![0u8] + k,
        StepView::Deliver(c) => seq![1u8, component_tag(c)],
    }
}

/// Reads a route entry's plaintext back; consumes every byte.  A relay step
/// must carry a non-empty key.
pub open spec fn parse_step(b: Seq<u8>) -> Option<StepView> {
    if b.len() < 2 {
        None
    } else if b[0] == 0 {
        Some(StepView::Relay(b.drop_first()))
    } else if b[0] == 1 {
        if b.len() == 2 {
            match component_of_tag(b[1]) {
                Some(c) => Some(StepView::Deliver(c)),
                None => None,
            }
        } else {
            None
        }
    } else {
        None
    }
}

/// A step whose byte form parses back to itself: a relay step must name a
/// non-empty key.
pub open spec fn step_wf(s: StepView) -> bool {
    match s {
        StepView::Relay(k) => k.len() >= 1,
        StepView::Deliver(_) => true,
    }
}

pub proof fn lemma_parse_step_of_ser(s: StepView)
    requires
        step_wf(s),
    ensures
        parse_step(ser_step(s)) == Some(s),
{
    match s {
        StepView::Relay(k) => {
            assert((seq![0u8] + k).drop_first() =~= k);
        },
        StepView::Deliver(c) => {},
    }
}

pub proof fn lemma_ser_of_parse_step(b: Seq<u8>)
    requires
        parse_step(b) is Some,
    ensures
        parse_step(b) matches Some(s) ==> ser_step(s) == b && step_wf(s),
{
    let s = parse_step(b).unwrap();
    match s {
        StepView::Relay(k) => {
            assert(seq![0u8] + b.drop_first() =~= b);
        },
        StepView::Deliver(c) => {
            assert(seq![1u8, component_tag(c)] =~= b);
        },
    }
}

/// Writes a route entry's plaintext in its byte form.
pub fn serialize_step(s: &RouteStep) -> (r: Vec<u8>)
    ensures
        r@ == ser_step(s@),
{
    match s {
        RouteStep::Relay { next_key } => {
            let mut out: Vec<u8> = vec![0u8];
            crate::cryptde::append_bytes(&mut out, next_key.as_bytes());
            proof {
                assert(out@ =~= ser_step(s@));
            }
            out
        },
        RouteStep::Deliver { component } => {
            let out: Vec<u8> = vec![1u8, component_tag_of(*component)];
            proof {
                assert(out@ =~= ser_step(s@));
            }
            out
        },
    }
}

/// Reads a route entry's plaintext back; rejects exactly the byte strings
/// no well-formed step serializes to.
pub fn parse_step_bytes(b: &Vec<u8>) -> (r: Option<RouteStep>)
    ensures
        r is Some <==> parse_step(b@) is Some,
        r matches Some(s) ==> parse_step(b@) == Some(s@),
{
    if b.len() < 2 {
        return None;
    }
    let tag = b[0];
    if tag == 0 {
        let rest = crate::messages::bytes_from(b, 1);
        proof {
            assert(b@.subrange(1, b@.len() as int) =~= b@.drop_first());
        }
        Some(RouteStep::Relay { next_key: PublicKey::new(rest) })
    } else if tag == 1 {
        if b.len() == 2 {
            match component_from_tag(b[1]) {
                Some(c) => Some(RouteStep::Deliver { component: c }),
                None => None,
            }
        } else {
            None
        }
    } else {
        None
    }
}

/// An ordered sequence of hops plus the component that receives the payload
/// at the last of them.
#[derive(Debug)]
pub struct RouteSegment {
    pub keys: Vec<PublicKey>,
    pub recipient: Component,
}

impl RouteSegment {
    pub fn new(keys: Vec<PublicKey>, recipient: Component) -> (r: Self)
        ensures
            r.keys@ == keys@,
            r.recipient == recipient,
    {
        RouteSegment { keys, recipient }
    }
}

#[derive(Clone, Copy, Debug, PartialEq, Eq, Structural)]
pub enum RouteError {
    EmptyRouteSegment,
    EncryptionFailed,
}

/// The step hop `i` of a route over `keys` ending at `comp` is told to
/// take: relay to the next key, or — at the last hop — deliver to `comp`.
pub open spec fn step_at(keys: Seq<Seq<u8>>, comp: Component, i: int) -> StepView
    recommends
        0 <= i < keys.len(),
{
    if i == keys.len() - 1 {
        StepView::Deliver(comp)
    } else {
        StepView::Relay(keys[i + 1])
    }
}

/// The onion-encrypted entries of a route over `keys` ending at `comp`:
/// entry `i` is the byte form of hop `i`'s step, encrypted for hop `i`'s
/// key and readable by no other hop.
pub open spec fn route_entries(keys: Seq<Seq<u8>>, comp: Component) -> Seq<Seq<u8>> {
    Seq::new(keys.len(), |i: int| enc(keys[i], ser_step(step_at(keys, comp, i))))
}

pub open spec fn keys_ok(keys: Seq<Seq<u8>>) -> bool {
    forall|i: int| 0 <= i < keys.len() ==> key_ok(#[trigger] keys[i])
}

/// A fully-specified path: the first hop's key in the clear — the sender
/// must address the transport — and one onion-encrypted entry per hop.
#[derive(Debug)]
pub struct Route {
    pub first_hop: PublicKey,
    pub hops: Vec<CryptData>,
}

impl Route {
    /// Builds a one-way route over a single segment, processing the hops
    /// from the destination backward: the terminal layer names the
    /// recipient component, every earlier layer names the next hop's key,
    /// and each layer is encrypted for its own hop alone.  Fails on an
    /// empty segment, and with an encryption failure exactly when some
    /// hop's key cannot be encrypted for.
    pub fn one_way(segment: RouteSegment, cryptde: &CryptDe) -> (r: Result<Route, RouteError>)
        ensures
            r is Ok <==> segment.keys@.len() >= 1 && keys_ok(key_views(segment.keys@)),
            r matches Ok(route) ==> {
                &&& route.first_hop@ == segment.keys@[0]@
                &&& crypt_data_views(route.hops@) == route_entries(
                    key_views(segment.keys@),
                    segment.recipient,
                )
            },
            segment.keys@.len() == 0 ==> r == Err::<Route, RouteError>(
                RouteError::EmptyRouteSegment,
            ),
            segment.keys@.len() >= 1 && !keys_ok(key_views(segment.keys@)) ==> r == Err::<
                Route,
                RouteError,
            >(RouteError::EncryptionFailed),
    {
        let ghost kv = key_views(segment.keys@);
        let n = segment.keys.len();
        if n == 0 {
            return Err(RouteError::EmptyRouteSegment);
        }
        let mut hops: Vec<CryptData> = Vec::new();
        let mut i: usize = 0;
        while i < n
            invariant
                i <= n,
                n == segment.keys@.len(),
                kv == key_views(segment.keys@),
                forall|j: int| 0 <= j < i ==> key_ok(#[trigger] kv[j]),
                hops@.len() == i,
                forall|j: int| 0 <= j < i ==> #[trigger] hops@[j]@ == enc(
                    kv[j],
                    ser_step(step_at(kv, segment.recipient, j)),
                ),
            decreases n - i,
        {
            let step: RouteStep = if i == n - 1 {
                RouteStep::Deliver { component: segment.recipient }
            } else {
                RouteStep::Relay { next_key: segment.keys[i + 1].clone() }
            };
            proof {
                assert(step@ == step_at(kv, segment.recipient, i as int));
            }
            let step_bytes = serialize_step(&step);
            match cryptde.encode(&segment.keys[i], &PlainData::new(step_bytes)) {
                Ok(c) => {
                    hops.push(c);
                },
                Err(_) => {
                    proof {
                        assert(kv[i as int] == segment.keys@[i as int]@);
                        assert(!key_ok(kv[i as int]));
                    }
                    return Err(RouteError::EncryptionFailed);
                },
            }
            i = i + 1;
        }
        proof {
            assert(crypt_data_views(hops@) =~= route_entries(kv, segment.recipient));
        }
        Ok(Route { first_hop: segment.keys[0].clone(), hops })
    }

    /// Builds a round-trip route: the outbound segment's hops followed by
    /// the return segment's hops, combined into one ordered hop list and
    /// onion-encrypted exactly as a one-way route over the combined list.
    /// The return segment's recipient is the component that receives the
    /// payload at the end of the whole trip.
    pub fn round_trip(over: RouteSegment, back: RouteSegment, cryptde: &CryptDe) -> (r: Result<
        Route,
        RouteError,
    >)
        ensures
            r is Ok <==> (over.keys@ + back.keys@).len() >= 1 && keys_ok(
                key_views(over.keys@ + back.keys@),
            ),
            r matches Ok(route) ==> {
                &&& route.first_hop@ == (over.keys@ + back.keys@)[0]@
                &&& crypt_data_views(route.hops@) == route_entries(
                    key_views(over.keys@ + back.keys@),
                    back.recipient,
                )
            },
            (over.keys@ + back.keys@).len() == 0 ==> r == Err::<Route, RouteError>(
                RouteError::EmptyRouteSegment,
            ),
            (over.keys@ + back.keys@).len() >= 1 && !keys_ok(key_views(over.keys@ + back.keys@))
                ==> r == Err::<Route, RouteError>(RouteError::EncryptionFailed),
    {
        let ghost combined = over.keys@ + back.keys@;
        let mut keys = over.keys;
        let mut back_keys = back.keys;
        keys.append(&mut back_keys);
        proof {
            assert(keys@ == combined);
        }
        Route::one_way(RouteSegment::new(keys, back.recipient), cryptde)
    }
}

} // verus!
