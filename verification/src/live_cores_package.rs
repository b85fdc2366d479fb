//! The two envelope shapes of the protocol: the pre-send package a local
//! component hands to the outbound service, and the wire-level package that
//! is the only form ever transmitted.

use vstd::prelude::*;
use crate::cryptde::{crypt_data_views, CryptData, PlainData, PublicKey};
use crate::messages::MessageType;
use crate::route::Route;
use crate::wire::{
    lcp_serializable, lemma_ser_hops_snoc, parse_chunk, parse_hops, parse_lcp, push_chunk,
    push_le32, read_chunk, read_le32, ser_hops, ser_lcp, chunk, le32,
};

verus! {

/// A not-yet-wire-encoded message: the route, the payload as a local
/// component produced it, and the key of the final hop, which the payload
/// will be encrypted for.
#[derive(Debug)]
pub struct IncipientCoresPackage {
    pub route: Route,
    pub payload: MessageType,
    pub payload_destination_key: PublicKey,
}

impl IncipientCoresPackage {
    pub fn new(route: Route, payload: MessageType, payload_destination_key: PublicKey) -> (r:
        Self)
        ensures
            r.route == route,
            r.payload == payload,
            r.payload_destination_key == payload_destination_key,
    {
        IncipientCoresPackage { route, payload, payload_destination_key }
    }
}

/// The only form ever transmitted: the remaining, still onion-encrypted
/// route, and the payload ciphertext.  Each relay rebuilds one of these with
/// the route one hop shorter.
#[derive(Debug)]
pub struct LiveCoresPackage {
    pub route: Route,
    pub payload: CryptData,
}

impl LiveCoresPackage {
    pub fn new(route: Route, payload: CryptData) -> (r: Self)
        ensures
            r.route == route,
            r.payload == payload,
    {
        LiveCoresPackage { route, payload }
    }

    /// The package's serialization, as the single wire grammar gives it.
    pub open spec fn wire_view(&self) -> Seq<u8> {
        ser_lcp(self.route.first_hop@, crypt_data_views(self.route.hops@), self.payload@)
    }

    /// Whether the package fits the wire grammar's length prefixes.
    pub open spec fn serializable(&self) -> bool {
        lcp_serializable(self.route.first_hop@, crypt_data_views(self.route.hops@), self.payload@)
    }

    /// Writes the package in the wire grammar.
    pub fn serialize(&self) -> (r: Vec<u8>)
        requires
            self.serializable(),
        ensures
            r@ == self.wire_view(),
    {
        let ghost hv = crypt_data_views(self.route.hops@);
        let mut out: Vec<u8> = Vec::new();
        push_chunk(&mut out, self.route.first_hop.as_bytes());
        push_le32(&mut out, self.route.hops.len() as u32);
        let mut i: usize = 0;
        while i < self.route.hops.len()
            invariant
                i <= self.route.hops.len(),
                hv == crypt_data_views(self.route.hops@),
                self.serializable(),
                out@ == chunk(self.route.first_hop@) + le32(hv.len()) + ser_hops(
                    hv.subrange(0, i as int),
                ),
            decreases self.route.hops.len() - i,
        {
            proof {
                assert(hv[i as int] == self.route.hops@[i as int]@);
                assert(hv[i as int].len() < crate::wire::FIELD_LIMIT);
            }
            push_chunk(&mut out, self.route.hops[i].as_bytes());
            i = i + 1;
            proof {
                lemma_ser_hops_snoc(hv.subrange(0, i - 1), hv[i - 1]);
                assert(hv.subrange(0, i - 1).push(hv[i - 1]) =~= hv.subrange(0, i as int));
                assert(out@ =~= chunk(self.route.first_hop@) + le32(hv.len()) + ser_hops(
                    hv.subrange(0, i as int),
                ));
            }
        }
        push_chunk(&mut out, self.payload.as_bytes());
        proof {
            assert(hv.subrange(0, hv.len() as int) =~= hv);
            assert(out@ =~= self.wire_view());
        }
        out
    }

    /// Reads a package back from raw decrypted bytes.  Succeeds exactly on
    /// byte strings some package serializes to; anything else is a
    /// structurally malformed package.
    #[verifier::loop_isolation(false)]
    pub fn deserialize(data: &PlainData) -> (r: Option<LiveCoresPackage>)
        ensures
            r is Some <==> parse_lcp(data@) is Some,
            r matches Some(lcp) ==> parse_lcp(data@) == Some(
                (lcp.route.first_hop@, crypt_data_views(lcp.route.hops@), lcp.payload@),
            ),
    {
        let b = data.as_bytes();
        let n = b.len();
        proof {
            assert(b@.subrange(0, b@.len() as int) =~= b@);
        }
        let (first, p1) = match read_chunk(b, 0) {
            Some(x) => x,
            None => {
                return None;
            },
        };
        if n - p1 < 4 {
            return None;
        }
        let cnt32 = read_le32(b, p1);
        let cnt = cnt32 as usize;
        proof {
            assert(b@.subrange(p1 as int, n as int).subrange(0, 4) =~= b@.subrange(
                p1 as int,
                p1 + 4,
            ));
        }
        let ghost r1 = b@.subrange(p1 as int, n as int);
        let ghost s0 = b@.subrange(p1 + 4, n as int);
        proof {
            assert(r1.subrange(4, r1.len() as int) =~= s0);
        }
        let mut hops: Vec<CryptData> = Vec::new();
        let mut p: usize = p1 + 4;
        let mut k: usize = 0;
        while k < cnt
            invariant
                k <= cnt,
                p1 + 4 <= p <= n,
                n == b@.len(),
                hops@.len() == k,
                parse_hops(s0, cnt as nat) == (match parse_hops(
                    b@.subrange(p as int, n as int),
                    (cnt - k) as nat,
                ) {
                    Some((cs, rest)) => Some((crypt_data_views(hops@) + cs, rest)),
                    None => None::<(Seq<Seq<u8>>, Seq<u8>)>,
                }),
            decreases cnt - k,
        {
            let ghost cur = b@.subrange(p as int, n as int);
            match read_chunk(b, p) {
                Some((c, np)) => {
                    let ghost next = b@.subrange(np as int, n as int);
                    let cd = CryptData::new(c);
                    proof {
                        assert(parse_chunk(cur) == Some((cd@, next)));
                        let m = (cnt - k - 1) as nat;
                        assert(parse_hops(cur, (cnt - k) as nat) == (match parse_hops(next, m) {
                            Some((cs, rest)) => Some((seq![cd@] + cs, rest)),
                            None => None::<(Seq<Seq<u8>>, Seq<u8>)>,
                        }));
                        if parse_hops(next, m) is Some {
                            let (cs, rest) = parse_hops(next, m).unwrap();
                            assert(crypt_data_views(hops@) + (seq![cd@] + cs) =~= crypt_data_views(
                                hops@.push(cd),
                            ) + cs);
                        }
                    }
                    hops.push(cd);
                    p = np;
                    k = k + 1;
                },
                None => {
                    proof {
                        assert(parse_hops(cur, (cnt - k) as nat) is None);
                        assert(parse_lcp(data@) is None);
                    }
                    return None;
                },
            }
        }
        proof {
            assert(parse_hops(b@.subrange(p as int, n as int), 0) == Some(
                (Seq::<Seq<u8>>::empty(), b@.subrange(p as int, n as int)),
            ));
            assert(crypt_data_views(hops@) + Seq::<Seq<u8>>::empty() =~= crypt_data_views(hops@));
            assert(parse_hops(s0, cnt as nat) == Some(
                (crypt_data_views(hops@), b@.subrange(p as int, n as int)),
            ));
        }
        let (payload, p2) = match read_chunk(b, p) {
            Some(x) => x,
            None => {
                return None;
            },
        };
        if p2 != n {
            proof {
                assert(b@.subrange(p2 as int, n as int).len() > 0);
            }
            return None;
        }
        proof {
            assert(b@.subrange(p2 as int, n as int).len() == 0);
        }
        Some(
            LiveCoresPackage {
                route: Route { first_hop: PublicKey::new(first), hops },
                payload: CryptData::new(payload),
            },
        )
    }
}

} // verus!
