//! The wire grammar of a transmitted package: length-prefixed byte fields.
//!
//! Every node in the network serializes and parses packages with exactly this
//! grammar, so the spec functions here are the single description both of
//! what the serializer emits and of what the parser accepts.  The parser
//! accepts a byte string exactly when it is the serialization of some
//! package, which is what makes the encoding unambiguous and round-trippable.

use vstd::prelude::*;
use vstd::arithmetic::div_mod::lemma_fundamental_div_mod;

verus! {

pub const FIELD_LIMIT: u64 = 0x1_0000_0000;

/// Four little-endian bytes holding `n`.
pub open spec fn le32(n: nat) -> Seq<u8>
    recommends
        n < FIELD_LIMIT,
{
    seq![
        (n % 256) as u8,
        ((n / 256) % 256) as u8,
        ((n / 256 / 256) % 256) as u8,
        ((n / 256 / 256 / 256) % 256) as u8,
    ]
}

/// The number held by four little-endian bytes.
pub open spec fn from_le32(s: Seq<u8>) -> nat
    recommends
        s.len() == 4,
{
    (s[0] as nat) + 256 * (s[1] as nat) + 0x1_0000 * (s[2] as nat) + 0x100_0000 * (s[3] as nat)
}

pub proof fn lemma_from_le32_of_le32(n: nat)
    requires
        n < FIELD_LIMIT,
    ensures
        from_le32(le32(n)) == n,
{
    let x = n as int;
    lemma_fundamental_div_mod(x, 256);
    lemma_fundamental_div_mod(x / 256, 256);
    lemma_fundamental_div_mod(x / 256 / 256, 256);
    assert(x / 256 / 256 / 256 < 256) by (nonlinear_arith)
        requires
            x < 0x1_0000_0000,
            x >= 0,
    ;
    assert(x / 256 / 256 / 256 >= 0) by (nonlinear_arith)
        requires
            x >= 0,
    ;
    assert((x / 256 / 256 / 256) % 256 == x / 256 / 256 / 256) by {
        vstd::arithmetic::div_mod::lemma_small_mod((x / 256 / 256 / 256) as nat, 256);
    };
    assert(x == (x % 256) + 256 * ((x / 256) % 256) + 0x1_0000 * ((x / 256 / 256) % 256)
        + 0x100_0000 * ((x / 256 / 256 / 256) % 256)) by (nonlinear_arith)
        requires
            x == 256 * (x / 256) + x % 256,
            x / 256 == 256 * (x / 256 / 256) + (x / 256) % 256,
            x / 256 / 256 == 256 * (x / 256 / 256 / 256) + (x / 256 / 256) % 256,
            (x / 256 / 256 / 256) % 256 == x / 256 / 256 / 256,
    ;
}

pub proof fn lemma_le32_of_from_le32(s: Seq<u8>)
    requires
        s.len() == 4,
    ensures
        from_le32(s) < FIELD_LIMIT,
        le32(from_le32(s)) == s,
{
    let a = s[0] as int;
    let b = s[1] as int;
    let c = s[2] as int;
    let d = s[3] as int;
    let v = a + 256 * b + 0x1_0000 * c + 0x100_0000 * d;
    assert(v < 0x1_0000_0000);
    assert(v % 256 == a && v / 256 == b + 256 * c + 0x1_0000 * d) by (nonlinear_arith)
        requires
            0 <= a < 256,
            0 <= b < 256,
            0 <= c < 256,
            0 <= d < 256,
            v == a + 256 * b + 0x1_0000 * c + 0x100_0000 * d,
    ;
    let v1 = b + 256 * c + 0x1_0000 * d;
    assert(v1 % 256 == b && v1 / 256 == c + 256 * d) by (nonlinear_arith)
        requires
            0 <= b < 256,
            0 <= c < 256,
            0 <= d < 256,
            v1 == b + 256 * c + 0x1_0000 * d,
    ;
    let v2 = c + 256 * d;
    assert(v2 % 256 == c && v2 / 256 == d) by (nonlinear_arith)
        requires
            0 <= c < 256,
            0 <= d < 256,
            v2 == c + 256 * d,
    ;
    assert(d % 256 == d) by (nonlinear_arith)
        requires
            0 <= d < 256,
    ;
    assert(le32(from_le32(s)) =~= s);
}

/// A length-prefixed field: four little-endian length bytes, then the bytes.
pub open spec fn chunk(s: Seq<u8>) -> Seq<u8>
    recommends
        s.len() < FIELD_LIMIT,
{
    le32(s.len()) + s
}

/// Reads one length-prefixed field off the front of `b`, returning the field
/// and the remainder.
pub open spec fn parse_chunk(b: Seq<u8>) -> Option<(Seq<u8>, Seq<u8>)> {
    if b.len() < 4 {
        None
    } else {
        let n = from_le32(b.subrange(0, 4));
        if b.len() < n + 4 {
            None
        } else {
            Some((b.subrange(4, n + 4 as int), b.subrange(n + 4 as int, b.len() as int)))
        }
    }
}

pub proof fn lemma_parse_chunk_of_chunk(s: Seq<u8>, rest: Seq<u8>)
    requires
        s.len() < FIELD_LIMIT,
    ensures
        parse_chunk(chunk(s) + rest) == Some((s, rest)),
{
    let b = chunk(s) + rest;
    assert(b.subrange(0, 4) =~= le32(s.len()));
    lemma_from_le32_of_le32(s.len());
    assert(b.subrange(4, s.len() + 4 as int) =~= s);
    assert(b.subrange(s.len() + 4 as int, b.len() as int) =~= rest);
}

pub proof fn lemma_chunk_of_parse_chunk(b: Seq<u8>)
    requires
        parse_chunk(b) is Some,
    ensures
        parse_chunk(b) matches Some((c, rest)) ==> {
            &&& c.len() < FIELD_LIMIT
            &&& b == chunk(c) + rest
        },
{
    let (c, rest) = parse_chunk(b).unwrap();
    lemma_le32_of_from_le32(b.subrange(0, 4));
    assert(b =~= chunk(c) + rest);
}

/// Whether every field of a sequence of fields fits its length prefix.
pub open spec fn hops_ok(hops: Seq<Seq<u8>>) -> bool {
    forall|i: int| 0 <= i < hops.len() ==> #[trigger] hops[i].len() < FIELD_LIMIT
}

/// The concatenation of the length-prefixed fields of `hops`.
pub open spec fn ser_hops(hops: Seq<Seq<u8>>) -> Seq<u8>
    decreases hops.len(),
{
    if hops.len() == 0 {
        Seq::empty()
    } else {
        chunk(hops[0]) + ser_hops(hops.drop_first())
    }
}

/// Reads `count` length-prefixed fields off the front of `b`.
pub open spec fn parse_hops(b: Seq<u8>, count: nat) -> Option<(Seq<Seq<u8>>, Seq<u8>)>
    decreases count,
{
    if count == 0 {
        Some((Seq::empty(), b))
    } else {
        match parse_chunk(b) {
            Some((c, rest)) => match parse_hops(rest, (count - 1) as nat) {
                Some((cs, rest2)) => Some((seq![c] + cs, rest2)),
                None => None,
            },
            None => None,
        }
    }
}

pub proof fn lemma_parse_hops_of_ser(hops: Seq<Seq<u8>>, rest: Seq<u8>)
    requires
        hops_ok(hops),
    ensures
        parse_hops(ser_hops(hops) + rest, hops.len()) == Some((hops, rest)),
    decreases hops.len(),
{
    if hops.len() == 0 {
        assert(ser_hops(hops) + rest =~= rest);
        assert(hops =~= Seq::<Seq<u8>>::empty());
    } else {
        let tail = hops.drop_first();
        let b = ser_hops(hops) + rest;
        assert(b =~= chunk(hops[0]) + (ser_hops(tail) + rest));
        lemma_parse_chunk_of_chunk(hops[0], ser_hops(tail) + rest);
        lemma_parse_hops_of_ser(tail, rest);
        assert(seq![hops[0]] + tail =~= hops);
    }
}

pub proof fn lemma_ser_of_parse_hops(b: Seq<u8>, count: nat)
    requires
        parse_hops(b, count) is Some,
    ensures
        parse_hops(b, count) matches Some((cs, rest)) ==> {
            &&& cs.len() == count
            &&& hops_ok(cs)
            &&& b == ser_hops(cs) + rest
        },
    decreases count,
{
    let (cs, rest) = parse_hops(b, count).unwrap();
    if count == 0 {
        assert(b =~= ser_hops(cs) + rest);
    } else {
        let (c, r1) = parse_chunk(b).unwrap();
        lemma_chunk_of_parse_chunk(b);
        lemma_ser_of_parse_hops(r1, (count - 1) as nat);
        let (cs1, _rest1) = parse_hops(r1, (count - 1) as nat).unwrap();
        assert(cs == seq![c] + cs1);
        assert(cs.drop_first() =~= cs1);
        assert(cs[0] == c);
        assert(b =~= chunk(c) + (ser_hops(cs1) + rest));
        assert(b =~= ser_hops(cs) + rest);
    }
}

/// The serialization of a whole transmitted package: the first-hop key, the
/// count and bytes of the remaining route entries, and the payload
/// ciphertext.
pub open spec fn ser_lcp(first: Seq<u8>, hops: Seq<Seq<u8>>, payload: Seq<u8>) -> Seq<u8>
    recommends
        lcp_serializable(first, hops, payload),
{
    chunk(first) + le32(hops.len()) + ser_hops(hops) + chunk(payload)
}

/// The size limits the four-byte length prefixes impose on a package.
pub open spec fn lcp_serializable(first: Seq<u8>, hops: Seq<Seq<u8>>, payload: Seq<u8>) -> bool {
    &&& first.len() < FIELD_LIMIT
    &&& hops.len() < FIELD_LIMIT
    &&& hops_ok(hops)
    &&& payload.len() < FIELD_LIMIT
}

/// Parses a whole transmitted package.  Succeeds exactly on byte strings
/// that `ser_lcp` produces, and consumes every byte.
pub open spec fn parse_lcp(b: Seq<u8>) -> Option<(Seq<u8>, Seq<Seq<u8>>, Seq<u8>)> {
    match parse_chunk(b) {
        Some((first, r1)) => if r1.len() < 4 {
            None
        } else {
            let cnt = from_le32(r1.subrange(0, 4));
            match parse_hops(r1.subrange(4, r1.len() as int), cnt) {
                Some((hops, r2)) => match parse_chunk(r2) {
                    Some((payload, r3)) => if r3.len() == 0 {
                        Some((first, hops, payload))
                    } else {
                        None
                    },
                    None => None,
                },
                None => None,
            }
        },
        None => None,
    }
}

pub proof fn lemma_parse_lcp_of_ser(first: Seq<u8>, hops: Seq<Seq<u8>>, payload: Seq<u8>)
    requires
        lcp_serializable(first, hops, payload),
    ensures
        parse_lcp(ser_lcp(first, hops, payload)) == Some((first, hops, payload)),
{
    let b = ser_lcp(first, hops, payload);
    let tail1 = le32(hops.len()) + ser_hops(hops) + chunk(payload);
    assert(b =~= chunk(first) + tail1);
    lemma_parse_chunk_of_chunk(first, tail1);
    assert(tail1.len() >= 4);
    assert(tail1.subrange(0, 4) =~= le32(hops.len()));
    lemma_from_le32_of_le32(hops.len());
    let tail2 = tail1.subrange(4, tail1.len() as int);
    assert(tail2 =~= ser_hops(hops) + chunk(payload));
    lemma_parse_hops_of_ser(hops, chunk(payload));
    assert(chunk(payload) =~= chunk(payload) + Seq::<u8>::empty());
    lemma_parse_chunk_of_chunk(payload, Seq::<u8>::empty());
}

pub proof fn lemma_ser_of_parse_lcp(b: Seq<u8>)
    requires
        parse_lcp(b) is Some,
    ensures
        parse_lcp(b) matches Some((first, hops, payload)) ==> {
            &&& lcp_serializable(first, hops, payload)
            &&& b == ser_lcp(first, hops, payload)
        },
{
    let (first, r1) = parse_chunk(b).unwrap();
    lemma_chunk_of_parse_chunk(b);
    let cnt = from_le32(r1.subrange(0, 4));
    lemma_le32_of_from_le32(r1.subrange(0, 4));
    let t = r1.subrange(4, r1.len() as int);
    let (hops, r2) = parse_hops(t, cnt).unwrap();
    lemma_ser_of_parse_hops(t, cnt);
    let (payload, r3) = parse_chunk(r2).unwrap();
    lemma_chunk_of_parse_chunk(r2);
    assert(r2 =~= chunk(payload));
    assert(r1 =~= le32(cnt) + t);
    assert(b =~= chunk(first) + le32(hops.len()) + ser_hops(hops) + chunk(payload));
}

/// Appends the four little-endian bytes of `n`.
pub fn push_le32(dst: &mut Vec<u8>, n: u32)
    ensures
        final(dst)@ == old(dst)@ + le32(n as nat),
{
    let b0 = (n % 256) as u8;
    let r1 = n / 256;
    let b1 = (r1 % 256) as u8;
    let r2 = r1 / 256;
    let b2 = (r2 % 256) as u8;
    let b3 = ((r2 / 256) % 256) as u8;
    dst.push(b0);
    dst.push(b1);
    dst.push(b2);
    dst.push(b3);
    proof {
        assert(dst@ =~= old(dst)@ + le32(n as nat));
    }
}

/// Reads the four little-endian bytes at `pos`.
pub fn read_le32(b: &Vec<u8>, pos: usize) -> (r: u32)
    requires
        pos + 4 <= b@.len(),
    ensures
        r as nat == from_le32(b@.subrange(pos as int, pos + 4)),
{
    let n = b.len();
    let b0 = b[pos] as u32;
    let b1 = b[pos + 1] as u32;
    let b2 = b[pos + 2] as u32;
    let b3 = b[pos + 3] as u32;
    let r = b0 + 256 * b1 + 0x1_0000 * b2 + 0x100_0000 * b3;
    proof {
        let s = b@.subrange(pos as int, pos + 4);
        assert(s[0] == b@[pos as int]);
        assert(s[1] == b@[pos + 1]);
        assert(s[2] == b@[pos + 2]);
        assert(s[3] == b@[pos + 3]);
    }
    r
}


pub proof fn lemma_ser_hops_snoc(s: Seq<Seq<u8>>, x: Seq<u8>)
    ensures
        ser_hops(s.push(x)) == ser_hops(s) + chunk(x),
    decreases s.len(),
{
    if s.len() == 0 {
        reveal_with_fuel(ser_hops, 3);
        assert(s.push(x).drop_first() =~= Seq::<Seq<u8>>::empty());
        assert(s.push(x)[0] == x);
        assert(ser_hops(s.push(x)) == chunk(x) + ser_hops(Seq::<Seq<u8>>::empty()));
        assert(chunk(x) + Seq::<u8>::empty() =~= chunk(x));
        assert(ser_hops(s.push(x)) =~= chunk(x));
        assert(ser_hops(s) + chunk(x) =~= chunk(x));
    } else {
        assert(s.push(x).drop_first() =~= s.drop_first().push(x));
        lemma_ser_hops_snoc(s.drop_first(), x);
        assert(s.push(x)[0] == s[0]);
        assert(chunk(s[0]) + (ser_hops(s.drop_first()) + chunk(x)) =~= (chunk(s[0]) + ser_hops(
            s.drop_first(),
        )) + chunk(x));
    }
}

/// Appends one length-prefixed field.
pub fn push_chunk(dst: &mut Vec<u8>, bytes: &Vec<u8>)
    requires
        bytes@.len() < FIELD_LIMIT,
    ensures
        final(dst)@ == old(dst)@ + chunk(bytes@),
{
    push_le32(dst, bytes.len() as u32);
    crate::cryptde::append_bytes(dst, bytes);
}

/// Reads one length-prefixed field at `pos`, returning the field's bytes
/// and the position just past it.
pub fn read_chunk(b: &Vec<u8>, pos: usize) -> (r: Option<(Vec<u8>, usize)>)
    requires
        pos <= b@.len(),
    ensures
        ({
            let tail = b@.subrange(pos as int, b@.len() as int);
            match r {
                Some(cn) => {
                    &&& pos <= cn.1 <= b@.len()
                    &&& parse_chunk(tail) == Some(
                        (cn.0@, b@.subrange(cn.1 as int, b@.len() as int)),
                    )
                },
                None => parse_chunk(tail) is None,
            }
        }),
{
    let ghost tail = b@.subrange(pos as int, b@.len() as int);
    let n = b.len();
    if n - pos < 4 {
        return None;
    }
    let len32 = read_le32(b, pos);
    let len = len32 as usize;
    proof {
        assert(tail.subrange(0, 4) =~= b@.subrange(pos as int, pos + 4));
    }
    if n - pos - 4 < len {
        return None;
    }
    let mut c: Vec<u8> = Vec::new();
    let mut i: usize = pos + 4;
    let end = pos + 4 + len;
    while i < end
        invariant
            pos + 4 <= i <= end,
            end <= n,
            n == b@.len(),
            c@ == b@.subrange(pos + 4, i as int),
        decreases end - i,
    {
        c.push(b[i]);
        i = i + 1;
        proof {
            assert(c@ =~= b@.subrange(pos + 4, i as int));
        }
    }
    proof {
        assert(tail.subrange(4, len + 4 as int) =~= b@.subrange(pos + 4, end as int));
        assert(tail.subrange(len + 4 as int, tail.len() as int) =~= b@.subrange(
            end as int,
            b@.len() as int,
        ));
    }
    Some((c, end))
}


pub proof fn lemma_parse_chunk_truncated(b: Seq<u8>)
    requires
        parse_chunk(b) is Some,
    ensures
        ({
            let (c, rest) = parse_chunk(b).unwrap();
            if rest.len() == 0 {
                parse_chunk(b.drop_last()) is None
            } else {
                parse_chunk(b.drop_last()) == Some((c, rest.drop_last()))
            }
        }),
{
    let (c, rest) = parse_chunk(b).unwrap();
    let n = from_le32(b.subrange(0, 4)) as int;
    let b2 = b.drop_last();
    if rest.len() == 0 {
        assert(b.len() == n + 4);
        if n == 0 {
            assert(b2.len() < 4);
        } else {
            assert(b.len() >= 5);
            assert(b2.subrange(0, 4) =~= b.subrange(0, 4));
            assert(b2.len() < n + 4);
        }
    } else {
        assert(b.len() >= n + 5);
        assert(b2.subrange(0, 4) =~= b.subrange(0, 4));
        assert(b2.len() >= n + 4);
        assert(b2.subrange(4, n + 4) =~= c);
        assert(b2.subrange(n + 4, b2.len() as int) =~= rest.drop_last());
    }
}

pub proof fn lemma_parse_hops_truncated(b: Seq<u8>, count: nat)
    requires
        parse_hops(b, count) is Some,
        b.len() >= 1,
    ensures
        ({
            let (cs, rest) = parse_hops(b, count).unwrap();
            if rest.len() == 0 {
                parse_hops(b.drop_last(), count) is None
            } else {
                parse_hops(b.drop_last(), count) == Some((cs, rest.drop_last()))
            }
        }),
    decreases count,
{
    let (cs, rest) = parse_hops(b, count).unwrap();
    if count == 0 {
        assert(rest == b);
        assert(rest.len() >= 1);
        assert(parse_hops(b.drop_last(), 0) == Some((Seq::<Seq<u8>>::empty(), b.drop_last())));
        assert(cs =~= Seq::<Seq<u8>>::empty());
    } else {
        let (c, r1) = parse_chunk(b).unwrap();
        let (cs1, rest1) = parse_hops(r1, (count - 1) as nat).unwrap();
        assert(rest1 == rest);
        lemma_parse_chunk_truncated(b);
        lemma_ser_of_parse_hops(r1, (count - 1) as nat);
        assert(r1 == ser_hops(cs1) + rest);
        assert(r1.len() >= rest.len());
        if rest.len() == 0 {
            if r1.len() == 0 {
                assert(parse_chunk(b.drop_last()) is None);
            } else {
                assert(parse_chunk(b.drop_last()) == Some((c, r1.drop_last())));
                lemma_parse_hops_truncated(r1, (count - 1) as nat);
                assert(parse_hops(r1.drop_last(), (count - 1) as nat) is None);
            }
        } else {
            assert(r1.len() >= 1);
            assert(parse_chunk(b.drop_last()) == Some((c, r1.drop_last())));
            lemma_parse_hops_truncated(r1, (count - 1) as nat);
            assert(parse_hops(r1.drop_last(), (count - 1) as nat) == Some(
                (cs1, rest.drop_last()),
            ));
        }
    }
}

/// No byte string accepted by the package parser stays accepted when its
/// last byte is cut off: the grammar leaves nothing optional at the end.
pub proof fn lemma_parse_lcp_truncated(b: Seq<u8>)
    requires
        parse_lcp(b) is Some,
    ensures
        parse_lcp(b.drop_last()) is None,
{
    let (first, r1) = parse_chunk(b).unwrap();
    let cnt = from_le32(r1.subrange(0, 4));
    let t = r1.subrange(4, r1.len() as int);
    let (hops, r2) = parse_hops(t, cnt).unwrap();
    let (payload, r3) = parse_chunk(r2).unwrap();
    assert(r3.len() == 0);
    assert(r2.len() >= 4);
    lemma_ser_of_parse_hops(t, cnt);
    assert(t == ser_hops(hops) + r2);
    assert(t.len() >= r2.len());
    assert(r1.len() >= 8);
    lemma_parse_chunk_truncated(b);
    assert(parse_chunk(b.drop_last()) == Some((first, r1.drop_last())));
    let r1p = r1.drop_last();
    assert(r1p.len() >= 4);
    assert(r1p.subrange(0, 4) =~= r1.subrange(0, 4));
    assert(r1p.subrange(4, r1p.len() as int) =~= t.drop_last());
    lemma_parse_hops_truncated(t, cnt);
    assert(parse_hops(t.drop_last(), cnt) == Some((hops, r2.drop_last())));
    lemma_parse_chunk_truncated(r2);
    assert(parse_chunk(r2.drop_last()) is None);
}

} // verus!
