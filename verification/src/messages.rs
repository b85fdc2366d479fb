//! The application payload variants local components understand, and their
//! byte form inside a package's innermost layer.  The routing layer treats
//! them as opaque beyond this (de)serialization.

use vstd::prelude::*;

verus! {

/// A closed union of the application payloads that ride inside packages.
#[derive(Clone, Debug, PartialEq, Eq)]
pub enum MessageType {
    DnsResolveFailed,
    ClientRequest(Vec<u8>),
    ClientResponse(Vec<u8>),
}

/// The mathematical shape of a payload: the same variants over byte
/// sequences.
pub enum MessageTypeView {
    DnsResolveFailed,
    ClientRequest(Seq<u8>),
    ClientResponse(Seq<u8>),
}

impl View for MessageType {
    type V = MessageTypeView;

    open spec fn view(&self) -> MessageTypeView {
        match self {
            MessageType::DnsResolveFailed => MessageTypeView::DnsResolveFailed,
            MessageType::ClientRequest(d) => MessageTypeView::ClientRequest(d@),
            MessageType::ClientResponse(d) => MessageTypeView::ClientResponse(d@),
        }
    }
}

/// The byte form of a payload: a tag byte, then the variant's bytes.
pub open spec fn ser_msg(m: MessageTypeView) -> Seq<u8> {
    match m {
        MessageTypeView::DnsResolveFailed => seq![0u8],
        MessageTypeView::ClientRequest(d) => seq![1u8] + d,
        MessageTypeView::ClientResponse(d) => seq![2u8] + d,
    }
}

/// Reads a payload back from its byte form; consumes every byte.
pub open spec fn parse_msg(b: Seq<u8>) -> Option<MessageTypeView> {
    if b.len() < 1 {
        None
    } else if b[0] == 0 {
        if b.len() == 1 {
            Some(MessageTypeView::DnsResolveFailed)
        } else {
            None
        }
    } else if b[0] == 1 {
        Some(MessageTypeView::ClientRequest(b.drop_first()))
    } else if b[0] == 2 {
        Some(MessageTypeView::ClientResponse(b.drop_first()))
    } else {
        None
    }
}

pub proof fn lemma_parse_msg_of_ser(m: MessageTypeView)
    ensures
        parse_msg(ser_msg(m)) == Some(m),
{
    match m {
        MessageTypeView::DnsResolveFailed => {},
        MessageTypeView::ClientRequest(d) => {
            assert((seq![1u8] + d).drop_first() =~= d);
        },
        MessageTypeView::ClientResponse(d) => {
            assert((seq![2u8] + d).drop_first() =~= d);
        },
    }
}

pub proof fn lemma_ser_of_parse_msg(b: Seq<u8>)
    requires
        parse_msg(b) is Some,
    ensures
        parse_msg(b) matches Some(m) ==> ser_msg(m) == b,
{
    let m = parse_msg(b).unwrap();
    match m {
        MessageTypeView::DnsResolveFailed => {
            assert(seq![0u8] =~= b);
        },
        MessageTypeView::ClientRequest(d) => {
            assert(seq![1u8] + b.drop_first() =~= b);
        },
        MessageTypeView::ClientResponse(d) => {
            assert(seq![2u8] + b.drop_first() =~= b);
        },
    }
}

/// Copies the bytes of `v` from `start` to the end.
pub fn bytes_from(v: &Vec<u8>, start: usize) -> (r: Vec<u8>)
    requires
        start <= v@.len(),
    ensures
        r@ == v@.subrange(start as int, v@.len() as int),
{
    let mut out: Vec<u8> = Vec::new();
    let mut i: usize = start;
    while i < v.len()
        invariant
            start <= i <= v.len(),
            out@ == v@.subrange(start as int, i as int),
        decreases v.len() - i,
    {
        out.push(v[i]);
        i = i + 1;
        proof {
            assert(out@ =~= v@.subrange(start as int, i as int));
        }
    }
    out
}

/// Writes a payload in its byte form.
pub fn serialize_message(m: &MessageType) -> (r: Vec<u8>)
    ensures
        r@ == ser_msg(m@),
{
    match m {
        MessageType::DnsResolveFailed => {
            let out: Vec<u8> = vec![0u8];
            proof {
                assert(out@ =~= ser_msg(m@));
            }
            out
        },
        MessageType::ClientRequest(d) => {
            let mut out: Vec<u8> = vec![1u8];
            crate::cryptde::append_bytes(&mut out, d);
            proof {
                assert(out@ =~= ser_msg(m@));
            }
            out
        },
        MessageType::ClientResponse(d) => {
            let mut out: Vec<u8> = vec![2u8];
            crate::cryptde::append_bytes(&mut out, d);
            proof {
                assert(out@ =~= ser_msg(m@));
            }
            out
        },
    }
}

/// Reads a payload back from its byte form; rejects exactly the byte
/// strings no payload serializes to.
pub fn parse_message(b: &Vec<u8>) -> (r: Option<MessageType>)
    ensures
        r is Some <==> parse_msg(b@) is Some,
        r matches Some(m) ==> parse_msg(b@) == Some(m@),
{
    if b.len() < 1 {
        return None;
    }
    let tag = b[0];
    if tag == 0 {
        if b.len() == 1 {
            Some(MessageType::DnsResolveFailed)
        } else {
            None
        }
    } else if tag == 1 {
        let rest = bytes_from(b, 1);
        proof {
            assert(b@.subrange(1, b@.len() as int) =~= b@.drop_first());
        }
        Some(MessageType::ClientRequest(rest))
    } else if tag == 2 {
        let rest = bytes_from(b, 1);
        proof {
            assert(b@.subrange(1, b@.len() as int) =~= b@.drop_first());
        }
        Some(MessageType::ClientResponse(rest))
    } else {
        None
    }
}

} // verus!
