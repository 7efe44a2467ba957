//! The protocol-negotiation wire format used on fresh substreams.
//!
//! A party offers protocols as frames on the wire: one length byte, the
//! protocol identifier's bytes, and a terminating zero. The answering side
//! replies with the frame of the protocol it selected, or with the
//! rejection token — an empty frame. Encoding and decoding invert one
//! another, and the inbound selection accepts exactly the offers the
//! supported list holds.

use vstd::prelude::*;

verus! {

/// The longest protocol identifier a frame can carry.
pub const MAX_PROTOCOL_LEN: usize = 255;

/// The bytes of one negotiation frame: length, identifier, zero terminator.
pub open spec fn frame_of(protocol: Seq<u8>) -> Seq<u8> {
    seq![protocol.len() as u8] + protocol + seq![0u8]
}

/// Whether the buffer holds a well-formed frame at the offset: a length
/// byte, that many identifier bytes, and a zero terminator, all in bounds.
pub open spec fn frame_at(buf: Seq<u8>, offset: int) -> bool {
    &&& 0 <= offset
    &&& offset + 2 + buf[offset] <= buf.len()
    &&& buf[offset + 1 + buf[offset]] == 0u8
}

/// The protocol identifier of the frame at the offset.
pub open spec fn frame_protocol(buf: Seq<u8>, offset: int) -> Seq<u8> {
    buf.subrange(offset + 1, offset + 1 + buf[offset])
}

/// Encodes one protocol identifier as a frame.
pub fn encode_frame(protocol: &Vec<u8>) -> (r: Vec<u8>)
    requires
        protocol@.len() <= MAX_PROTOCOL_LEN,
    ensures
        r@ =~= frame_of(protocol@),
        r@.len() == protocol@.len() + 2,
{
    let mut r: Vec<u8> = Vec::new();
    r.push(protocol.len() as u8);
    let mut i: usize = 0;
    while i < protocol.len()
        invariant
            0 <= i <= protocol@.len(),
            protocol@.len() <= MAX_PROTOCOL_LEN,
            r@ =~= seq![protocol@.len() as u8] + protocol@.take(i as int),
        decreases protocol@.len() - i,
    {
        r.push(protocol[i]);
        assert(r@ =~= seq![protocol@.len() as u8] + protocol@.take(i + 1));
        i += 1;
    }
    assert(protocol@.take(protocol@.len() as int) =~= protocol@);
    r.push(0u8);
    assert(r@ =~= frame_of(protocol@));
    r
}

/// The rejection token: an empty frame.
pub fn rejection_token() -> (r: Vec<u8>)
    ensures
        r@ =~= frame_of(Seq::<u8>::empty()),
        is_rejection(r@),
{
    let mut r: Vec<u8> = Vec::new();
    r.push(0u8);
    r.push(0u8);
    assert(r@ =~= frame_of(Seq::<u8>::empty()));
    r
}

/// Whether a reply is the rejection token.
pub open spec fn is_rejection(reply: Seq<u8>) -> bool {
    reply =~= frame_of(Seq::<u8>::empty())
}

/// Decodes the frame at the offset, answering the protocol identifier and
/// the offset just past the frame; `None` when no well-formed frame starts
/// there.
pub fn decode_frame(buf: &Vec<u8>, offset: usize) -> (r: Option<(Vec<u8>, usize)>)
    ensures
        match r {
            Some(pair) => frame_at(buf@, offset as int) && pair.0@ =~= frame_protocol(
                buf@,
                offset as int,
            ) && pair.1 == offset + 2 + buf@[offset as int],
            None => !frame_at(buf@, offset as int),
        },
{
    if offset >= buf.len() {
        return None;
    }
    let len = buf[offset] as usize;
    if buf.len() - offset < 2 || buf.len() - offset - 2 < len {
        return None;
    }
    if buf[offset + 1 + len] != 0 {
        return None;
    }
    let n = buf.len();
    let mut protocol: Vec<u8> = Vec::new();
    let mut i: usize = 0;
    while i < len
        invariant
            0 <= i <= len,
            offset + 2 + len <= n,
            n == buf@.len(),
            len == buf@[offset as int],
            protocol@ =~= buf@.subrange(offset + 1, offset + 1 + i),
        decreases len - i,
    {
        protocol.push(buf[offset + 1 + i]);
        assert(protocol@ =~= buf@.subrange(offset + 1, offset + 1 + i + 1));
        i += 1;
    }
    Some((protocol, offset + 2 + len))
}

/// Decoding inverts encoding: the frame of a protocol parses back to that
/// protocol, exactly filling the buffer.
pub proof fn lemma_frame_round_trip(protocol: Seq<u8>)
    requires
        protocol.len() <= MAX_PROTOCOL_LEN,
    ensures
        frame_at(frame_of(protocol), 0),
        frame_protocol(frame_of(protocol), 0) =~= protocol,
        frame_of(protocol).len() == protocol.len() + 2,
{
    let buf = frame_of(protocol);
    assert(buf[0] == protocol.len() as u8);
    assert(buf[1 + protocol.len() as int] == 0u8);
    assert forall|k: int| 0 <= k < protocol.len() implies buf.subrange(
        1,
        1 + protocol.len() as int,
    )[k] == protocol[k] by {
        assert(buf[1 + k] == protocol[k]);
    }
}

/// Whether the supported list holds the offered protocol.
pub open spec fn supports(supported: Seq<Vec<u8>>, offered: Seq<u8>) -> bool {
    exists|i: int| 0 <= i < supported.len() && supported[i]@ =~= offered
}

/// Answers an inbound offer: the offered protocol when it is supported,
/// `None` — to be answered with the rejection token — otherwise.
pub fn negotiate_inbound(supported: &Vec<Vec<u8>>, offered: &Vec<u8>) -> (r: Option<Vec<u8>>)
    ensures
        match r {
            Some(selected) => supports(supported@, offered@) && selected@ =~= offered@,
            None => !supports(supported@, offered@),
        },
{
    let mut i: usize = 0;
    while i < supported.len()
        invariant
            0 <= i <= supported@.len(),
            forall|j: int| 0 <= j < i ==> !(supported@[j]@ =~= offered@),
        decreases supported@.len() - i,
    {
        if bytes_equal(&supported[i], offered) {
            let mut selected: Vec<u8> = Vec::new();
            let mut k: usize = 0;
            while k < offered.len()
                invariant
                    0 <= k <= offered@.len(),
                    selected@ =~= offered@.take(k as int),
                decreases offered@.len() - k,
            {
                selected.push(offered[k]);
                assert(selected@ =~= offered@.take(k + 1));
                k += 1;
            }
            assert(offered@.take(offered@.len() as int) =~= offered@);
            return Some(selected);
        }
        i += 1;
    }
    proof {
        if supports(supported@, offered@) {
            let j = choose|j: int| 0 <= j < supported@.len() && supported@[j]@ =~= offered@;
            assert(!(supported@[j]@ =~= offered@));
        }
    }
    None
}

/// Compares two byte strings.
fn bytes_equal(a: &Vec<u8>, b: &Vec<u8>) -> (r: bool)
    ensures
        r == (a@ =~= b@),
{
    if a.len() != b.len() {
        return false;
    }
    let mut i: usize = 0;
    while i < a.len()
        invariant
            0 <= i <= a@.len(),
            a@.len() == b@.len(),
            forall|j: int| 0 <= j < i ==> a@[j] == b@[j],
        decreases a@.len() - i,
    {
        if a[i] != b[i] {
            return false;
        }
        i += 1;
    }
    true
}

} // verus!
