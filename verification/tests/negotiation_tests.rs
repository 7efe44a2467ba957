//! Tests of the protocol-negotiation wire format.

use node_core::negotiation::{decode_frame, encode_frame, negotiate_inbound, rejection_token};

#[test]
fn frame_round_trip() {
    let protocol = vec![0x2f, 0x74, 0x78, 0x2f, 0x31];
    let frame = encode_frame(&protocol);
    assert_eq!(frame.len(), protocol.len() + 2);
    assert_eq!(frame[0], protocol.len() as u8);
    assert_eq!(*frame.last().unwrap(), 0);
    let (decoded, next) = decode_frame(&frame, 0).unwrap();
    assert_eq!(decoded, protocol);
    assert_eq!(next, frame.len());
}

#[test]
fn malformed_frames_are_refused() {
    // Too short for its declared length.
    assert!(decode_frame(&vec![5, 1, 2, 0], 0).is_none());
    // Missing terminator.
    assert!(decode_frame(&vec![2, 1, 2, 9], 0).is_none());
    // Offset out of bounds.
    assert!(decode_frame(&vec![0, 0], 7).is_none());
}

#[test]
fn two_frames_in_sequence() {
    let mut wire = encode_frame(&vec![1, 2]);
    let mut second = encode_frame(&vec![3]);
    wire.append(&mut second);
    let (first, next) = decode_frame(&wire, 0).unwrap();
    assert_eq!(first, vec![1, 2]);
    let (rest, end) = decode_frame(&wire, next).unwrap();
    assert_eq!(rest, vec![3]);
    assert_eq!(end, wire.len());
}

#[test]
fn inbound_negotiation_selects_supported_protocols_only() {
    let supported = vec![vec![10, 11], vec![20, 21]];
    let selected = negotiate_inbound(&supported, &vec![20, 21]);
    assert_eq!(selected, Some(vec![20, 21]));
    assert_eq!(negotiate_inbound(&supported, &vec![30]), None);
    // A refused offer is answered with the rejection token: the empty
    // frame.
    let token = rejection_token();
    assert_eq!(token, vec![0, 0]);
    let (empty, _) = decode_frame(&token, 0).unwrap();
    assert!(empty.is_empty());
}
