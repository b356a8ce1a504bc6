use relayer::codec::{
    decode_address, decode_destination_request, is_dialable, decode_port, encode_destination_request,
    DestinationRequest, HandshakeError,
};
use relayer::handshake::{decode_greeting, method_reply, select_method, Handshake, Phase};

fn feed_all(hs: &mut Handshake, bytes: &[u8]) -> Vec<Vec<u8>> {
    let mut replies = Vec::new();
    for b in bytes {
        if let Some(r) = hs.feed(*b) {
            replies.push(r);
        }
    }
    replies
}

#[test]
fn scenario_no_auth_selected() {
    let mut hs = Handshake::new();
    assert_eq!(hs.needed(), 2);
    let replies = feed_all(&mut hs, &[0x05, 0x01, 0x00]);
    assert_eq!(replies, vec![vec![0x05, 0x00]]);
    assert!(matches!(hs.phase(), Phase::Requesting));
    assert_eq!(hs.needed(), 4);
}

#[test]
fn scenario_only_gssapi_rejected() {
    let mut hs = Handshake::new();
    let replies = feed_all(&mut hs, &[0x05, 0x01, 0x01]);
    assert_eq!(replies, vec![vec![0x05, 0xFF]]);
    assert!(matches!(hs.phase(), Phase::Failed(HandshakeError::NoAcceptableMethod)));
    assert_eq!(hs.needed(), 0);
}

#[test]
fn scenario_connect_ipv4() {
    let mut hs = Handshake::new();
    let replies = feed_all(&mut hs, &[0x05, 0x01, 0x00]);
    assert_eq!(replies, vec![vec![0x05, 0x00]]);
    let replies = feed_all(&mut hs, &[0x05, 0x01, 0x00, 0x01, 0x7F, 0x00, 0x00, 0x01, 0x00, 0x50]);
    assert!(replies.is_empty());
    match hs.phase() {
        Phase::Done(req) => {
            assert_eq!(req.command, 1);
            assert_eq!(req.address_type, 1);
            assert_eq!(req.address, vec![127, 0, 0, 1]);
            assert_eq!(req.port, 80);
        }
        _ => panic!("request not parsed"),
    }
}

#[test]
fn first_supported_method_in_offered_order() {
    assert_eq!(select_method(&[0x01, 0x02, 0x00]), Some(0x02));
    assert_eq!(select_method(&[0x80, 0x00, 0x02]), Some(0x00));
    assert_eq!(select_method(&[0x01, 0x03, 0xFE]), None);
    assert_eq!(select_method(&[]), None);
    assert_eq!(method_reply(&[0x01, 0x02]), vec![0x05, 0x02]);
    assert_eq!(method_reply(&[0x01]), vec![0x05, 0xFF]);
}

#[test]
fn greeting_errors() {
    assert_eq!(decode_greeting(&[0x04, 0x01, 0x00]), Err(HandshakeError::ProtocolVersionError));
    assert_eq!(decode_greeting(&[0x05, 0x00]), Err(HandshakeError::InvalidMethodCount));
    assert_eq!(decode_greeting(&[0x05, 0x02, 0x00]), Err(HandshakeError::IncompleteFrame));
    assert_eq!(decode_greeting(&[0x05]), Err(HandshakeError::IncompleteFrame));
    assert_eq!(decode_greeting(&[0x05, 0x02, 0x00, 0x02]), Ok(vec![0x00, 0x02]));
}

#[test]
fn engine_rejects_bad_version() {
    let mut hs = Handshake::new();
    let replies = feed_all(&mut hs, &[0x04, 0x01]);
    assert!(replies.is_empty());
    assert!(matches!(hs.phase(), Phase::Failed(HandshakeError::ProtocolVersionError)));
}

#[test]
fn engine_rejects_zero_methods() {
    let mut hs = Handshake::new();
    feed_all(&mut hs, &[0x05, 0x00]);
    assert!(matches!(hs.phase(), Phase::Failed(HandshakeError::InvalidMethodCount)));
}

#[test]
fn engine_rejects_unknown_address_type() {
    let mut hs = Handshake::new();
    feed_all(&mut hs, &[0x05, 0x01, 0x02]);
    feed_all(&mut hs, &[0x05, 0x01, 0x00, 0x02]);
    assert!(matches!(hs.phase(), Phase::Failed(HandshakeError::UnsupportedAddressType(0x02))));
}

#[test]
fn engine_needed_counts_domain() {
    let mut hs = Handshake::new();
    feed_all(&mut hs, &[0x05, 0x03]);
    assert_eq!(hs.needed(), 3);
    feed_all(&mut hs, &[0x01, 0x01, 0x00]);
    feed_all(&mut hs, &[0x05, 0x01, 0x00, 0x03]);
    assert_eq!(hs.needed(), 1);
    feed_all(&mut hs, &[0x03]);
    assert_eq!(hs.needed(), 5);
    feed_all(&mut hs, b"abc\x01\xbb");
    match hs.phase() {
        Phase::Done(req) => {
            assert_eq!(req.address, b"abc".to_vec());
            assert_eq!(req.port, 443);
        }
        _ => panic!("request not parsed"),
    }
}

#[test]
fn address_lengths() {
    let bytes: Vec<u8> = (1..=20).collect();
    assert_eq!(decode_address(0x01, &bytes), Ok((vec![1, 2, 3, 4], 4)));
    assert_eq!(decode_address(0x04, &bytes), Ok(((1..=16).collect(), 16)));
    assert_eq!(decode_address(0x03, &[3, b'a', b'b', b'c', 9]), Ok((b"abc".to_vec(), 4)));
    assert_eq!(decode_address(0x03, &[0, 9]), Ok((vec![], 1)));
    assert_eq!(decode_address(0x01, &[1, 2, 3]), Err(HandshakeError::IncompleteFrame));
    assert_eq!(decode_address(0x03, &[4, 1, 2]), Err(HandshakeError::IncompleteFrame));
    assert_eq!(decode_address(0x04, &[0; 15]), Err(HandshakeError::IncompleteFrame));
}

#[test]
fn unsupported_address_types() {
    for t in [0x00u8, 0x02, 0x05, 0xFF] {
        assert_eq!(decode_address(t, &[0; 32]), Err(HandshakeError::UnsupportedAddressType(t)));
    }
    assert_eq!(
        decode_destination_request(&[0x05, 0x01, 0x00, 0x07, 1, 2, 3, 4, 0, 80]).map(|(_, n)| n),
        Err(HandshakeError::UnsupportedAddressType(0x07))
    );
}

#[test]
fn port_is_big_endian() {
    assert_eq!(decode_port(&[0x00, 0x50]), Ok(80));
    assert_eq!(decode_port(&[0x1F, 0x90]), Ok(8080));
    assert_eq!(decode_port(&[0xFF, 0xFF]), Ok(65535));
    assert_eq!(decode_port(&[0x01]), Err(HandshakeError::IncompleteFrame));
}

fn round_trip(req: DestinationRequest) {
    let bytes = encode_destination_request(&req);
    let (back, n) = decode_destination_request(&bytes).unwrap();
    assert_eq!(n, bytes.len());
    assert_eq!(back.command, req.command);
    assert_eq!(back.address_type, req.address_type);
    assert_eq!(back.address, req.address);
    assert_eq!(back.port, req.port);
}

#[test]
fn request_round_trips() {
    round_trip(DestinationRequest { command: 1, address_type: 1, address: vec![10, 0, 0, 7], port: 443 });
    round_trip(DestinationRequest { command: 3, address_type: 4, address: (0..16).collect(), port: 0 });
    round_trip(DestinationRequest { command: 1, address_type: 3, address: b"example.org".to_vec(), port: 65535 });
    round_trip(DestinationRequest { command: 2, address_type: 3, address: vec![], port: 1 });
}

#[test]
fn encoding_is_exact() {
    let req = DestinationRequest { command: 1, address_type: 3, address: b"ab".to_vec(), port: 0x1234 };
    assert_eq!(encode_destination_request(&req), vec![5, 1, 0, 3, 2, b'a', b'b', 0x12, 0x34]);
}

#[test]
fn full_handshake_ipv6_picks_first_supported() {
    let mut hs = Handshake::new();
    let mut transcript = vec![0x05, 0x03, 0x01, 0x02, 0x00, 0x05, 0x01, 0x00, 0x04];
    transcript.extend(0u8..16);
    transcript.extend([0x01, 0xBB]);
    let replies = feed_all(&mut hs, &transcript);
    assert_eq!(replies, vec![vec![0x05, 0x02]]);
    match hs.phase() {
        Phase::Done(req) => {
            assert_eq!(req.address_type, 4);
            assert_eq!(req.address, (0u8..16).collect::<Vec<u8>>());
            assert_eq!(req.port, 443);
        }
        _ => panic!("request not parsed"),
    }
    assert_eq!(hs.needed(), 0);
}

#[test]
fn engine_stays_failed() {
    let mut hs = Handshake::new();
    feed_all(&mut hs, &[0x05, 0x01, 0x01]);
    let replies = feed_all(&mut hs, &[0x05, 0x01, 0x00, 0x01, 1, 2, 3, 4, 0, 80]);
    assert!(replies.is_empty());
    assert!(matches!(hs.phase(), Phase::Failed(HandshakeError::NoAcceptableMethod)));
}

#[test]
fn dialable_requests() {
    let ok4 = DestinationRequest { command: 1, address_type: 1, address: vec![127, 0, 0, 1], port: 80 };
    let empty = DestinationRequest { command: 1, address_type: 3, address: vec![], port: 80 };
    let host = DestinationRequest { command: 1, address_type: 3, address: b"a.b".to_vec(), port: 80 };
    let short6 = DestinationRequest { command: 1, address_type: 4, address: vec![0; 4], port: 80 };
    assert!(is_dialable(&ok4));
    assert!(!is_dialable(&empty));
    assert!(is_dialable(&host));
    assert!(!is_dialable(&short6));
}
