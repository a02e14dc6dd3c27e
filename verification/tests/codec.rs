//! Round trips and edge cases of the packet codecs.

use ilp_stream::addr::Address;
use ilp_stream::ilp::{parse_packet, serialize_packet, ErrorCode, Fulfill, Packet, Prepare, Reject};
use ilp_stream::stream_packet::{
    parse_stream_packet, serialize_stream_packet, Frame, IlpPacketType, StreamPacket,
};

fn addr(s: &str) -> Address {
    Address::try_from(s.as_bytes().to_vec()).unwrap()
}

fn sample_stream_packet() -> StreamPacket {
    StreamPacket {
        ilp_packet_type: IlpPacketType::Prepare,
        prepare_amount: 2228,
        sequence: 1,
        frames: vec![
            Frame::StreamMoney { stream_id: 1, shares: 1 },
            Frame::ConnectionNewAddress { source_account: b"example.sender".to_vec() },
            Frame::ConnectionAssetDetails {
                source_asset_code: b"EUR".to_vec(),
                source_asset_scale: 4,
            },
            Frame::ConnectionClose { code: 1, message: b"done".to_vec() },
        ],
    }
}

#[test]
fn stream_packet_roundtrip() {
    let packet = sample_stream_packet();
    let bytes = serialize_stream_packet(&packet);
    assert_eq!(bytes[0], 1, "version byte");
    let back = parse_stream_packet(&bytes).expect("well-formed bytes parse");
    assert_eq!(back, packet);
}

#[test]
fn stream_packet_large_values_roundtrip() {
    let packet = StreamPacket {
        ilp_packet_type: IlpPacketType::Fulfill,
        prepare_amount: u64::MAX,
        sequence: u64::MAX - 1,
        frames: vec![Frame::StreamMoney { stream_id: u64::MAX, shares: 0 }],
    };
    let bytes = serialize_stream_packet(&packet);
    let back = parse_stream_packet(&bytes).expect("parses");
    assert_eq!(back, packet);
}

#[test]
fn stream_packet_unknown_frame_is_ignored() {
    // version 1, type Prepare (12), sequence 7, amount 0, two frames:
    // one unknown (type 0x60, 2 content bytes), one StreamMoney.
    let bytes: Vec<u8> = vec![
        1, 12, // version, type
        1, 7, // sequence = 7
        1, 0, // prepare_amount = 0
        1, 2, // frame count = 2
        0x60, 2, 0xAA, 0xBB, // unknown frame, skipped
        17, 4, 1, 1, 1, 1, // StreamMoney{1, 1}
    ];
    let packet = parse_stream_packet(&bytes).expect("parses");
    assert_eq!(packet.sequence, 7);
    assert_eq!(packet.frames, vec![Frame::StreamMoney { stream_id: 1, shares: 1 }]);
}

#[test]
fn stream_packet_truncated_fails() {
    let packet = sample_stream_packet();
    let mut bytes = serialize_stream_packet(&packet);
    bytes.pop();
    assert!(parse_stream_packet(&bytes).is_none());
    assert!(parse_stream_packet(&vec![]).is_none());
    assert!(parse_stream_packet(&vec![2, 12, 1, 1, 1, 0, 1, 0]).is_none(), "wrong version");
}

#[test]
fn ilp_prepare_roundtrip() {
    let prepare = Prepare {
        destination: addr("example.receiver"),
        amount: 123456789,
        expires_at: b"20260101000000000".to_vec(),
        execution_condition: vec![7u8; 32],
        data: vec![1, 2, 3, 4, 5],
    };
    let bytes = serialize_packet(&Packet::Prepare(prepare.clone()));
    assert_eq!(bytes[0], 12);
    let back = parse_packet(&bytes).expect("parses");
    assert_eq!(back, Packet::Prepare(prepare));
}

#[test]
fn ilp_fulfill_roundtrip() {
    let fulfill = Fulfill { fulfillment: vec![9u8; 32], data: vec![] };
    let bytes = serialize_packet(&Packet::Fulfill(fulfill.clone()));
    assert_eq!(bytes[0], 13);
    let back = parse_packet(&bytes).expect("parses");
    assert_eq!(back, Packet::Fulfill(fulfill));
}

#[test]
fn ilp_reject_roundtrip() {
    let reject = Reject {
        code: ErrorCode::new(b'F', b'0', b'0'),
        triggered_by: Some(addr("example.connector")),
        message: b"no thanks".to_vec(),
        data: vec![0xDE, 0xAD],
    };
    let bytes = serialize_packet(&Packet::Reject(reject.clone()));
    assert_eq!(bytes[0], 14);
    let back = parse_packet(&bytes).expect("parses");
    assert_eq!(back, Packet::Reject(reject));

    let anonymous = Reject {
        code: ErrorCode::internal_error(),
        triggered_by: None,
        message: vec![],
        data: vec![],
    };
    let bytes = serialize_packet(&Packet::Reject(anonymous.clone()));
    let back = parse_packet(&bytes).expect("parses");
    assert_eq!(back, Packet::Reject(anonymous));
}

#[test]
fn ilp_packet_truncated_fails() {
    let fulfill = Fulfill { fulfillment: vec![9u8; 32], data: vec![1] };
    let mut bytes = serialize_packet(&Packet::Fulfill(fulfill));
    bytes.pop();
    assert!(parse_packet(&bytes).is_none());
    assert!(parse_packet(&vec![]).is_none());
}

#[test]
fn address_validation() {
    assert!(Address::try_from(b"example.receiver".to_vec()).is_ok());
    assert!(Address::try_from(b"g".to_vec()).is_ok());
    assert!(Address::try_from(b"".to_vec()).is_err());
    assert!(Address::try_from(b".starts.with.dot".to_vec()).is_err());
    assert!(Address::try_from(b"ends.with.dot.".to_vec()).is_err());
    assert!(Address::try_from(b"has space".to_vec()).is_err());
    assert!(Address::try_from(vec![b'a'; 1024]).is_err());
}

#[test]
fn address_schemes() {
    let g = addr("g.alice");
    let g2 = addr("g.bob.sub");
    let test = addr("test.bob");
    assert!(g.same_scheme(&g2));
    assert!(!g.same_scheme(&test));
    let single = addr("private");
    let longer = addr("private.x");
    assert!(single.same_scheme(&longer));
}
