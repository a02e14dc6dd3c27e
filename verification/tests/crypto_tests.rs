//! The encryption round trip and the condition/fulfillment relation,
//! exercised with the real cryptography.

use ilp_stream::crypto::{
    decrypt_stream_packet, encrypt_stream_packet, fulfillment_matches, generate_condition,
    generate_fulfillment, random_condition,
};
use ilp_stream::stream_packet::{Frame, IlpPacketType, StreamPacket};

fn secret() -> Vec<u8> {
    vec![0u8; 32]
}

fn sample_packet() -> StreamPacket {
    StreamPacket {
        ilp_packet_type: IlpPacketType::Prepare,
        prepare_amount: 42,
        sequence: 3,
        frames: vec![
            Frame::StreamMoney { stream_id: 1, shares: 1 },
            Frame::ConnectionNewAddress { source_account: b"example.sender".to_vec() },
        ],
    }
}

#[test]
fn encrypt_decrypt_roundtrip() {
    let packet = sample_packet();
    let data = encrypt_stream_packet(&secret(), &packet);
    let back = decrypt_stream_packet(&secret(), &data).expect("same secret decrypts");
    assert_eq!(back, packet);
}

#[test]
fn wrong_secret_fails() {
    let packet = sample_packet();
    let data = encrypt_stream_packet(&secret(), &packet);
    let wrong = vec![1u8; 32];
    assert!(decrypt_stream_packet(&wrong, &data).is_none());
}

#[test]
fn tampered_payload_fails() {
    let packet = sample_packet();
    let mut data = encrypt_stream_packet(&secret(), &packet);
    let last = data.len() - 1;
    data[last] ^= 0x01;
    assert!(decrypt_stream_packet(&secret(), &data).is_none());
    let mut truncated = encrypt_stream_packet(&secret(), &packet);
    truncated.truncate(20);
    assert!(decrypt_stream_packet(&secret(), &truncated).is_none());
}

#[test]
fn nonces_differ_between_encryptions() {
    let packet = sample_packet();
    let a = encrypt_stream_packet(&secret(), &packet);
    let b = encrypt_stream_packet(&secret(), &packet);
    assert_ne!(a, b, "fresh nonce each time");
    assert_eq!(a.len(), b.len());
}

#[test]
fn condition_is_hash_of_fulfillment() {
    let data = b"some prepare data".to_vec();
    let condition = generate_condition(&secret(), &data);
    let fulfillment = generate_fulfillment(&secret(), &data);
    assert_eq!(condition.len(), 32);
    assert_eq!(fulfillment.len(), 32);
    assert!(fulfillment_matches(&fulfillment, &condition));

    let other = generate_fulfillment(&vec![2u8; 32], &data);
    assert!(!fulfillment_matches(&other, &condition));
}

#[test]
fn condition_depends_on_data() {
    let c1 = generate_condition(&secret(), &b"a".to_vec());
    let c2 = generate_condition(&secret(), &b"b".to_vec());
    assert_ne!(c1, c2);
}

#[test]
fn random_condition_is_32_bytes() {
    let a = random_condition();
    let b = random_condition();
    assert_eq!(a.len(), 32);
    assert_eq!(b.len(), 32);
    assert_ne!(a, b, "two fresh conditions almost surely differ");
}
