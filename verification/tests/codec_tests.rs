use ipa_core::codec::{decode_envelope, decode_u32, encode_envelope, encode_u32};
use ipa_core::error::Error;

#[test]
fn envelope_round_trips() {
    for id in [0u128, 1, 0xdead_beef, u128::MAX] {
        let payload = vec![1u8, 2, 3, 4, 5];
        let wire = encode_envelope(id, &payload);
        assert_eq!(wire.len(), 16 + payload.len());
        let (got_id, got_payload) = decode_envelope(&wire).unwrap();
        assert_eq!(got_id, id);
        assert_eq!(got_payload, payload);
    }
}

#[test]
fn envelope_round_trips_empty_payload() {
    let wire = encode_envelope(77, &Vec::new());
    assert_eq!(wire.len(), 16);
    let (id, payload) = decode_envelope(&wire).unwrap();
    assert_eq!(id, 77);
    assert!(payload.is_empty());
}

#[test]
fn short_frame_is_a_decode_error() {
    assert_eq!(decode_envelope(&vec![1, 2, 3]), Err(Error::Receive));
    assert_eq!(decode_envelope(&Vec::new()), Err(Error::Receive));
    let fifteen = vec![0u8; 15];
    assert_eq!(decode_envelope(&fifteen), Err(Error::Receive));
}

#[test]
fn number_payload_round_trips() {
    for x in [0u32, 1, 256, 65_535, u32::MAX] {
        let bytes = encode_u32(x);
        assert_eq!(bytes.len(), 4);
        assert_eq!(decode_u32(&bytes).unwrap(), x);
    }
}

#[test]
fn number_payload_wrong_length_is_a_decode_error() {
    assert_eq!(decode_u32(&vec![1, 2, 3]), Err(Error::Receive));
    assert_eq!(decode_u32(&vec![1, 2, 3, 4, 5]), Err(Error::Receive));
}

#[test]
fn encoding_is_little_endian_bytes() {
    let bytes = encode_u32(0x0102_0304);
    assert_eq!(bytes, vec![0x04, 0x03, 0x02, 0x01]);
    let wire = encode_envelope(0x01, &Vec::new());
    assert_eq!(wire[0], 1);
    assert!(wire[1..16].iter().all(|b| *b == 0));
}
