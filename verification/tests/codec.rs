use hordegrid::net::codec::{decode, frame_body, DecodeError, MAX_PACKET, PROTO_VER};

#[test]
fn when_wrong_version_then_rejected() {
    assert_eq!(decode(&[9, 0, 0]).err(), Some(DecodeError::Version(9)));
    assert_eq!(decode(&[]).err(), Some(DecodeError::Size(0)));
}

#[test]
fn oversized_datagram_is_rejected_by_size() {
    let big = vec![PROTO_VER; MAX_PACKET + 1];
    assert_eq!(decode(&big).err(), Some(DecodeError::Size(MAX_PACKET + 1)));
}

#[test]
fn unreadable_body_is_malformed() {
    assert_eq!(decode(&[PROTO_VER]).err(), Some(DecodeError::Malformed));
}

#[test]
fn framing_prefixes_the_version_and_caps_the_size() {
    let body = [7u8, 8, 9];
    assert_eq!(frame_body(&body), Some(vec![PROTO_VER, 7, 8, 9]));
    let just_fits = vec![0u8; MAX_PACKET - 1];
    assert_eq!(frame_body(&just_fits).map(|v| v.len()), Some(MAX_PACKET));
    let too_big = vec![0u8; MAX_PACKET];
    assert_eq!(frame_body(&too_big), None);
}

#[test]
fn a_valid_message_decodes_and_encodes_back() {
    // header magic 5, body variant 0 (sync request) with random data 7
    let datagram = [PROTO_VER, 5, 0, 7];
    let msg = decode(&datagram).expect("a sync request decodes");
    assert_eq!(hordegrid::net::codec::encode(&msg), Some(datagram.to_vec()));
    // keep-alive (variant 7) has no payload
    let keep_alive = decode(&[PROTO_VER, 9, 7]).expect("a keep-alive decodes");
    assert_eq!(hordegrid::net::codec::encode(&keep_alive), Some(vec![PROTO_VER, 9, 7]));
    // an unknown variant does not
    assert_eq!(decode(&[PROTO_VER, 9, 42]).err(), Some(DecodeError::Malformed));
}

#[test]
fn encoding_is_the_version_byte_then_postcards_bytes() {
    let msg = decode(&[PROTO_VER, 5, 0, 7]).expect("a sync request decodes");
    let body = postcard::to_allocvec(&msg).expect("postcard serializes a session message");
    let mut want = vec![PROTO_VER];
    want.extend_from_slice(&body);
    assert_eq!(hordegrid::net::codec::encode(&msg), Some(want));
    // decoding hands back the message postcard reads from the body
    let again: ggrs::Message = postcard::from_bytes(&body).expect("the body reads back");
    assert_eq!(
        postcard::to_allocvec(&decode(&[PROTO_VER, 5, 0, 7]).unwrap()).unwrap(),
        postcard::to_allocvec(&again).unwrap()
    );
}
