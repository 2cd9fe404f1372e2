use store_migrate::errors::HubError;
use store_migrate::keys::{
    MessageActionKey, MessagePrimaryKey, UserKeyHeader, ACTION_KEY_LEN, HASH_LENGTH,
    PRIMARY_KEY_LEN, TS_HASH_LENGTH, USER_KEY_HEADER_LEN, USER_ROOT_TAG,
};

fn sample_hash() -> Vec<u8> {
    (0u8..HASH_LENGTH as u8).map(|b| b.wrapping_mul(7).wrapping_add(3)).collect()
}

fn sample_ts_hash(ts: [u8; 4]) -> Vec<u8> {
    let mut v = ts.to_vec();
    v.extend_from_slice(&sample_hash());
    v
}

#[test]
fn header_encodes_big_endian() {
    let h = UserKeyHeader::new(0x01020304, 5);
    let bytes = h.as_slice();
    assert_eq!(bytes, vec![USER_ROOT_TAG, 0x01, 0x02, 0x03, 0x04, 5]);
    assert_eq!(bytes.len(), USER_KEY_HEADER_LEN);
}

#[test]
fn header_round_trip() {
    for fid in [0u32, 1, 0xff, 0x1_0000, 0xdead_beef, u32::MAX] {
        for msg_type in msg_type_iter() {
            let h = UserKeyHeader::new(fid, msg_type);
            let decoded = UserKeyHeader::from_slice(&h.as_slice()).expect("header decodes");
            assert_eq!(decoded.root, USER_ROOT_TAG);
            assert_eq!(decoded.fid, fid);
            assert_eq!(decoded.msg_type, msg_type);
        }
    }
}

fn msg_type_iter() -> impl Iterator<Item = u8> {
    [0u8, 1, 7, 255].into_iter()
}

#[test]
fn header_decode_rejects_short_buffers() {
    for len in 0..USER_KEY_HEADER_LEN {
        let buf = vec![0u8; len];
        assert!(UserKeyHeader::from_slice(&buf).is_none());
    }
    assert!(UserKeyHeader::from_slice(&vec![0u8; USER_KEY_HEADER_LEN]).is_some());
}

#[test]
fn action_key_round_trip() {
    let hash = sample_hash();
    let k = MessageActionKey::new(42, 3, &hash).expect("valid hash");
    let bytes = k.as_slice();
    assert_eq!(bytes.len(), ACTION_KEY_LEN);
    let decoded = MessageActionKey::from_slice(&bytes).expect("action key decodes");
    assert_eq!(decoded.user_header.root, USER_ROOT_TAG);
    assert_eq!(decoded.user_header.fid, 42);
    assert_eq!(decoded.user_header.msg_type, 3);
    assert_eq!(decoded.content_hash, hash);
}

#[test]
fn action_key_exact_bytes() {
    let hash = sample_hash();
    let k = MessageActionKey::new(0xdead_beef, 9, &hash).expect("valid hash");
    let mut expected = vec![USER_ROOT_TAG, 0xde, 0xad, 0xbe, 0xef, 9];
    expected.extend_from_slice(&hash);
    assert_eq!(k.as_slice(), expected);
}

#[test]
fn action_key_rejects_wrong_hash_length() {
    for len in [0usize, 1, 19, 21, 32] {
        let hash = vec![0u8; len];
        assert_eq!(MessageActionKey::new(1, 1, &hash).unwrap_err(), HubError::Validation);
    }
}

#[test]
fn action_key_decode_rejects_short_buffers() {
    for len in 0..ACTION_KEY_LEN {
        let buf = vec![0u8; len];
        assert!(MessageActionKey::from_slice(&buf).is_none());
    }
}

#[test]
fn primary_key_round_trip() {
    let ts_hash = sample_ts_hash([0x00, 0x01, 0xe2, 0x40]);
    let k = MessagePrimaryKey::new(7, 2, &ts_hash).expect("valid input");
    let bytes = k.as_slice();
    assert_eq!(bytes.len(), PRIMARY_KEY_LEN);
    let decoded = MessagePrimaryKey::from_slice(&bytes).expect("primary key decodes");
    assert_eq!(decoded.user_header.root, USER_ROOT_TAG);
    assert_eq!(decoded.user_header.fid, 7);
    assert_eq!(decoded.user_header.msg_type, 2);
    assert_eq!(decoded.timestamp, 0x0001_e240);
    assert_eq!(decoded.content_hash, sample_hash());
}

#[test]
fn primary_key_rejects_short_input() {
    for len in 0..TS_HASH_LENGTH {
        let buf = vec![0u8; len];
        assert_eq!(MessagePrimaryKey::new(1, 1, &buf).unwrap_err(), HubError::Validation);
    }
    assert!(MessagePrimaryKey::new(1, 1, &vec![0u8; TS_HASH_LENGTH]).is_ok());
}

#[test]
fn primary_key_decode_rejects_short_buffers() {
    for len in 0..PRIMARY_KEY_LEN {
        let buf = vec![0u8; len];
        assert!(MessagePrimaryKey::from_slice(&buf).is_none());
    }
}

#[test]
fn primary_key_timestamp_hash_suffix() {
    let ts_hash = sample_ts_hash([0x12, 0x34, 0x56, 0x78]);
    let k = MessagePrimaryKey::new(9, 4, &ts_hash).expect("valid input");
    assert_eq!(k.timestamp_hash(), ts_hash);
    assert_eq!(*k.user_header(), UserKeyHeader::new(9, 4));
}

#[test]
fn fid_order_is_byte_order() {
    let hash = sample_hash();
    let pairs = [(0u32, 1u32), (1, 2), (0xff, 0x100), (0x0102_0304, 0x0102_0305), (5, u32::MAX)];
    for (lo, hi) in pairs {
        let a = MessageActionKey::new(lo, 3, &hash).unwrap().as_slice();
        let b = MessageActionKey::new(hi, 3, &hash).unwrap().as_slice();
        assert!(a < b, "action keys for fid {lo} and {hi} out of order");
        let ts_hash = sample_ts_hash([0, 0, 0, 1]);
        let pa = MessagePrimaryKey::new(lo, 3, &ts_hash).unwrap().as_slice();
        let pb = MessagePrimaryKey::new(hi, 3, &ts_hash).unwrap().as_slice();
        assert!(pa < pb, "primary keys for fid {lo} and {hi} out of order");
    }
}

#[test]
fn timestamp_order_is_byte_order() {
    let a = MessagePrimaryKey::new(7, 2, &sample_ts_hash([0, 0, 0, 9])).unwrap().as_slice();
    let b = MessagePrimaryKey::new(7, 2, &sample_ts_hash([0, 0, 1, 0])).unwrap().as_slice();
    let c = MessagePrimaryKey::new(7, 2, &sample_ts_hash([0xff, 0, 0, 0])).unwrap().as_slice();
    assert!(a < b);
    assert!(b < c);
}

#[test]
fn decode_reports_insufficient_data() {
    assert_eq!(UserKeyHeader::decode(&[1, 2, 3]).unwrap_err(), HubError::Decode);
    assert_eq!(
        MessageActionKey::decode(&vec![0u8; ACTION_KEY_LEN - 1]).unwrap_err(),
        HubError::Decode
    );
    assert_eq!(
        MessagePrimaryKey::decode(&vec![0u8; PRIMARY_KEY_LEN - 1]).unwrap_err(),
        HubError::Decode
    );
    let k = MessageActionKey::new(77, 8, &sample_hash()).unwrap();
    let decoded = MessageActionKey::decode(&k.as_slice()).unwrap();
    assert_eq!(decoded.user_header.fid, 77);
    assert_eq!(decoded.content_hash, sample_hash());
}

#[test]
fn error_codes_are_stable() {
    assert_eq!(HubError::Validation.code(), "bad_request.validation_failure");
    assert_eq!(HubError::Decode.code(), "bad_request.insufficient_data");
    assert_eq!(HubError::StoreIo.code(), "unavailable.storage_failure");
    assert_eq!(HubError::Pipeline.code(), "unavailable.pipeline_failure");
}
