use eventwork_sync::codec::{
    decode_frame, encode_frame, EventworkBincodeCodec, EventworkBincodeSingleMsgCodec, NetworkError, NetworkPacket,
};
use eventwork_sync::reflection::{AnyNetworkMessage, NetworkMessage, PreviousMessage, ReflectedEntityData, TargetedMessage};

#[test]
fn test_multi_message_codec() {
    let packet = NetworkPacket {
        kind: "TestMessage".to_string(),
        schema_hash: 0x1234567890abcdef,
        data: vec![1, 2, 3, 4, 5],
    };

    let enc = EventworkBincodeCodec::encode(&packet).unwrap();
    assert!(enc.len() > 8);

    let length_bytes: [u8; 8] = enc[..8].try_into().unwrap();
    let length = u64::from_le_bytes(length_bytes);
    assert_eq!(length as usize, enc.len() - 8);

    let dec: NetworkPacket = EventworkBincodeCodec::decode(&enc).unwrap();
    assert_eq!(dec.kind, packet.kind);
    assert_eq!(dec.schema_hash, packet.schema_hash);
    assert_eq!(dec.data, packet.data);
}

#[test]
fn test_single_message_codec() {
    let msg = (String::from("party time \u{1F389}"), 42i32);
    let data = bincode::serialize(&msg).unwrap();

    let enc = EventworkBincodeSingleMsgCodec::encode("TestMessage".to_string(), 0, data).unwrap();
    assert!(enc.len() > 8);

    let length_bytes: [u8; 8] = enc[..8].try_into().unwrap();
    let length = u64::from_le_bytes(length_bytes);
    assert_eq!(length as usize, enc.len() - 8);

    let dec_bytes = EventworkBincodeSingleMsgCodec::decode(&enc).unwrap();
    let dec: (String, i32) = bincode::deserialize(&dec_bytes).unwrap();
    assert_eq!(dec, msg);
}

#[test]
fn test_codec_roundtrip() {
    let msg = ("Hello, WebSocket! \u{1F680}".to_string(), 42i32);
    let data = bincode::serialize(&msg).unwrap();
    let encoded = EventworkBincodeSingleMsgCodec::encode("TestMessage".to_string(), 7, data).unwrap();
    let decoded: (String, i32) = bincode::deserialize(&EventworkBincodeSingleMsgCodec::decode(&encoded).unwrap()).unwrap();
    assert_eq!(decoded, msg);
}

#[test]
fn packet_encoding_is_the_field_tuple() {
    let packet = NetworkPacket { kind: "K".to_string(), schema_hash: 9, data: vec![7, 8] };
    let enc = EventworkBincodeCodec::encode(&packet).unwrap();
    let expected = bincode::serialize(&("K".to_string(), 9u64, vec![7u8, 8u8])).unwrap();
    assert_eq!(&enc[8..], &expected[..]);
    assert_ne!(&enc[8..], &packet.data[..]);
}

#[test]
fn frame_round_trip() {
    let payload = vec![9u8, 8, 7];
    let frame = encode_frame(&payload);
    assert_eq!(frame, vec![3, 0, 0, 0, 0, 0, 0, 0, 9, 8, 7]);
    assert_eq!(decode_frame(&frame), Ok(payload));
}

#[test]
fn empty_payload_frame() {
    let frame = encode_frame(&[]);
    assert_eq!(frame, vec![0u8; 8]);
    assert_eq!(decode_frame(&frame), Ok(vec![]));
}

#[test]
fn truncated_frame_is_malformed() {
    assert_eq!(decode_frame(&[1, 0, 0]), Err(NetworkError::Malformed));
    assert_eq!(decode_frame(&[5, 0, 0, 0, 0, 0, 0, 0, 1, 2]), Err(NetworkError::Malformed));
    assert_eq!(decode_frame(&[1, 0, 0, 0, 0, 0, 0, 0, 1, 2]), Err(NetworkError::Malformed));
}

#[test]
fn undecodable_packet_is_malformed() {
    let frame = encode_frame(&[1, 2, 3]);
    assert_eq!(EventworkBincodeCodec::decode(&frame).unwrap_err(), NetworkError::Malformed);
    assert_eq!(EventworkBincodeSingleMsgCodec::decode(&[0u8; 4]).unwrap_err(), NetworkError::Malformed);
}

struct ExplicitMsg;

impl NetworkMessage for ExplicitMsg {
    fn name() -> &'static str {
        "test:ExplicitMsg"
    }
}

struct ExplicitMessage;

impl NetworkMessage for ExplicitMessage {
    fn name() -> &'static str {
        "explicit:Message"
    }
}

#[test]
fn test_network_message_kind() {
    assert_eq!(ExplicitMsg::message_kind(), "test:ExplicitMsg");
}

#[test]
fn test_any_network_message_with_explicit() {
    let kind = ExplicitMessage::message_kind();
    assert_eq!(kind, "explicit:Message");
}

#[test]
fn targeted_and_previous_names() {
    assert_eq!(TargetedMessage::<ExplicitMsg>::name(), "Targeted(test:ExplicitMsg)");
    assert_eq!(PreviousMessage::<ExplicitMsg>::name(), "PreviousMessage(test:ExplicitMsg)");
    assert_eq!(TargetedMessage::<ReflectedEntityData>::name(), "Targeted(eventwork::ReflectedEntityData)");
    assert!(!PreviousMessage::<ExplicitMsg>::new().marker);
}

#[test]
fn packet_frame_exact_bytes() {
    let packet = NetworkPacket { kind: "K".to_string(), schema_hash: 9, data: vec![7, 8] };
    let enc = EventworkBincodeCodec::encode(&packet).unwrap();
    let mut expected: Vec<u8> = vec![27, 0, 0, 0, 0, 0, 0, 0];
    expected.extend_from_slice(&[1, 0, 0, 0, 0, 0, 0, 0, b'K']);
    expected.extend_from_slice(&[9, 0, 0, 0, 0, 0, 0, 0]);
    expected.extend_from_slice(&[2, 0, 0, 0, 0, 0, 0, 0, 7, 8]);
    assert_eq!(enc, expected);
}
