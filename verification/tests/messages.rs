use bytes::BytesMut;
use rust_network_system::network::assembly::{poll_message, supply_read, ReadOutcome};
use rust_network_system::network::container::{container_of, ValueData};
use rust_network_system::time::Duration;
use rust_network_system::{Message, NetworkError, MAX_MESSAGE_SIZE};
use serde_json::Value;

fn read_double(text: &str) -> Result<u64, String> {
    match text.parse::<f64>() {
        Ok(x) => Ok(x.to_bits()),
        Err(e) => Err(e.to_string()),
    }
}

fn wire(message: &Message) -> BytesMut {
    message.encode().unwrap()
}

#[test]
fn test_message_creation() {
    let msg = Message::new("Hello");
    assert_eq!(msg.size(), 5);
    assert!(!msg.is_empty());
}

#[test]
fn test_message_encode_decode() {
    let original = Message::new("Test message");
    let encoded = original.encode().unwrap();

    let mut buf = BytesMut::from(&encoded[..]);
    let decoded = Message::decode(&mut buf).unwrap().unwrap();

    assert_eq!(original.data(), decoded.data());
}

#[test]
fn test_message_too_large() {
    let large_data = vec![0u8; MAX_MESSAGE_SIZE + 1];
    let msg = Message::new(large_data);
    assert!(msg.encode().is_err());
}

#[test]
fn message_test_json_serialization() {
    let mut fields = serde_json::Map::new();
    fields.insert("id".to_string(), Value::from(42u32));
    fields.insert("name".to_string(), Value::from("test"));
    let data = Value::Object(fields);

    let msg = Message::from_json(serde_json::to_vec(&data).map_err(|e| e.to_string())).unwrap();
    let parsed = serde_json::from_slice::<Value>(msg.as_slice()).map_err(|e| e.to_string());
    let decoded = msg.to_json(parsed).unwrap();

    assert_eq!(data, decoded);
}

#[test]
fn integration_test_test_json_serialization() {
    let values: Vec<Value> = vec![1, 2, 3, 4, 5].into_iter().map(Value::from).collect();
    let mut fields = serde_json::Map::new();
    fields.insert("id".to_string(), Value::from(42u32));
    fields.insert("name".to_string(), Value::from("test"));
    fields.insert("values".to_string(), Value::Array(values));
    let data = Value::Object(fields);

    let serialized = serde_json::to_vec(&data).map_err(|e| e.to_string());
    let message = Message::from_json(serialized).expect("Failed to serialize");
    let parsed = serde_json::from_slice::<Value>(message.as_slice()).map_err(|e| e.to_string());
    let decoded = message.to_json(parsed).expect("Failed to deserialize");

    assert_eq!(data, decoded);
}

#[test]
fn json_failures_are_serialization_errors() {
    let refused = Message::from_json(Err("no".to_string())).unwrap_err();
    assert_eq!(refused.to_string(), "Serialization error: JSON serialization failed: no");

    let msg = Message::new("x");
    let parsed: Result<u32, String> = Err("bad".to_string());
    let refused = msg.to_json(parsed).unwrap_err();
    assert_eq!(refused.to_string(), "Serialization error: JSON deserialization failed: bad");
}

#[test]
fn test_partial_decode() {
    let msg = Message::new("Test");
    let encoded = msg.encode().unwrap();

    let mut partial = BytesMut::from(&encoded[..2]);
    let result = Message::decode(&mut partial).unwrap();
    assert!(result.is_none());
}

#[test]
fn frame_is_length_and_payload() {
    let msg = Message::new(vec![7u8; 258]);
    let encoded = wire(&msg);
    assert_eq!(&encoded[..4], &[0, 0, 1, 2]);
    assert_eq!(encoded.len(), 262);
    assert!(encoded[4..].iter().all(|b| *b == 7));
}

#[test]
fn test_message_encode_decode_roundtrip() {
    for n in [0usize, 1, 3, 4, 255, 256, 1023] {
        let data: Vec<u8> = (0..n).map(|i| (i * 31 % 256) as u8).collect();
        let original = Message::new(data.clone());
        let encoded = original.encode().unwrap();
        let mut buf = BytesMut::from(&encoded[..]);
        let decoded = Message::decode(&mut buf).unwrap().unwrap();
        assert_eq!(original.data().as_ref(), decoded.data().as_ref());
        assert_eq!(original.size(), decoded.size());
    }
}

#[test]
fn test_string_message_roundtrip() {
    for text in ["", "plain", "größer", "日本語"] {
        let original = Message::from(text.to_string());
        let encoded = original.encode().unwrap();
        let mut buf = BytesMut::from(&encoded[..]);
        let decoded = Message::decode(&mut buf).unwrap().unwrap();
        assert_eq!(original.data(), decoded.data());
        assert_eq!(text.as_bytes(), decoded.data().as_ref());
    }
}

#[test]
fn test_empty_message_roundtrip() {
    let original = Message::new("");
    assert!(original.is_empty());
    let encoded = original.encode().unwrap();
    let mut buf = BytesMut::from(&encoded[..]);
    let decoded = Message::decode(&mut buf).unwrap().unwrap();
    assert!(decoded.is_empty());
    assert_eq!(decoded.size(), 0);
}

#[test]
fn test_message_within_limit() {
    let msg = Message::new(vec![0u8; MAX_MESSAGE_SIZE]);
    assert!(msg.encode().is_ok());
}

#[test]
fn test_message_too_large_rejected() {
    let size = MAX_MESSAGE_SIZE + 17;
    let msg = Message::new(vec![0u8; size]);
    match msg.encode() {
        Err(NetworkError::MessageTooLarge(len, max)) => {
            assert_eq!(len, size);
            assert_eq!(max, MAX_MESSAGE_SIZE);
        }
        other => panic!("Expected MessageTooLarge error, got {:?}", other),
    }
}

#[test]
fn test_decode_rejects_oversized_length() {
    let size = MAX_MESSAGE_SIZE as u32 + 1;
    let mut buf = BytesMut::new();
    buf.extend_from_slice(&size.to_be_bytes());
    buf.extend_from_slice(&[0u8; 100]);
    let result = Message::decode(&mut buf);
    assert!(matches!(result, Err(NetworkError::MessageTooLarge(16_777_217, 16_777_216))));
    assert_eq!(buf.len(), 104);
}

#[test]
fn test_partial_header_decode() {
    let encoded = wire(&Message::new("Test message"));
    for available in 0..4 {
        let mut partial = BytesMut::from(&encoded[..available]);
        assert!(Message::decode(&mut partial).unwrap().is_none());
    }
}

#[test]
fn test_partial_body_decode() {
    let encoded = wire(&Message::new(vec![1u8; 40]));
    for available in 4..encoded.len() {
        let mut partial = BytesMut::from(&encoded[..available]);
        assert!(Message::decode(&mut partial).unwrap().is_none());
        assert_eq!(partial.len(), available);
    }
}

#[test]
fn test_multiple_message_decode() {
    let first = vec![1u8; 20];
    let second = vec![2u8; 30];
    let mut buf = BytesMut::new();
    buf.extend_from_slice(&wire(&Message::new(first.clone())));
    buf.extend_from_slice(&wire(&Message::new(second.clone())));

    let decoded = Message::decode(&mut buf).unwrap().unwrap();
    assert_eq!(decoded.data().as_ref(), &first[..]);
    let decoded = Message::decode(&mut buf).unwrap().unwrap();
    assert_eq!(decoded.data().as_ref(), &second[..]);
    assert_eq!(buf.len(), 0);
}

#[test]
fn test_message_size_accuracy() {
    let data = vec![9u8; 777];
    let msg = Message::new(data.clone());
    assert_eq!(msg.size(), data.len());
    assert_eq!(msg.data().len(), data.len());
}

#[test]
fn test_message_display() {
    assert_eq!(Message::new(vec![0u8; 0]).to_string(), "Message[0 bytes]");
    assert_eq!(Message::new(vec![0u8; 1234]).to_string(), "Message[1234 bytes]");
}

#[test]
fn test_message_clone() {
    let original = Message::new(vec![3u8; 55]);
    let cloned = original.clone();
    assert_eq!(original.size(), cloned.size());
    assert_eq!(original.data(), cloned.data());
    assert_eq!(original.is_empty(), cloned.is_empty());
}

#[test]
fn test_message_from_conversions_no_panic() {
    assert_eq!(Message::from("abc").as_slice(), b"abc");
    assert_eq!(Message::from("abc".to_string()).as_slice(), b"abc");
    assert_eq!(Message::from(b"abc".to_vec()).as_slice(), b"abc");
}

#[test]
fn pieces_of_a_frame_make_the_message() {
    let message = Message::new("cut into pieces");
    let mut encoded = wire(&message);
    encoded.extend_from_slice(b"rest");
    for size in [1usize, 2, 3, 5, 100] {
        let mut buf = BytesMut::new();
        let mut found = None;
        for piece in encoded.chunks(size) {
            let elapsed = Duration::from_millis(1);
            match poll_message(&mut buf, elapsed, Duration::from_secs(1)).unwrap() {
                Some(m) => found = Some(m),
                None => supply_read(&mut buf, ReadOutcome::Data(piece.to_vec())).unwrap(),
            }
            if found.is_some() {
                break;
            }
        }
        if found.is_none() {
            found = poll_message(&mut buf, Duration::from_millis(1), Duration::from_secs(1)).unwrap();
        }
        assert_eq!(found.unwrap().as_slice(), b"cut into pieces");
    }
}

#[test]
fn assembly_has_a_deadline() {
    let mut buf = wire(&Message::new("late"));
    let refused = poll_message(&mut buf, Duration::from_secs(3), Duration::from_secs(3));
    assert_eq!(
        refused.unwrap_err().to_string(),
        "Operation timed out: Message assembly timeout: took too long to receive complete message"
    );
    assert_eq!(buf.len(), 8);
}

#[test]
fn read_outcomes_are_told() {
    let mut buf = BytesMut::new();
    let closed = supply_read(&mut buf, ReadOutcome::Data(Vec::new())).unwrap_err();
    assert_eq!(closed.to_string(), "Connection error: Connection closed by peer");
    let late = supply_read(&mut buf, ReadOutcome::TimedOut).unwrap_err();
    assert_eq!(late.to_string(), "Operation timed out: Read timed out");
    let failed = supply_read(&mut buf, ReadOutcome::Failed("reset".to_string())).unwrap_err();
    assert_eq!(failed.to_string(), "Connection error: Failed to read: reset");
    assert_eq!(buf.len(), 0);
}

#[test]
fn test_container_integration() {
    let text = r#"{
        "source_id": "client1", "source_sub_id": "session1",
        "target_id": "server1", "target_sub_id": "main",
        "message_type": "user_data",
        "values": [
            {"name": "user_id", "type": "4", "value": "12345"},
            {"name": "username", "type": "13", "value": "john_doe"},
            {"name": "active", "type": "1", "value": "true"}
        ]
    }"#;
    let msg = Message::from_container(Ok(text.as_bytes().to_vec())).unwrap();
    assert!(!msg.is_empty());

    let decoded = msg.to_container(read_double).unwrap();
    assert_eq!(decoded.source.unwrap(), ("client1".to_string(), "session1".to_string()));
    assert_eq!(decoded.target.unwrap(), ("server1".to_string(), "main".to_string()));
    assert_eq!(decoded.message_type.unwrap(), "user_data");
    assert_eq!(decoded.values.len(), 3);
    assert_eq!(decoded.values[0].name, "user_id");
    assert!(matches!(decoded.values[0].data, ValueData::Int(12345)));
    assert_eq!(decoded.values[1].name, "username");
    assert!(matches!(&decoded.values[1].data, ValueData::Text(s) if s == "john_doe"));
    assert_eq!(decoded.values[2].name, "active");
    assert!(matches!(decoded.values[2].data, ValueData::Bool(true)));
}

#[test]
fn test_container_round_trip() {
    let text = r#"{"message_type": "test_message", "values": [
        {"name": "timestamp", "type": "6", "value": "1234567890"},
        {"name": "temperature", "type": "11", "value": "23.5"}
    ]}"#;
    let msg = Message::from_container(Ok(text.as_bytes().to_vec())).unwrap();
    let encoded = msg.encode().unwrap();

    let mut buf = BytesMut::from(&encoded[..]);
    let decoded_msg = Message::decode(&mut buf).unwrap().unwrap();
    let decoded = decoded_msg.to_container(read_double).unwrap();

    assert_eq!(decoded.message_type.unwrap(), "test_message");
    assert_eq!(decoded.values.len(), 2);
    assert!(matches!(decoded.values[0].data, ValueData::Long(1234567890)));
    match decoded.values[1].data {
        ValueData::Double(bits) => assert_eq!(f64::from_bits(bits), 23.5),
        _ => panic!("not a double"),
    }
}

fn refusal(text: &str) -> String {
    Message::new(text).to_container(read_double).unwrap_err().to_string()
}

#[test]
fn container_errors_are_told() {
    let broken = Message::new(vec![0xffu8, 0xfe]).to_container(read_double).unwrap_err();
    assert!(broken
        .to_string()
        .starts_with("Serialization error: Invalid UTF-8 in container data: invalid utf-8"));
    assert!(refusal("{").starts_with("Serialization error: Failed to parse container JSON: EOF"));
    assert_eq!(
        refusal(r#"{"values": [{"name": "a", "type": "1", "value": "yes"}]}"#),
        "Serialization error: Invalid bool value: provided string was not `true` or `false`"
    );
    assert_eq!(
        refusal(r#"{"values": [{"name": "a", "type": "4", "value": "2147483648"}]}"#),
        "Serialization error: Invalid int value: number too large to fit in target type"
    );
    assert_eq!(
        refusal(r#"{"values": [{"name": "a", "type": "8", "value": "x"}]}"#),
        "Serialization error: Invalid long value: invalid digit found in string"
    );
    assert_eq!(
        refusal(r#"{"values": [{"name": "a", "type": "11", "value": "x"}]}"#),
        "Serialization error: Invalid double value: invalid float literal"
    );
    assert_eq!(
        refusal(r#"{"values": [{"name": "a", "type": "99", "value": "x"}]}"#),
        "Serialization error: Unsupported value type: 99"
    );
    let failed = Message::from_container(Err("disk".to_string())).unwrap_err();
    assert_eq!(failed.to_string(), "Serialization error: Container serialization failed: disk");
}

#[test]
fn container_reads_what_is_there() {
    let document: Value = serde_json::from_str(
        r#"{"source_id": "only one", "values": [
            {"name": "no type", "value": "1"},
            {"name": "n", "type": "4", "value": "-2147483648"},
            {"name": "p", "type": "4", "value": "+7"},
            {"name": "raw", "type": "12", "value": "äb"}
        ]}"#,
    )
    .unwrap();
    let container = container_of(&document, read_double).unwrap();
    assert!(container.source.is_none());
    assert!(container.target.is_none());
    assert!(container.message_type.is_none());
    assert_eq!(container.values.len(), 3);
    assert!(matches!(container.values[0].data, ValueData::Int(-2147483648)));
    assert!(matches!(container.values[1].data, ValueData::Int(7)));
    assert!(matches!(&container.values[2].data, ValueData::Bytes(b) if b == "äb".as_bytes()));

    let empty = container_of(&Value::Null, read_double).unwrap();
    assert_eq!(empty.values.len(), 0);
}

#[test]
fn test_error_creation() {
    let err = NetworkError::connection("test");
    assert_eq!(err.to_string(), "Connection error: test");

    let err = NetworkError::timeout("operation");
    assert_eq!(err.to_string(), "Operation timed out: operation");

    let err = NetworkError::MessageTooLarge(1000, 512);
    assert_eq!(err.to_string(), "Message too large: 1000 bytes (max: 512 bytes)");
}

#[test]
fn every_error_is_told() {
    assert_eq!(NetworkError::Io("x".to_string()).to_string(), "I/O error: x");
    assert_eq!(NetworkError::serialization("x").to_string(), "Serialization error: x");
    assert_eq!(NetworkError::invalid_state("x").to_string(), "Invalid state: x");
    assert_eq!(NetworkError::invalid_address("x").to_string(), "Invalid address: x");
    assert_eq!(NetworkError::channel("x").to_string(), "Channel error: x");
    assert_eq!(NetworkError::tls("x".to_string()).to_string(), "TLS error: x");
    assert_eq!(NetworkError::other("x").to_string(), "Network error: x");
}

#[test]
fn payloads_of_many_types() {
    let lasting: &'static [u8] = b"abc";
    assert_eq!(&Message::new(lasting).data()[..], b"abc");
    let boxed: Box<[u8]> = vec![1, 2, 3].into_boxed_slice();
    assert_eq!(&Message::new(boxed).data()[..], [1, 2, 3]);
    let mut growing = bytes::BytesMut::new();
    growing.extend_from_slice(b"tail");
    assert_eq!(&Message::new(growing).data()[..], b"tail");
    assert_eq!(&Message::new(vec![7u8]).data()[..], [7]);
    assert_eq!(&Message::new("e\u{e9}").data()[..], [0x65, 0xc3, 0xa9]);
}
