use edge_hive::codec::{decode_message, encode_message, DecodeError, WIRE_VERSION};
use edge_hive::message::P2PMessage;

fn sample_message() -> P2PMessage {
    P2PMessage {
        content: "hello peers".to_string(),
        sender: "12D3KooWExample".to_string(),
        timestamp: "2024-05-01T12:00:00+00:00".to_string(),
    }
}

#[test]
fn roundtrip_preserves_all_three_fields() {
    let original = sample_message();
    let frame = encode_message(&original);
    let decoded = decode_message(&frame).expect("a freshly encoded frame must decode");
    assert_eq!(decoded.content, original.content);
    assert_eq!(decoded.sender, original.sender);
    assert_eq!(decoded.timestamp, original.timestamp);
}

#[test]
fn roundtrip_preserves_empty_and_non_ascii_fields() {
    let original = P2PMessage {
        content: String::new(),
        sender: "ü–漢字-🦀".to_string(),
        timestamp: "1970-01-01T00:00:00+00:00".to_string(),
    };
    let frame = encode_message(&original);
    let decoded = decode_message(&frame).expect("frame must decode");
    assert_eq!(decoded.content, original.content);
    assert_eq!(decoded.sender, original.sender);
    assert_eq!(decoded.timestamp, original.timestamp);
}

#[test]
fn frame_starts_with_version_byte() {
    let frame = encode_message(&sample_message());
    assert_eq!(frame[0], WIRE_VERSION);
}

#[test]
fn encoding_is_not_the_plain_text() {
    let original = sample_message();
    let frame = encode_message(&original);
    // One version byte, three 8-byte counts, four bytes per character.
    let chars =
        original.content.chars().count()
        + original.sender.chars().count()
        + original.timestamp.chars().count();
    assert_eq!(frame.len(), 1 + 3 * 8 + 4 * chars);
    assert_ne!(frame, original.content.clone().into_bytes());
}

#[test]
fn unknown_future_version_is_rejected_not_misparsed() {
    let mut frame = encode_message(&sample_message());
    frame[0] = WIRE_VERSION + 1;
    assert!(matches!(decode_message(&frame), Err(DecodeError::UnsupportedVersion)));
}

#[test]
fn empty_frame_is_malformed() {
    assert!(matches!(decode_message(&Vec::new()), Err(DecodeError::Malformed)));
}

#[test]
fn truncated_frame_is_malformed() {
    let mut frame = encode_message(&sample_message());
    frame.truncate(frame.len() - 1);
    assert!(matches!(decode_message(&frame), Err(DecodeError::Malformed)));
}

#[test]
fn trailing_bytes_are_malformed() {
    let mut frame = encode_message(&sample_message());
    frame.push(0);
    assert!(matches!(decode_message(&frame), Err(DecodeError::Malformed)));
}

#[test]
fn invalid_scalar_value_is_malformed() {
    let mut frame = encode_message(&P2PMessage {
        content: "a".to_string(),
        sender: String::new(),
        timestamp: String::new(),
    });
    // The first character's little-endian scalar sits after the version
    // byte and the first 8-byte count; overwrite it with a surrogate.
    frame[9] = 0x00;
    frame[10] = 0xD8;
    frame[11] = 0x00;
    frame[12] = 0x00;
    assert!(matches!(decode_message(&frame), Err(DecodeError::Malformed)));
}
