use sonnerie::assets::AssetHashMap;
use sonnerie::protocol::{
    decode_transfer, encode_transfer, is_legacy_ring, same_text, AssetError, FileTransfer, Payload,
    WsMessage,
};

#[test]
fn constructors_set_tags() {
    let m = WsMessage::ring_bell(Some("me".to_string()));
    assert_eq!(m.event, "ring_bell");
    assert_eq!(m.sender_id.as_deref(), Some("me"));
    assert!(m.data.is_none());
    let mut h = AssetHashMap::new();
    h.insert("a.mp3".to_string(), "h1".to_string());
    let s = WsMessage::sync_hashes(h);
    assert_eq!(s.event, "sync_hashes");
    assert!(matches!(s.data, Some(Payload::Sync(ref r)) if r.hashes.len() == 1));
    let f = WsMessage::file_transfer("a.mp3".to_string(), "AAEC".to_string());
    assert_eq!(f.event, "file_transfer");
    assert!(matches!(f.data, Some(Payload::Transfer(ref t)) if t.content == "AAEC"));
}

#[test]
fn read_path_refuses_unsafe_names() {
    for bad in ["../etc/passwd", "a/b.mp3", "a\\b.mp3", "x..wav"] {
        assert_eq!(
            encode_transfer(bad.to_string(), b"data").unwrap_err(),
            AssetError::InvalidFilename
        );
    }
    assert!(encode_transfer("ok.mp3".to_string(), b"data").is_ok());
}

#[test]
fn write_path_refuses_unsafe_names() {
    let t = FileTransfer { filename: "../x.mp3".to_string(), content: "aGVsbG8=".to_string() };
    assert_eq!(decode_transfer(&t).unwrap_err(), AssetError::InvalidFilename);
    let ok = FileTransfer { filename: "x.mp3".to_string(), content: "aGVsbG8=".to_string() };
    assert_eq!(decode_transfer(&ok).unwrap(), b"hello".to_vec());
}

#[test]
fn write_path_refuses_bad_base64() {
    let t = FileTransfer { filename: "x.mp3".to_string(), content: "not base64!".to_string() };
    assert_eq!(decode_transfer(&t).unwrap_err(), AssetError::BadEncoding);
}

#[test]
fn base64_encoding_of_content() {
    let msg = encode_transfer("h.wav".to_string(), b"hello").unwrap();
    assert!(matches!(msg.data, Some(Payload::Transfer(ref t)) if t.content == "aGVsbG8="));
    let empty = encode_transfer("e.wav".to_string(), b"").unwrap();
    assert!(matches!(empty.data, Some(Payload::Transfer(ref t)) if t.content.is_empty()));
}

#[test]
fn legacy_literal() {
    assert!(is_legacy_ring("ring_bell"));
    assert!(is_legacy_ring("  ring_bell\n"));
    assert!(!is_legacy_ring("ring_bells"));
    assert!(!is_legacy_ring("ring bell"));
    assert!(!is_legacy_ring(""));
}

#[test]
fn text_comparison() {
    assert!(same_text("abc", "abc"));
    assert!(!same_text("abc", "abd"));
}
