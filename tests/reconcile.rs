use sonnerie::assets::AssetHashMap;
use sonnerie::protocol::{decode_transfer, encode_transfer, Payload};
use sonnerie::reconcile::files_to_send;

fn map_of(pairs: &[(&str, &str)]) -> AssetHashMap {
    let mut m = AssetHashMap::new();
    for (k, v) in pairs {
        m.insert(k.to_string(), v.to_string());
    }
    m
}

#[test]
fn sends_only_missing_asset() {
    let server = map_of(&[("a.mp3", "h1"), ("b.wav", "h2")]);
    let client = map_of(&[("a.mp3", "h1")]);
    let names = files_to_send(&server, &client);
    assert_eq!(names, vec!["b.wav".to_string()]);
    let msg = encode_transfer(names[0].clone(), b"wav bytes").unwrap();
    assert_eq!(msg.event, "file_transfer");
    assert!(msg.sender_id.is_none());
    match msg.data {
        Some(Payload::Transfer(t)) => {
            assert_eq!(t.filename, "b.wav");
            assert_eq!(t.content, "d2F2IGJ5dGVz");
        }
        other => panic!("unexpected payload {:?}", other),
    }
}

#[test]
fn sends_changed_asset() {
    let server = map_of(&[("a.mp3", "h1"), ("b.wav", "h2")]);
    let client = map_of(&[("a.mp3", "old"), ("b.wav", "h2"), ("c.wav", "h9")]);
    assert_eq!(files_to_send(&server, &client), vec!["a.mp3".to_string()]);
}

#[test]
fn in_sync_client_is_sent_nothing() {
    let server = map_of(&[("a.mp3", "h1"), ("b.wav", "h2")]);
    let client = map_of(&[("b.wav", "h2"), ("a.mp3", "h1")]);
    assert!(files_to_send(&server, &client).is_empty());
}

#[test]
fn empty_relay_sends_nothing() {
    let server = AssetHashMap::new();
    let client = map_of(&[("a.mp3", "h1")]);
    assert!(files_to_send(&server, &client).is_empty());
}

#[test]
fn second_pass_after_applying_sends_nothing() {
    let server = map_of(&[("a.mp3", "h1"), ("b.wav", "h2"), ("c.wav", "h3")]);
    let mut client = map_of(&[("a.mp3", "x"), ("d.mp3", "h4")]);
    let first = files_to_send(&server, &client);
    assert_eq!(first.len(), 3);
    for name in &first {
        let h = server.get(name).unwrap().clone();
        client.insert(name.clone(), h);
    }
    assert!(files_to_send(&server, &client).is_empty());
}

#[test]
fn transfer_round_trips_bytes() {
    let bytes: Vec<u8> = (0u8..=255).collect();
    let msg = encode_transfer("all.wav".to_string(), &bytes).unwrap();
    match msg.data {
        Some(Payload::Transfer(t)) => assert_eq!(decode_transfer(&t).unwrap(), bytes),
        other => panic!("unexpected payload {:?}", other),
    }
}
