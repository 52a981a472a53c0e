use sonnerie::assets::AssetHashMap;
use sonnerie::protocol::{Payload, SyncRequest, WsMessage};
use sonnerie::relay::{announce, command_for, command_from_frame, ring_message, CooldownTable, ServerCommand, COOLDOWN_MS};

fn some(s: &str) -> Option<String> {
    Some(s.to_string())
}

#[test]
fn two_bells_within_window_give_one() {
    let mut t = CooldownTable::new();
    assert!(t.try_accept(&some("alice"), 1_000));
    assert!(!t.try_accept(&some("alice"), 1_000 + COOLDOWN_MS - 1));
}

#[test]
fn two_bells_beyond_window_give_two() {
    let mut t = CooldownTable::new();
    assert!(t.try_accept(&some("alice"), 1_000));
    assert!(t.try_accept(&some("alice"), 1_000 + COOLDOWN_MS));
    assert!(!t.try_accept(&some("alice"), 1_000 + COOLDOWN_MS + 5));
}

#[test]
fn refused_bell_does_not_restart_window() {
    let mut t = CooldownTable::new();
    assert!(t.try_accept(&some("alice"), 0));
    assert!(!t.try_accept(&some("alice"), 9_000));
    assert!(t.try_accept(&some("alice"), 10_000));
}

#[test]
fn cooldown_is_per_sender() {
    let mut t = CooldownTable::new();
    assert!(t.try_accept(&some("alice"), 0));
    assert!(t.try_accept(&some("bob"), 1));
    assert!(!t.try_accept(&some("alice"), 2));
}

#[test]
fn anonymous_bells_never_cool_down() {
    let mut t = CooldownTable::new();
    assert!(t.try_accept(&None, 0));
    assert!(t.try_accept(&None, 0));
}

#[test]
fn clock_going_back_is_refused() {
    let mut t = CooldownTable::new();
    assert!(t.try_accept(&some("alice"), 50_000));
    assert!(!t.try_accept(&some("alice"), 10_000));
}

#[test]
fn empty_relay_announces_without_hash() {
    let msg = announce(some("alice"), &AssetHashMap::new());
    assert_eq!(msg.event, "ring_bell");
    assert_eq!(msg.sender_id.as_deref(), Some("alice"));
    assert!(msg.data.is_none());
}

#[test]
fn announcement_names_one_asset() {
    let mut h = AssetHashMap::new();
    h.insert("a.mp3".to_string(), "h1".to_string());
    h.insert("b.wav".to_string(), "h2".to_string());
    for _ in 0..20 {
        let msg = announce(None, &h);
        assert!(msg.sender_id.is_none());
        match msg.data {
            Some(Payload::Hash(d)) => assert!(d == "h1" || d == "h2"),
            other => panic!("unexpected payload {:?}", other),
        }
    }
}

#[test]
fn ring_message_carries_choice() {
    let m = ring_message(some("s"), some("h7"));
    assert!(matches!(m.data, Some(Payload::Hash(ref h)) if h == "h7"));
    assert!(ring_message(None, None).data.is_none());
}

#[test]
fn structured_ring_is_a_bell() {
    let m = WsMessage::ring_bell(some("alice"));
    assert!(matches!(command_for(Some(m), false), ServerCommand::Ring(Some(ref s)) if s == "alice"));
}

#[test]
fn sync_report_is_a_sync() {
    let mut h = AssetHashMap::new();
    h.insert("a.mp3".to_string(), "h1".to_string());
    let m = WsMessage::sync_hashes(h);
    assert!(matches!(command_for(Some(m), false), ServerCommand::Sync(ref r) if r.hashes.len() == 1));
}

#[test]
fn sync_without_report_is_ignored() {
    let m = WsMessage { event: "sync_hashes".to_string(), sender_id: None, data: Some(Payload::Hash("x".to_string())) };
    assert!(matches!(command_for(Some(m), false), ServerCommand::Ignore));
    let n = WsMessage { event: "sync_hashes".to_string(), sender_id: None, data: None };
    assert!(matches!(command_for(Some(n), false), ServerCommand::Ignore));
}

#[test]
fn unknown_event_is_ignored() {
    let m = WsMessage { event: "dance".to_string(), sender_id: None, data: None };
    assert!(matches!(command_for(Some(m), true), ServerCommand::Ignore));
    let t = WsMessage::file_transfer("a.mp3".to_string(), "AA==".to_string());
    assert!(matches!(command_for(Some(t), false), ServerCommand::Ignore));
}

#[test]
fn legacy_literal_is_anonymous_bell() {
    assert!(matches!(command_from_frame(None, " ring_bell \n"), ServerCommand::Ring(None)));
    assert!(matches!(command_from_frame(None, "{garbage"), ServerCommand::Ignore));
    let _ = SyncRequest { hashes: AssetHashMap::new() };
}
