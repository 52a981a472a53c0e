use sonnerie::assets::{content_hash, hash_assets, is_audio_filename, is_valid_filename, AssetHashMap};

const ABC_SHA256: &str = "ba7816bf8f01cfea414140de5dae2223b00361a396177a9cb410ff61f20015ad";

#[test]
fn digest_of_known_bytes() {
    assert_eq!(content_hash(b"abc"), ABC_SHA256);
    assert_eq!(
        content_hash(b""),
        "e3b0c44298fc1c149afbf4c8996fb92427ae41e4649b934ca495991b7852b855"
    );
}

#[test]
fn digest_is_deterministic() {
    let a = content_hash(b"same bytes");
    let b = content_hash(b"same bytes");
    assert_eq!(a, b);
    assert_ne!(a, content_hash(b"other bytes"));
    assert_eq!(a.len(), 64);
}

#[test]
fn scan_is_deterministic_and_filters_sounds() {
    let files = vec![
        ("a.mp3".to_string(), b"abc".to_vec()),
        ("notes.txt".to_string(), b"text".to_vec()),
        ("b.wav".to_string(), b"xyz".to_vec()),
    ];
    let first = hash_assets(&files);
    let second = hash_assets(&files);
    assert_eq!(first.len(), 2);
    assert_eq!(second.len(), 2);
    assert_eq!(first.get(&"a.mp3".to_string()).unwrap(), ABC_SHA256);
    assert_eq!(first.get(&"b.wav".to_string()), second.get(&"b.wav".to_string()));
    assert!(first.get(&"notes.txt".to_string()).is_none());
}

#[test]
fn scan_keeps_last_of_one_name() {
    let files = vec![
        ("a.mp3".to_string(), b"old".to_vec()),
        ("a.mp3".to_string(), b"abc".to_vec()),
    ];
    let m = hash_assets(&files);
    assert_eq!(m.len(), 1);
    assert_eq!(m.get(&"a.mp3".to_string()).unwrap(), ABC_SHA256);
}

#[test]
fn scan_of_empty_directory() {
    let m = hash_assets(&Vec::new());
    assert_eq!(m.len(), 0);
}

#[test]
fn map_insert_replaces() {
    let mut m = AssetHashMap::new();
    m.insert("a.mp3".to_string(), "h1".to_string());
    m.insert("b.wav".to_string(), "h2".to_string());
    m.insert("a.mp3".to_string(), "h3".to_string());
    assert_eq!(m.len(), 2);
    assert_eq!(m.get(&"a.mp3".to_string()).unwrap(), "h3");
    assert_eq!(m.get(&"b.wav".to_string()).unwrap(), "h2");
    assert!(m.get(&"c.wav".to_string()).is_none());
}

#[test]
fn filename_validation() {
    assert!(is_valid_filename("bell.mp3"));
    assert!(is_valid_filename("a.b.wav"));
    assert!(is_valid_filename(""));
    assert!(!is_valid_filename("dir/bell.mp3"));
    assert!(!is_valid_filename("dir\\bell.mp3"));
    assert!(!is_valid_filename("..bell.mp3"));
    assert!(!is_valid_filename("bell..mp3"));
    assert!(!is_valid_filename(".."));
}

#[test]
fn audio_names() {
    assert!(is_audio_filename("a.mp3"));
    assert!(is_audio_filename("b.wav"));
    assert!(is_audio_filename(".wav"));
    assert!(!is_audio_filename("c.ogg"));
    assert!(!is_audio_filename("mp3"));
    assert!(!is_audio_filename("a.MP3"));
}
