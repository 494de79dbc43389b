use intl_message::utils::{
    hash_message_key, is_message_definitions_file, is_message_translations_file,
    key_from_hash_bytes, KEY_HASH_SEED,
};

#[test]
fn definitions_file_names() {
    assert!(is_message_definitions_file("Somewhere.messages"));
    assert!(is_message_definitions_file("a/b.messages.tsx"));
    assert!(is_message_definitions_file("b.messages.jsx"));
    assert!(is_message_definitions_file("b.messages.ts"));
    assert!(is_message_definitions_file("b.messages.js"));
    assert!(!is_message_definitions_file("b.messages.json"));
    assert!(!is_message_definitions_file("b.tsx"));
    assert!(!is_message_definitions_file("messages"));
    assert!(!is_message_definitions_file(""));
}

#[test]
fn translations_file_names() {
    assert!(is_message_translations_file("en-US.messages.json"));
    assert!(is_message_translations_file("en-US.messages.jsona"));
    assert!(!is_message_translations_file("en-US.json"));
    assert!(!is_message_translations_file("a.messages.js"));
}

#[test]
fn key_from_hash_bytes_encodes_base64() {
    assert_eq!(key_from_hash_bytes([0; 8]), "AAAAAA");
    assert_eq!(key_from_hash_bytes([0xFF; 8]), "//////");
    // 0x4D 0x61 0x6E is "TWFu" in base64; the fourth byte 0x04 gives "B", then "A".
    assert_eq!(key_from_hash_bytes([0x4D, 0x61, 0x6E, 0x04, 9, 9, 9, 9]), "TWFuBA");
}

#[test]
fn hash_message_key_reads_the_xxh64_hash() {
    for name in ["", "MESSAGE_NAME", "another.key"] {
        let hash = xxhash_rust::xxh64::xxh64(name.as_bytes(), KEY_HASH_SEED);
        let expected = key_from_hash_bytes(hash.to_ne_bytes());
        let key = hash_message_key(name);
        assert_eq!(key, expected);
        assert_eq!(key.len(), 6);
        assert_ne!(key, name);
    }
    assert_ne!(hash_message_key("a"), hash_message_key("b"));
    assert_eq!(hash_message_key("same"), hash_message_key("same"));
}
