use bfindex::hashing::{position_of_digest, position_of_token};
use blake2::{Blake2b, Digest};

fn digest_starting_with(head: [u8; 8]) -> [u8; 64] {
    let mut digest = [0xffu8; 64];
    digest[..8].copy_from_slice(&head);
    digest
}

#[test]
fn digest_position_is_low_byte_modulo_width() {
    assert_eq!(position_of_digest(&digest_starting_with([5, 0, 0, 0, 0, 0, 0, 0])), 5);
    assert_eq!(position_of_digest(&digest_starting_with([63, 0, 0, 0, 0, 0, 0, 0])), 63);
    assert_eq!(position_of_digest(&digest_starting_with([64, 0, 0, 0, 0, 0, 0, 0])), 0);
    assert_eq!(position_of_digest(&digest_starting_with([0x41, 0, 0, 0, 0, 0, 0, 0])), 1);
    assert_eq!(position_of_digest(&[0u8; 64]), 0);
    assert_eq!(position_of_digest(&[0xffu8; 64]), 63);
}

#[test]
fn digest_position_reads_least_significant_byte_first() {
    // Read the other way round, this digest would select position 9.
    let digest = digest_starting_with([5, 1, 2, 3, 4, 6, 7, 9]);
    assert_eq!(position_of_digest(&digest), 5);
    let value = u64::from_le_bytes([5, 1, 2, 3, 4, 6, 7, 9]);
    assert_eq!(position_of_digest(&digest), value % 64);
}

#[test]
fn digest_position_ignores_bytes_past_the_eighth() {
    let mut a = [0u8; 64];
    let mut b = [0xabu8; 64];
    a[..8].copy_from_slice(&[17, 2, 3, 4, 5, 6, 7, 8]);
    b[..8].copy_from_slice(&[17, 2, 3, 4, 5, 6, 7, 8]);
    assert_eq!(position_of_digest(&a), 17);
    assert_eq!(position_of_digest(&b), 17);
}

#[test]
fn token_position_matches_published_digest() {
    // BLAKE2b-512 of "hello world" starts with 02 1c ed 87 99 29 6c ec.
    assert_eq!(position_of_token(b"hello ", b"world"), 2);
    assert_eq!(position_of_token(b"", b"hello world"), 2);
    assert_eq!(position_of_token(b"hello world", b""), 2);
}

#[test]
fn token_position_known_values() {
    assert_eq!(position_of_token(b"k1", b"hello"), 12);
    assert_eq!(position_of_token(b"k2", b"hello"), 2);
    assert_eq!(position_of_token(b"k3", b"hello"), 2);
    assert_eq!(position_of_token(b"k1", b"world"), 35);
    assert_eq!(position_of_token(b"k2", b"world"), 36);
    assert_eq!(position_of_token(b"k3", b"world"), 33);
    assert_eq!(position_of_token(b"k1", b""), 63);
    assert_eq!(position_of_token(b"k1", "h\u{e9}llo".as_bytes()), 57);
}

#[test]
fn token_position_agrees_with_chained_hasher() {
    let keys = ["key1", "key2", "key3", "", "k"];
    let tokens = ["hello", "world", "", "a", "the quick brown fox", "h\u{e9}llo"];
    for key in keys {
        for token in tokens {
            let hash = Blake2b::new().chain(key).chain(token).finalize();
            let mut head = [0u8; 8];
            head.copy_from_slice(&hash[..8]);
            let expected = u64::from_le_bytes(head) % 64;
            assert_eq!(position_of_token(key.as_bytes(), token.as_bytes()), expected);
        }
    }
}

#[test]
fn token_position_depends_on_key_and_token() {
    assert_ne!(position_of_token(b"k1", b"hello"), position_of_token(b"k2", b"hello"));
    assert_ne!(position_of_token(b"k1", b"hello"), position_of_token(b"k1", b"world"));
}
