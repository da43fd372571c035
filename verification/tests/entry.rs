use bfindex::entry::Entry;
use bfindex::signature::{BfIndex, HASH_N};
use std::io::{Error, ErrorKind};

fn keys() -> [String; HASH_N] {
    ["k1".to_string(), "k2".to_string(), "k3".to_string()]
}

fn entry(path: &str, content: &str) -> Entry {
    match Entry::new::<Error>(path, Ok(content.to_string()), &keys()) {
        Ok(entry) => entry,
        Err(e) => panic!("{:?}", e),
    }
}

#[test]
fn entry_keeps_its_path() {
    assert_eq!(entry("dir/a.txt", "hello world").path(), "dir/a.txt");
    assert_eq!(entry("", "").path(), "");
}

#[test]
fn entry_signature_folds_every_token() {
    let keys = keys();
    let e = entry("a", "hello world");
    assert_eq!(e.signature().bits(), 0x1a_0000_1004);
    let mut expected = BfIndex::new();
    expected.update("hello", &keys);
    expected.update("world", &keys);
    assert_eq!(e.signature(), expected);
}

#[test]
fn entry_signature_of_one_token() {
    assert_eq!(entry("b", "goodbye").signature().bits(), 0x4000_0208_0000);
    assert_eq!(entry("b", "goodbye").signature(), BfIndex::from_str("goodbye", &keys()));
}

#[test]
fn entry_signature_ignores_amount_and_kind_of_whitespace() {
    let plain = entry("a", "hello world").signature();
    assert_eq!(entry("a", "  hello \t\r\n world\x0c\n").signature(), plain);
    assert_eq!(entry("a", "world hello").signature(), plain);
    assert_eq!(entry("a", "hello world hello").signature(), plain);
}

#[test]
fn entry_signature_takes_tokens_whole() {
    // One token: neither "hello" nor "world" is folded in.
    assert_eq!(entry("a", "helloworld").signature().bits(), 0x2010_0000_0004);
    // A vertical tab does not separate tokens.
    assert_eq!(entry("a", "a\x0bb").signature().bits(), 0x8020_0000_0000_8000);
    assert_eq!(entry("a", "a b").signature().bits(), 0x4040_0040_0010_0010);
}

#[test]
fn entry_signature_of_text_beyond_ascii() {
    assert_eq!(entry("a", " h\u{e9}llo ").signature().bits(), 0x8200_0000_0000_0001);
}

#[test]
fn entry_of_empty_content_has_zero_signature() {
    assert_eq!(entry("empty", "").signature(), BfIndex::new());
    assert_eq!(entry("empty", "").signature().bits(), 0);
}

#[test]
fn entry_of_blank_content_has_zero_signature() {
    assert_eq!(entry("blank", " \t\r\n\x0c ").signature().bits(), 0);
}

#[test]
fn entry_signature_admits_each_of_its_tokens() {
    let keys = keys();
    let content = "the quick brown fox jumps over the lazy dog";
    let e = entry("fox", content);
    for token in content.split_ascii_whitespace() {
        assert!(e.signature().positive(&BfIndex::from_str(token, &keys)));
    }
}

#[test]
fn entry_new_hands_back_a_failed_read() {
    let read: Result<String, Error> = Err(Error::new(ErrorKind::NotFound, "no such file"));
    match Entry::new("missing", read, &keys()) {
        Ok(_) => panic!("an entry was built from a failed read"),
        Err(e) => {
            assert_eq!(e.kind(), ErrorKind::NotFound);
            assert_eq!(e.to_string(), "no such file");
        }
    }
}

#[test]
fn entry_new_hands_back_any_error_value() {
    let read: Result<String, (u8, &str)> = Err((7, "invalid text"));
    match Entry::new("bad", read, &keys()) {
        Ok(_) => panic!("an entry was built from a failed read"),
        Err(e) => assert_eq!(e, (7, "invalid text")),
    }
}

#[test]
fn entry_contains_checks_the_content_it_is_given() {
    let e = entry("a", "hello world");
    assert_eq!(e.contains::<Error>(Ok("hello world".to_string()), "hello").ok(), Some(true));
    assert_eq!(e.contains::<Error>(Ok("hello world".to_string()), "lo wo").ok(), Some(true));
    assert_eq!(e.contains::<Error>(Ok("hello world".to_string()), "goodbye").ok(), Some(false));
    // The file may have changed since it was registered.
    assert_eq!(e.contains::<Error>(Ok("goodbye".to_string()), "hello").ok(), Some(false));
    assert_eq!(e.contains::<Error>(Ok("goodbye".to_string()), "goodbye").ok(), Some(true));
    assert_eq!(e.contains::<Error>(Ok(String::new()), "a").ok(), Some(false));
    assert_eq!(e.contains::<Error>(Ok(String::new()), "").ok(), Some(true));
}

#[test]
fn entry_contains_hands_back_a_failed_read() {
    let e = entry("a", "hello world");
    let read: Result<String, Error> = Err(Error::new(ErrorKind::PermissionDenied, "denied"));
    match e.contains(read, "hello") {
        Ok(_) => panic!("a failed read was answered"),
        Err(e) => assert_eq!(e.kind(), ErrorKind::PermissionDenied),
    }
}
