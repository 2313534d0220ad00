use bloxtree::hash::{blob_path, Digest};
use bloxtree::uuid::Uuid;

fn hash(data: &[u8]) -> bloxtree::hash::Hash {
    bloxtree::hash::Hash { bytes: *blake3::hash(data).as_bytes() }
}

#[test]
fn hex_is_that_of_blake3() {
    let h = hash(b"hello");
    assert_eq!(h.to_hex(), blake3::hash(b"hello").to_hex().to_string());
    assert_eq!(
        h.to_hex(),
        "ea8f163db38682925e4491c5e58d4bb3506ef8c14eb78a86e908c5624a67200f"
    );
}

#[test]
fn hex_is_read_back() {
    let h = hash(b"hello");
    assert_eq!(bloxtree::hash::Hash::from_hex(&h.to_hex()), Some(h));
    assert_eq!(bloxtree::hash::Hash::from_hex(&h.to_hex().to_uppercase()), Some(h));
}

#[test]
fn other_texts_are_no_hash() {
    let hex = hash(b"hello").to_hex();
    assert_eq!(bloxtree::hash::Hash::from_hex(""), None);
    assert_eq!(bloxtree::hash::Hash::from_hex(&hex[1..]), None);
    assert_eq!(bloxtree::hash::Hash::from_hex(&format!("{hex}0")), None);
    assert_eq!(bloxtree::hash::Hash::from_hex(&hex.replace('e', "g")), None);
    assert_eq!(bloxtree::hash::Hash::from_hex(&hex.replace("ea", "\u{e9}")), None);
}

#[test]
fn digest_is_that_of_all_chunks() {
    let mut d = Digest::new();
    assert_eq!(d.finish(), hash(b""));
    d = d.update(b"hello ");
    d = d.update(b"");
    d = d.update(b"world");
    assert_eq!(d.finish(), hash(b"hello world"));
    assert!(d.finish().equals(&hash(b"hello world")));
    assert!(!d.finish().equals(&hash(b"hello")));
}

#[test]
fn a_blob_lies_in_the_directory_of_its_first_digits() {
    let (dir, file) = blob_path(&hash(b"hello"));
    assert_eq!(dir, "ea");
    assert_eq!(file, "8f163db38682925e4491c5e58d4bb3506ef8c14eb78a86e908c5624a67200f");
}

#[test]
fn identifiers_have_the_usual_text() {
    let u = Uuid {
        bytes: [
            0x01, 0x8f, 0x00, 0x0a, 0xbc, 0xde, 0x7f, 0x12, 0x80, 0x34, 0x56, 0x78, 0x9a, 0xbc,
            0xde, 0xff,
        ],
    };
    assert_eq!(u.to_text(), "018f000a-bcde-7f12-8034-56789abcdeff");
    assert_eq!(u.to_text(), uuid::Uuid::from_bytes(u.bytes).to_string());
}

#[test]
fn identifiers_are_ordered_by_bytes() {
    let a = Uuid { bytes: [1; 16] };
    let mut later = [1; 16];
    later[15] = 2;
    let b = Uuid { bytes: later };
    assert!(a.is_older_than(&b));
    assert!(!b.is_older_than(&a));
    assert!(!a.is_older_than(&a));
}

#[test]
fn fresh_identifiers_are_of_version_seven() {
    let a = Uuid::now_v7();
    let b = Uuid::now_v7();
    assert_ne!(a, b);
    for u in [a, b] {
        assert_eq!(uuid::Uuid::from_bytes(u.bytes).get_version_num(), 7);
        assert_eq!(u.bytes[8] >> 6, 2);
    }
}
