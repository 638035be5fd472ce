//! The tree codec: canonical ordering and the entry wire format.

use git_starter_rust::object::ObjectType;
use git_starter_rust::oid::ObjectId;
use git_starter_rust::tree::{encode_tree, sort_entries, Tree, TreeEntry};
use git_starter_rust::GitError;

fn bytes(s: &str) -> Vec<u8> {
    s.as_bytes().to_vec()
}

fn oid_of_byte(b: u8) -> ObjectId {
    ObjectId::from_bytes(&vec![b; 20]).unwrap()
}

fn blob_entry(name: &str, b: u8) -> TreeEntry {
    TreeEntry {
        mode: bytes("00644"),
        object_type: ObjectType::Blob,
        name: bytes(name),
        sha1: oid_of_byte(b),
    }
}

fn tree_entry(name: &str, b: u8) -> TreeEntry {
    TreeEntry {
        mode: bytes("40000"),
        object_type: ObjectType::Tree,
        name: bytes(name),
        sha1: oid_of_byte(b),
    }
}

#[test]
fn encoding_is_order_independent() {
    let one = vec![blob_entry("b.txt", 1), tree_entry("a", 2), blob_entry("c.txt", 3)];
    let other = vec![blob_entry("c.txt", 3), blob_entry("b.txt", 1), tree_entry("a", 2)];
    assert_eq!(encode_tree(&one), encode_tree(&other));
}

#[test]
fn encoding_sorts_by_name() {
    let entries = vec![blob_entry("zz", 1), blob_entry("aa", 2)];
    let sorted = sort_entries(&entries);
    assert_eq!(sorted[0].name, bytes("aa"));
    assert_eq!(sorted[1].name, bytes("zz"));
}

#[test]
fn entry_wire_format_is_exact() {
    let entries = vec![blob_entry("f", 0xab)];
    let mut expected = bytes("100644 f\0");
    expected.extend(vec![0xabu8; 20]);
    assert_eq!(encode_tree(&entries), expected);

    let dirs = vec![tree_entry("d", 0xcd)];
    let mut expected_dir = bytes("40000 d\0");
    expected_dir.extend(vec![0xcdu8; 20]);
    assert_eq!(encode_tree(&dirs), expected_dir);
}

#[test]
fn encode_then_parse_round_trip() {
    let entries = vec![tree_entry("sub", 9), blob_entry("file.txt", 7)];
    let encoded = encode_tree(&entries);
    let tree = Tree::parse(&encoded).unwrap();
    let back = tree.entries();
    assert_eq!(back.len(), 2);
    assert_eq!(back[0].name, bytes("file.txt"));
    assert!(matches!(back[0].object_type, ObjectType::Blob));
    assert_eq!(back[0].mode, bytes("00644"));
    assert!(back[0].sha1.same_as(&oid_of_byte(7)));
    assert_eq!(back[1].name, bytes("sub"));
    assert!(matches!(back[1].object_type, ObjectType::Tree));
    assert_eq!(back[1].mode, bytes("40000"));
    assert!(back[1].sha1.same_as(&oid_of_byte(9)));
}

#[test]
fn entry_parse_reads_one_entry() {
    let mut buf = bytes("40000 sub\0");
    buf.extend(vec![5u8; 20]);
    buf.extend(bytes("trailing"));
    let (entry, end) = TreeEntry::parse(&buf, 0).unwrap();
    assert_eq!(entry.name, bytes("sub"));
    assert!(matches!(entry.object_type, ObjectType::Tree));
    assert_eq!(entry.mode, bytes("40000"));
    assert!(entry.sha1.same_as(&oid_of_byte(5)));
    assert_eq!(end, 30);
}

#[test]
fn entry_parse_rejects_malformed_bytes() {
    // no space at all
    assert_eq!(TreeEntry::parse(&bytes("nodelimiter"), 0).unwrap_err(), GitError::Format);
    // no NUL after the name
    assert_eq!(TreeEntry::parse(&bytes("40000 sub"), 0).unwrap_err(), GitError::Format);
    // fewer than 20 id bytes
    let mut short = bytes("40000 sub\0");
    short.extend(vec![5u8; 7]);
    assert_eq!(TreeEntry::parse(&short, 0).unwrap_err(), GitError::Format);
}

#[test]
fn tree_parse_of_empty_bytes_is_empty() {
    let tree = Tree::parse(&Vec::new()).unwrap();
    assert!(tree.entries().is_empty());
}
