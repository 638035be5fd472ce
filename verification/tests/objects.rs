//! Content addressing and the loose object codec on concrete values,
//! against identifiers real repositories derive.

use git_starter_rust::object::{Object, ObjectType};
use git_starter_rust::oid::{ObjectId, Sha};
use git_starter_rust::repo::{loose_zipped, read_loose, GitRepo};
use git_starter_rust::GitError;

fn bytes(s: &str) -> Vec<u8> {
    s.as_bytes().to_vec()
}

fn oid_from_hex(s: &str) -> ObjectId {
    ObjectId::from_hex(&bytes(s)).unwrap()
}

#[test]
fn store_derives_the_known_blob_id() {
    let mut repo = GitRepo::new(bytes("work"));
    let oid = repo.store_object(Object::blob(bytes("test content\n"))).unwrap();
    assert_eq!(oid.to_hex(), bytes("d670460b4b4aece5915caf5c68d12f560a9fe3e4"));
}

#[test]
fn store_derives_the_known_empty_ids() {
    let mut repo = GitRepo::new(bytes("work"));
    let blob = repo.store_object(Object::blob(Vec::new())).unwrap();
    assert_eq!(blob.to_hex(), bytes("e69de29bb2d1d6434b8b29ae775ad8c2e48c5391"));
    let tree = repo.store_object(Object::tree(Vec::new())).unwrap();
    assert_eq!(tree.to_hex(), bytes("4b825dc642cb6eb9a060e54bf8d69288fbee4904"));
}

#[test]
fn store_then_get_returns_the_content() {
    let mut repo = GitRepo::new(bytes("work"));
    let oid = repo.store_object(Object::blob(bytes("hello"))).unwrap();
    let back = repo.get_object(&oid).unwrap();
    assert!(matches!(back.object_type, ObjectType::Blob));
    assert_eq!(back.content, bytes("hello"));
}

#[test]
fn storing_twice_derives_the_same_id() {
    let mut repo = GitRepo::new(bytes("work"));
    let first = repo.store_object(Object::blob(bytes("same bytes"))).unwrap();
    let second = repo.store_object(Object::blob(bytes("same bytes"))).unwrap();
    assert!(first.same_as(&second));
    let other = repo.store_object(Object::blob(bytes("other bytes"))).unwrap();
    assert!(!first.same_as(&other));
}

#[test]
fn get_missing_object_is_not_found() {
    let repo = GitRepo::new(bytes("work"));
    let oid = oid_from_hex("aaaaaaaaaaaaaaaaaaaaaaaaaaaaaaaaaaaaaaaa");
    assert_eq!(repo.get_object(&oid).unwrap_err(), GitError::NotFound);
}

#[test]
fn loose_round_trip_through_compression() {
    let obj = Object::commit(bytes("tree 4b825dc642cb6eb9a060e54bf8d69288fbee4904\n"));
    let zipped = loose_zipped(&obj);
    // the persisted form is genuinely compressed, not the plain encoding
    assert_ne!(zipped, obj.loose_plain());
    let back = read_loose(&zipped).unwrap();
    assert!(matches!(back.object_type, ObjectType::Commit));
    assert_eq!(back.content, obj.content);
}

#[test]
fn parse_loose_reads_header_and_content() {
    let back = Object::parse_loose(&bytes("blob 3\0abc")).unwrap();
    assert!(matches!(back.object_type, ObjectType::Blob));
    assert_eq!(back.content, bytes("abc"));

    let tree = Object::parse_loose(&bytes("tree 0\0")).unwrap();
    assert!(matches!(tree.object_type, ObjectType::Tree));
    assert!(tree.content.is_empty());
}

#[test]
fn parse_loose_rejects_unknown_keyword() {
    assert_eq!(Object::parse_loose(&bytes("tag 3\0abc")).unwrap_err(), GitError::Format);
    assert_eq!(Object::parse_loose(&bytes("blob3\0abc")).unwrap_err(), GitError::Format);
}

#[test]
fn object_path_is_sharded_by_the_first_two_digits() {
    let repo = GitRepo::new(bytes("work"));
    let oid = oid_from_hex("d670460b4b4aece5915caf5c68d12f560a9fe3e4");
    assert_eq!(
        repo.get_object_path(&oid),
        bytes("work/.git/objects/d6/70460b4b4aece5915caf5c68d12f560a9fe3e4")
    );
}

#[test]
fn object_id_hex_round_trip() {
    let oid = oid_from_hex("0123456789abcdef0123456789abcdef01234567");
    assert_eq!(oid.to_hex(), bytes("0123456789abcdef0123456789abcdef01234567"));
    assert_eq!(oid.as_bytes().len(), 20);
    let again = ObjectId::from_bytes(&oid.as_bytes().clone()).unwrap();
    assert!(again.same_as(&oid));
}

#[test]
fn object_id_rejects_bad_text() {
    assert_eq!(ObjectId::from_hex(&bytes("abc")).unwrap_err(), GitError::Format);
    let mut not_hex = bytes("zz23456789abcdef0123456789abcdef01234567");
    assert_eq!(ObjectId::from_hex(&not_hex).unwrap_err(), GitError::Format);
    not_hex.push(48);
    assert_eq!(ObjectId::from_hex(&not_hex).unwrap_err(), GitError::Format);
    assert_eq!(ObjectId::from_bytes(&bytes("short")).unwrap_err(), GitError::Format);
}

#[test]
fn sha_wraps_the_textual_form() {
    let sha = Sha::new(bytes("aaaaaaaaaaaaaaaaaaaaaaaaaaaaaaaaaaaaaaaa"));
    assert_eq!(sha.as_bytes(), &bytes("aaaaaaaaaaaaaaaaaaaaaaaaaaaaaaaaaaaaaaaa"));
    let raw = vec![0xd6u8; 20];
    let from_raw = Sha::from_bytes(&raw);
    assert_eq!(from_raw.as_bytes(), &bytes("d6d6d6d6d6d6d6d6d6d6d6d6d6d6d6d6d6d6d6d6"));
}

#[test]
fn commit_text_and_parse_round_trip() {
    let tree = oid_from_hex("4b825dc642cb6eb9a060e54bf8d69288fbee4904");
    let parent = oid_from_hex("d670460b4b4aece5915caf5c68d12f560a9fe3e4");
    let text = git_starter_rust::commit::encode_commit(&tree, &parent, 1700000000, &bytes("msg"));
    let expected = "tree 4b825dc642cb6eb9a060e54bf8d69288fbee4904\n\
                    parent d670460b4b4aece5915caf5c68d12f560a9fe3e4\n\
                    author Joe Author <joe.author@example.com> 1700000000 +1000\n\
                    committer Bob Committer <bob.committer@example.com> 1700000000 +1000\n\
                    \nmsg\n";
    assert_eq!(text, bytes(expected));
    let commit = git_starter_rust::commit::Commit::parse(&text).unwrap();
    assert!(commit.tree.same_as(&tree));
}

#[test]
fn commit_parse_rejects_other_first_lines() {
    assert_eq!(
        git_starter_rust::commit::Commit::parse(&bytes("parent abc\n")).unwrap_err(),
        GitError::Format
    );
}

#[test]
fn commit_tree_stores_a_commit() {
    let mut repo = GitRepo::new(bytes("work"));
    let tree = oid_from_hex("4b825dc642cb6eb9a060e54bf8d69288fbee4904");
    let parent = oid_from_hex("d670460b4b4aece5915caf5c68d12f560a9fe3e4");
    let oid = repo.commit_tree(&tree, &parent, &bytes("first"), 1700000000).unwrap();
    let back = repo.get_object(&oid).unwrap();
    assert!(matches!(back.object_type, ObjectType::Commit));
    let parsed = back.as_commit().unwrap();
    assert!(parsed.tree.same_as(&tree));
}
