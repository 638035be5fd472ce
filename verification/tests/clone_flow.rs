//! The clone pipeline end to end, on a canned discovery response and a
//! canned packfile.

use std::io::Write;

use git_starter_rust::client::{parse_ref_advertisement, Ref};
use git_starter_rust::cloning::{
    checkout_commit, find_head_target, finish_clone, head_file_content, parse_ref_file,
    parse_symref, partition_refs, ref_file_content, select_want, short_name, CheckoutItem,
};
use git_starter_rust::object::{Object, ObjectType};
use git_starter_rust::oid::ObjectId;
use git_starter_rust::pack::PackFile;
use git_starter_rust::pkt::Pkt;
use git_starter_rust::repo::GitRepo;
use git_starter_rust::tree::{encode_tree, TreeEntry};
use git_starter_rust::varint::{encode_type_size, encode_varint};
use git_starter_rust::GitError;

fn bytes(s: &str) -> Vec<u8> {
    s.as_bytes().to_vec()
}

fn zip(data: &[u8]) -> Vec<u8> {
    let mut enc = flate2::write::ZlibEncoder::new(Vec::new(), flate2::Compression::fast());
    enc.write_all(data).unwrap();
    enc.finish().unwrap()
}

/// Builds blob, tree and commit for one README file and returns their
/// contents together with the commit's genuine identifier.
fn sample_objects() -> (Vec<u8>, Vec<u8>, Vec<u8>, ObjectId) {
    let blob_content = bytes("hello verified world\n");
    let mut scratch = GitRepo::new(bytes("scratch"));
    let blob_id = scratch.store_object(Object::blob(blob_content.clone())).unwrap();
    let tree_content = encode_tree(&vec![TreeEntry {
        mode: bytes("00644"),
        object_type: ObjectType::Blob,
        name: bytes("README"),
        sha1: blob_id,
    }]);
    let tree_id = scratch.store_object(Object::tree(tree_content.clone())).unwrap();
    let mut commit_content = bytes("tree ");
    commit_content.extend(tree_id.to_hex());
    commit_content.extend(bytes("\nauthor a <a@example.com> 0 +0000\n\nfirst\n"));
    let commit_id = scratch.store_object(Object::commit(commit_content.clone())).unwrap();
    (blob_content, tree_content, commit_content, commit_id)
}

fn pack_of(entries: &[(u8, Vec<u8>, Option<Vec<u8>>)]) -> Vec<u8> {
    let mut p = bytes("PACK");
    p.extend(2u32.to_be_bytes());
    p.extend((entries.len() as u32).to_be_bytes());
    for (typ, data, base) in entries {
        p.extend(encode_type_size(*typ, data.len() as u64));
        if let Some(b) = base {
            p.extend(b.clone());
        }
        p.extend(zip(data));
    }
    p
}

fn side_band_body(pack: &[u8]) -> Vec<u8> {
    let mut line = vec![1u8];
    line.extend(pack.to_vec());
    let mut body = Pkt::data(bytes("NAK\n")).as_bytes();
    body.extend(Pkt::data(line).as_bytes());
    body.extend(Pkt::flush().as_bytes());
    body
}

fn advertisement(commit_hex: &[u8]) -> Vec<u8> {
    let mut head_line = commit_hex.to_vec();
    head_line.extend(bytes(" HEAD\0multi_ack side-band-64k\n"));
    let mut main_line = commit_hex.to_vec();
    main_line.extend(bytes(" refs/heads/main\n"));
    let mut body = Pkt::data(bytes("# service=git-upload-pack\n")).as_bytes();
    body.extend(Pkt::flush().as_bytes());
    body.extend(Pkt::data(head_line).as_bytes());
    body.extend(Pkt::data(main_line).as_bytes());
    body.extend(Pkt::flush().as_bytes());
    body
}

#[test]
fn clone_produces_refs_head_and_working_tree() {
    let (blob_content, tree_content, commit_content, commit_id) = sample_objects();
    let body = advertisement(&commit_id.to_hex());
    let (_caps, refs) = parse_ref_advertisement(&body).unwrap();

    let want = select_want(&refs).unwrap();
    assert!(want.same_as(&commit_id));

    let pack = pack_of(&[
        (1, commit_content, None),
        (2, tree_content, None),
        (3, blob_content.clone(), None),
    ]);
    let outcome = finish_clone(bytes("work"), &refs, &side_band_body(&pack), 64).unwrap();

    // the remote HEAD resolves to the main branch
    assert_eq!(outcome.head_target.name, bytes("refs/heads/main"));
    assert!(outcome.head_target.oid.same_as(&commit_id));
    assert_eq!(
        head_file_content(&outcome.head_target.name),
        bytes("ref: refs/heads/main\n")
    );
    let mut expected_ref_file = commit_id.to_hex();
    expected_ref_file.push(b'\n');
    assert_eq!(ref_file_content(&outcome.head_target.oid), expected_ref_file);

    // branch and tag partitioning: HEAD itself is written as neither
    assert!(outcome.tags.is_empty());
    assert_eq!(outcome.branches.len(), 1);
    assert_eq!(outcome.branches[0].name, bytes("refs/heads/main"));
    assert_eq!(short_name(&outcome.branches[0].name), bytes("main"));

    // the working tree holds the blob's file with matching content
    assert_eq!(outcome.checkout.len(), 1);
    match &outcome.checkout[0] {
        CheckoutItem::File(path, content) => {
            assert_eq!(path, &bytes("work/README"));
            assert_eq!(content, &blob_content);
        },
        CheckoutItem::Dir(_) => panic!("expected a file"),
    }

    // every object of the pack is stored under its derived id
    assert!(outcome.repo.has_object(&commit_id));
}

#[test]
fn clone_resolves_a_ref_delta_against_its_base() {
    let (blob_content, tree_content, commit_content, commit_id) = sample_objects();

    // a delta against the blob: copy all of it, append one line
    let mut ins = encode_varint(blob_content.len() as u64);
    ins.extend(encode_varint(blob_content.len() as u64 + 6));
    ins.extend(vec![0x90u8, blob_content.len() as u8]);
    ins.extend(vec![0x06u8]);
    ins.extend(bytes("again\n"));

    let mut scratch = GitRepo::new(bytes("scratch"));
    let blob_id = scratch.store_object(Object::blob(blob_content.clone())).unwrap();
    let mut derived = blob_content.clone();
    derived.extend(bytes("again\n"));
    let derived_id = scratch.store_object(Object::blob(derived.clone())).unwrap();

    let pack = pack_of(&[
        (1, commit_content, None),
        (2, tree_content, None),
        (3, blob_content, None),
        (7, ins, Some(blob_id.as_bytes().clone())),
    ]);
    let body = advertisement(&commit_id.to_hex());
    let (_caps, refs) = parse_ref_advertisement(&body).unwrap();
    let outcome = finish_clone(bytes("work"), &refs, &side_band_body(&pack), 64).unwrap();

    let back = outcome.repo.get_object(&derived_id).unwrap();
    assert!(matches!(back.object_type, ObjectType::Blob));
    assert_eq!(back.content, derived);
}

#[test]
fn clone_without_a_head_ref_fails() {
    let (blob_content, tree_content, commit_content, commit_id) = sample_objects();
    let id_hex = commit_id.to_hex();
    let mut main_line = id_hex.clone();
    main_line.extend(bytes(" refs/heads/main\n"));
    let mut body = Pkt::data(bytes("# service=git-upload-pack\n")).as_bytes();
    body.extend(Pkt::flush().as_bytes());
    body.extend(Pkt::data(main_line).as_bytes());
    body.extend(Pkt::flush().as_bytes());
    let (_caps, refs) = parse_ref_advertisement(&body).unwrap();

    let pack = pack_of(&[
        (1, commit_content, None),
        (2, tree_content, None),
        (3, blob_content, None),
    ]);
    assert_eq!(
        finish_clone(bytes("work"), &refs, &side_band_body(&pack), 64).unwrap_err(),
        GitError::NotFound
    );
}

#[test]
fn select_want_requires_an_advertised_ref() {
    let refs: Vec<Ref> = Vec::new();
    assert_eq!(select_want(&refs).unwrap_err(), GitError::Protocol);
}

#[test]
fn partition_excludes_head_and_peeled_tags() {
    let id = "cccccccccccccccccccccccccccccccccccccccc";
    let mut body = Pkt::data(bytes("# service=git-upload-pack\n")).as_bytes();
    body.extend(Pkt::flush().as_bytes());
    for name in ["HEAD", "refs/heads/main", "refs/tags/v1", "refs/tags/v1^{}"] {
        body.extend(Pkt::data(bytes(&format!("{} {}\n", id, name))).as_bytes());
    }
    body.extend(Pkt::flush().as_bytes());
    let (_caps, refs) = parse_ref_advertisement(&body).unwrap();
    let (tags, branches) = partition_refs(&refs);
    assert_eq!(tags.len(), 1);
    assert_eq!(tags[0].name, bytes("refs/tags/v1"));
    assert_eq!(branches.len(), 1);
    assert_eq!(branches[0].name, bytes("refs/heads/main"));
}

#[test]
fn head_target_needs_a_second_name_for_the_same_id() {
    let a = "aaaaaaaaaaaaaaaaaaaaaaaaaaaaaaaaaaaaaaaa";
    let b = "bbbbbbbbbbbbbbbbbbbbbbbbbbbbbbbbbbbbbbbb";
    let mut body = Pkt::data(bytes("# service=git-upload-pack\n")).as_bytes();
    body.extend(Pkt::flush().as_bytes());
    for (id, name) in [(a, "HEAD"), (b, "refs/heads/other")] {
        body.extend(Pkt::data(bytes(&format!("{} {}\n", id, name))).as_bytes());
    }
    body.extend(Pkt::flush().as_bytes());
    let (_caps, refs) = parse_ref_advertisement(&body).unwrap();
    assert_eq!(find_head_target(&refs).unwrap_err(), GitError::NotFound);
}

#[test]
fn checkout_walks_nested_directories() {
    let mut repo = GitRepo::new(bytes("work"));
    let blob_id = repo.store_object(Object::blob(bytes("inner file\n"))).unwrap();
    let inner_tree = encode_tree(&vec![TreeEntry {
        mode: bytes("00644"),
        object_type: ObjectType::Blob,
        name: bytes("leaf.txt"),
        sha1: blob_id,
    }]);
    let inner_id = repo.store_object(Object::tree(inner_tree)).unwrap();
    let outer_tree = encode_tree(&vec![TreeEntry {
        mode: bytes("40000"),
        object_type: ObjectType::Tree,
        name: bytes("sub"),
        sha1: inner_id,
    }]);
    let outer_id = repo.store_object(Object::tree(outer_tree)).unwrap();
    let mut commit_content = bytes("tree ");
    commit_content.extend(outer_id.to_hex());
    commit_content.push(b'\n');
    let commit_id = repo.store_object(Object::commit(commit_content)).unwrap();

    let items = checkout_commit(&repo, &commit_id, 16).unwrap();
    assert_eq!(items.len(), 2);
    match &items[0] {
        CheckoutItem::Dir(path) => assert_eq!(path, &bytes("work/sub")),
        CheckoutItem::File(..) => panic!("expected a directory"),
    }
    match &items[1] {
        CheckoutItem::File(path, content) => {
            assert_eq!(path, &bytes("work/sub/leaf.txt"));
            assert_eq!(content, &bytes("inner file\n"));
        },
        CheckoutItem::Dir(_) => panic!("expected a file"),
    }
}

#[test]
fn checkout_of_a_missing_commit_is_not_found() {
    let repo = GitRepo::new(bytes("work"));
    let oid = ObjectId::from_hex(&bytes("dddddddddddddddddddddddddddddddddddddddd")).unwrap();
    assert_eq!(checkout_commit(&repo, &oid, 16).unwrap_err(), GitError::NotFound);
}

#[test]
fn symref_and_ref_files_read_back() {
    let name = bytes("refs/heads/main");
    let head = head_file_content(&name);
    assert_eq!(parse_symref(&head).unwrap(), name);
    assert_eq!(parse_symref(&bytes("not a symref\n")).unwrap_err(), GitError::Format);

    let oid = ObjectId::from_hex(&bytes("d670460b4b4aece5915caf5c68d12f560a9fe3e4")).unwrap();
    let file = ref_file_content(&oid);
    assert!(parse_ref_file(&file).unwrap().same_as(&oid));
    assert_eq!(parse_ref_file(&bytes("junk\n")).unwrap_err(), GitError::Format);
}
