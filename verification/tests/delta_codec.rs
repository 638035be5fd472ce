//! The delta instruction stream and its application.

use git_starter_rust::delta::{apply_delta, DeltaInstruction};
use git_starter_rust::varint::encode_varint;
use git_starter_rust::GitError;

fn bytes(s: &str) -> Vec<u8> {
    s.as_bytes().to_vec()
}

fn delta(base_len: u64, target_len: u64, instructions: &[u8]) -> Vec<u8> {
    let mut d = encode_varint(base_len);
    d.extend(encode_varint(target_len));
    d.extend(instructions.to_vec());
    d
}

#[test]
fn copy_and_add_reconstruct_the_target() {
    let base = bytes("hello, world!");
    // copy base[0..5], then add "XYZ" literally
    let ins = vec![0x91u8, 0x00, 0x05, 0x03, b'X', b'Y', b'Z'];
    let d = delta(13, 8, &ins);
    assert_eq!(apply_delta(&base, &d).unwrap(), bytes("helloXYZ"));
}

#[test]
fn copy_with_implicit_offset_and_offset_bytes() {
    let base = bytes("0123456789");
    // absent offset bytes mean offset zero
    let d1 = delta(10, 3, &[0x90, 0x03]);
    assert_eq!(apply_delta(&base, &d1).unwrap(), bytes("012"));
    // one offset byte: copy base[7..7+2]
    let d2 = delta(10, 2, &[0x91, 0x07, 0x02]);
    assert_eq!(apply_delta(&base, &d2).unwrap(), bytes("78"));
}

#[test]
fn instructions_run_in_order() {
    let base = bytes("abcdef");
    // add "Q", copy base[4..6], add "R"
    let ins = vec![0x01, b'Q', 0x91, 0x04, 0x02, 0x01, b'R'];
    let d = delta(6, 4, &ins);
    assert_eq!(apply_delta(&base, &d).unwrap(), bytes("QefR"));
}

#[test]
fn zero_target_size_means_65536() {
    let base = vec![9u8; 65536];
    // target-size varint of zero stands for 65536; one copy of the whole base
    let ins = vec![0xC0u8, 0x01];
    let mut d = encode_varint(65536);
    d.extend(vec![0u8]);
    d.extend(ins);
    let out = apply_delta(&base, &d).unwrap();
    assert_eq!(out.len(), 65536);
    assert_eq!(out, base);
}

#[test]
fn zero_target_size_rejects_short_output() {
    let base = bytes("abc");
    // target size written as zero demands 65536 bytes, not 3
    let mut d = encode_varint(3);
    d.extend(vec![0u8]);
    d.extend(vec![0x90u8, 0x03]);
    assert_eq!(apply_delta(&base, &d).unwrap_err(), GitError::Consistency);
}

#[test]
fn base_size_mismatch_is_a_consistency_error() {
    let base = bytes("abc");
    let d = delta(7, 1, &[0x01, b'x']);
    assert_eq!(apply_delta(&base, &d).unwrap_err(), GitError::Consistency);
}

#[test]
fn target_size_mismatch_is_a_consistency_error() {
    let base = bytes("abc");
    let d = delta(3, 5, &[0x01, b'x']);
    assert_eq!(apply_delta(&base, &d).unwrap_err(), GitError::Consistency);
}

#[test]
fn zero_sized_add_is_malformed() {
    let base = bytes("abc");
    let d = delta(3, 1, &[0x00, b'x']);
    assert_eq!(apply_delta(&base, &d).unwrap_err(), GitError::Format);
}

#[test]
fn copy_past_the_base_is_malformed() {
    let base = bytes("abc");
    let d = delta(3, 9, &[0x91, 0x01, 0x09]);
    assert_eq!(apply_delta(&base, &d).unwrap_err(), GitError::Format);
}

#[test]
fn truncated_literal_run_is_malformed() {
    let base = bytes("abc");
    let d = delta(3, 5, &[0x05, b'x', b'y']);
    assert_eq!(apply_delta(&base, &d).unwrap_err(), GitError::Format);
}

#[test]
fn instruction_parse_reads_copy_operands() {
    let buf = vec![0xB3u8, 0x11, 0x22, 0x44, 0x55];
    let (ins, end) = DeltaInstruction::parse(&buf, 0).unwrap();
    match ins {
        DeltaInstruction::Copy { size, offset } => {
            // offset bytes 0x11 and 0x22 at weights 1 and 256
            assert_eq!(offset, 0x2211);
            // size bytes 0x44 at weight 1 and 0x55 at weight 256
            assert_eq!(size, 0x5544);
        },
        DeltaInstruction::Add { .. } => panic!("expected a copy"),
    }
    assert_eq!(end, 5);
}

#[test]
fn instruction_parse_reads_add_count() {
    let buf = vec![0x07u8, 1, 2, 3];
    let (ins, end) = DeltaInstruction::parse(&buf, 0).unwrap();
    assert!(matches!(ins, DeltaInstruction::Add { size: 7 }));
    assert_eq!(end, 1);
}

#[test]
fn instruction_parse_rejects_zero_add() {
    assert_eq!(DeltaInstruction::parse(&vec![0u8], 0).unwrap_err(), GitError::Format);
}
