//! Packet-line and varint codec behaviour on concrete values.

use git_starter_rust::pkt::Pkt;
use git_starter_rust::varint::{decode_type_size, encode_type_size, encode_varint, read_var_int};
use git_starter_rust::GitError;

fn bytes(s: &str) -> Vec<u8> {
    s.as_bytes().to_vec()
}

#[test]
fn pkt_data_round_trip() {
    let payload = bytes("hello, world");
    let encoded = Pkt::data(payload.clone()).as_bytes();
    assert_eq!(&encoded[0..4], b"0010");
    let (decoded, end) = Pkt::read_line(&encoded, 0).unwrap();
    match decoded {
        Pkt::Data(d) => assert_eq!(d, payload),
        Pkt::Flush => panic!("expected a data line"),
    }
    assert_eq!(end, encoded.len());
}

#[test]
fn pkt_flush_round_trip() {
    let encoded = Pkt::flush().as_bytes();
    assert_eq!(encoded, bytes("0000"));
    let (decoded, end) = Pkt::read_line(&encoded, 0).unwrap();
    assert!(decoded.is_flush());
    assert_eq!(end, 4);
}

#[test]
fn pkt_empty_data_line() {
    // a length of exactly 4 carries an empty payload
    let encoded = bytes("0004");
    let (decoded, end) = Pkt::read_line(&encoded, 0).unwrap();
    match decoded {
        Pkt::Data(d) => assert!(d.is_empty()),
        Pkt::Flush => panic!("expected a data line"),
    }
    assert_eq!(end, 4);
}

#[test]
fn pkt_rejects_bad_hex_prefix() {
    let encoded = bytes("00zzabcd");
    assert_eq!(Pkt::read_line(&encoded, 0).unwrap_err(), GitError::Protocol);
}

#[test]
fn pkt_rejects_short_length() {
    // lengths 1..3 point inside their own prefix
    let encoded = bytes("0003");
    assert_eq!(Pkt::read_line(&encoded, 0).unwrap_err(), GitError::Protocol);
}

#[test]
fn pkt_rejects_truncated_payload() {
    let encoded = bytes("0010shor");
    assert_eq!(Pkt::read_line(&encoded, 0).unwrap_err(), GitError::Protocol);
}

#[test]
fn pkt_rejects_truncated_prefix() {
    let encoded = bytes("00");
    assert_eq!(Pkt::read_line(&encoded, 0).unwrap_err(), GitError::Protocol);
}

#[test]
fn pkt_large_payload_round_trip() {
    let payload = vec![7u8; 65516];
    let encoded = Pkt::data(payload.clone()).as_bytes();
    assert_eq!(&encoded[0..4], b"fff0");
    let (decoded, end) = Pkt::read_line(&encoded, 0).unwrap();
    match decoded {
        Pkt::Data(d) => assert_eq!(d, payload),
        Pkt::Flush => panic!("expected a data line"),
    }
    assert_eq!(end, 65520);
}

#[test]
fn varint_round_trip_small_and_large() {
    let values: Vec<u64> = vec![0, 1, 127, 128, 300, 16383, 16384, (1u64 << 35) - 1, u64::MAX];
    for v in values {
        let enc = encode_varint(v);
        let (back, end) = read_var_int(&enc, 0).unwrap();
        assert_eq!(back, v);
        assert_eq!(end, enc.len());
    }
}

#[test]
fn varint_exact_bytes() {
    assert_eq!(encode_varint(0), vec![0]);
    assert_eq!(encode_varint(127), vec![127]);
    // 300 = 0b10_0101100: low group 44, high group 2
    assert_eq!(encode_varint(300), vec![0b1010_1100, 0b0000_0010]);
    let (v, end) = read_var_int(&vec![0b1010_1100, 0b0000_0010], 0).unwrap();
    assert_eq!((v, end), (300, 2));
}

#[test]
fn varint_rejects_truncated_run() {
    // a lone continuation byte has no terminator
    assert_eq!(read_var_int(&vec![0x80], 0).unwrap_err(), GitError::Format);
    assert_eq!(read_var_int(&vec![], 0).unwrap_err(), GitError::Format);
}

#[test]
fn varint_rejects_oversized_value() {
    // eleven groups of all-ones overflow 64 bits
    let enc = vec![0xffu8, 0xff, 0xff, 0xff, 0xff, 0xff, 0xff, 0xff, 0xff, 0xff, 0x7f];
    assert_eq!(read_var_int(&enc, 0).unwrap_err(), GitError::Format);
}

#[test]
fn type_size_round_trip_all_types() {
    for t in 0u8..8 {
        let sizes: Vec<u64> = vec![0, 5, 15, 16, 1000, (1u64 << 35) - 1];
        for s in sizes {
            let enc = encode_type_size(t, s);
            let (bt, bs, end) = decode_type_size(&enc, 0).unwrap();
            assert_eq!((bt, bs), (t, s));
            assert_eq!(end, enc.len());
        }
    }
}

#[test]
fn type_size_exact_bytes() {
    // type 3, size 5 fits one byte: 0b0011_0101
    assert_eq!(encode_type_size(3, 5), vec![0x35]);
    // type 1, size 1000: first byte 128+16+8, then 62
    assert_eq!(encode_type_size(1, 1000), vec![152, 62]);
    let (t, s, end) = decode_type_size(&vec![152, 62], 0).unwrap();
    assert_eq!((t, s, end), (1, 1000, 2));
}

#[test]
fn type_size_decodes_mid_buffer() {
    let buf = vec![0xAAu8, 0x35, 0x99];
    let (t, s, end) = decode_type_size(&buf, 1).unwrap();
    assert_eq!((t, s, end), (3, 5, 2));
}
