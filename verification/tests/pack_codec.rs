//! The packfile decoder and the transfer-protocol codecs on canned wire
//! bytes.

use std::io::Write;

use git_starter_rust::client::{build_pack_request, parse_pack_response, parse_ref_advertisement};
use git_starter_rust::oid::ObjectId;
use git_starter_rust::pack::{PackFile, PackHeader, PackObject, PackObjectType};
use git_starter_rust::pkt::Pkt;
use git_starter_rust::varint::encode_type_size;
use git_starter_rust::GitError;

fn bytes(s: &str) -> Vec<u8> {
    s.as_bytes().to_vec()
}

fn zip(data: &[u8]) -> Vec<u8> {
    let mut enc = flate2::write::ZlibEncoder::new(Vec::new(), flate2::Compression::fast());
    enc.write_all(data).unwrap();
    enc.finish().unwrap()
}

fn pack_header(version: u32, count: u32) -> Vec<u8> {
    let mut p = bytes("PACK");
    p.extend(version.to_be_bytes());
    p.extend(count.to_be_bytes());
    p
}

#[test]
fn header_parse_reads_version_and_count() {
    let (h, end) = PackHeader::parse(&pack_header(2, 7), 0).unwrap();
    assert_eq!(h.version, 2);
    assert_eq!(h.num_objects, 7);
    assert_eq!(h.sig, bytes("PACK"));
    assert_eq!(end, 12);
    let (h3, _) = PackHeader::parse(&pack_header(3, 0), 0).unwrap();
    assert_eq!(h3.version, 3);
}

#[test]
fn header_rejects_wrong_signature() {
    let mut p = bytes("JUNK");
    p.extend(2u32.to_be_bytes());
    p.extend(0u32.to_be_bytes());
    assert_eq!(PackFile::parse(&p).unwrap_err(), GitError::Format);
}

#[test]
fn header_rejects_versions_one_and_four() {
    assert_eq!(PackFile::parse(&pack_header(1, 0)).unwrap_err(), GitError::Format);
    assert_eq!(PackFile::parse(&pack_header(4, 0)).unwrap_err(), GitError::Format);
}

#[test]
fn header_rejects_truncated_input() {
    assert_eq!(PackFile::parse(&bytes("PAC")).unwrap_err(), GitError::Format);
}

#[test]
fn empty_pack_decodes_to_no_objects() {
    let pf = PackFile::parse(&pack_header(2, 0)).unwrap();
    assert_eq!(pf.header.num_objects, 0);
    assert!(pf.objects.is_empty());
}

#[test]
fn blob_object_decodes_through_decompression() {
    let content = bytes("some file content");
    let mut p = pack_header(2, 1);
    p.extend(encode_type_size(3, content.len() as u64));
    p.extend(zip(&content));
    let pf = PackFile::parse(&p).unwrap();
    assert_eq!(pf.objects.len(), 1);
    assert!(matches!(pf.objects[0].object_type, PackObjectType::ObjBlob));
    assert_eq!(pf.objects[0].data, content);
}

#[test]
fn ref_delta_object_carries_its_base_id() {
    let payload = vec![1u8, 2, 3];
    let base = vec![0xaau8; 20];
    let mut p = pack_header(2, 1);
    p.extend(encode_type_size(7, payload.len() as u64));
    p.extend(base.clone());
    p.extend(zip(&payload));
    let pf = PackFile::parse(&p).unwrap();
    match &pf.objects[0].object_type {
        PackObjectType::ObjRefDelta(oid) => assert_eq!(oid.as_bytes(), &base),
        _ => panic!("expected a ref delta"),
    }
    assert_eq!(pf.objects[0].data, payload);
}

#[test]
fn unknown_object_type_is_rejected() {
    let mut p = pack_header(2, 1);
    p.extend(encode_type_size(5, 3));
    p.extend(zip(&[1, 2, 3]));
    assert_eq!(PackFile::parse(&p).unwrap_err(), GitError::Format);
}

#[test]
fn corrupt_compressed_payload_is_rejected() {
    let mut p = pack_header(2, 1);
    p.extend(encode_type_size(3, 3));
    p.extend(vec![0xffu8, 0xff, 0xff]);
    assert_eq!(PackFile::parse(&p).unwrap_err(), GitError::Format);
}

#[test]
fn object_parse_reports_the_cursor() {
    let content = bytes("x");
    let mut buf = encode_type_size(3, 1);
    let zipped = zip(&content);
    buf.extend(zipped.clone());
    buf.extend(bytes("rest"));
    let (obj, end) = PackObject::parse(&buf, 0).unwrap();
    assert_eq!(obj.data, content);
    assert_eq!(end, buf.len() - 4);
}

#[test]
fn pack_request_has_the_exact_wire_form() {
    let oid = ObjectId::from_hex(&bytes("aaaaaaaaaaaaaaaaaaaaaaaaaaaaaaaaaaaaaaaa")).unwrap();
    let req = build_pack_request(&oid);
    let expected = "004awant aaaaaaaaaaaaaaaaaaaaaaaaaaaaaaaaaaaaaaaa multi_ack side-band-64k\n\
                    00000009done\n";
    assert_eq!(req, bytes(expected));
}

fn advert_line(id: &str, name: &str) -> Vec<u8> {
    Pkt::data(bytes(&format!("{} {}\n", id, name))).as_bytes()
}

#[test]
fn ref_advertisement_parses_caps_and_refs() {
    let id = "aaaaaaaaaaaaaaaaaaaaaaaaaaaaaaaaaaaaaaaa";
    let mut body = Pkt::data(bytes("# service=git-upload-pack\n")).as_bytes();
    body.extend(Pkt::flush().as_bytes());
    body.extend(
        Pkt::data(bytes(&format!("{} HEAD\0multi_ack side-band-64k\n", id))).as_bytes(),
    );
    body.extend(advert_line(id, "refs/heads/main"));
    body.extend(Pkt::flush().as_bytes());

    let (caps, refs) = parse_ref_advertisement(&body).unwrap();
    assert_eq!(caps, vec![bytes("multi_ack"), bytes("side-band-64k")]);
    assert_eq!(refs.len(), 2);
    assert_eq!(refs[0].name, bytes("HEAD"));
    assert_eq!(refs[1].name, bytes("refs/heads/main"));
    assert_eq!(refs[0].oid.to_hex(), bytes(id));
    assert!(refs[0].oid.same_as(&refs[1].oid));
}

#[test]
fn ref_advertisement_rejects_a_missing_flush() {
    let id = "aaaaaaaaaaaaaaaaaaaaaaaaaaaaaaaaaaaaaaaa";
    let mut body = Pkt::data(bytes("# service=git-upload-pack\n")).as_bytes();
    // the second line must be a flush, not another data line
    body.extend(advert_line(id, "HEAD"));
    body.extend(Pkt::flush().as_bytes());
    assert_eq!(parse_ref_advertisement(&body).unwrap_err(), GitError::Protocol);
}

#[test]
fn ref_advertisement_rejects_a_wrong_preamble() {
    let mut body = Pkt::data(bytes("# service=git-receive-pack\n")).as_bytes();
    body.extend(Pkt::flush().as_bytes());
    body.extend(Pkt::flush().as_bytes());
    assert_eq!(parse_ref_advertisement(&body).unwrap_err(), GitError::Protocol);
}

#[test]
fn tag_names_are_recognized() {
    let (_, refs) = {
        let id = "bbbbbbbbbbbbbbbbbbbbbbbbbbbbbbbbbbbbbbbb";
        let mut body = Pkt::data(bytes("# service=git-upload-pack\n")).as_bytes();
        body.extend(Pkt::flush().as_bytes());
        body.extend(advert_line(id, "refs/tags/v1.0"));
        body.extend(advert_line(id, "refs/tags/v1.0^{}"));
        body.extend(Pkt::flush().as_bytes());
        parse_ref_advertisement(&body).unwrap()
    };
    assert!(refs[0].is_tag());
    assert!(!refs[0].is_peeled_tag());
    assert!(refs[1].is_tag());
    assert!(refs[1].is_peeled_tag());
}

#[test]
fn side_band_channels_are_demultiplexed() {
    let mut line1 = vec![1u8];
    line1.extend(bytes("PACKdata"));
    let mut line2 = vec![2u8];
    line2.extend(bytes("counting objects"));
    let mut line3 = vec![1u8];
    line3.extend(bytes("more"));

    let mut body = Pkt::data(bytes("NAK\n")).as_bytes();
    body.extend(Pkt::data(line1).as_bytes());
    body.extend(Pkt::data(line2).as_bytes());
    body.extend(Pkt::data(line3).as_bytes());
    body.extend(Pkt::flush().as_bytes());

    let (pack, progress) = parse_pack_response(&body).unwrap();
    assert_eq!(pack, bytes("PACKdatamore"));
    assert_eq!(progress, vec![bytes("counting objects")]);
}

#[test]
fn unknown_side_band_channel_is_rejected() {
    let mut line = vec![3u8];
    line.extend(bytes("boom"));
    let mut body = Pkt::data(line).as_bytes();
    body.extend(Pkt::flush().as_bytes());
    assert_eq!(parse_pack_response(&body).unwrap_err(), GitError::Protocol);
}
