//! The transfer-protocol conversations, as pure byte codecs: the ref
//! advertisement, the pack request, and the side-band response.  The
//! network calls themselves live outside the library and hand these
//! functions complete response bodies.

use vstd::prelude::*;

use crate::bytesutil::{all_hex, copy_range, find_byte, find_byte_from, hex_of, push_all, starts_with, unhex_of};
use crate::commit::{trim_ascii_ws, trim_ws};
use crate::oid::ObjectId;
use crate::pkt::{flush_bytes, pkt_decode, pkt_encode_data, Pkt, PktModel};
use crate::GitError;

verus! {

/// The mathematical form of an advertised ref.
pub struct RefModel {
    pub oid: Seq<u8>,
    pub name: Seq<u8>,
}

/// An advertised ref: a 20-byte id and a name.
#[derive(Debug)]
pub struct Ref {
    pub oid: ObjectId,
    pub name: Vec<u8>,
}

impl View for Ref {
    type V = RefModel;

    open spec fn view(&self) -> RefModel {
        RefModel { oid: self.oid@, name: self.name@ }
    }
}

/// `"refs/tags"`.
pub open spec fn refs_tags_prefix() -> Seq<u8> {
    seq![114u8, 101u8, 102u8, 115u8, 47u8, 116u8, 97u8, 103u8, 115u8]
}

/// The `"^{}"` marker of a peeled tag.
pub open spec fn peel_suffix() -> Seq<u8> {
    seq![94u8, 123u8, 125u8]
}

/// True when the name marks a tag.
pub open spec fn is_tag_name(name: Seq<u8>) -> bool {
    starts_with(name, refs_tags_prefix())
}

/// True when the name marks a peeled tag.
pub open spec fn is_peeled_name(name: Seq<u8>) -> bool {
    name.len() >= 3 && name.skip(name.len() - 3) == peel_suffix()
}

impl Ref {
    /// True when this ref lives under the tag namespace.
    pub fn is_tag(&self) -> (r: bool)
        ensures
            r == is_tag_name(self.name@),
    {
        let mut p: Vec<u8> = Vec::new();
        p.push(114);
        p.push(101);
        p.push(102);
        p.push(115);
        p.push(47);
        p.push(116);
        p.push(97);
        p.push(103);
        p.push(115);
        proof {
            assert(p@ =~= refs_tags_prefix());
        }
        crate::bytesutil::bytes_start_with(&self.name, &p)
    }

    /// True when this is the peeled form of an annotated tag.
    pub fn is_peeled_tag(&self) -> (r: bool)
        ensures
            r == is_peeled_name(self.name@),
    {
        if self.name.len() < 3 {
            return false;
        }
        let n = self.name.len();
        let r = self.name[n - 3] == 94 && self.name[n - 2] == 123 && self.name[n - 1] == 125;
        proof {
            if r {
                assert(self.name@.skip(n - 3) =~= peel_suffix());
            } else {
                assert(self.name@.skip(n - 3) != peel_suffix()) by {
                    if self.name@.skip(n - 3) == peel_suffix() {
                        assert(self.name@.skip(n - 3)[0] == 94 && self.name@.skip(n - 3)[1] == 123
                            && self.name@.skip(n - 3)[2] == 125);
                    }
                }
            }
        }
        r
    }

    /// An independent copy.
    pub fn dup(&self) -> (r: Ref)
        ensures
            r@ == self@,
    {
        Ref { oid: self.oid.dup(), name: crate::bytesutil::copy_bytes(&self.name) }
    }
}

/// The views of a run of refs.
pub open spec fn ref_views(rs: Seq<Ref>) -> Seq<RefModel> {
    rs.map_values(|r: Ref| r@)
}

/// The views of a run of byte strings.
pub open spec fn vec_views(vs: Seq<Vec<u8>>) -> Seq<Seq<u8>> {
    vs.map_values(|v: Vec<u8>| v@)
}

/// The comment line opening a ref discovery response.
pub open spec fn service_preamble() -> Seq<u8> {
    seq![35u8, 32u8, 115u8, 101u8, 114u8, 118u8, 105u8, 99u8, 101u8, 61u8, 103u8, 105u8, 116u8, 45u8, 117u8, 112u8, 108u8, 111u8, 97u8, 100u8, 45u8, 112u8, 97u8, 99u8, 107u8]
}

/// `"want "`.
pub open spec fn want_prefix() -> Seq<u8> {
    seq![119u8, 97u8, 110u8, 116u8, 32u8]
}

/// The capability list sent with a want — side-band data, no offset
/// deltas.
pub open spec fn want_caps() -> Seq<u8> {
    seq![32u8, 109u8, 117u8, 108u8, 116u8, 105u8, 95u8, 97u8, 99u8, 107u8, 32u8, 115u8, 105u8, 100u8, 101u8, 45u8, 98u8, 97u8, 110u8, 100u8, 45u8, 54u8, 52u8, 107u8, 10u8]
}

/// `"done\n"`.
pub open spec fn done_line() -> Seq<u8> {
    seq![100u8, 111u8, 110u8, 101u8, 10u8]
}

/// `"NAK"`.
pub open spec fn nak_prefix() -> Seq<u8> {
    seq![78u8, 65u8, 75u8]
}

/// The whole body of a pack request for `id`: a want line with the
/// capability list, a flush, and a done line.
pub open spec fn pack_request_bytes(id: Seq<u8>) -> Seq<u8> {
    pkt_encode_data(want_prefix() + hex_of(id) + want_caps()) + flush_bytes() + pkt_encode_data(
        done_line(),
    )
}

/// Splits `s` at every occurrence of `b`; the pieces keep their order.
pub open spec fn split_byte(s: Seq<u8>, b: u8) -> Seq<Seq<u8>>
    decreases s.len(),
{
    match find_byte(s, b) {
        None => seq![s],
        Some(i) => if i + 1 > s.len() {
            seq![s]
        } else {
            seq![s.take(i as int)] + split_byte(s.skip(i + 1 as int), b)
        },
    }
}

/// The capability pieces of a capability list: split at spaces, each
/// piece trimmed.
pub open spec fn caps_of(s: Seq<u8>) -> Seq<Seq<u8>> {
    split_byte(s, 32).map_values(|p: Seq<u8>| trim_ws(p))
}

/// Decodes one advertised ref line: 40 hex digits, a space, then the
/// name — on the first line the name may carry a NUL-separated
/// capability list, which is consumed here and returned separately.
pub open spec fn ref_line_dec(line: Seq<u8>, first: bool) -> Result<
    (Seq<Seq<u8>>, RefModel),
    GitError,
> {
    if line.len() < 41 {
        Err(GitError::Protocol)
    } else if !all_hex(line.take(40)) {
        Err(GitError::Protocol)
    } else if line[40] != 32 {
        Err(GitError::Protocol)
    } else {
        let oid = unhex_of(line.take(40));
        let rest = line.skip(41);
        match find_byte(rest, 0) {
            Some(i) => {
                let caps = if first {
                    caps_of(rest.skip(i + 1 as int))
                } else {
                    Seq::empty()
                };
                Ok((caps, RefModel { oid, name: trim_ws(rest.take(i as int)) }))
            },
            None => Ok((Seq::empty(), RefModel { oid, name: trim_ws(rest) })),
        }
    }
}

/// Decodes advertised ref lines from `pos` until a flush.
pub open spec fn refs_dec(s: Seq<u8>, pos: nat, first: bool) -> Result<
    (Seq<Seq<u8>>, Seq<RefModel>),
    GitError,
>
    decreases s.len() - pos,
{
    match pkt_decode(s.skip(pos as int)) {
        Err(e) => Err(e),
        Ok((PktModel::Flush, _c)) => Ok((Seq::empty(), Seq::empty())),
        Ok((PktModel::Data(line), c)) => if c < 4 || pos + c > s.len() {
            Err(GitError::Protocol)
        } else {
            match ref_line_dec(line, first) {
                Err(e) => Err(e),
                Ok((caps, rm)) => match refs_dec(s, pos + c, false) {
                    Err(e) => Err(e),
                    Ok((caps2, refs2)) => Ok((caps + caps2, seq![rm] + refs2)),
                },
            }
        },
    }
}

/// Decodes a whole ref discovery response: the service comment line, a
/// flush, then advertised refs until a second flush.
pub open spec fn advert_dec(s: Seq<u8>) -> Result<(Seq<Seq<u8>>, Seq<RefModel>), GitError> {
    match pkt_decode(s) {
        Err(e) => Err(e),
        Ok((PktModel::Flush, _)) => Err(GitError::Protocol),
        Ok((PktModel::Data(first), c)) => if !starts_with(first, service_preamble()) {
            Err(GitError::Protocol)
        } else if c > s.len() {
            Err(GitError::Protocol)
        } else {
            match pkt_decode(s.skip(c as int)) {
                Err(e) => Err(e),
                Ok((PktModel::Data(_), _)) => Err(GitError::Protocol),
                Ok((PktModel::Flush, c2)) => refs_dec(s, c + c2, true),
            }
        },
    }
}

/// Demultiplexes a pack response from `pos` until a flush: lines opening
/// with `NAK` are discarded, channel 1 bytes are the packfile, channel 2
/// lines are progress text, anything else is a protocol violation.
pub open spec fn demux_dec(s: Seq<u8>, pos: nat) -> Result<(Seq<u8>, Seq<Seq<u8>>), GitError>
    decreases s.len() - pos,
{
    match pkt_decode(s.skip(pos as int)) {
        Err(e) => Err(e),
        Ok((PktModel::Flush, _c)) => Ok((Seq::empty(), Seq::empty())),
        Ok((PktModel::Data(line), c)) => if c < 4 || pos + c > s.len() {
            Err(GitError::Protocol)
        } else if starts_with(line, nak_prefix()) {
            demux_dec(s, pos + c)
        } else if line.len() == 0 {
            Err(GitError::Protocol)
        } else if line[0] == 1 {
            match demux_dec(s, pos + c) {
                Err(e) => Err(e),
                Ok((p, pr)) => Ok((line.skip(1) + p, pr)),
            }
        } else if line[0] == 2 {
            match demux_dec(s, pos + c) {
                Err(e) => Err(e),
                Ok((p, pr)) => Ok((p, seq![line.skip(1)] + pr)),
            }
        } else {
            Err(GitError::Protocol)
        },
    }
}

/// The bytes of `service_preamble`.
fn service_preamble_bytes() -> (r: Vec<u8>)
    ensures
        r@ == service_preamble(),
{
    let mut r: Vec<u8> = Vec::new();
    r.push(35);
    r.push(32);
    r.push(115);
    r.push(101);
    r.push(114);
    r.push(118);
    r.push(105);
    r.push(99);
    r.push(101);
    r.push(61);
    r.push(103);
    r.push(105);
    r.push(116);
    r.push(45);
    r.push(117);
    r.push(112);
    r.push(108);
    r.push(111);
    r.push(97);
    r.push(100);
    r.push(45);
    r.push(112);
    r.push(97);
    r.push(99);
    r.push(107);
    proof {
        assert(r@ =~= service_preamble());
    }
    r
}

/// The bytes of `want_prefix`.
fn want_prefix_bytes() -> (r: Vec<u8>)
    ensures
        r@ == want_prefix(),
{
    let mut r: Vec<u8> = Vec::new();
    r.push(119);
    r.push(97);
    r.push(110);
    r.push(116);
    r.push(32);
    proof {
        assert(r@ =~= want_prefix());
    }
    r
}

/// The bytes of `want_caps`.
fn want_caps_bytes() -> (r: Vec<u8>)
    ensures
        r@ == want_caps(),
{
    let mut r: Vec<u8> = Vec::new();
    r.push(32);
    r.push(109);
    r.push(117);
    r.push(108);
    r.push(116);
    r.push(105);
    r.push(95);
    r.push(97);
    r.push(99);
    r.push(107);
    r.push(32);
    r.push(115);
    r.push(105);
    r.push(100);
    r.push(101);
    r.push(45);
    r.push(98);
    r.push(97);
    r.push(110);
    r.push(100);
    r.push(45);
    r.push(54);
    r.push(52);
    r.push(107);
    r.push(10);
    proof {
        assert(r@ =~= want_caps());
    }
    r
}

/// The bytes of `done_line`.
fn done_line_bytes() -> (r: Vec<u8>)
    ensures
        r@ == done_line(),
{
    let mut r: Vec<u8> = Vec::new();
    r.push(100);
    r.push(111);
    r.push(110);
    r.push(101);
    r.push(10);
    proof {
        assert(r@ =~= done_line());
    }
    r
}

/// The bytes of `nak_prefix`.
fn nak_prefix_bytes() -> (r: Vec<u8>)
    ensures
        r@ == nak_prefix(),
{
    let mut r: Vec<u8> = Vec::new();
    r.push(78);
    r.push(65);
    r.push(75);
    proof {
        assert(r@ =~= nak_prefix());
    }
    r
}


/// Builds the body of a pack request for `id`.
pub fn build_pack_request(id: &ObjectId) -> (r: Vec<u8>)
    requires
        id.wf(),
    ensures
        r@ == pack_request_bytes(id@),
{
    let mut want_line = want_prefix_bytes();
    let id_hex = id.to_hex();
    push_all(&mut want_line, &id_hex);
    let caps = want_caps_bytes();
    push_all(&mut want_line, &caps);
    proof {
        assert(want_line@ =~= want_prefix() + hex_of(id@) + want_caps());
    }
    let mut r = Pkt::data(want_line).as_bytes();
    let flush = Pkt::flush().as_bytes();
    push_all(&mut r, &flush);
    let done = Pkt::data(done_line_bytes()).as_bytes();
    push_all(&mut r, &done);
    proof {
        assert(r@ =~= pack_request_bytes(id@));
    }
    r
}

/// Splits at spaces and trims each piece, matching `caps_of`.
fn split_caps(v: &Vec<u8>, pos: usize) -> (r: Vec<Vec<u8>>)
    requires
        pos <= v@.len(),
    ensures
        vec_views(r@) == caps_of(v@.skip(pos as int)),
    decreases v@.len() - pos,
{
    let vlen = v.len();
    match find_byte_from(v, pos, 32) {
        None => {
            let piece = copy_range(v, pos, vlen);
            proof {
                assert(piece@ =~= v@.skip(pos as int));
            }
            let mut r: Vec<Vec<u8>> = Vec::new();
            r.push(trim_ascii_ws(&piece));
            proof {
                assert(vec_views(r@) =~= caps_of(v@.skip(pos as int)));
            }
            r
        },
        Some(i) => {
            let piece = copy_range(v, pos, i);
            proof {
                assert(piece@ =~= v@.skip(pos as int).take(i - pos));
            }
            let head = trim_ascii_ws(&piece);
            let mut rest = split_caps(v, i + 1);
            let ghost rest_views = vec_views(rest@);
            let mut r: Vec<Vec<u8>> = Vec::new();
            r.push(head);
            r.append(&mut rest);
            proof {
                assert(vec_views(r@) =~= seq![head@] + rest_views);
                assert(v@.skip(pos as int).skip(i - pos + 1) =~= v@.skip(i + 1));
                assert(vec_views(r@) =~= caps_of(v@.skip(pos as int)));
            }
            r
        },
    }
}

/// Parses a whole ref discovery response into the capability list of the
/// first advertised line and the refs in advertisement order.
pub fn parse_ref_advertisement(body: &Vec<u8>) -> (r: Result<(Vec<Vec<u8>>, Vec<Ref>), GitError>)
    ensures
        match r {
            Ok((caps, refs)) => advert_dec(body@) == Ok::<(Seq<Seq<u8>>, Seq<RefModel>), GitError>(
                (vec_views(caps@), ref_views(refs@)),
            ),
            Err(e) => advert_dec(body@) == Err::<(Seq<Seq<u8>>, Seq<RefModel>), GitError>(e),
        },
{
    proof {
        assert(body@.skip(0) =~= body@);
    }
    let (first_pkt, c) = match Pkt::read_line(body, 0) {
        Ok(x) => x,
        Err(e) => {
            return Err(e);
        },
    };
    let first = match first_pkt {
        Pkt::Flush => {
            return Err(GitError::Protocol);
        },
        Pkt::Data(d) => d,
    };
    let preamble = service_preamble_bytes();
    if !crate::bytesutil::bytes_start_with(&first, &preamble) {
        return Err(GitError::Protocol);
    }
    let (second_pkt, c2) = match Pkt::read_line(body, c) {
        Ok(x) => x,
        Err(e) => {
            return Err(e);
        },
    };
    match second_pkt {
        Pkt::Data(_) => {
            return Err(GitError::Protocol);
        },
        Pkt::Flush => {},
    }
    parse_ref_lines(body, c2)
}

/// Parses advertised ref lines from `pos` until a flush.
fn parse_ref_lines(body: &Vec<u8>, start: usize) -> (r: Result<(Vec<Vec<u8>>, Vec<Ref>), GitError>)
    requires
        start <= body@.len(),
    ensures
        match r {
            Ok((caps, refs)) => refs_dec(body@, start as nat, true) == Ok::<
                (Seq<Seq<u8>>, Seq<RefModel>),
                GitError,
            >((vec_views(caps@), ref_views(refs@))),
            Err(e) => refs_dec(body@, start as nat, true) == Err::<
                (Seq<Seq<u8>>, Seq<RefModel>),
                GitError,
            >(e),
        },
{
    let mut caps: Vec<Vec<u8>> = Vec::new();
    let mut refs: Vec<Ref> = Vec::new();
    let mut pos: usize = start;
    let mut first: bool = true;
    proof {
        assert(vec_views(caps@) =~= Seq::<Seq<u8>>::empty());
        assert(ref_views(refs@) =~= Seq::<RefModel>::empty());
    }
    loop
        invariant
            start <= pos <= body@.len(),
            first ==> pos == start && caps@.len() == 0 && refs@.len() == 0,
            match refs_dec(body@, pos as nat, first) {
                Err(e) => refs_dec(body@, start as nat, true) == Err::<
                    (Seq<Seq<u8>>, Seq<RefModel>),
                    GitError,
                >(e),
                Ok((cs, rs)) => refs_dec(body@, start as nat, true) == Ok::<
                    (Seq<Seq<u8>>, Seq<RefModel>),
                    GitError,
                >((vec_views(caps@) + cs, ref_views(refs@) + rs)),
            },
        ensures
            refs_dec(body@, start as nat, true) == Ok::<(Seq<Seq<u8>>, Seq<RefModel>), GitError>(
                (vec_views(caps@), ref_views(refs@)),
            ),
        decreases body@.len() - pos,
    {
        let (pkt, c) = match Pkt::read_line(body, pos) {
            Ok(x) => x,
            Err(e) => {
                return Err(e);
            },
        };
        let line = match pkt {
            Pkt::Flush => {
                proof {
                    assert(vec_views(caps@) + Seq::<Seq<u8>>::empty() =~= vec_views(caps@));
                    assert(ref_views(refs@) + Seq::<RefModel>::empty() =~= ref_views(refs@));
                }
                break ;
            },
            Pkt::Data(d) => d,
        };
        if line.len() < 41 {
            return Err(GitError::Protocol);
        }
        let hex_part = copy_range(&line, 0, 40);
        proof {
            assert(hex_part@ =~= line@.take(40));
        }
        let oid = match ObjectId::from_hex(&hex_part) {
            Ok(oid) => oid,
            Err(_) => {
                return Err(GitError::Protocol);
            },
        };
        if line[40] != 32 {
            return Err(GitError::Protocol);
        }
        let rest = copy_range(&line, 41, line.len());
        proof {
            assert(rest@ =~= line@.skip(41));
        }
        let ghost prev_caps = caps@;
        let ghost prev_refs = refs@;
        let name = match find_byte_from(&rest, 0, 0) {
            Some(i) => {
                proof {
                    assert(rest@.skip(0) =~= rest@);
                }
                if first {
                    let mut new_caps = split_caps(&rest, i + 1);
                    caps.append(&mut new_caps);
                    proof {
                        assert(vec_views(caps@) =~= caps_of(rest@.skip(i + 1)));
                    }
                }
                let name_part = copy_range(&rest, 0, i);
                proof {
                    assert(name_part@ =~= rest@.take(i as int));
                }
                trim_ascii_ws(&name_part)
            },
            None => {
                proof {
                    assert(rest@.skip(0) =~= rest@);
                }
                trim_ascii_ws(&rest)
            },
        };
        let new_ref = Ref { oid, name };
        let ghost rm = new_ref@;
        refs.push(new_ref);
        proof {
            assert(ref_views(refs@) =~= ref_views(prev_refs) + seq![rm]);
            if refs_dec(body@, c as nat, false) is Ok {
                let (cs, rs) = refs_dec(body@, c as nat, false)->Ok_0;
                assert(ref_views(prev_refs) + (seq![rm] + rs) =~= ref_views(refs@) + rs);
                if first {
                    assert(vec_views(prev_caps) =~= Seq::<Seq<u8>>::empty());
                    assert(vec_views(prev_caps) + (vec_views(caps@) + cs) =~= vec_views(caps@)
                        + cs);
                } else {
                    assert(vec_views(caps@) == vec_views(prev_caps));
                    assert(vec_views(prev_caps) + (Seq::<Seq<u8>>::empty() + cs) =~= vec_views(
                        caps@,
                    ) + cs);
                }
            }
        }
        pos = c;
        first = false;
    }
    Ok((caps, refs))
}

/// Demultiplexes a pack response body into packfile bytes and progress
/// lines.
pub fn parse_pack_response(body: &Vec<u8>) -> (r: Result<(Vec<u8>, Vec<Vec<u8>>), GitError>)
    ensures
        match r {
            Ok((pack, progress)) => demux_dec(body@, 0) == Ok::<(Seq<u8>, Seq<Seq<u8>>), GitError>(
                (pack@, vec_views(progress@)),
            ),
            Err(e) => demux_dec(body@, 0) == Err::<(Seq<u8>, Seq<Seq<u8>>), GitError>(e),
        },
{
    let mut pack: Vec<u8> = Vec::new();
    let mut progress: Vec<Vec<u8>> = Vec::new();
    let mut pos: usize = 0;
    proof {
        assert(vec_views(progress@) =~= Seq::<Seq<u8>>::empty());
    }
    loop
        invariant
            pos <= body@.len(),
            match demux_dec(body@, pos as nat) {
                Err(e) => demux_dec(body@, 0) == Err::<(Seq<u8>, Seq<Seq<u8>>), GitError>(e),
                Ok((p, pr)) => demux_dec(body@, 0) == Ok::<(Seq<u8>, Seq<Seq<u8>>), GitError>(
                    (pack@ + p, vec_views(progress@) + pr),
                ),
            },
        ensures
            demux_dec(body@, 0) == Ok::<(Seq<u8>, Seq<Seq<u8>>), GitError>(
                (pack@, vec_views(progress@)),
            ),
        decreases body@.len() - pos,
    {
        let (pkt, c) = match Pkt::read_line(body, pos) {
            Ok(x) => x,
            Err(e) => {
                return Err(e);
            },
        };
        let line = match pkt {
            Pkt::Flush => {
                proof {
                    assert(pack@ + Seq::<u8>::empty() =~= pack@);
                    assert(vec_views(progress@) + Seq::<Seq<u8>>::empty() =~= vec_views(
                        progress@,
                    ));
                }
                break ;
            },
            Pkt::Data(d) => d,
        };
        let nak = nak_prefix_bytes();
        if crate::bytesutil::bytes_start_with(&line, &nak) {
            pos = c;
            continue ;
        }
        if line.len() == 0 {
            return Err(GitError::Protocol);
        }
        let channel = line[0];
        if channel == 1 {
            let ghost prev = pack@;
            let payload = copy_range(&line, 1, line.len());
            proof {
                assert(payload@ =~= line@.skip(1));
            }
            push_all(&mut pack, &payload);
            proof {
                if demux_dec(body@, c as nat) is Ok {
                    let (p, pr) = demux_dec(body@, c as nat)->Ok_0;
                    assert(prev + (line@.skip(1) + p) =~= pack@ + p);
                }
            }
            pos = c;
        } else if channel == 2 {
            let ghost prevp = progress@;
            let payload = copy_range(&line, 1, line.len());
            proof {
                assert(payload@ =~= line@.skip(1));
            }
            let ghost pm = payload@;
            progress.push(payload);
            proof {
                assert(vec_views(progress@) =~= vec_views(prevp) + seq![pm]);
                if demux_dec(body@, c as nat) is Ok {
                    let (p, pr) = demux_dec(body@, c as nat)->Ok_0;
                    assert(vec_views(prevp) + (seq![pm] + pr) =~= vec_views(progress@) + pr);
                }
            }
            pos = c;
        } else {
            return Err(GitError::Protocol);
        }
    }
    Ok((pack, progress))
}

} // verus!
