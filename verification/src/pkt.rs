//! The packet-line codec of the smart transfer protocol.
//!
//! A data line is a 4-byte lowercase-hex length (counting itself) followed
//! by the payload; the reserved marker `0000` is a flush line.  A length
//! field never exceeds 65520, so a payload never exceeds 65516 bytes.

use vstd::prelude::*;

use crate::bytesutil::{
    all_hex, copy_range, hex_digit, hex_digit_of, hex_val, hex_val_of, is_hex_digit,
    is_hex_digit_byte, push_all,
};
use crate::GitError;

verus! {

/// The mathematical form of a packet line.
pub enum PktModel {
    Flush,
    Data(Seq<u8>),
}

/// A decoded packet line: either the flush marker or a data payload.
#[derive(Debug)]
pub enum Pkt {
    Flush,
    Data(Vec<u8>),
}

impl View for Pkt {
    type V = PktModel;

    open spec fn view(&self) -> PktModel {
        match self {
            Pkt::Flush => PktModel::Flush,
            Pkt::Data(d) => PktModel::Data(d@),
        }
    }
}

/// The four hex digits of `n`, most significant first.
pub open spec fn hex4_of(n: nat) -> Seq<u8>
    recommends
        n < 0x10000,
{
    seq![
        hex_digit((n / 4096) % 16),
        hex_digit((n / 256) % 16),
        hex_digit((n / 16) % 16),
        hex_digit(n % 16),
    ]
}

/// The value of four hex digits.
pub open spec fn hex4_val(s: Seq<u8>) -> nat
    recommends
        s.len() >= 4,
{
    hex_val(s[0]) * 4096 + hex_val(s[1]) * 256 + hex_val(s[2]) * 16 + hex_val(s[3])
}

/// The flush marker `0000`.
pub open spec fn flush_bytes() -> Seq<u8> {
    seq![48u8, 48u8, 48u8, 48u8]
}

/// The encoding of a data line: length prefix, then payload.
pub open spec fn pkt_encode_data(p: Seq<u8>) -> Seq<u8>
    recommends
        p.len() <= 65516,
{
    hex4_of((p.len() + 4) as nat) + p
}

/// The encoding of any packet line.
pub open spec fn pkt_encode(m: PktModel) -> Seq<u8> {
    match m {
        PktModel::Flush => flush_bytes(),
        PktModel::Data(p) => pkt_encode_data(p),
    }
}

/// Decodes one packet line from the front of `s`: the line and the number
/// of bytes it occupied.  Rejected are: a stream shorter than its length
/// prefix claims, a prefix that is not hex, and a length outside 4..65520.
pub open spec fn pkt_decode(s: Seq<u8>) -> Result<(PktModel, nat), GitError> {
    if s.len() < 4 {
        Err(GitError::Protocol)
    } else if s.take(4) == flush_bytes() {
        Ok((PktModel::Flush, 4nat))
    } else if !all_hex(s.take(4)) {
        Err(GitError::Protocol)
    } else {
        let n = hex4_val(s);
        if n < 4 || n > 65520 {
            Err(GitError::Protocol)
        } else if s.len() < n {
            Err(GitError::Protocol)
        } else {
            Ok((PktModel::Data(s.subrange(4, n as int)), n))
        }
    }
}

/// Four hex digits written for `n < 0x10000` read back as `n`, are hex,
/// and are `0000` only for zero.
pub proof fn lemma_hex4_round_trip(n: nat)
    requires
        n < 0x10000,
    ensures
        all_hex(hex4_of(n)),
        hex4_val(hex4_of(n)) == n,
        n != 0 ==> hex4_of(n) != flush_bytes(),
{
    let d3 = (n / 4096) % 16;
    let d2 = (n / 256) % 16;
    let d1 = (n / 16) % 16;
    let d0 = n % 16;
    crate::bytesutil::lemma_hex_digit_val(d3);
    crate::bytesutil::lemma_hex_digit_val(d2);
    crate::bytesutil::lemma_hex_digit_val(d1);
    crate::bytesutil::lemma_hex_digit_val(d0);
    assert forall|i: int| 0 <= i < hex4_of(n).len() implies is_hex_digit(#[trigger] hex4_of(n)[i])
        by {
        assert(hex4_of(n)[0] == hex_digit(d3) && hex4_of(n)[1] == hex_digit(d2) && hex4_of(n)[2]
            == hex_digit(d1) && hex4_of(n)[3] == hex_digit(d0));
    }
    assert(d3 * 4096 + d2 * 256 + d1 * 16 + d0 == n) by (nonlinear_arith)
        requires
            n < 0x10000,
            d3 == (n / 4096) % 16,
            d2 == (n / 256) % 16,
            d1 == (n / 16) % 16,
            d0 == n % 16,
    ;
    if n != 0 {
        if hex4_of(n) == flush_bytes() {
            assert(hex_digit(d3) == 48 && hex_digit(d2) == 48 && hex_digit(d1) == 48 && hex_digit(
                d0,
            ) == 48);
            assert(d3 == 0 && d2 == 0 && d1 == 0 && d0 == 0);
        }
    }
}

/// Decoding an encoded line recovers it exactly, whatever follows it in
/// the stream.
pub proof fn lemma_pkt_round_trip(m: PktModel, rest: Seq<u8>)
    requires
        m matches PktModel::Data(p) ==> p.len() <= 65516,
    ensures
        pkt_decode(pkt_encode(m) + rest) == Ok::<(PktModel, nat), GitError>((m, pkt_encode(m).len())),
{
    match m {
        PktModel::Flush => {
            let s = pkt_encode(m) + rest;
            assert(s.take(4) =~= flush_bytes());
        },
        PktModel::Data(p) => {
            let n = (p.len() + 4) as nat;
            let s = pkt_encode(m) + rest;
            lemma_hex4_round_trip(n);
            assert(s.take(4) =~= hex4_of(n));
            assert(s.take(4) != flush_bytes());
            assert(hex4_val(s) == hex4_val(hex4_of(n))) by {
                assert(s[0] == hex4_of(n)[0] && s[1] == hex4_of(n)[1] && s[2] == hex4_of(n)[2]
                    && s[3] == hex4_of(n)[3]);
            }
            assert(s.subrange(4, n as int) =~= p);
        },
    }
}

impl Pkt {
    /// Wraps a payload as a data line.
    pub fn data(data: Vec<u8>) -> (r: Pkt)
        ensures
            r@ == PktModel::Data(data@),
    {
        Pkt::Data(data)
    }

    /// The flush marker.
    pub fn flush() -> (r: Pkt)
        ensures
            r@ == PktModel::Flush,
    {
        Pkt::Flush
    }

    /// True exactly on the flush marker.
    pub fn is_flush(&self) -> (r: bool)
        ensures
            r == (self@ is Flush),
    {
        match self {
            Pkt::Flush => true,
            Pkt::Data(_) => false,
        }
    }

    /// Encodes the line for the wire.
    pub fn as_bytes(self) -> (r: Vec<u8>)
        requires
            self@ matches PktModel::Data(p) ==> p.len() <= 65516,
        ensures
            r@ == pkt_encode(self@),
    {
        match self {
            Pkt::Flush => {
                let mut r: Vec<u8> = Vec::new();
                r.push(48);
                r.push(48);
                r.push(48);
                r.push(48);
                proof {
                    assert(r@ =~= flush_bytes());
                }
                r
            },
            Pkt::Data(p) => {
                let n: usize = p.len() + 4;
                let mut r: Vec<u8> = Vec::new();
                r.push(hex_digit_of(((n / 4096) % 16) as u8));
                r.push(hex_digit_of(((n / 256) % 16) as u8));
                r.push(hex_digit_of(((n / 16) % 16) as u8));
                r.push(hex_digit_of((n % 16) as u8));
                proof {
                    assert(r@ =~= hex4_of(n as nat));
                }
                push_all(&mut r, &p);
                r
            },
        }
    }

    /// Decodes one packet line at `pos`, returning it with the position
    /// just past it.
    pub fn read_line(buf: &Vec<u8>, pos: usize) -> (r: Result<(Pkt, usize), GitError>)
        requires
            pos <= buf@.len(),
        ensures
            match r {
                Ok((pkt, end)) => {
                    &&& pos <= end <= buf@.len()
                    &&& pkt_decode(buf@.skip(pos as int)) == Ok::<(PktModel, nat), GitError>((pkt@, (end - pos) as nat))
                },
                Err(e) => pkt_decode(buf@.skip(pos as int)) == Err::<(PktModel, nat), GitError>(e),
            },
    {
        let ghost s = buf@.skip(pos as int);
        if buf.len() - pos < 4 {
            return Err(GitError::Protocol);
        }
        let b0 = buf[pos];
        let b1 = buf[pos + 1];
        let b2 = buf[pos + 2];
        let b3 = buf[pos + 3];
        proof {
            assert(s[0] == b0 && s[1] == b1 && s[2] == b2 && s[3] == b3);
            assert(s.take(4) =~= seq![b0, b1, b2, b3]);
        }
        if b0 == 48 && b1 == 48 && b2 == 48 && b3 == 48 {
            proof {
                assert(s.take(4) =~= flush_bytes());
            }
            return Ok((Pkt::Flush, pos + 4));
        }
        proof {
            assert(s.take(4) != flush_bytes()) by {
                if s.take(4) == flush_bytes() {
                    assert(s.take(4)[0] == 48 && s.take(4)[1] == 48 && s.take(4)[2] == 48
                        && s.take(4)[3] == 48);
                }
            }
        }
        if !(is_hex_digit_byte(b0) && is_hex_digit_byte(b1) && is_hex_digit_byte(b2)
            && is_hex_digit_byte(b3)) {
            proof {
                assert(!all_hex(s.take(4)));
            }
            return Err(GitError::Protocol);
        }
        proof {
            assert(all_hex(s.take(4))) by {
                assert forall|i: int| 0 <= i < 4 implies is_hex_digit(#[trigger] s.take(4)[i]) by {
                    assert(s.take(4)[0] == b0 && s.take(4)[1] == b1 && s.take(4)[2] == b2
                        && s.take(4)[3] == b3);
                }
            }
        }
        let n: usize = (hex_val_of(b0) as usize) * 4096 + (hex_val_of(b1) as usize) * 256 + (
        hex_val_of(b2) as usize) * 16 + (hex_val_of(b3) as usize);
        proof {
            assert(n == hex4_val(s));
        }
        if n < 4 || n > 65520 {
            return Err(GitError::Protocol);
        }
        if buf.len() - pos < n {
            proof {
                assert(s.len() < n);
            }
            return Err(GitError::Protocol);
        }
        let payload = copy_range(buf, pos + 4, pos + n);
        proof {
            assert(payload@ =~= s.subrange(4, n as int));
        }
        Ok((Pkt::Data(payload), pos + n))
    }
}

} // verus!
