//! Variable-length integers of the packfile format.
//!
//! Both flavours put seven value bits in every byte and use the high bit as
//! a continuation flag, least-significant group first.  The type+size
//! flavour additionally packs a 3-bit object type and only four value bits
//! into the first byte.

use vstd::prelude::*;

use crate::bytesutil::push_all;
use crate::GitError;

verus! {

/// Decodes a plain varint from the front of `s`: the value and the number
/// of bytes consumed, or `None` when `s` ends before a terminating byte.
pub open spec fn vdec(s: Seq<u8>) -> Option<(nat, nat)>
    decreases s.len(),
{
    if s.len() == 0 {
        None
    } else {
        let b = s[0];
        if b < 128 {
            Some((b as nat, 1nat))
        } else {
            match vdec(s.skip(1)) {
                None => None,
                Some((v, c)) => Some((((b - 128) + v * 128) as nat, (c + 1) as nat)),
            }
        }
    }
}

/// Decodes a type+size varint from the front of `s`: the 3-bit type tag,
/// the size, and the number of bytes consumed.
pub open spec fn tsdec(s: Seq<u8>) -> Option<(nat, nat, nat)> {
    if s.len() == 0 {
        None
    } else {
        let b = s[0];
        let t = ((b / 16) % 8) as nat;
        let low = (b % 16) as nat;
        if b < 128 {
            Some((t, low, 1nat))
        } else {
            match vdec(s.skip(1)) {
                None => None,
                Some((v, c)) => Some((t, (low + v * 16) as nat, (c + 1) as nat)),
            }
        }
    }
}

/// Canonical plain-varint encoding of `n`.
pub open spec fn venc(n: nat) -> Seq<u8>
    decreases n,
{
    if n < 128 {
        seq![n as u8]
    } else {
        seq![(128 + n % 128) as u8] + venc(n / 128)
    }
}

/// Canonical type+size encoding of tag `t` and size `n`.
pub open spec fn tsenc(t: nat, n: nat) -> Seq<u8>
    recommends
        t < 8,
{
    if n < 16 {
        seq![(t * 16 + n) as u8]
    } else {
        seq![(128 + t * 16 + n % 16) as u8] + venc(n / 16)
    }
}

/// Decoding an encoded plain varint recovers the value exactly, whatever
/// follows it in the stream.
pub proof fn lemma_varint_round_trip(n: nat, rest: Seq<u8>)
    ensures
        vdec(venc(n) + rest) == Some((n, venc(n).len())),
    decreases n,
{
    if n < 128 {
        assert((venc(n) + rest)[0] == n as u8);
        assert(vdec(venc(n) + rest) == Some((n, 1nat)));
    } else {
        let b = (128 + n % 128) as u8;
        lemma_varint_round_trip(n / 128, rest);
        assert((venc(n) + rest).skip(1) =~= venc(n / 128) + rest);
        assert((b - 128) + (n / 128) * 128 == n) by {
            assert(n % 128 + (n / 128) * 128 == n) by (nonlinear_arith);
        }
    }
}

/// Decoding an encoded type+size varint recovers both parts exactly,
/// whatever follows it in the stream.
pub proof fn lemma_type_size_round_trip(t: nat, n: nat, rest: Seq<u8>)
    requires
        t < 8,
    ensures
        tsdec(tsenc(t, n) + rest) == Some((t, n, tsenc(t, n).len())),
{
    if n < 16 {
        let b = (t * 16 + n) as u8;
        assert(b < 128 && (b / 16) % 8 == t && b % 16 == n) by (nonlinear_arith)
            requires
                t < 8,
                n < 16,
                b == t * 16 + n,
        ;
        assert(tsdec(tsenc(t, n) + rest) == Some((t, n, 1nat)));
    } else {
        let b = (128 + t * 16 + n % 16) as u8;
        assert(128 <= b < 256 && (b / 16) % 8 == t && b % 16 == n % 16) by (nonlinear_arith)
            requires
                t < 8,
                b == 128 + t * 16 + n % 16,
                n % 16 < 16,
        ;
        lemma_varint_round_trip(n / 16, rest);
        assert((tsenc(t, n) + rest).skip(1) =~= venc(n / 16) + rest);
        assert(n % 16 + (n / 16) * 16 == n) by (nonlinear_arith);
    }
}

/// Decodes the continuation bytes of a varint whose already-read groups
/// amount to `acc0`, the next group standing at weight `gm0`.
fn varint_tail(buf: &Vec<u8>, start: usize, acc0: u64, mult0: u64) -> (r: Result<
    (u64, usize),
    GitError,
>)
    requires
        start <= buf@.len(),
        1 <= mult0,
        acc0 < mult0,
    ensures
        match r {
            Ok((n, end)) => {
                &&& start < end <= buf@.len()
                &&& vdec(buf@.skip(start as int)) is Some
                &&& n as nat == acc0 + vdec(buf@.skip(start as int))->Some_0.0 * mult0
                &&& end == start + vdec(buf@.skip(start as int))->Some_0.1
            },
            Err(e) => {
                &&& e == GitError::Format
                &&& match vdec(buf@.skip(start as int)) {
                    None => true,
                    Some((v, c)) => acc0 + v * mult0 > u64::MAX,
                }
            },
        },
{
    let mut i: usize = start;
    let mut acc: u64 = acc0;
    let mut mult: u64 = mult0;
    let mut big: bool = false;
    let ghost mut gmult: nat = mult0 as nat;
    loop
        invariant
            start <= i <= buf@.len(),
            acc < gmult,
            1 <= gmult,
            big ==> gmult > u64::MAX,
            !big ==> mult == gmult,
            match vdec(buf@.skip(i as int)) {
                None => vdec(buf@.skip(start as int)) is None,
                Some((v, c)) => vdec(buf@.skip(start as int)) matches Some((v0, c0)) && acc0 + v0
                    * mult0 == acc + v * gmult && c0 == (i - start) + c,
            },
        decreases buf@.len() - i,
    {
        if i >= buf.len() {
            proof {
                assert(buf@.skip(i as int).len() == 0);
            }
            return Err(GitError::Format);
        }
        let b = buf[i];
        proof {
            assert(buf@.skip(i as int)[0] == b);
            assert(buf@.skip(i as int).skip(1) =~= buf@.skip(i + 1));
        }
        if b < 128 {
            // terminating byte: its group is the last one
            proof {
                assert(vdec(buf@.skip(i as int)) == Some((b as nat, 1nat)));
            }
            if b == 0 {
                return Ok((acc, i + 1));
            }
            if big {
                proof {
                    assert(acc + b * gmult > u64::MAX) by (nonlinear_arith)
                        requires
                            gmult > u64::MAX,
                            b >= 1,
                    ;
                }
                return Err(GitError::Format);
            }
            proof {
                assert((b as u128) * (mult as u128) <= 255u128 * (u64::MAX as u128)) by (
                nonlinear_arith)
                    requires
                        b <= 255,
                        mult <= u64::MAX,
                ;
            }
            let t: u128 = acc as u128 + (b as u128) * (mult as u128);
            if t > u64::MAX as u128 {
                return Err(GitError::Format);
            }
            return Ok((t as u64, i + 1));
        }
        // continuation byte: add its group, then move one weight up
        let p = b - 128;
        let ghost oldacc = acc;
        let ghost oldg = gmult;
        proof {
            assert(vdec(buf@.skip(i as int)) == match vdec(buf@.skip(i + 1)) {
                None => None::<(nat, nat)>,
                Some((v, c)) => Some((((p as nat) + v * 128) as nat, (c + 1) as nat)),
            });
        }
        if p > 0 {
            if big {
                proof {
                    if vdec(buf@.skip(i + 1)) is Some {
                        let (v, c) = vdec(buf@.skip(i + 1))->Some_0;
                        assert(acc + ((p as nat) + v * 128) * gmult > u64::MAX) by (
                        nonlinear_arith)
                            requires
                                gmult > u64::MAX,
                                p >= 1,
                                v >= 0,
                        ;
                    }
                }
                return Err(GitError::Format);
            }
            proof {
                assert((p as u128) * (mult as u128) <= 255u128 * (u64::MAX as u128)) by (
                nonlinear_arith)
                    requires
                        p <= 255,
                        mult <= u64::MAX,
                ;
            }
            let t: u128 = acc as u128 + (p as u128) * (mult as u128);
            if t > u64::MAX as u128 {
                proof {
                    if vdec(buf@.skip(i + 1)) is Some {
                        let (v, c) = vdec(buf@.skip(i + 1))->Some_0;
                        assert(acc + ((p as nat) + v * 128) * gmult >= acc + (p as nat) * gmult)
                            by (nonlinear_arith)
                            requires
                                gmult >= 1,
                                v >= 0,
                                p >= 0,
                        ;
                    }
                }
                return Err(GitError::Format);
            }
            acc = t as u64;
            proof {
                assert(t <= u64::MAX as u128);
                assert(acc == t);
                assert(mult as nat == oldg);
                assert(acc as nat == oldacc + (p as nat) * oldg);
            }
        }
        proof {
            if p == 0 {
                assert(acc == oldacc);
                assert((p as nat) * oldg == 0) by (nonlinear_arith)
                    requires
                        p == 0,
                ;
            }
            assert(acc as nat == oldacc + (p as nat) * oldg);
            gmult = oldg * 128;
            assert(acc < gmult) by (nonlinear_arith)
                requires
                    acc as nat == oldacc + (p as nat) * oldg,
                    oldacc < oldg,
                    p < 128,
                    gmult == oldg * 128,
                    oldg >= 1,
            ;
        }
        if !big {
            if mult > u64::MAX / 128 {
                big = true;
                proof {
                    assert(mult * 128 > u64::MAX) by (nonlinear_arith)
                        requires
                            mult > u64::MAX / 128,
                    ;
                }
            } else {
                mult = mult * 128;
            }
        }
        i = i + 1;
        proof {
            if vdec(buf@.skip(i as int)) is Some {
                let (v, c) = vdec(buf@.skip(i as int))->Some_0;
                assert(oldacc + ((p as nat) + v * 128) * oldg == acc + v * gmult) by (
                nonlinear_arith)
                    requires
                        acc as nat == oldacc + (p as nat) * oldg,
                        gmult == oldg * 128,
                ;
            }
        }
    }
}

/// Decodes a plain varint at `pos`; fails on a truncated run and on a value
/// that does not fit in 64 bits.
pub fn read_var_int(buf: &Vec<u8>, pos: usize) -> (r: Result<(u64, usize), GitError>)
    requires
        pos <= buf@.len(),
    ensures
        match r {
            Ok((n, end)) => {
                &&& pos < end <= buf@.len()
                &&& vdec(buf@.skip(pos as int)) == Some((n as nat, (end - pos) as nat))
            },
            Err(e) => {
                &&& e == GitError::Format
                &&& match vdec(buf@.skip(pos as int)) {
                    None => true,
                    Some((v, c)) => v > u64::MAX,
                }
            },
        },
{
    if pos >= buf.len() {
        proof {
            assert(buf@.skip(pos as int).len() == 0);
        }
        return Err(GitError::Format);
    }
    let b = buf[pos];
    proof {
        assert(buf@.skip(pos as int)[0] == b);
        assert(buf@.skip(pos as int).skip(1) =~= buf@.skip(pos + 1));
    }
    if b < 128 {
        return Ok((b as u64, pos + 1));
    }
    let acc0 = (b - 128) as u64;
    match varint_tail(buf, pos + 1, acc0, 128) {
        Ok((n, end)) => {
            proof {
                let (v, c) = vdec(buf@.skip(pos + 1))->Some_0;
                assert((b - 128) + v * 128 == n);
            }
            Ok((n, end))
        },
        Err(e) => Err(e),
    }
}

/// Decodes a type+size varint at `pos`; fails on a truncated run and on a
/// size that does not fit in 64 bits.
pub fn decode_type_size(buf: &Vec<u8>, pos: usize) -> (r: Result<(u8, u64, usize), GitError>)
    requires
        pos <= buf@.len(),
    ensures
        match r {
            Ok((t, n, end)) => {
                &&& pos < end <= buf@.len()
                &&& t < 8
                &&& tsdec(buf@.skip(pos as int)) == Some((t as nat, n as nat, (end - pos) as nat))
            },
            Err(e) => {
                &&& e == GitError::Format
                &&& match tsdec(buf@.skip(pos as int)) {
                    None => true,
                    Some((t, v, c)) => v > u64::MAX,
                }
            },
        },
{
    if pos >= buf.len() {
        proof {
            assert(buf@.skip(pos as int).len() == 0);
        }
        return Err(GitError::Format);
    }
    let b = buf[pos];
    let t = (b / 16) % 8;
    let low = (b % 16) as u64;
    proof {
        assert(buf@.skip(pos as int)[0] == b);
        assert(buf@.skip(pos as int).skip(1) =~= buf@.skip(pos + 1));
    }
    if b < 128 {
        return Ok((t, low, pos + 1));
    }
    match varint_tail(buf, pos + 1, low, 16) {
        Ok((n, end)) => {
            proof {
                let (v, c) = vdec(buf@.skip(pos + 1))->Some_0;
                assert(low + v * 16 == n);
            }
            Ok((t, n, end))
        },
        Err(e) => Err(e),
    }
}

/// Encodes `n` as a plain varint.
pub fn encode_varint(n: u64) -> (r: Vec<u8>)
    ensures
        r@ == venc(n as nat),
    decreases n,
{
    if n < 128 {
        let mut r: Vec<u8> = Vec::new();
        r.push(n as u8);
        proof {
            assert(r@ =~= venc(n as nat));
        }
        r
    } else {
        let mut r: Vec<u8> = Vec::new();
        r.push(128 + (n % 128) as u8);
        let tail = encode_varint(n / 128);
        push_all(&mut r, &tail);
        proof {
            assert(r@ =~= venc(n as nat));
        }
        r
    }
}

/// Encodes tag `t` and size `n` as a type+size varint.
pub fn encode_type_size(t: u8, n: u64) -> (r: Vec<u8>)
    requires
        t < 8,
    ensures
        r@ == tsenc(t as nat, n as nat),
{
    if n < 16 {
        let mut r: Vec<u8> = Vec::new();
        r.push(t * 16 + n as u8);
        proof {
            assert(r@ =~= tsenc(t as nat, n as nat));
        }
        r
    } else {
        let mut r: Vec<u8> = Vec::new();
        r.push(128 + t * 16 + (n % 16) as u8);
        let tail = encode_varint(n / 16);
        push_all(&mut r, &tail);
        proof {
            assert(r@ =~= tsenc(t as nat, n as nat));
        }
        r
    }
}

} // verus!
