//! The delta instruction stream and its application against a base object.
//!
//! A delta opens with two plain varints — the expected base length and the
//! target length, a decoded target length of zero standing for 65536 —
//! followed by instructions: a byte with the high bit set copies a slice
//! of the base (bits 0–3 select offset bytes, bits 4–6 size bytes, both
//! little-endian, absent bytes meaning zero), a byte with the high bit
//! clear appends its low seven bits' worth of literal bytes, zero being
//! malformed.

use vstd::prelude::*;

use crate::bytesutil::copy_range;
use crate::varint::{read_var_int, vdec};
use crate::GitError;

verus! {

/// Bit `k` of `b`, as 0 or 1.
pub open spec fn bitsel(b: u8, k: nat) -> nat {
    if k == 0 {
        (b % 2) as nat
    } else if k == 1 {
        ((b / 2) % 2) as nat
    } else if k == 2 {
        ((b / 4) % 2) as nat
    } else if k == 3 {
        ((b / 8) % 2) as nat
    } else if k == 4 {
        ((b / 16) % 2) as nat
    } else if k == 5 {
        ((b / 32) % 2) as nat
    } else {
        ((b / 64) % 2) as nat
    }
}

/// Weight of the offset byte selected by bit `k`.
pub open spec fn offset_weight(k: nat) -> nat {
    if k == 0 {
        1
    } else if k == 1 {
        0x100
    } else if k == 2 {
        0x10000
    } else {
        0x1000000
    }
}

/// Weight of the size byte selected by bit `k`.
pub open spec fn size_weight(k: nat) -> nat {
    if k == 4 {
        1
    } else if k == 5 {
        0x100
    } else {
        0x10000
    }
}

/// Reads the operand bytes a copy instruction's bits `k..7` select from
/// the front of `s`: offset part, size part, and bytes consumed.
pub open spec fn copy_step(b: u8, k: nat, s: Seq<u8>) -> Option<(nat, nat, nat)>
    decreases 7 - k,
{
    if k >= 7 {
        Some((0nat, 0nat, 0nat))
    } else if bitsel(b, k) == 0 {
        copy_step(b, (k + 1) as nat, s)
    } else if s.len() == 0 {
        None
    } else {
        match copy_step(b, (k + 1) as nat, s.skip(1)) {
            None => None,
            Some((off, sz, c)) => if k < 4 {
                Some(((off + (s[0] as nat) * offset_weight(k)) as nat, sz, (c + 1) as nat))
            } else {
                Some((off, (sz + (s[0] as nat) * size_weight(k)) as nat, (c + 1) as nat))
            },
        }
    }
}

/// The operands of a copy instruction byte `b`: offset, size, consumed.
pub open spec fn copy_args(b: u8, s: Seq<u8>) -> Option<(nat, nat, nat)> {
    copy_step(b, 0, s)
}

/// Sum of the offset weights still selectable from bit `k` on.
pub open spec fn offset_weight_sum(k: nat) -> nat {
    if k == 0 {
        0x1010101
    } else if k == 1 {
        0x1010100
    } else if k == 2 {
        0x1010000
    } else if k == 3 {
        0x1000000
    } else {
        0
    }
}

/// Sum of the size weights still selectable from bit `k` on.
pub open spec fn size_weight_sum(k: nat) -> nat {
    if k <= 4 {
        0x10101
    } else if k == 5 {
        0x10100
    } else if k == 6 {
        0x10000
    } else {
        0
    }
}

/// Operand values stay below 32 bits, and at most 7 bytes are consumed.
pub proof fn lemma_copy_step_bounds(b: u8, k: nat, s: Seq<u8>)
    requires
        k <= 7,
    ensures
        copy_step(b, k, s) matches Some((off, sz, c)) ==> off <= 255 * offset_weight_sum(k) && sz
            <= 255 * size_weight_sum(k) && c + k <= 7 && c <= s.len(),
    decreases 7 - k,
{
    if k >= 7 {
    } else if bitsel(b, k) == 0 {
        lemma_copy_step_bounds(b, (k + 1) as nat, s);
    } else if s.len() == 0 {
    } else {
        lemma_copy_step_bounds(b, (k + 1) as nat, s.skip(1));
        if copy_step(b, (k + 1) as nat, s.skip(1)) is Some {
            let (off, sz, c) = copy_step(b, (k + 1) as nat, s.skip(1))->Some_0;
            let v = s[0] as nat;
            if k < 4 {
                assert(v * offset_weight(k) <= 255 * offset_weight(k)) by (nonlinear_arith)
                    requires
                        v <= 255,
                        offset_weight(k) >= 0,
                ;
                assert(offset_weight_sum(k) == offset_weight_sum((k + 1) as nat) + offset_weight(
                    k,
                ));
            } else {
                assert(v * size_weight(k) <= 255 * size_weight(k)) by (nonlinear_arith)
                    requires
                        v <= 255,
                        size_weight(k) >= 0,
                ;
                assert(size_weight_sum(k) == size_weight_sum((k + 1) as nat) + size_weight(k));
            }
        }
    }
}

/// What the resolver makes of the instruction part of a delta: `out` plus
/// every copied slice and literal run, in order.
pub open spec fn run_delta(base: Seq<u8>, ins: Seq<u8>, out: Seq<u8>) -> Result<Seq<u8>, GitError>
    decreases ins.len(),
{
    if ins.len() == 0 {
        Ok(out)
    } else {
        let b = ins[0];
        if b >= 128 {
            match copy_args(b, ins.skip(1)) {
                None => Err(GitError::Format),
                Some((off, sz, c)) => if off + sz > base.len() {
                    Err(GitError::Format)
                } else if ins.len() < 1 + c {
                    Err(GitError::Format)
                } else {
                    run_delta(
                        base,
                        ins.skip(1 + c as int),
                        out + base.subrange(off as int, (off + sz) as int),
                    )
                },
            }
        } else if b == 0 {
            Err(GitError::Format)
        } else {
            if ins.len() < 1 + b {
                Err(GitError::Format)
            } else {
                run_delta(base, ins.skip(1 + b as int), out + ins.subrange(1, 1 + b as int))
            }
        }
    }
}

/// What resolving a whole delta against `base` yields: a size prefix that
/// must match the base, a target size, the instruction stream's output,
/// whose length must match the target size.
pub open spec fn apply_delta_spec(base: Seq<u8>, delta: Seq<u8>) -> Result<Seq<u8>, GitError> {
    match vdec(delta) {
        None => Err(GitError::Format),
        Some((bs, c1)) => if bs > u64::MAX {
            Err(GitError::Format)
        } else if bs != base.len() {
            Err(GitError::Consistency)
        } else {
            match vdec(delta.skip(c1 as int)) {
                None => Err(GitError::Format),
                Some((ts0, c2)) => if ts0 > u64::MAX {
                    Err(GitError::Format)
                } else {
                    let ts: nat = if ts0 == 0 {
                        0x10000nat
                    } else {
                        ts0
                    };
                    match run_delta(base, delta.skip((c1 + c2) as int), Seq::empty()) {
                        Err(e) => Err(e),
                        Ok(out) => if out.len() == ts {
                            Ok(out)
                        } else {
                            Err(GitError::Consistency)
                        },
                    }
                },
            }
        },
    }
}

/// A decoded delta instruction.
#[allow(inconsistent_fields)]
#[derive(Clone, Copy, Debug, PartialEq, Eq, Structural)]
pub enum DeltaInstruction {
    Copy { size: u64, offset: u64 },
    Add { size: u8 },
}

/// Reads the operand bytes that bits `k..7` of `b` select, starting at
/// `p`; mirrors `copy_step`.
fn copy_rest(b: u8, k: u8, buf: &Vec<u8>, p: usize, Ghost(p0): Ghost<int>) -> (r: Result<
    (u64, u64, usize),
    GitError,
>)
    requires
        k <= 7,
        0 <= p0 <= p <= buf@.len(),
        p - p0 == 0,
    ensures
        match r {
            Ok((off, sz, c)) => copy_step(b, k as nat, buf@.skip(p as int)) == Some(
                (off as nat, sz as nat, c as nat),
            ) && p + c <= buf@.len(),
            Err(e) => e == GitError::Format && copy_step(b, k as nat, buf@.skip(p as int)) is None,
        },
    decreases 7 - k,
{
    if k >= 7 {
        return Ok((0, 0, 0));
    }
    let bit: u8 = match k {
        0 => b % 2,
        1 => (b / 2) % 2,
        2 => (b / 4) % 2,
        3 => (b / 8) % 2,
        4 => (b / 16) % 2,
        5 => (b / 32) % 2,
        _ => (b / 64) % 2,
    };
    proof {
        assert(bit as nat == bitsel(b, k as nat));
    }
    if bit == 0 {
        return copy_rest(b, k + 1, buf, p, Ghost(p as int));
    }
    if p >= buf.len() {
        proof {
            assert(buf@.skip(p as int).len() == 0);
        }
        return Err(GitError::Format);
    }
    let v = buf[p];
    proof {
        assert(buf@.skip(p as int)[0] == v);
        assert(buf@.skip(p as int).skip(1) =~= buf@.skip(p + 1));
    }
    match copy_rest(b, k + 1, buf, p + 1, Ghost(p + 1)) {
        Err(e) => Err(e),
        Ok((off, sz, c)) => {
            proof {
                lemma_copy_step_bounds(b, (k + 1) as nat, buf@.skip(p + 1));
            }
            if k < 4 {
                let w: u64 = match k {
                    0 => 1,
                    1 => 0x100,
                    2 => 0x10000,
                    _ => 0x1000000,
                };
                proof {
                    assert(w as nat == offset_weight(k as nat));
                    assert((v as u64) * w <= 255u64 * 0x1000000) by (nonlinear_arith)
                        requires
                            v <= 255,
                            w <= 0x1000000,
                    ;
                }
                Ok((off + (v as u64) * w, sz, c + 1))
            } else {
                let w: u64 = match k {
                    4 => 1,
                    5 => 0x100,
                    _ => 0x10000,
                };
                proof {
                    assert(w as nat == size_weight(k as nat));
                    assert((v as u64) * w <= 255u64 * 0x10000) by (nonlinear_arith)
                        requires
                            v <= 255,
                            w <= 0x10000,
                    ;
                }
                Ok((off, sz + (v as u64) * w, c + 1))
            }
        },
    }
}

impl DeltaInstruction {
    /// Decodes one instruction at `pos`: the instruction and the position
    /// just past it (for an add, past the count byte only — the literal
    /// bytes follow).
    pub fn parse(buf: &Vec<u8>, pos: usize) -> (r: Result<(DeltaInstruction, usize), GitError>)
        requires
            pos <= buf@.len(),
        ensures
            match r {
                Ok((ins, end)) => {
                    &&& pos < end <= buf@.len()
                    &&& match ins {
                        DeltaInstruction::Copy { size, offset } => {
                            &&& buf@[pos as int] >= 128
                            &&& copy_args(buf@[pos as int], buf@.skip(pos + 1)) == Some(
                                (offset as nat, size as nat, (end - pos - 1) as nat),
                            )
                        },
                        DeltaInstruction::Add { size } => {
                            &&& buf@[pos as int] == size
                            &&& 0 < size < 128
                            &&& end == pos + 1
                        },
                    }
                },
                Err(e) => {
                    &&& e == GitError::Format
                    &&& (pos == buf@.len() || (buf@[pos as int] >= 128 && copy_args(
                        buf@[pos as int],
                        buf@.skip(pos + 1),
                    ) is None) || buf@[pos as int] == 0)
                },
            },
    {
        if pos >= buf.len() {
            return Err(GitError::Format);
        }
        let b = buf[pos];
        if b >= 128 {
            let (offset, size, c) = copy_rest(b, 0, buf, pos + 1, Ghost(pos + 1))?;
            Ok((DeltaInstruction::Copy { size, offset }, pos + 1 + c))
        } else if b == 0 {
            Err(GitError::Format)
        } else {
            Ok((DeltaInstruction::Add { size: b }, pos + 1))
        }
    }
}

/// Resolves a delta against the base object's content.
#[verifier::rlimit(100)]
pub fn apply_delta(base: &Vec<u8>, delta: &Vec<u8>) -> (r: Result<Vec<u8>, GitError>)
    ensures
        match r {
            Ok(out) => apply_delta_spec(base@, delta@) == Ok::<Seq<u8>, GitError>(out@),
            Err(e) => apply_delta_spec(base@, delta@) == Err::<Seq<u8>, GitError>(e),
        },
{
    proof {
        assert(delta@.skip(0) =~= delta@);
    }
    let (base_size, p1) = match read_var_int(delta, 0) {
        Ok(x) => x,
        Err(e) => {
            return Err(e);
        },
    };
    if base_size != base.len() as u64 {
        return Err(GitError::Consistency);
    }
    let (target_size0, p2) = match read_var_int(delta, p1) {
        Ok(x) => x,
        Err(e) => {
            return Err(e);
        },
    };
    let target_size: u64 = if target_size0 == 0 {
        0x10000
    } else {
        target_size0
    };
    let mut out: Vec<u8> = Vec::new();
    let mut i: usize = p2;
    loop
        invariant
            p1 <= p2 <= i <= delta@.len(),
            vdec(delta@) == Some((base_size as nat, p1 as nat)),
            base_size == base@.len(),
            vdec(delta@.skip(p1 as int)) == Some((target_size0 as nat, (p2 - p1) as nat)),
            target_size == (if target_size0 == 0 {
                0x10000u64
            } else {
                target_size0
            }),
            run_delta(base@, delta@.skip(i as int), out@) == run_delta(
                base@,
                delta@.skip(p2 as int),
                Seq::empty(),
            ),
        ensures
            vdec(delta@) == Some((base_size as nat, p1 as nat)),
            base_size == base@.len(),
            vdec(delta@.skip(p1 as int)) == Some((target_size0 as nat, (p2 - p1) as nat)),
            target_size == (if target_size0 == 0 {
                0x10000u64
            } else {
                target_size0
            }),
            run_delta(base@, delta@.skip(p2 as int), Seq::empty()) == Ok::<Seq<u8>, GitError>(out@),
        decreases delta@.len() - i,
    {
        if i >= delta.len() {
            proof {
                assert(delta@.skip(i as int).len() == 0);
            }
            break ;
        }
        let b = delta[i];
        proof {
            assert(delta@.skip(i as int)[0] == b);
            assert(delta@.skip(i as int).skip(1) =~= delta@.skip(i + 1));
        }
        if b >= 128 {
            let (offset, size, c) = match copy_rest(b, 0, delta, i + 1, Ghost(i + 1)) {
                Ok(x) => x,
                Err(e) => {
                    proof {
                        assert(run_delta(base@, delta@.skip(i as int), out@) == Err::<
                            Seq<u8>,
                            GitError,
                        >(GitError::Format));
                    }
                    return Err(e);
                },
            };
            proof {
                lemma_copy_step_bounds(b, 0, delta@.skip(i + 1));
            }
            if offset > base.len() as u64 || size > base.len() as u64 - offset {
                proof {
                    assert(run_delta(base@, delta@.skip(i as int), out@) == Err::<
                        Seq<u8>,
                        GitError,
                    >(GitError::Format));
                }
                return Err(GitError::Format);
            }
            let piece = copy_range(base, offset as usize, (offset + size) as usize);
            crate::bytesutil::push_all(&mut out, &piece);
            proof {
                assert(delta@.skip(i as int).skip(1 + c as int) =~= delta@.skip(i + 1 + c as int));
            }
            i = i + 1 + c;
        } else if b == 0 {
            proof {
                assert(run_delta(base@, delta@.skip(i as int), out@) == Err::<Seq<u8>, GitError>(
                    GitError::Format,
                ));
            }
            return Err(GitError::Format);
        } else {
            let k = b as usize;
            if delta.len() - i < 1 + k {
                proof {
                    assert(delta@.skip(i as int).len() < 1 + b);
                    assert(run_delta(base@, delta@.skip(i as int), out@) == Err::<
                        Seq<u8>,
                        GitError,
                    >(GitError::Format));
                }
                return Err(GitError::Format);
            }
            let piece = copy_range(delta, i + 1, i + 1 + k);
            crate::bytesutil::push_all(&mut out, &piece);
            proof {
                assert(delta@.skip(i as int).len() >= 1 + b);
                assert(delta@.skip(i as int).skip(1 + b as int) =~= delta@.skip(i + 1 + k as int));
                assert(delta@.skip(i as int).subrange(1, 1 + b as int) =~= delta@.subrange(
                    i + 1,
                    i + 1 + k as int,
                ));
            }
            i = i + 1 + k;
        }
    }
    if out.len() as u64 != target_size {
        return Err(GitError::Consistency);
    }
    Ok(out)
}

} // verus!
