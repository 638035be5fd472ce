//! Byte-level helpers shared by the codecs: lowercase hex, decimal
//! rendering, and lexicographic comparison of byte strings.

use vstd::prelude::*;

use crate::GitError;

verus! {

/// True when `b` is an ASCII hex digit (either case).
pub open spec fn is_hex_digit(b: u8) -> bool {
    (48 <= b <= 57) || (97 <= b <= 102) || (65 <= b <= 70)
}

/// Numeric value of the hex digit `b`.
pub open spec fn hex_val(b: u8) -> nat
    recommends
        is_hex_digit(b),
{
    if 48 <= b <= 57 {
        (b - 48) as nat
    } else if 97 <= b <= 102 {
        (b - 87) as nat
    } else {
        (b - 55) as nat
    }
}

/// The lowercase hex digit with value `d`.
pub open spec fn hex_digit(d: nat) -> u8
    recommends
        d < 16,
{
    if d < 10 {
        (48 + d) as u8
    } else {
        (87 + d) as u8
    }
}

/// Lowercase hex text of a byte sequence: two digits per byte, high nibble
/// first.
pub open spec fn hex_of(s: Seq<u8>) -> Seq<u8> {
    Seq::new(
        2 * s.len(),
        |i: int|
            if i % 2 == 0 {
                hex_digit((s[i / 2] / 16) as nat)
            } else {
                hex_digit((s[i / 2] % 16) as nat)
            },
    )
}

/// True when every byte of `s` is a hex digit.
pub open spec fn all_hex(s: Seq<u8>) -> bool {
    forall|i: int| 0 <= i < s.len() ==> is_hex_digit(#[trigger] s[i])
}

/// The bytes written by an even-length run of hex digits.
pub open spec fn unhex_of(s: Seq<u8>) -> Seq<u8>
    recommends
        s.len() % 2 == 0,
        all_hex(s),
{
    Seq::new(s.len() / 2, |i: int| (hex_val(s[2 * i]) * 16 + hex_val(s[2 * i + 1])) as u8)
}

/// Reading back a written digit recovers its value, and written digits are
/// digits.
pub proof fn lemma_hex_digit_val(d: nat)
    requires
        d < 16,
    ensures
        is_hex_digit(hex_digit(d)),
        hex_val(hex_digit(d)) == d,
{
}

/// Hex encoding loses nothing: decoding the digits of `s` gives back `s`.
pub proof fn lemma_unhex_of_hex(s: Seq<u8>)
    ensures
        all_hex(hex_of(s)),
        hex_of(s).len() % 2 == 0,
        unhex_of(hex_of(s)) == s,
{
    let h = hex_of(s);
    assert forall|i: int| 0 <= i < h.len() implies is_hex_digit(#[trigger] h[i]) by {
        if i % 2 == 0 {
            lemma_hex_digit_val((s[i / 2] / 16) as nat);
        } else {
            lemma_hex_digit_val((s[i / 2] % 16) as nat);
        }
    }
    assert forall|i: int| 0 <= i < s.len() implies unhex_of(h)[i] == s[i] by {
        assert(h[2 * i] == hex_digit((s[i] / 16) as nat));
        assert(h[2 * i + 1] == hex_digit((s[i] % 16) as nat));
        lemma_hex_digit_val((s[i] / 16) as nat);
        lemma_hex_digit_val((s[i] % 16) as nat);
        assert(s[i] / 16 * 16 + s[i] % 16 == s[i]);
    }
    assert(unhex_of(h) =~= s);
}

/// Exec form of `hex_val`.
pub fn hex_val_of(b: u8) -> (r: u8)
    requires
        is_hex_digit(b),
    ensures
        r == hex_val(b),
        r < 16,
{
    if 48 <= b && b <= 57 {
        b - 48
    } else if 97 <= b && b <= 102 {
        b - 87
    } else {
        b - 55
    }
}

/// Exec form of `hex_digit`.
pub fn hex_digit_of(d: u8) -> (r: u8)
    requires
        d < 16,
    ensures
        r == hex_digit(d as nat),
{
    if d < 10 {
        48 + d
    } else {
        87 + d
    }
}

/// Exec test of `is_hex_digit`.
pub fn is_hex_digit_byte(b: u8) -> (r: bool)
    ensures
        r == is_hex_digit(b),
{
    (48 <= b && b <= 57) || (97 <= b && b <= 102) || (65 <= b && b <= 70)
}

/// Encodes `data` as lowercase hex, two digits per byte.
pub fn hex_encode(data: &Vec<u8>) -> (r: Vec<u8>)
    ensures
        r@ == hex_of(data@),
{
    let mut r: Vec<u8> = Vec::new();
    let mut i: usize = 0;
    while i < data.len()
        invariant
            i <= data@.len(),
            r@ =~= hex_of(data@.take(i as int)),
            r@.len() == 2 * i,
        decreases data@.len() - i,
    {
        let b = data[i];
        r.push(hex_digit_of(b / 16));
        r.push(hex_digit_of(b % 16));
        i = i + 1;
        proof {
            assert(r@ =~= hex_of(data@.take(i as int)));
        }
    }
    proof {
        assert(data@.take(data@.len() as int) =~= data@);
    }
    r
}

/// Decodes an even-length run of hex digits; rejects anything else.
pub fn hex_decode(data: &Vec<u8>) -> (r: Result<Vec<u8>, GitError>)
    ensures
        match r {
            Ok(out) => data@.len() % 2 == 0 && all_hex(data@) && out@ == unhex_of(data@),
            Err(e) => e == GitError::Format && (data@.len() % 2 != 0 || !all_hex(data@)),
        },
{
    if data.len() % 2 != 0 {
        return Err(GitError::Format);
    }
    let mut r: Vec<u8> = Vec::new();
    let mut i: usize = 0;
    while i < data.len()
        invariant
            i <= data@.len(),
            i % 2 == 0,
            data@.len() % 2 == 0,
            forall|j: int| 0 <= j < i ==> is_hex_digit(#[trigger] data@[j]),
            r@ =~= unhex_of(data@.take(i as int)),
            r@.len() == i / 2,
        decreases data@.len() - i,
    {
        let hi = data[i];
        let lo = data[i + 1];
        if !is_hex_digit_byte(hi) || !is_hex_digit_byte(lo) {
            return Err(GitError::Format);
        }
        r.push(hex_val_of(hi) * 16 + hex_val_of(lo));
        i = i + 2;
        proof {
            assert(r@ =~= unhex_of(data@.take(i as int)));
        }
    }
    proof {
        assert(data@.take(data@.len() as int) =~= data@);
    }
    Ok(r)
}

/// Index of the first occurrence of `t` in `s`, if any.
pub open spec fn find_byte(s: Seq<u8>, t: u8) -> Option<nat>
    decreases s.len(),
{
    if s.len() == 0 {
        None
    } else if s[0] == t {
        Some(0nat)
    } else {
        match find_byte(s.skip(1), t) {
            None => None,
            Some(i) => Some((i + 1) as nat),
        }
    }
}

/// If `s[i]` is the first occurrence of `t`, `find_byte` returns `i`.
pub proof fn lemma_find_byte_first(s: Seq<u8>, t: u8, i: int)
    requires
        0 <= i < s.len(),
        s[i] == t,
        forall|j: int| 0 <= j < i ==> s[j] != t,
    ensures
        find_byte(s, t) == Some(i as nat),
    decreases s.len(),
{
    if i > 0 {
        lemma_find_byte_first(s.skip(1), t, i - 1);
    }
}

/// If `t` occurs nowhere in `s`, `find_byte` finds nothing.
pub proof fn lemma_find_byte_none(s: Seq<u8>, t: u8)
    requires
        forall|j: int| 0 <= j < s.len() ==> s[j] != t,
    ensures
        find_byte(s, t) is None,
    decreases s.len(),
{
    if s.len() > 0 {
        lemma_find_byte_none(s.skip(1), t);
    }
}

/// Finds the first occurrence of `t` at or after `pos`, as an absolute
/// index.
pub fn find_byte_from(v: &Vec<u8>, pos: usize, t: u8) -> (r: Option<usize>)
    requires
        pos <= v@.len(),
    ensures
        match r {
            Some(i) => pos <= i < v@.len() && find_byte(v@.skip(pos as int), t) == Some(
                (i - pos) as nat,
            ),
            None => find_byte(v@.skip(pos as int), t) is None,
        },
{
    let mut i: usize = pos;
    while i < v.len()
        invariant
            pos <= i <= v@.len(),
            forall|j: int| pos <= j < i ==> v@[j] != t,
        decreases v@.len() - i,
    {
        if v[i] == t {
            proof {
                lemma_find_byte_first(v@.skip(pos as int), t, i - pos);
            }
            return Some(i);
        }
        i = i + 1;
    }
    proof {
        lemma_find_byte_none(v@.skip(pos as int), t);
    }
    None
}

/// Decimal text of `n`, most significant digit first, no leading zeros.
pub open spec fn dec_of(n: nat) -> Seq<u8>
    decreases n,
{
    if n < 10 {
        seq![(48 + n) as u8]
    } else {
        dec_of(n / 10).push((48 + n % 10) as u8)
    }
}

/// Renders `n` in decimal.
pub fn u64_to_dec(n: u64) -> (r: Vec<u8>)
    ensures
        r@ == dec_of(n as nat),
    decreases n,
{
    if n < 10 {
        let mut r: Vec<u8> = Vec::new();
        r.push(48 + n as u8);
        r
    } else {
        let mut r = u64_to_dec(n / 10);
        r.push(48 + (n % 10) as u8);
        r
    }
}

/// Lexicographic (byte-wise) order on byte strings, with the prefix below
/// its extensions.
pub open spec fn lex_leq(a: Seq<u8>, b: Seq<u8>) -> bool
    decreases a.len(),
{
    if a.len() == 0 {
        true
    } else if b.len() == 0 {
        false
    } else if a[0] < b[0] {
        true
    } else if a[0] > b[0] {
        false
    } else {
        lex_leq(a.skip(1), b.skip(1))
    }
}

/// `lex_leq` runs both ways only on equal strings.
pub proof fn lemma_lex_leq_antisymmetric(a: Seq<u8>, b: Seq<u8>)
    requires
        lex_leq(a, b),
        lex_leq(b, a),
    ensures
        a == b,
    decreases a.len(),
{
    if a.len() == 0 {
        assert(b.len() == 0);
        assert(a =~= b);
    } else {
        assert(a[0] == b[0]);
        lemma_lex_leq_antisymmetric(a.skip(1), b.skip(1));
        assert(a =~= b) by {
            assert(forall|i: int|
                1 <= i < a.len() ==> #[trigger] a[i] == a.skip(1)[i - 1] && b[i] == b.skip(1)[i
                    - 1]);
        }
    }
}

/// Any two byte strings are ordered one way or the other.
pub proof fn lemma_lex_leq_total(a: Seq<u8>, b: Seq<u8>)
    ensures
        lex_leq(a, b) || lex_leq(b, a),
    decreases a.len(),
{
    if a.len() != 0 && b.len() != 0 && a[0] == b[0] {
        lemma_lex_leq_total(a.skip(1), b.skip(1));
    }
}

/// `lex_leq` chains.
pub proof fn lemma_lex_leq_transitive(a: Seq<u8>, b: Seq<u8>, c: Seq<u8>)
    requires
        lex_leq(a, b),
        lex_leq(b, c),
    ensures
        lex_leq(a, c),
    decreases a.len(),
{
    if a.len() != 0 && b.len() != 0 && c.len() != 0 && a[0] == b[0] && b[0] == c[0] {
        lemma_lex_leq_transitive(a.skip(1), b.skip(1), c.skip(1));
    }
}

/// Exec comparison deciding `lex_leq`.
pub fn bytes_leq(a: &Vec<u8>, b: &Vec<u8>) -> (r: bool)
    ensures
        r == lex_leq(a@, b@),
{
    let mut i: usize = 0;
    proof {
        assert(a@.skip(0) =~= a@);
        assert(b@.skip(0) =~= b@);
    }
    loop
        invariant
            i <= a@.len(),
            i <= b@.len(),
            a@.take(i as int) =~= b@.take(i as int),
            lex_leq(a@, b@) == lex_leq(a@.skip(i as int), b@.skip(i as int)),
        decreases a@.len() - i,
    {
        if i >= a.len() {
            return true;
        }
        if i >= b.len() {
            return false;
        }
        let x = a[i];
        let y = b[i];
        if x < y {
            return true;
        }
        if x > y {
            return false;
        }
        i = i + 1;
        proof {
            assert(a@.skip(i as int) =~= a@.skip(i - 1).skip(1));
            assert(b@.skip(i as int) =~= b@.skip(i - 1).skip(1));
            assert(a@.take(i as int) =~= b@.take(i as int));
        }
    }
}

/// Exec equality of byte strings.
pub fn bytes_eq(a: &Vec<u8>, b: &Vec<u8>) -> (r: bool)
    ensures
        r == (a@ == b@),
{
    if a.len() != b.len() {
        proof {
            assert(a@ != b@);
        }
        return false;
    }
    let mut i: usize = 0;
    while i < a.len()
        invariant
            i <= a@.len(),
            a@.len() == b@.len(),
            a@.take(i as int) =~= b@.take(i as int),
        decreases a@.len() - i,
    {
        if a[i] != b[i] {
            proof {
                assert(a@[i as int] != b@[i as int]);
            }
            return false;
        }
        i = i + 1;
        proof {
            assert(a@.take(i as int) =~= b@.take(i as int));
        }
    }
    proof {
        assert(a@.take(a@.len() as int) =~= a@);
        assert(b@.take(b@.len() as int) =~= b@);
        assert(a@ =~= b@);
    }
    true
}

/// Exec copy of a byte string.
pub fn copy_bytes(a: &Vec<u8>) -> (r: Vec<u8>)
    ensures
        r@ == a@,
{
    let mut r: Vec<u8> = Vec::new();
    let mut i: usize = 0;
    while i < a.len()
        invariant
            i <= a@.len(),
            r@ =~= a@.take(i as int),
        decreases a@.len() - i,
    {
        r.push(a[i]);
        i = i + 1;
        proof {
            assert(r@ =~= a@.take(i as int));
        }
    }
    proof {
        assert(a@.take(a@.len() as int) =~= a@);
    }
    r
}

/// Exec copy of the range `from..to` of a byte string.
pub fn copy_range(a: &Vec<u8>, from: usize, to: usize) -> (r: Vec<u8>)
    requires
        from <= to <= a@.len(),
    ensures
        r@ == a@.subrange(from as int, to as int),
{
    let mut r: Vec<u8> = Vec::new();
    let mut i: usize = from;
    while i < to
        invariant
            from <= i <= to <= a@.len(),
            r@ =~= a@.subrange(from as int, i as int),
        decreases to - i,
    {
        r.push(a[i]);
        i = i + 1;
        proof {
            assert(r@ =~= a@.subrange(from as int, i as int));
        }
    }
    r
}

/// True when `s` starts with `p`.
pub open spec fn starts_with(s: Seq<u8>, p: Seq<u8>) -> bool {
    s.len() >= p.len() && s.take(p.len() as int) == p
}

/// Exec test of `starts_with`.
pub fn bytes_start_with(s: &Vec<u8>, p: &Vec<u8>) -> (r: bool)
    ensures
        r == starts_with(s@, p@),
{
    if s.len() < p.len() {
        proof {
            assert(!starts_with(s@, p@));
        }
        return false;
    }
    let mut i: usize = 0;
    while i < p.len()
        invariant
            i <= p@.len(),
            p@.len() <= s@.len(),
            s@.take(i as int) =~= p@.take(i as int),
        decreases p@.len() - i,
    {
        if s[i] != p[i] {
            proof {
                assert(s@.take(p@.len() as int)[i as int] != p@[i as int]);
            }
            return false;
        }
        i = i + 1;
        proof {
            assert(s@.take(i as int) =~= p@.take(i as int));
        }
    }
    proof {
        assert(s@.take(p@.len() as int) =~= p@);
    }
    true
}

/// Appends all of `src` to `dst`.
pub fn push_all(dst: &mut Vec<u8>, src: &Vec<u8>)
    ensures
        final(dst)@ == old(dst)@ + src@,
{
    let mut i: usize = 0;
    while i < src.len()
        invariant
            i <= src@.len(),
            dst@ =~= old(dst)@ + src@.take(i as int),
        decreases src@.len() - i,
    {
        dst.push(src[i]);
        i = i + 1;
        proof {
            assert(dst@ =~= old(dst)@ + src@.take(i as int));
        }
    }
    proof {
        assert(src@.take(src@.len() as int) =~= src@);
    }
}

} // verus!
