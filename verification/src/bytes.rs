//! Little-endian integer fields inside raw byte buffers.
use vstd::prelude::*;
use base64::Engine;

verus! {

/// The unsigned little-endian value of a byte sequence (first byte least significant).
pub open spec fn le_value(s: Seq<u8>) -> nat
    decreases s.len(),
{
    if s.len() == 0 {
        0
    } else {
        s[0] as nat + 256 * le_value(s.drop_first())
    }
}

/// `256` to the power `n`.
pub open spec fn pow256(n: nat) -> nat
    decreases n,
{
    if n == 0 {
        1
    } else {
        256 * pow256((n - 1) as nat)
    }
}

/// The little-endian field of `n` bytes starting at `off`.
pub open spec fn le_field(s: Seq<u8>, off: int, n: int) -> nat {
    le_value(s.subrange(off, off + n))
}

pub proof fn lemma_le_value_bound(s: Seq<u8>)
    ensures
        le_value(s) < pow256(s.len()),
    decreases s.len(),
{
    if s.len() > 0 {
        lemma_le_value_bound(s.drop_first());
        assert(le_value(s.drop_first()) + 1 <= pow256((s.len() - 1) as nat));
    }
}

proof fn lemma_le_value_prepend(b: u8, s: Seq<u8>)
    ensures
        le_value(seq![b] + s) == b as nat + 256 * le_value(s),
{
    assert((seq![b] + s).drop_first() =~= s);
}

/// Reads the `n`-byte little-endian unsigned field at `off`, `n` at most 8.
pub fn read_le(buf: &[u8], off: usize, n: usize) -> (r: u64)
    requires
        n <= 8,
        off + n <= buf@.len(),
    ensures
        r as nat == le_field(buf@, off as int, n as int),
        r < pow256(n as nat),
        n == 2 ==> r < 0x1_0000,
        n == 4 ==> r < 0x1_0000_0000,
{
    let mut v: u64 = 0;
    let mut i: usize = n;
    proof {
        assert(buf@.subrange(off + n, off + n) =~= Seq::<u8>::empty());
    }
    while i > 0
        invariant
            i <= n,
            n <= 8,
            off + n <= buf.len(),
            v as nat == le_value(buf@.subrange(off + i, off + n)),
            v < pow256((n - i) as nat),
        decreases i,
    {
        let ghost old_sub = buf@.subrange(off + i, off + n);
        i = i - 1;
        let b = buf[off + i];
        proof {
            let sub = buf@.subrange(off + i, off + n);
            assert(sub =~= seq![b] + old_sub);
            lemma_le_value_prepend(b, old_sub);
            lemma_pow256_le8((n - i - 1) as nat);
            assert(v * 256 + b < pow256((n - i) as nat)) by (nonlinear_arith)
                requires
                    v < pow256((n - i - 1) as nat),
                    b < 256,
                    pow256((n - i) as nat) == 256 * pow256((n - i - 1) as nat),
            ;
            lemma_pow256_le8((n - i) as nat);
        }
        v = v * 256 + b as u64;
    }
    proof {
        assert(buf@.subrange(off as int, off + n) =~= buf@.subrange(off + i, off + n));
        reveal_with_fuel(pow256, 5);
    }
    v
}

proof fn lemma_pow256_le8(n: nat)
    requires
        n <= 8,
    ensures
        pow256(n) <= 0x1_0000_0000_0000_0000,
        n > 0 ==> pow256(n) == 256 * pow256((n - 1) as nat),
{
    reveal_with_fuel(pow256, 9);
}

/// Appends `v` as 8 little-endian bytes.
pub fn push_le8(out: &mut Vec<u8>, v: u64)
    ensures
        final(out)@.len() == old(out)@.len() + 8,
        final(out)@.subrange(0, old(out)@.len() as int) == old(out)@,
        le_field(final(out)@, old(out)@.len() as int, 8) == v,
{
    let ghost start = out@.len();
    let ghost prefix = out@;
    let mut bytes: Vec<u8> = Vec::new();
    let mut rest: u64 = v;
    let mut i: usize = 0;
    proof {
        assert(pow256(0) == 1);
        assert(le_value(bytes@) == 0);
    }
    while i < 8
        invariant
            i <= 8,
            bytes@.len() == i,
            le_value(bytes@) + pow256(i as nat) * rest == v,
        decreases 8 - i,
    {
        let b = (rest % 256) as u8;
        proof {
            lemma_le_value_append(bytes@, b);
            assert(pow256((i + 1) as nat) == 256 * pow256(i as nat));
            assert(pow256(i as nat) * rest == pow256(i as nat) * (rest % 256) + pow256(i as nat) * 256 * (rest / 256)) by (nonlinear_arith);
            assert(pow256(i as nat) * 256 * (rest / 256) == pow256((i + 1) as nat) * (rest / 256)) by (nonlinear_arith)
                requires pow256((i + 1) as nat) == 256 * pow256(i as nat);
        }
        bytes.push(b);
        rest = rest / 256;
        i = i + 1;
    }
    proof {
        lemma_le_value_bound(bytes@);
        lemma_pow256_le8(8);
        reveal_with_fuel(pow256, 9);
        assert(rest == 0) by (nonlinear_arith)
            requires le_value(bytes@) + 0x1_0000_0000_0000_0000 * rest == v, v < 0x1_0000_0000_0000_0000;
    }
    let mut j: usize = 0;
    while j < 8
        invariant
            j <= 8,
            bytes@.len() == 8,
            out@ == prefix + bytes@.take(j as int),
        decreases 8 - j,
    {
        out.push(bytes[j]);
        proof {
            assert(bytes@.take(j + 1) =~= bytes@.take(j as int).push(bytes@[j as int]));
        }
        j = j + 1;
    }
    proof {
        assert(bytes@.take(8) =~= bytes@);
        assert(out@.subrange(0, start as int) =~= prefix);
        assert(out@.subrange(start as int, (start + 8) as int) =~= bytes@);
    }
}

proof fn lemma_le_value_append(s: Seq<u8>, b: u8)
    ensures
        le_value(s.push(b)) == le_value(s) + pow256(s.len()) * b,
    decreases s.len(),
{
    if s.len() == 0 {
        assert(s.push(b).drop_first() =~= Seq::<u8>::empty());
        assert(pow256(0) == 1);
        assert(le_value(Seq::<u8>::empty()) == 0);
        assert(le_value(s) == 0);
        assert(le_value(s.push(b)) == b as nat);
    } else {
        lemma_le_value_append(s.drop_first(), b);
        assert(s.push(b).drop_first() =~= s.drop_first().push(b));
        assert(pow256(s.len()) == 256 * pow256((s.len() - 1) as nat));
        let a = le_value(s.drop_first());
        let p = pow256((s.len() - 1) as nat);
        assert(le_value(s.push(b)) == s[0] as nat + 256 * (a + p * b));
        assert(256 * (a + p * b) == 256 * a + (256 * p) * b) by (nonlinear_arith);
    }
}

/// The UTF-8 encoding of one character.
pub open spec fn utf8_char(c: char) -> Seq<u8> {
    let u = c as u32;
    if u < 0x80 {
        seq![u as u8]
    } else if u < 0x800 {
        seq![(0xC0 + u / 0x40) as u8, (0x80 + u % 0x40) as u8]
    } else if u < 0x10000 {
        seq![(0xE0 + u / 0x1000) as u8, (0x80 + (u / 0x40) % 0x40) as u8, (0x80 + u % 0x40) as u8]
    } else {
        seq![
            (0xF0 + u / 0x40000) as u8,
            (0x80 + (u / 0x1000) % 0x40) as u8,
            (0x80 + (u / 0x40) % 0x40) as u8,
            (0x80 + u % 0x40) as u8,
        ]
    }
}

/// The UTF-8 encoding of a string: the bytes a Rust `str` holds.
pub open spec fn utf8(s: Seq<char>) -> Seq<u8>
    decreases s.len(),
{
    if s.len() == 0 {
        Seq::empty()
    } else {
        utf8(s.drop_last()) + utf8_char(s.last())
    }
}

/// Appends the UTF-8 encoding of `s` to `out`.
pub fn push_utf8(out: &mut Vec<u8>, s: &str)
    ensures
        final(out)@ == old(out)@ + utf8(s@),
{
    let ghost start = out@;
    let mut i: usize = 0;
    let v = crate::text::chars_of(s);
    proof {
        assert(v@.take(0) =~= Seq::<char>::empty());
        assert(out@ =~= start + utf8(v@.take(0)));
    }
    while i < v.len()
        invariant
            i <= v@.len(),
            v@ == s@,
            out@ == start + utf8(v@.take(i as int)),
        decreases v.len() - i,
    {
        let c = v[i];
        let u = c as u32;
        let ghost before = out@;
        if u < 0x80 {
            out.push(u as u8);
        } else if u < 0x800 {
            out.push((0xC0 + u / 0x40) as u8);
            out.push((0x80 + u % 0x40) as u8);
        } else if u < 0x10000 {
            out.push((0xE0 + u / 0x1000) as u8);
            out.push((0x80 + (u / 0x40) % 0x40) as u8);
            out.push((0x80 + u % 0x40) as u8);
        } else {
            out.push((0xF0 + u / 0x40000) as u8);
            out.push((0x80 + (u / 0x1000) % 0x40) as u8);
            out.push((0x80 + (u / 0x40) % 0x40) as u8);
            out.push((0x80 + u % 0x40) as u8);
        }
        proof {
            assert(v@.take(i + 1).drop_last() =~= v@.take(i as int));
            assert(v@.take(i + 1).last() == c);
            assert(out@ =~= before + utf8_char(c));
        }
        i = i + 1;
    }
    proof {
        assert(v@.take(v@.len() as int) =~= v@);
    }
}

/// The number of bytes in the UTF-8 encoding of `s` (`str::len`), as a `u64` that
/// stops at `u64::MAX`.
pub open spec fn utf8_len_sat(s: Seq<char>) -> u64 {
    if utf8(s).len() <= u64::MAX {
        utf8(s).len() as u64
    } else {
        u64::MAX
    }
}

/// Counts the UTF-8 bytes of `s` (see [`utf8_len_sat`]).
pub fn utf8_len(s: &str) -> (r: u64)
    ensures
        r == utf8_len_sat(s@),
{
    let v = crate::text::chars_of(s);
    let mut n: u64 = 0;
    let mut i: usize = 0;
    proof {
        assert(v@.take(0) =~= Seq::<char>::empty());
    }
    while i < v.len()
        invariant
            i <= v@.len(),
            v@ == s@,
            n == utf8_len_sat(v@.take(i as int)),
        decreases v.len() - i,
    {
        let u = v[i] as u32;
        proof {
            assert(v@.take(i + 1).drop_last() =~= v@.take(i as int));
            assert(v@.take(i + 1).last() == v@[i as int]);
        }
        let w: u64 = if u < 0x80 {
            1
        } else if u < 0x800 {
            2
        } else if u < 0x10000 {
            3
        } else {
            4
        };
        n = if n > u64::MAX - w {
            u64::MAX
        } else {
            n + w
        };
        i = i + 1;
    }
    proof {
        assert(v@.take(v@.len() as int) =~= v@);
    }
    n
}

/// The digit of a six-bit value in the standard base64 alphabet: `A`-`Z`, `a`-`z`,
/// `0`-`9`, `+`, `/`.
pub open spec fn base64_digit(n: int) -> char {
    if n < 26 {
        ('A' as int + n) as char
    } else if n < 52 {
        ('a' as int + (n - 26)) as char
    } else if n < 62 {
        ('0' as int + (n - 52)) as char
    } else if n == 62 {
        '+'
    } else {
        '/'
    }
}

/// The standard base64 text of a byte string (RFC 4648, padded): every three bytes, read
/// as 24 bits, give four digits of six bits each; a last group of one or two bytes is
/// filled out with zero bits, and `=` pads its text to four characters.
pub open spec fn base64_standard(b: Seq<u8>) -> Seq<char>
    decreases b.len(),
{
    if b.len() == 0 {
        Seq::empty()
    } else if b.len() == 1 {
        seq![base64_digit(b[0] as int / 4), base64_digit((b[0] as int % 4) * 16), '=', '=']
    } else if b.len() == 2 {
        seq![
            base64_digit(b[0] as int / 4),
            base64_digit((b[0] as int % 4) * 16 + b[1] as int / 16),
            base64_digit((b[1] as int % 16) * 4),
            '=',
        ]
    } else {
        seq![
            base64_digit(b[0] as int / 4),
            base64_digit((b[0] as int % 4) * 16 + b[1] as int / 16),
            base64_digit((b[1] as int % 16) * 4 + b[2] as int / 64),
            base64_digit(b[2] as int % 64),
        ] + base64_standard(b.subrange(3, b.len() as int))
    }
}

/// Whether the base64 text for `n` bytes is sure to have a length that fits in `usize`.
pub open spec fn base64_fits(n: nat) -> bool {
    (n / 3) * 4 + 4 <= usize::MAX
}

/// Tests [`base64_fits`].
pub fn base64_fits_exec(n: usize) -> (r: bool)
    ensures
        r == base64_fits(n as nat),
{
    n / 3 <= (usize::MAX - 4) / 4
}

/// `STANDARD.encode` of `base64` 0.22: the padded base64 text of `bytes` in the
/// standard alphabet, as [`base64_standard`] spells it out. The crate panics when the
/// text's length overflows `usize`, which the precondition rules out.
#[verifier::external_body]
pub(crate) fn base64_encode(bytes: &[u8]) -> (r: String)
    requires
        base64_fits(bytes@.len()),
    ensures
        r@ == base64_standard(bytes@),
{
    base64::engine::general_purpose::STANDARD.encode(bytes)
}

} // verus!
