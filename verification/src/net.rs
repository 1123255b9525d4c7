//! Query-string encoding, and the bearer credentials of an HTTP request.
use vstd::prelude::*;
use crate::text::{push_char, push_str, string_of};
use vstd::string::StringSliceAdditionalSpecFns;

verus! {

/// Upper-case hex digit of `n` (`n < 16`).
pub open spec fn hex_upper(n: u8) -> char {
    if n < 10 {
        (48 + n) as char
    } else {
        (55 + n) as char
    }
}

/// Bytes that stand for themselves: ASCII letters, digits, `-`, `_`, `.`, `~`.
pub open spec fn unreserved(b: u8) -> bool {
    (97 <= b <= 122) || (65 <= b <= 90) || (48 <= b <= 57) || b == 45 || b == 95 || b == 46 || b
        == 126
}

/// The encoding of one byte: itself when unreserved, `%20` for a space, else `%XX`.
pub open spec fn encode_byte(b: u8) -> Seq<char> {
    if unreserved(b) {
        seq![b as char]
    } else if b == 32 {
        seq!['%', '2', '0']
    } else {
        seq!['%', hex_upper(b / 16), hex_upper(b % 16)]
    }
}

/// The encodings of the bytes, one after another.
pub open spec fn encode_bytes(bs: Seq<u8>) -> Seq<char>
    decreases bs.len(),
{
    if bs.len() == 0 {
        Seq::empty()
    } else {
        encode_bytes(bs.drop_last()) + encode_byte(bs.last())
    }
}

fn hex_upper_exec(n: u8) -> (c: char)
    requires
        n < 16,
    ensures
        c == hex_upper(n),
{
    if n < 10 {
        (48 + n) as char
    } else {
        (55 + n) as char
    }
}

/// Percent-encodes the UTF-8 bytes of `s` for a query string: ASCII letters, digits and
/// `-_.~` stay, a space becomes `%20`, every other byte `%XX` in upper-case hex.
pub fn urlencode(s: &str) -> (r: String)
    ensures
        r@ == encode_bytes(s.spec_bytes()),
{
    let bs = s.as_bytes();
    let mut out = String::new();
    let mut i: usize = 0;
    proof {
        assert(bs@.take(0) =~= Seq::<u8>::empty());
    }
    while i < bs.len()
        invariant
            i <= bs@.len(),
            bs@ == s.spec_bytes(),
            out@ == encode_bytes(bs@.take(i as int)),
        decreases bs.len() - i,
    {
        let b = bs[i];
        proof {
            assert(bs@.take(i + 1).drop_last() =~= bs@.take(i as int));
            assert(bs@.take(i + 1).last() == b);
        }
        let ghost before = out@;
        if (b >= 97 && b <= 122) || (b >= 65 && b <= 90) || (b >= 48 && b <= 57) || b == 45 || b
            == 95 || b == 46 || b == 126 {
            push_char(&mut out, b as char);
        } else if b == 32 {
            push_char(&mut out, '%');
            push_char(&mut out, '2');
            push_char(&mut out, '0');
        } else {
            push_char(&mut out, '%');
            push_char(&mut out, hex_upper_exec(b / 16));
            push_char(&mut out, hex_upper_exec(b % 16));
        }
        proof {
            assert(out@ =~= before + encode_byte(b));
        }
        i = i + 1;
    }
    proof {
        assert(bs@.take(bs@.len() as int) =~= bs@);
    }
    out
}

/// The characters an encoded query string is made of: ASCII letters and digits, `-`,
/// `_`, `.`, `~` and `%`.
pub open spec fn url_safe(c: char) -> bool {
    ('a' <= c <= 'z') || ('A' <= c <= 'Z') || ('0' <= c <= '9') || c == '-' || c == '_' || c
        == '.' || c == '~' || c == '%'
}

/// Percent-encoded text is safe in a URL: it holds only [`url_safe`] characters, so no
/// space, `&`, `=` or `#` of the query can break the URL it is put in.
pub proof fn lemma_encode_url_safe(bs: Seq<u8>)
    ensures
        forall|i: int| 0 <= i < encode_bytes(bs).len() ==> url_safe(#[trigger] encode_bytes(bs)[i]),
    decreases bs.len(),
{
    if bs.len() > 0 {
        lemma_encode_url_safe(bs.drop_last());
        let a = encode_bytes(bs.drop_last());
        let b = encode_byte(bs.last());
        assert(encode_bytes(bs) == a + b);
        assert forall|i: int| 0 <= i < b.len() implies url_safe(#[trigger] b[i]) by {
            let x = bs.last();
            if !unreserved(x) && x != 32 {
                assert(x / 16 < 16 && x % 16 < 16);
            }
        }
        assert forall|i: int| 0 <= i < (a + b).len() implies url_safe(#[trigger] (a + b)[i]) by {
            if i < a.len() {
                assert((a + b)[i] == a[i]);
            } else {
                assert((a + b)[i] == b[i - a.len()]);
            }
        }
    }
}

/// Encoding a concatenation gives the concatenation of the encodings: each byte is
/// encoded on its own.
pub proof fn lemma_encode_concat(a: Seq<u8>, b: Seq<u8>)
    ensures
        encode_bytes(a + b) == encode_bytes(a) + encode_bytes(b),
    decreases b.len(),
{
    if b.len() == 0 {
        assert(a + b =~= a);
        assert(encode_bytes(a) + encode_bytes(b) =~= encode_bytes(a));
    } else {
        lemma_encode_concat(a, b.drop_last());
        assert((a + b).drop_last() =~= a + b.drop_last());
        assert((a + b).last() == b.last());
        assert(encode_bytes(a) + encode_bytes(b) =~= encode_bytes(a) + encode_bytes(b.drop_last())
            + encode_byte(b.last()));
    }
}

/// The length of an encoding: one character for an unreserved byte, three for any other.
pub open spec fn encoded_len(bs: Seq<u8>) -> nat
    decreases bs.len(),
{
    if bs.len() == 0 {
        0
    } else {
        encoded_len(bs.drop_last()) + if unreserved(bs.last()) {
            1nat
        } else {
            3nat
        }
    }
}

/// The encoding has exactly that length.
pub proof fn lemma_encode_len(bs: Seq<u8>)
    ensures
        encode_bytes(bs).len() == encoded_len(bs),
    decreases bs.len(),
{
    if bs.len() > 0 {
        lemma_encode_len(bs.drop_last());
    }
}

/// The value of an upper-case hex digit.
pub open spec fn hex_value(c: char) -> int {
    if '0' <= c <= '9' {
        c as int - 48
    } else {
        c as int - 55
    }
}

/// Reading an encoding back: each `%XY` gives the byte `0xXY`, any other character the
/// byte of its code.
pub open spec fn percent_decode(s: Seq<char>) -> Seq<u8>
    decreases s.len(),
{
    if s.len() == 0 {
        Seq::empty()
    } else if s[0] == '%' && s.len() >= 3 {
        seq![(hex_value(s[1]) * 16 + hex_value(s[2])) as u8] + percent_decode(s.skip(3))
    } else {
        seq![s[0] as u8] + percent_decode(s.drop_first())
    }
}

/// Decoding an encoding gives the bytes back, so the encoding loses nothing.
pub proof fn lemma_decode_encode(bs: Seq<u8>)
    ensures
        percent_decode(encode_bytes(bs)) == bs,
    decreases bs.len(),
{
    if bs.len() > 0 {
        let b = bs[0];
        let rest = bs.drop_first();
        assert(bs =~= seq![b] + rest);
        lemma_encode_concat(seq![b], rest);
        assert(seq![b].drop_last() =~= Seq::<u8>::empty());
        assert(seq![b].last() == b);
        assert(encode_bytes(Seq::<u8>::empty()) == Seq::<char>::empty());
        assert(encode_bytes(seq![b]) == encode_bytes(seq![b].drop_last()) + encode_byte(seq![b].last()));
        assert(encode_bytes(seq![b]) =~= encode_byte(b));
        lemma_decode_encode(rest);
        let e = encode_byte(b);
        let t = encode_bytes(rest);
        let s = e + t;
        if unreserved(b) {
            assert(s[0] == b as char);
            assert(s.drop_first() =~= t);
            assert((b as char) as u8 == b);
        } else {
            let hi = b / 16;
            let lo = b % 16;
            assert(s[0] == '%');
            assert(s.skip(3) =~= t);
            if b == 32 {
                assert(s[1] == '2' && s[2] == '0');
            } else {
                assert(s[1] == hex_upper(hi) && s[2] == hex_upper(lo));
                assert(hex_value(hex_upper(hi)) == hi);
                assert(hex_value(hex_upper(lo)) == lo);
                assert(hi * 16 + lo == b);
            }
        }
        assert(percent_decode(s) =~= seq![b] + rest);
    }
}

/// The value of an `Authorization` header that presents `token`: `Bearer <token>`.
pub fn bearer(token: &str) -> (r: String)
    ensures
        r@ == "Bearer "@ + token@,
{
    let mut r = string_of("Bearer ");
    push_str(&mut r, token);
    r
}

} // verus!
