//! Base64url encoding without padding (RFC 4648, section 5), as DoH GET
//! requests carry the DNS query in their `dns` parameter.

use vstd::prelude::*;
use crate::text::push_char;

verus! {

/// The character of the URL-safe alphabet for a six-bit value:
/// `A`-`Z`, `a`-`z`, `0`-`9`, `-`, `_`.
pub open spec fn alphabet(v: nat) -> char {
    if v < 26 {
        (65 + v) as char
    } else if v < 52 {
        (97 + (v - 26)) as char
    } else if v < 62 {
        (48 + (v - 52)) as char
    } else if v == 62 {
        '-'
    } else {
        '_'
    }
}

/// Byte `i` of `b`, or zero past its end.
pub open spec fn byte_or_zero(b: Seq<u8>, i: int) -> nat {
    if 0 <= i < b.len() {
        b[i] as nat
    } else {
        0
    }
}

/// Bits `6j` to `6j + 5` of `b` read as one big-endian bit string, with zero
/// bits after its end.
pub open spec fn sextet(b: Seq<u8>, j: int) -> nat {
    let q = (6 * j) / 8;
    let r = (6 * j) % 8;
    let w = byte_or_zero(b, q) * 256 + byte_or_zero(b, q + 1);
    if r == 0 {
        w / 1024
    } else if r == 2 {
        (w / 256) % 64
    } else if r == 4 {
        (w / 64) % 64
    } else {
        (w / 16) % 64
    }
}

/// Number of characters in the encoding of `n` bytes: `ceil(8n / 6)`.
pub open spec fn encoded_len(n: nat) -> nat {
    (8 * n + 5) / 6
}

/// Base64url encoding of `b` without padding.
pub open spec fn base64url(b: Seq<u8>) -> Seq<char> {
    Seq::new(encoded_len(b.len()), |j: int| alphabet(sextet(b, j)))
}

fn alphabet_char(v: u32) -> (c: char)
    requires
        v < 64,
    ensures
        c == alphabet(v as nat),
{
    if v < 26 {
        ((65 + v) as u8) as char
    } else if v < 52 {
        ((97 + (v - 26)) as u8) as char
    } else if v < 62 {
        ((48 + (v - 52)) as u8) as char
    } else if v == 62 {
        '-'
    } else {
        '_'
    }
}

/// The low sixteen bits of the buffer after a byte is shifted in.
proof fn lemma_shift_in(buffer: u32, byte: u8)
    ensures
        (((buffer << 8u32) | (byte as u32)) & 0xffff) == (buffer & 0xff) * 256 + byte as u32,
        (buffer & 0xff) < 256,
        (buffer & 0xff) == (buffer & 0xffff) % 256,
{
    assert((buffer & 0xff) == (buffer & 0xffff) % 256) by (bit_vector);
    assert((((buffer << 8u32) | (byte as u32)) & 0xffff) == ((buffer & 0xff) << 8u32) | (byte as u32))
        by (bit_vector);
    assert(((buffer & 0xff) << 8u32) | (byte as u32) == (buffer & 0xff) * 256 + byte as u32) by (bit_vector);
    assert((buffer & 0xff) < 256) by (bit_vector);
}

/// A six-bit field read from the buffer depends only on its low sixteen bits.
proof fn lemma_field(buffer: u32, s: u32)
    requires
        s <= 6,
    ensures
        ((buffer >> s) & 0x3f) == ((buffer & 0xffff) >> s) & 0x3f,
        (buffer & 0xffff) < 65536,
        ((buffer >> s) & 0x3f) < 64,
{
    assert(((buffer >> s) & 0x3f) == ((buffer & 0xffff) >> s) & 0x3f) by (bit_vector)
        requires s <= 6;
    assert((buffer & 0xffff) < 65536) by (bit_vector);
    assert(((buffer >> s) & 0x3f) < 64) by (bit_vector);
}

/// Encodes `data` in base64url without padding.
pub fn base64url_encode(data: &[u8]) -> (encoded: String)
    ensures
        encoded@ == base64url(data@),
{
    let mut result = String::new();
    let mut buffer: u32 = 0;
    let mut bits: u8 = 0;
    let mut k: usize = 0;
    assert(0u32 & 0xffff == 0) by (bit_vector);
    while k < data.len()
        invariant
            0 <= k <= data.len(),
            bits <= 4,
            bits % 2 == 0,
            6 * result@.len() + bits == 8 * k,
            forall|j: int| 0 <= j < result@.len() ==> result@[j] == alphabet(#[trigger] sextet(data@, j)),
            (buffer & 0xffff) == byte_or_zero(data@, k - 2) * 256 + byte_or_zero(data@, k - 1),
        decreases data.len() - k,
    {
        let byte = data[k];
        proof {
            lemma_shift_in(buffer, byte);
            let hi = byte_or_zero(data@, k - 2);
            let lo = byte_or_zero(data@, k - 1);
            assert((hi * 256 + lo) % 256 == lo) by (nonlinear_arith) requires lo < 256;
        }
        buffer = (buffer << 8) | (byte as u32);
        bits = bits + 8;
        k = k + 1;
        while bits >= 6
            invariant
                0 < k <= data.len(),
                bits <= 12,
                bits % 2 == 0,
                6 * result@.len() + bits == 8 * k,
                forall|j: int| 0 <= j < result@.len() ==> result@[j] == alphabet(#[trigger] sextet(data@, j)),
                (buffer & 0xffff) == byte_or_zero(data@, k - 2) * 256 + byte_or_zero(data@, k - 1),
            decreases bits,
        {
            bits = bits - 6;
            proof {
                lemma_field(buffer, bits as u32);
            }
            let index: u32 = (buffer >> bits) & 0x3f;
            let c = alphabet_char(index);
            let ghost m = result@.len() as int;
            proof {
                let w = buffer & 0xffff;
                let hi = byte_or_zero(data@, k - 2);
                let lo = byte_or_zero(data@, k - 1);
                assert(w == hi * 256 + lo);
                assert(index == (w >> (bits as u32)) & 0x3f);
                if bits == 0 {
                    assert((w >> 0u32) & 0x3f == w % 64) by (bit_vector);
                    assert(6 * m == 8 * k - 6);
                    assert((6 * m) / 8 == k - 1 && (6 * m) % 8 == 2);
                    assert(sextet(data@, m) == ((lo * 256 + byte_or_zero(data@, k as int)) / 256) % 64);
                    assert((lo * 256 + byte_or_zero(data@, k as int)) / 256 == lo) by (nonlinear_arith)
                        requires byte_or_zero(data@, k as int) < 256;
                    assert(w % 64 == lo % 64) by (nonlinear_arith) requires w == hi * 256 + lo;
                } else if bits == 2 {
                    assert((w >> 2u32) & 0x3f == (w / 4) % 64) by (bit_vector);
                    assert(6 * m == 8 * k - 8);
                    assert((6 * m) / 8 == k - 1 && (6 * m) % 8 == 0);
                    assert(sextet(data@, m) == (lo * 256 + byte_or_zero(data@, k as int)) / 1024);
                    assert((lo * 256 + byte_or_zero(data@, k as int)) / 1024 == lo / 4) by (nonlinear_arith)
                        requires byte_or_zero(data@, k as int) < 256, lo < 256;
                    assert((w / 4) % 64 == lo / 4) by (nonlinear_arith) requires w == hi * 256 + lo, lo < 256;
                } else if bits == 4 {
                    assert((w >> 4u32) & 0x3f == (w / 16) % 64) by (bit_vector);
                    assert(6 * m == 8 * k - 10);
                    assert((6 * m) / 8 == k - 2 && (6 * m) % 8 == 6);
                } else {
                    assert((w >> 6u32) & 0x3f == (w / 64) % 64) by (bit_vector);
                    assert(6 * m == 8 * k - 12);
                    assert((6 * m) / 8 == k - 2 && (6 * m) % 8 == 4);
                }
                assert(index == sextet(data@, m));
            }
            push_char(&mut result, c);
        }
    }
    if bits > 0 {
        proof {
            lemma_field(buffer << ((6 - bits) as u32), 0);
        }
        let index: u32 = (buffer << (6 - bits)) & 0x3f;
        let ghost m = result@.len() as int;
        proof {
            let lo = byte_or_zero(data@, k - 1);
            let w = buffer & 0xffff;
            assert(w % 256 == lo) by (nonlinear_arith)
                requires w == byte_or_zero(data@, k - 2) * 256 + lo, lo < 256;
            if bits == 2 {
                assert((buffer << 4u32) & 0x3f == (buffer % 4) * 16) by (bit_vector);
                assert((buffer % 4) == (buffer & 0xffff) % 4) by (bit_vector);
                assert(6 * m == 8 * k - 2);
                assert((6 * m) / 8 == k - 1 && (6 * m) % 8 == 6);
                assert(byte_or_zero(data@, k as int) == 0);
                assert(((lo * 256) / 16) % 64 == (lo % 4) * 16) by (nonlinear_arith) requires lo < 256;
                assert(w % 4 == lo % 4) by (nonlinear_arith) requires w % 256 == lo;
            } else {
                assert((buffer << 2u32) & 0x3f == (buffer % 16) * 4) by (bit_vector);
                assert((buffer % 16) == (buffer & 0xffff) % 16) by (bit_vector);
                assert(6 * m == 8 * k - 4);
                assert((6 * m) / 8 == k - 1 && (6 * m) % 8 == 4);
                assert(byte_or_zero(data@, k as int) == 0);
                assert(((lo * 256) / 64) % 64 == (lo % 16) * 4) by (nonlinear_arith) requires lo < 256;
                assert(w % 16 == lo % 16) by (nonlinear_arith) requires w % 256 == lo;
            }
            assert(index == sextet(data@, m));
        }
        let c = alphabet_char(index);
        push_char(&mut result, c);
    }
    assert(result@ =~= base64url(data@));
    result
}


/// A character of the URL-safe base64 alphabet.
pub open spec fn url_safe(c: char) -> bool {
    ||| 'A' <= c <= 'Z'
    ||| 'a' <= c <= 'z'
    ||| '0' <= c <= '9'
    ||| c == '-'
    ||| c == '_'
}

/// The encoding of `n` bytes has `ceil(8n / 6)` characters, all of the
/// URL-safe alphabet: no `+`, `/` or `=` padding.
pub proof fn lemma_base64url_shape(b: Seq<u8>)
    ensures
        base64url(b).len() == (8 * b.len() + 5) / 6,
        forall|j: int| 0 <= j < base64url(b).len() ==> url_safe(#[trigger] base64url(b)[j]),
{
    assert forall|j: int| 0 <= j < base64url(b).len() implies url_safe(#[trigger] base64url(b)[j]) by {
        let v = sextet(b, j);
        if v < 26 {
            assert((65 + v) as char == base64url(b)[j]);
        }
    }
}


/// The encoding works on groups of three bytes: after a whole number of
/// groups, the encoding of what follows is appended unchanged.
pub proof fn lemma_base64url_groups(a: Seq<u8>, b: Seq<u8>)
    requires
        a.len() % 3 == 0,
    ensures
        base64url(a + b) == base64url(a) + base64url(b),
{
    let k = a.len() / 3;
    let ab = a + b;
    assert(encoded_len(a.len()) == 4 * k) by (nonlinear_arith)
        requires a.len() == 3 * k;
    assert(encoded_len(ab.len()) == 4 * k + encoded_len(b.len())) by (nonlinear_arith)
        requires ab.len() == 3 * k + b.len();
    assert forall|j: int| 0 <= j < base64url(ab).len() implies #[trigger] base64url(ab)[j] == (base64url(a)
        + base64url(b))[j] by {
        if j < 4 * k {
            let q = (6 * j) / 8;
            let r = (6 * j) % 8;
            assert(q < 3 * k) by (nonlinear_arith)
                requires 0 <= j < 4 * k, q == (6 * j) / 8;
            assert(q + 1 == 3 * k ==> r == 2) by (nonlinear_arith)
                requires 0 <= j < 4 * k, q == (6 * j) / 8, r == (6 * j) % 8;
            assert(byte_or_zero(ab, q) == byte_or_zero(a, q));
            if q + 1 < 3 * k {
                assert(byte_or_zero(ab, q + 1) == byte_or_zero(a, q + 1));
            }
            assert(sextet(ab, j) == sextet(a, j));
        } else {
            let i = j - 4 * k;
            assert((6 * j) / 8 == (6 * i) / 8 + 3 * k && (6 * j) % 8 == (6 * i) % 8) by (nonlinear_arith)
                requires i == j - 4 * k, i >= 0;
            let q = (6 * i) / 8;
            assert(q >= 0) by (nonlinear_arith) requires i >= 0, q == (6 * i) / 8;
            assert(byte_or_zero(ab, q + 3 * k) == byte_or_zero(b, q));
            assert(byte_or_zero(ab, q + 1 + 3 * k) == byte_or_zero(b, q + 1));
            assert(sextet(ab, j) == sextet(b, i));
        }
    }
    assert(base64url(ab) =~= base64url(a) + base64url(b));
}


/// The six-bit value that a character stands for in the RFC 4648 base64url
/// table (`A`-`Z` 0-25, `a`-`z` 26-51, `0`-`9` 52-61, `-` 62, `_` 63).
pub open spec fn table_value(c: char) -> int {
    if 'A' <= c <= 'Z' {
        c as int - 'A' as int
    } else if 'a' <= c <= 'z' {
        c as int - 'a' as int + 26
    } else if '0' <= c <= '9' {
        c as int - '0' as int + 52
    } else if c == '-' {
        62
    } else {
        63
    }
}

/// Byte `i` as base64url decoding reads it from `s`: of the four characters
/// of its group of three bytes, the two that hold its bits.
pub open spec fn decoded_byte(s: Seq<char>, i: int) -> int {
    let g = i / 3;
    let v0 = table_value(s[4 * g]);
    let v1 = table_value(s[4 * g + 1]);
    let v2 = table_value(s[4 * g + 2]);
    let v3 = table_value(s[4 * g + 3]);
    if i % 3 == 0 {
        v0 * 4 + v1 / 16
    } else if i % 3 == 1 {
        (v1 % 16) * 16 + v2 / 4
    } else {
        (v2 % 4) * 64 + v3
    }
}

/// Each character stands for its sextet in the base64url table.
proof fn lemma_alphabet_table(v: nat)
    requires
        v < 64,
    ensures
        table_value(alphabet(v)) == v,
{
}

/// Decoding with the base64url table gives the input back: every byte of
/// `b` is read back from the characters of its group.
pub proof fn lemma_base64url_decodes(b: Seq<u8>)
    ensures
        forall|i: int| 0 <= i < b.len() ==> #[trigger] decoded_byte(base64url(b), i) == b[i],
{
    let s = base64url(b);
    assert forall|i: int| 0 <= i < b.len() implies #[trigger] decoded_byte(s, i) == b[i] by {
        let g = i / 3;
        let k = i % 3;
        assert(0 <= g && 3 * g + k == i && 0 <= k < 3) by (nonlinear_arith)
            requires 0 <= i, g == i / 3, k == i % 3;
        let n = b.len();
        assert(encoded_len(n) >= 4 * g + k + 2) by (nonlinear_arith)
            requires 3 * g + k < n, 0 <= k < 3, 0 <= g;
        let j0 = 4 * g;
        assert((6 * j0) / 8 == 3 * g && (6 * j0) % 8 == 0) by (nonlinear_arith) requires j0 == 4 * g, g >= 0;
        assert((6 * (j0 + 1)) / 8 == 3 * g && (6 * (j0 + 1)) % 8 == 6) by (nonlinear_arith)
            requires j0 == 4 * g, g >= 0;
        assert((6 * (j0 + 2)) / 8 == 3 * g + 1 && (6 * (j0 + 2)) % 8 == 4) by (nonlinear_arith)
            requires j0 == 4 * g, g >= 0;
        assert((6 * (j0 + 3)) / 8 == 3 * g + 2 && (6 * (j0 + 3)) % 8 == 2) by (nonlinear_arith)
            requires j0 == 4 * g, g >= 0;
        let x0 = byte_or_zero(b, 3 * g);
        let x1 = byte_or_zero(b, 3 * g + 1);
        let x2 = byte_or_zero(b, 3 * g + 2);
        let x3 = byte_or_zero(b, 3 * g + 3);
        lemma_alphabet_table(sextet(b, j0));
        lemma_alphabet_table(sextet(b, j0 + 1));
        if k >= 1 {
            lemma_alphabet_table(sextet(b, j0 + 2));
        }
        if k == 2 {
            lemma_alphabet_table(sextet(b, j0 + 3));
        }
        assert(sextet(b, j0) == (x0 * 256 + x1) / 1024);
        assert(sextet(b, j0 + 1) == ((x0 * 256 + x1) / 16) % 64);
        assert(sextet(b, j0 + 2) == ((x1 * 256 + x2) / 64) % 64);
        assert(sextet(b, j0 + 3) == ((x2 * 256 + x3) / 256) % 64);
        if k == 0 {
            assert(b[i] == x0);
            assert(((x0 * 256 + x1) / 1024) * 4 + (((x0 * 256 + x1) / 16) % 64) / 16 == x0) by (nonlinear_arith)
                requires 0 <= x0 < 256, 0 <= x1 < 256;
        } else if k == 1 {
            assert(b[i] == x1);
            assert((((x0 * 256 + x1) / 16) % 64 % 16) * 16 + (((x1 * 256 + x2) / 64) % 64) / 4 == x1)
                by (nonlinear_arith)
                requires 0 <= x0 < 256, 0 <= x1 < 256, 0 <= x2 < 256;
        } else {
            assert(b[i] == x2);
            assert((((x1 * 256 + x2) / 64) % 64 % 4) * 64 + ((x2 * 256 + x3) / 256) % 64 == x2)
                by (nonlinear_arith)
                requires 0 <= x1 < 256, 0 <= x2 < 256, 0 <= x3 < 256;
        }
    }
}

} // verus!
