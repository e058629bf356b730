//! The URL-safe base64 alphabet without padding (RFC 4648, section 5), as a
//! mathematical function, and the fact that it loses no information.

use vstd::prelude::*;

verus! {

/// The character that stands for the 6-bit value `v` in the URL-safe alphabet.
pub open spec fn b64_char(v: u8) -> char {
    if v < 26 {
        (65 + v) as char
    } else if v < 52 {
        (97 + (v - 26)) as char
    } else if v < 62 {
        (48 + (v - 52)) as char
    } else if v == 62 {
        '-'
    } else {
        '_'
    }
}

/// Unpadded URL-safe base64 of a byte sequence: every three bytes become four
/// characters; a final one or two bytes become two or three characters.
pub open spec fn b64url(b: Seq<u8>) -> Seq<char>
    decreases b.len(),
{
    if b.len() == 0 {
        Seq::empty()
    } else if b.len() == 1 {
        seq![b64_char(b[0] >> 2), b64_char((b[0] & 3) << 4)]
    } else if b.len() == 2 {
        seq![
            b64_char(b[0] >> 2),
            b64_char(((b[0] & 3) << 4) | (b[1] >> 4)),
            b64_char((b[1] & 15) << 2),
        ]
    } else {
        seq![
            b64_char(b[0] >> 2),
            b64_char(((b[0] & 3) << 4) | (b[1] >> 4)),
            b64_char(((b[1] & 15) << 2) | (b[2] >> 6)),
            b64_char(b[2] & 63),
        ] + b64url(b.skip(3))
    }
}

proof fn lemma_b64_char_injective(v: u8, w: u8)
    requires
        v < 64,
        w < 64,
        b64_char(v) == b64_char(w),
    ensures
        v == w,
{
}

proof fn lemma_b64url_len(b: Seq<u8>)
    ensures
        b.len() == 0 ==> b64url(b).len() == 0,
        b.len() == 1 ==> b64url(b).len() == 2,
        b.len() == 2 ==> b64url(b).len() == 3,
        b.len() >= 3 ==> b64url(b).len() >= 4,
    decreases b.len(),
{
    if b.len() >= 3 {
        lemma_b64url_len(b.skip(3));
    }
}

proof fn lemma_three_bytes(a: u8, b: u8, c: u8, x: u8, y: u8, z: u8)
    requires
        a >> 2 == x >> 2,
        ((a & 3) << 4) | (b >> 4) == ((x & 3) << 4) | (y >> 4),
        ((b & 15) << 2) | (c >> 6) == ((y & 15) << 2) | (z >> 6),
        c & 63 == z & 63,
    ensures
        a == x,
        b == y,
        c == z,
{
    assert(a == x && b == y && c == z) by (bit_vector)
        requires
            a >> 2 == x >> 2,
            ((a & 3) << 4) | (b >> 4) == ((x & 3) << 4) | (y >> 4),
            ((b & 15) << 2) | (c >> 6) == ((y & 15) << 2) | (z >> 6),
            c & 63 == z & 63,
    ;
}

proof fn lemma_two_bytes(a: u8, b: u8, x: u8, y: u8)
    requires
        a >> 2 == x >> 2,
        ((a & 3) << 4) | (b >> 4) == ((x & 3) << 4) | (y >> 4),
        (b & 15) << 2 == (y & 15) << 2,
    ensures
        a == x,
        b == y,
{
    assert(a == x && b == y) by (bit_vector)
        requires
            a >> 2 == x >> 2,
            ((a & 3) << 4) | (b >> 4) == ((x & 3) << 4) | (y >> 4),
            (b & 15) << 2 == (y & 15) << 2,
    ;
}

proof fn lemma_one_byte(a: u8, x: u8)
    requires
        a >> 2 == x >> 2,
        (a & 3) << 4 == (x & 3) << 4,
    ensures
        a == x,
{
    assert(a == x) by (bit_vector)
        requires
            a >> 2 == x >> 2,
            (a & 3) << 4 == (x & 3) << 4,
    ;
}

proof fn lemma_sextets(a: u8, b: u8, c: u8)
    ensures
        a >> 2 < 64,
        ((a & 3) << 4) | (b >> 4) < 64,
        ((b & 15) << 2) | (c >> 6) < 64,
        c & 63 < 64,
        (a & 3) << 4 < 64,
        (b & 15) << 2 < 64,
{
    assert(a >> 2 < 64 && ((a & 3) << 4) | (b >> 4) < 64 && ((b & 15) << 2) | (c >> 6) < 64
        && c & 63 < 64 && (a & 3) << 4 < 64 && (b & 15) << 2 < 64) by (bit_vector);
}

/// Unpadded URL-safe base64 is injective: two byte sequences with the same
/// encoding are equal.
pub proof fn lemma_b64url_injective(b1: Seq<u8>, b2: Seq<u8>)
    requires
        b64url(b1) == b64url(b2),
    ensures
        b1 == b2,
    decreases b1.len(),
{
    lemma_b64url_len(b1);
    lemma_b64url_len(b2);
    let e = b64url(b1);
    if b1.len() == 0 {
        assert(b1 =~= b2);
    } else if b1.len() == 1 {
        lemma_sextets(b1[0], 0, 0);
        lemma_sextets(b2[0], 0, 0);
        assert(e[0] == b64url(b2)[0] && e[1] == b64url(b2)[1]);
        lemma_b64_char_injective(b1[0] >> 2, b2[0] >> 2);
        lemma_b64_char_injective((b1[0] & 3) << 4, (b2[0] & 3) << 4);
        lemma_one_byte(b1[0], b2[0]);
        assert(b1 =~= b2);
    } else if b1.len() == 2 {
        lemma_sextets(b1[0], b1[1], 0);
        lemma_sextets(b2[0], b2[1], 0);
        assert(e[0] == b64url(b2)[0] && e[1] == b64url(b2)[1] && e[2] == b64url(b2)[2]);
        lemma_b64_char_injective(b1[0] >> 2, b2[0] >> 2);
        lemma_b64_char_injective(((b1[0] & 3) << 4) | (b1[1] >> 4), ((b2[0] & 3) << 4) | (b2[1] >> 4));
        lemma_b64_char_injective((b1[1] & 15) << 2, (b2[1] & 15) << 2);
        lemma_two_bytes(b1[0], b1[1], b2[0], b2[1]);
        assert(b1 =~= b2);
    } else {
        let e2 = b64url(b2);
        lemma_sextets(b1[0], b1[1], b1[2]);
        lemma_sextets(b2[0], b2[1], b2[2]);
        assert(e[0] == e2[0] && e[1] == e2[1] && e[2] == e2[2] && e[3] == e2[3]);
        lemma_b64_char_injective(b1[0] >> 2, b2[0] >> 2);
        lemma_b64_char_injective(((b1[0] & 3) << 4) | (b1[1] >> 4), ((b2[0] & 3) << 4) | (b2[1] >> 4));
        lemma_b64_char_injective(((b1[1] & 15) << 2) | (b1[2] >> 6), ((b2[1] & 15) << 2) | (b2[2] >> 6));
        lemma_b64_char_injective(b1[2] & 63, b2[2] & 63);
        lemma_three_bytes(b1[0], b1[1], b1[2], b2[0], b2[1], b2[2]);
        assert(b64url(b1.skip(3)) =~= e.skip(4));
        assert(b64url(b2.skip(3)) =~= e2.skip(4));
        lemma_b64url_injective(b1.skip(3), b2.skip(3));
        assert(b1 =~= b1.take(3) + b1.skip(3));
        assert(b2 =~= b2.take(3) + b2.skip(3));
        assert(b1.take(3) =~= b2.take(3));
    }
}

/// The characters of the URL-safe alphabet: letters, digits, `-` and `_`.
pub open spec fn url_safe_char(c: char) -> bool {
    ('A' <= c && c <= 'Z') || ('a' <= c && c <= 'z') || ('0' <= c && c <= '9') || c == '-' || c == '_'
}

proof fn lemma_b64_char_url_safe(v: u8)
    requires
        v < 64,
    ensures
        url_safe_char(b64_char(v)),
{
}

/// The base64url text of some bytes is written in the URL-safe alphabet, and
/// is empty only for no bytes.
pub proof fn lemma_b64url_alphabet(b: Seq<u8>)
    ensures
        forall|i: int| 0 <= i < b64url(b).len() ==> url_safe_char(#[trigger] b64url(b)[i]),
        b.len() > 0 ==> b64url(b).len() > 0,
    decreases b.len(),
{
    lemma_b64url_len(b);
    if b.len() == 1 {
        lemma_sextets(b[0], 0, 0);
        lemma_b64_char_url_safe(b[0] >> 2);
        lemma_b64_char_url_safe((b[0] & 3) << 4);
    } else if b.len() == 2 {
        lemma_sextets(b[0], b[1], 0);
        lemma_b64_char_url_safe(b[0] >> 2);
        lemma_b64_char_url_safe(((b[0] & 3) << 4) | (b[1] >> 4));
        lemma_b64_char_url_safe((b[1] & 15) << 2);
    } else if b.len() >= 3 {
        lemma_sextets(b[0], b[1], b[2]);
        lemma_b64_char_url_safe(b[0] >> 2);
        lemma_b64_char_url_safe(((b[0] & 3) << 4) | (b[1] >> 4));
        lemma_b64_char_url_safe(((b[1] & 15) << 2) | (b[2] >> 6));
        lemma_b64_char_url_safe(b[2] & 63);
        lemma_b64url_alphabet(b.skip(3));
        let head = seq![
            b64_char(b[0] >> 2),
            b64_char(((b[0] & 3) << 4) | (b[1] >> 4)),
            b64_char(((b[1] & 15) << 2) | (b[2] >> 6)),
            b64_char(b[2] & 63),
        ];
        assert forall|i: int| 0 <= i < b64url(b).len() implies url_safe_char(#[trigger] b64url(b)[i]) by {
            if i < 4 {
                assert(b64url(b)[i] == head[i]);
            } else {
                assert(b64url(b)[i] == b64url(b.skip(3))[i - 4]);
            }
        }
    }
}

} // verus!
