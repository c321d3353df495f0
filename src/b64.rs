//! URL-safe base64 without padding, as used for every binary field of the wire formats.
use base64ct::{Base64UrlUnpadded, Encoding};
use vstd::prelude::*;

verus! {

/// The character for a six-bit value `v` in the URL-safe alphabet
/// `A-Z a-z 0-9 - _`.
pub open spec fn b64_digit(v: int) -> u8 {
    if v < 26 {
        (65 + v) as u8
    } else if v < 52 {
        (71 + v) as u8
    } else if v < 62 {
        (v - 4) as u8
    } else if v == 62 {
        45u8
    } else {
        95u8
    }
}

/// Membership in the URL-safe alphabet.
pub open spec fn is_b64_byte(c: u8) -> bool {
    (65 <= c <= 90) || (97 <= c <= 122) || (48 <= c <= 57) || c == 45 || c == 95
}

/// Unpadded URL-safe base64 of `b`: each group of three bytes becomes four
/// characters; a final group of two bytes becomes three, one byte becomes two.
pub open spec fn b64url(b: Seq<u8>) -> Seq<u8>
    decreases b.len(),
{
    if b.len() == 0 {
        seq![]
    } else if b.len() == 1 {
        seq![b64_digit((b[0] as int) / 4), b64_digit(((b[0] as int) % 4) * 16)]
    } else if b.len() == 2 {
        seq![
            b64_digit((b[0] as int) / 4),
            b64_digit(((b[0] as int) % 4) * 16 + (b[1] as int) / 16),
            b64_digit(((b[1] as int) % 16) * 4),
        ]
    } else {
        seq![
            b64_digit((b[0] as int) / 4),
            b64_digit(((b[0] as int) % 4) * 16 + (b[1] as int) / 16),
            b64_digit(((b[1] as int) % 16) * 4 + (b[2] as int) / 64),
            b64_digit((b[2] as int) % 64),
        ] + b64url(b.subrange(3, b.len() as int))
    }
}

pub proof fn lemma_b64_digit(v: int)
    requires
        0 <= v < 64,
    ensures
        is_b64_byte(b64_digit(v)),
{
}

/// Every character of an encoding is in the URL-safe alphabet; in particular
/// it is never `.` or `"`.
pub proof fn lemma_b64url_alphabet(b: Seq<u8>)
    ensures
        forall|i: int| 0 <= i < b64url(b).len() ==> is_b64_byte(#[trigger] b64url(b)[i]),
    decreases b.len(),
{
    if b.len() == 0 {
    } else if b.len() == 1 {
        lemma_b64_digit((b[0] as int) / 4);
        lemma_b64_digit(((b[0] as int) % 4) * 16);
    } else if b.len() == 2 {
        lemma_b64_digit((b[0] as int) / 4);
        lemma_b64_digit(((b[0] as int) % 4) * 16 + (b[1] as int) / 16);
        lemma_b64_digit(((b[1] as int) % 16) * 4);
    } else {
        lemma_b64_digit((b[0] as int) / 4);
        lemma_b64_digit(((b[0] as int) % 4) * 16 + (b[1] as int) / 16);
        lemma_b64_digit(((b[1] as int) % 16) * 4 + (b[2] as int) / 64);
        lemma_b64_digit((b[2] as int) % 64);
        let t = b.subrange(3, b.len() as int);
        lemma_b64url_alphabet(t);
        let q = seq![
            b64_digit((b[0] as int) / 4),
            b64_digit(((b[0] as int) % 4) * 16 + (b[1] as int) / 16),
            b64_digit(((b[1] as int) % 16) * 4 + (b[2] as int) / 64),
            b64_digit((b[2] as int) % 64),
        ];
        assert(b64url(b) == q + b64url(t));
        assert forall|i: int| 0 <= i < b64url(b).len() implies is_b64_byte(#[trigger] b64url(b)[i]) by {
            if i >= 4 {
                assert(b64url(b)[i] == b64url(t)[i - 4]);
            }
        }
    }
}

/// An encoding is empty exactly when the bytes are.
pub proof fn lemma_b64url_empty(b: Seq<u8>)
    ensures
        (b64url(b).len() == 0) == (b.len() == 0),
{
}

proof fn lemma_b64_digit_injective(v: int, w: int)
    requires
        0 <= v < 64,
        0 <= w < 64,
        b64_digit(v) == b64_digit(w),
    ensures
        v == w,
{
}

/// The length of an encoding: four characters per full group of three bytes,
/// and one more than the bytes of a final short group.
pub open spec fn b64url_len(n: nat) -> nat {
    4 * (n / 3) + if n % 3 == 0 {
        0
    } else {
        n % 3 + 1
    }
}

pub proof fn lemma_b64url_len(b: Seq<u8>)
    ensures
        b64url(b).len() == b64url_len(b.len()),
    decreases b.len(),
{
    if b.len() >= 3 {
        lemma_b64url_len(b.subrange(3, b.len() as int));
    }
}

proof fn lemma_b64url_len_injective(n: nat, m: nat)
    requires
        b64url_len(n) == b64url_len(m),
    ensures
        n == m,
{
}

/// Distinct byte strings have distinct encodings.
pub proof fn lemma_b64url_injective(x: Seq<u8>, y: Seq<u8>)
    requires
        b64url(x) == b64url(y),
    ensures
        x == y,
    decreases x.len(),
{
    lemma_b64url_len(x);
    lemma_b64url_len(y);
    lemma_b64url_len_injective(x.len(), y.len());
    let e = b64url(x);
    if x.len() == 0 {
    } else if x.len() == 1 {
        let (a, c) = (x[0] as int, y[0] as int);
        assert(e[0] == b64_digit(a / 4) && e[0] == b64_digit(c / 4));
        lemma_b64_digit_injective(a / 4, c / 4);
        lemma_b64_digit_injective((a % 4) * 16, (c % 4) * 16);
        assert(x =~= y);
    } else if x.len() == 2 {
        let (a0, a1, c0, c1) = (x[0] as int, x[1] as int, y[0] as int, y[1] as int);
        assert(e[0] == b64_digit(a0 / 4) && e[0] == b64_digit(c0 / 4));
        lemma_b64_digit_injective(a0 / 4, c0 / 4);
        lemma_b64_digit_injective((a0 % 4) * 16 + a1 / 16, (c0 % 4) * 16 + c1 / 16);
        lemma_b64_digit_injective((a1 % 16) * 4, (c1 % 16) * 4);
        assert(x =~= y);
    } else {
        let (a0, a1, a2, c0, c1, c2) = (x[0] as int, x[1] as int, x[2] as int, y[0] as int, y[1] as int, y[2] as int);
        let tx = x.subrange(3, x.len() as int);
        let ty = y.subrange(3, y.len() as int);
        let qx = seq![
            b64_digit(a0 / 4),
            b64_digit((a0 % 4) * 16 + a1 / 16),
            b64_digit((a1 % 16) * 4 + a2 / 64),
            b64_digit(a2 % 64),
        ];
        let qy = seq![
            b64_digit(c0 / 4),
            b64_digit((c0 % 4) * 16 + c1 / 16),
            b64_digit((c1 % 16) * 4 + c2 / 64),
            b64_digit(c2 % 64),
        ];
        assert(b64url(x) == qx + b64url(tx));
        assert(b64url(y) == qy + b64url(ty));
        assert(qx[0] == e[0] && qy[0] == e[0]);
        assert(qx[1] == e[1] && qy[1] == e[1]);
        assert(qx[2] == e[2] && qy[2] == e[2]);
        assert(qx[3] == e[3] && qy[3] == e[3]);
        lemma_b64_digit_injective(a0 / 4, c0 / 4);
        lemma_b64_digit_injective((a0 % 4) * 16 + a1 / 16, (c0 % 4) * 16 + c1 / 16);
        lemma_b64_digit_injective((a1 % 16) * 4 + a2 / 64, (c1 % 16) * 4 + c2 / 64);
        lemma_b64_digit_injective(a2 % 64, c2 % 64);
        assert(b64url(tx) =~= e.subrange(4, e.len() as int));
        assert(b64url(ty) =~= e.subrange(4, e.len() as int));
        lemma_b64url_injective(tx, ty);
        assert(x =~= seq![x[0], x[1], x[2]] + tx);
        assert(y =~= seq![y[0], y[1], y[2]] + ty);
    }
}

/// Relies on base64ct's `Base64UrlUnpadded::encode_string`, which writes the
/// unpadded URL-safe encoding; it panics only when `4 * len` overflows.
#[verifier::external_body]
pub(crate) fn b64url_encode(b: &[u8]) -> (r: Vec<u8>)
    requires
        b@.len() <= usize::MAX / 4,
    ensures
        r@ == b64url(b@),
{
    Base64UrlUnpadded::encode_string(b).into_bytes()
}

/// Relies on base64ct's `Base64UrlUnpadded::decode`, which accepts exactly the
/// canonical unpadded encodings (it re-encodes the last block and compares)
/// and returns the bytes they encode.
#[verifier::external_body]
pub(crate) fn b64url_decode(s: &[u8]) -> (r: Option<Vec<u8>>)
    ensures
        match r {
            Some(v) => b64url(v@) == s@,
            None => forall|w: Seq<u8>| b64url(w) != s@,
        },
{
    let mut buf = vec![0u8; s.len()];
    match Base64UrlUnpadded::decode(s, &mut buf) {
        Ok(d) => Some(d.to_vec()),
        Err(_) => None,
    }
}

} // verus!
