//! The Flat form: one JSON object with the protected header, the unprotected
//! header and the signature.
use crate::alg::{bytes_eq, SigningAlg};
use crate::b64::{b64url, b64url_decode, b64url_encode, lemma_b64url_injective};
use crate::envelope::{opt_view, signed, unsigned, verify_outcome, EnvelopeView, MemberList, SignError, Signature, VerifyError, MAX_INPUT};
use crate::formats::{find_byte, has_at, lemma_no_dot, FormatError};
use crate::header::{header_text, lemma_header_text_injective, opens_object, parse_header, Protected};
use crate::json::{check_extension, check_unprotected, empty_unprotected, framed_object, is_delim, is_empty_unprotected, json_members, object_len, parse_json_members, valid_extension, valid_unprotected, value_len};
use crate::mac::MacAlg;
use vstd::prelude::*;

verus! {

/// `{"protected":`
pub open spec fn protected_key() -> Seq<u8> {
    seq![123u8, 34, 112, 114, 111, 116, 101, 99, 116, 101, 100, 34, 58]
}

/// `,"signature":"`
pub open spec fn signature_key() -> Seq<u8> {
    seq![44u8, 34, 115, 105, 103, 110, 97, 116, 117, 114, 101, 34, 58, 34]
}

/// `,"header":`
pub open spec fn header_key() -> Seq<u8> {
    seq![44u8, 34, 104, 101, 97, 100, 101, 114, 34, 58]
}

/// The `signature` member, omitted without a signature.
pub open spec fn sig_member(s: Option<Seq<u8>>) -> Seq<u8> {
    match s {
        Some(x) => signature_key() + b64url(x) + seq![34u8],
        None => Seq::<u8>::empty(),
    }
}

/// The `header` member, omitted without an unprotected header.
pub open spec fn hdr_member(u: Option<Seq<u8>>) -> Seq<u8> {
    match u {
        Some(w) => header_key() + w,
        None => Seq::<u8>::empty(),
    }
}

pub open spec fn signature_member(e: EnvelopeView) -> Seq<u8> {
    sig_member(e.signature)
}

pub open spec fn header_member(e: EnvelopeView) -> Seq<u8> {
    hdr_member(e.unprotected)
}

/// A signature that an envelope may hold.
pub open spec fn sig_ok(s: Option<Seq<u8>>) -> bool {
    s matches Some(x) ==> 0 < x.len() <= MAX_INPUT
}

/// An unprotected header that a Flat envelope may hold.
pub open spec fn unprotected_ok(u: Option<Seq<u8>>) -> bool {
    u matches Some(w) ==> valid_unprotected(w)
}

/// The Flat JSON object: the protected header as a JSON object, then the
/// unprotected header and the signature when present.
pub open spec fn flat_text(e: EnvelopeView) -> Seq<u8> {
    protected_key() + e.header() + header_member(e) + signature_member(e) + seq![125u8]
}

/// The envelopes that have a Flat form.
pub open spec fn flat_ok(e: EnvelopeView) -> bool {
    &&& e.wf()
    &&& valid_extension(e.extra)
    &&& e.extra.len() <= MAX_INPUT
    &&& (e.unprotected matches Some(u) ==> valid_unprotected(u))
}

/// Flat form: a single signature with protected and unprotected headers.
#[derive(Debug, PartialEq, Eq)]
pub struct Flat(Signature);

impl View for Flat {
    type V = EnvelopeView;

    closed spec fn view(&self) -> EnvelopeView {
        self.0@
    }
}

impl Clone for Flat {
    fn clone(&self) -> (r: Flat)
        ensures
            r@ == self@,
    {
        Flat(self.0.clone())
    }
}

impl Flat {
    /// Adapts an envelope to the Flat form.
    pub fn new(signature: Signature) -> (r: Result<Flat, FormatError>)
        requires
            signature@.wf(),
            signature@.extra.len() <= MAX_INPUT,
        ensures
            match r {
                Ok(f) => f@ == signature@ && flat_ok(f@),
                Err(e) => if !valid_extension(signature@.extra) {
                    e == FormatError::InvalidHeader
                } else {
                    e == FormatError::InvalidUnprotected && !flat_ok(signature@)
                },
            },
            r is Ok == flat_ok(signature@),
    {
        if !check_extension(signature.extra().as_slice()) {
            return Err(FormatError::InvalidHeader);
        }
        match signature.unprotected() {
            Some(u) => {
                if !check_unprotected(u.as_slice()) {
                    return Err(FormatError::InvalidUnprotected);
                }
            },
            None => {},
        }
        Ok(Flat(signature))
    }

    pub fn envelope(&self) -> (r: &Signature)
        ensures
            r@ == self@,
    {
        &self.0
    }

    /// Signs `payload`; see `Signature::sign_bytes`.
    pub fn sign_bytes(self, alg: MacAlg, key: &[u8], payload: &[u8]) -> (r: Result<Flat, SignError>)
        requires
            flat_ok(self@),
            payload@.len() <= MAX_INPUT,
        ensures
            r matches Ok(f) && f@ == signed(self@, alg, key@, payload@) && flat_ok(f@),
    {
        match self.0.sign_bytes(alg, key, payload) {
            Ok(s) => Ok(Flat(s)),
            Err(e) => Err(e),
        }
    }

    pub fn into_unsigned(self) -> (r: Flat)
        requires
            flat_ok(self@),
        ensures
            r@ == unsigned(self@),
            flat_ok(r@),
    {
        Flat(self.0.unsign())
    }

    pub fn verify(&self, key: &[u8], payload: &[u8]) -> (r: Result<(), VerifyError>)
        requires
            flat_ok(self@),
            payload@.len() <= MAX_INPUT,
        ensures
            r == verify_outcome(self@, key@, payload@),
    {
        self.0.verify(key, payload)
    }

    /// The JSON text of this envelope.
    pub fn encode(&self) -> (r: Vec<u8>)
        requires
            flat_ok(self@),
        ensures
            r@ == flat_text(self@),
    {
        let mut r: Vec<u8> = vec![123u8, 34, 112, 114, 111, 116, 101, 99, 116, 101, 100, 34, 58];
        let h = self.0.protected_json();
        r.extend_from_slice(h.as_slice());
        match self.0.unprotected() {
            Some(u) => {
                let key: Vec<u8> = vec![44u8, 34, 104, 101, 97, 100, 101, 114, 34, 58];
                r.extend_from_slice(key.as_slice());
                r.extend_from_slice(u.as_slice());
            },
            None => {},
        }
        match self.0.signature() {
            Some(s) => {
                let key: Vec<u8> = vec![44u8, 34, 115, 105, 103, 110, 97, 116, 117, 114, 101, 34, 58, 34];
                r.extend_from_slice(key.as_slice());
                let t = b64url_encode(s.as_slice());
                r.extend_from_slice(t.as_slice());
                r.push(34);
            },
            None => {},
        }
        r.push(125);
        assert(r@ =~= flat_text(self@));
        r
    }
}

proof fn lemma_protected_prefix(a: SigningAlg, x: Seq<u8>, t: Seq<u8>, data: Seq<u8>)
    requires
        valid_extension(x),
        data == protected_key() + header_text(a, x) + t,
    ensures
        data.subrange(0, 13) == protected_key(),
        data.subrange(13, 13 + header_text(a, x).len() as int) == header_text(a, x),
        framed_object(header_text(a, x)),
        crate::header::opens_object(x),
{
    crate::header::lemma_header_framed(a, x);
    assert(data.subrange(0, 13) =~= protected_key());
    assert(data.subrange(13, 13 + header_text(a, x).len() as int) =~= header_text(a, x));
}

/// Reads `{"protected":` and the protected header object.
fn read_protected(data: &[u8]) -> (r: Option<(crate::header::Protected, usize)>)
    ensures
        r matches Some((p, k)) ==> 13 + k <= data@.len() && data@.subrange(0, 13) == protected_key()
            && data@.subrange(13, 13 + k) == header_text(p.alg, p.extra@) && valid_extension(p.extra@)
            && p.extra@.len() <= MAX_INPUT,
        forall|a: SigningAlg, x: Seq<u8>, t: Seq<u8>|
            valid_extension(x) && x.len() <= MAX_INPUT && data@ == #[trigger] (protected_key() + header_text(a, x) + t)
                ==> (r matches Some((p, k)) && p.alg == a && p.extra@ == x && k == header_text(a, x).len()),
{
    let pk: [u8; 13] = [123, 34, 112, 114, 111, 116, 101, 99, 116, 101, 100, 34, 58];
    assert(pk@ =~= protected_key());
    let n = data.len();
    if !has_at(data, 0, &pk) {
        proof {
            assert forall|a: SigningAlg, x: Seq<u8>, t: Seq<u8>| valid_extension(x) && data@ == #[trigger] (protected_key() + header_text(a, x) + t)
                implies false by {
                lemma_protected_prefix(a, x, t, data@);
            }
        }
        return None;
    }
    let k = match object_len(data, 13) {
        Some(k) => k,
        None => {
            proof {
                assert forall|a: SigningAlg, x: Seq<u8>, t: Seq<u8>| valid_extension(x) && data@ == #[trigger] (protected_key() + header_text(a, x) + t)
                    implies false by {
                    lemma_protected_prefix(a, x, t, data@);
                    let l = header_text(a, x).len() as int;
                    assert(framed_object(data@.subrange(13usize as int, 13usize + l)));
                }
            }
            return None;
        },
    };
    let p = match parse_header(&data[13..13 + k]) {
        Some(p) => p,
        None => {
            proof {
                assert forall|a: SigningAlg, x: Seq<u8>, t: Seq<u8>| valid_extension(x) && data@ == #[trigger] (protected_key() + header_text(a, x) + t)
                    implies false by {
                    lemma_protected_prefix(a, x, t, data@);
                    let l = header_text(a, x).len() as int;
                    assert(framed_object(data@.subrange(13usize as int, 13usize + l)));
                }
            }
            return None;
        },
    };
    proof {
        assert forall|a: SigningAlg, x: Seq<u8>, t: Seq<u8>| valid_extension(x) && data@ == #[trigger] (protected_key() + header_text(a, x) + t)
            implies p.alg == a && p.extra@ == x && k == header_text(a, x).len() by {
            lemma_protected_prefix(a, x, t, data@);
            let l = header_text(a, x).len() as int;
            assert(framed_object(data@.subrange(13usize as int, 13usize + l)));
            lemma_header_text_injective(p.alg, p.extra@, a, x);
        }
    }
    if p.extra.len() > MAX_INPUT || !check_extension(p.extra.as_slice()) {
        return None;
    }
    Some((p, k))
}

/// Reads the `header` member at `p0`, if there is one.
fn read_header_member(data: &[u8], p0: usize) -> (r: Option<(Option<Vec<u8>>, usize)>)
    requires
        p0 <= data@.len(),
    ensures
        r matches Some((u, p1)) ==> p0 <= p1 <= data@.len() && data@.subrange(p0 as int, p1 as int) == hdr_member(opt_view(u))
            && unprotected_ok(opt_view(u)),
        forall|u: Option<Seq<u8>>, s: Option<Seq<u8>>|
            unprotected_ok(u) && data@.subrange(p0 as int, data@.len() as int) == #[trigger] (hdr_member(u) + sig_member(s) + seq![125u8])
                ==> (r matches Some((u2, p1)) && opt_view(u2) == u && p1 == p0 + hdr_member(u).len()),
{
    let n = data.len();
    let hk: [u8; 10] = [44, 34, 104, 101, 97, 100, 101, 114, 34, 58];
    assert(hk@ =~= header_key());
    let ghost rest = data@.subrange(p0 as int, n as int);
    if !has_at(data, p0, &hk) {
        proof {
            assert forall|u: Option<Seq<u8>>, s: Option<Seq<u8>>|
                unprotected_ok(u) && rest == #[trigger] (hdr_member(u) + sig_member(s) + seq![125u8]) implies u is None by {
                if u is Some {
                    let w = u->Some_0;
                    assert(rest =~= header_key() + w + sig_member(s) + seq![125u8]);
                    assert(rest.subrange(0, 10) =~= header_key());
                    assert(data@.subrange(p0 as int, p0 + 10) =~= rest.subrange(0, 10));
                }
            }
        }
        let none: Option<Vec<u8>> = None;
        assert(data@.subrange(p0 as int, p0 as int) =~= Seq::<u8>::empty());
        return Some((none, p0));
    }
    proof {
        assert forall|u: Option<Seq<u8>>, s: Option<Seq<u8>>|
            unprotected_ok(u) && rest == #[trigger] (hdr_member(u) + sig_member(s) + seq![125u8]) implies u is Some by {
            if u is None {
                if s is Some {
                    let x = s->Some_0;
                    assert(rest =~= signature_key() + b64url(x) + seq![34u8] + seq![125u8]);
                    assert(rest[2] == 115);
                    assert(data@[p0 + 2] == hk@[2]);
                } else {
                    assert(rest.len() == 1);
                }
            }
        }
    }
    let k = match value_len(data, p0 + 10) {
        Some(k) => k,
        None => {
            proof {
                assert forall|u: Option<Seq<u8>>, s: Option<Seq<u8>>|
                    unprotected_ok(u) && rest == #[trigger] (hdr_member(u) + sig_member(s) + seq![125u8]) implies false by {
                    lemma_header_value(data@, p0 as int, u->Some_0, s);
                }
            }
            return None;
        },
    };
    proof {
        assert forall|u: Option<Seq<u8>>, s: Option<Seq<u8>>|
            unprotected_ok(u) && rest == #[trigger] (hdr_member(u) + sig_member(s) + seq![125u8]) implies k
            == u->Some_0.len() by {
            lemma_header_value(data@, p0 as int, u->Some_0, s);
        }
    }
    let mut w: Vec<u8> = Vec::new();
    w.extend_from_slice(&data[p0 + 10..p0 + 10 + k]);
    proof {
        assert forall|u: Option<Seq<u8>>, s: Option<Seq<u8>>|
            unprotected_ok(u) && rest == #[trigger] (hdr_member(u) + sig_member(s) + seq![125u8]) implies u == Some(w@) by {
            lemma_header_value(data@, p0 as int, u->Some_0, s);
        }
        assert(data@.subrange(p0 as int, p0 + 10 + k) =~= header_key() + w@) by {
            assert(data@.subrange(p0 as int, p0 + 10) == hk@);
        }
    }
    if !check_unprotected(w.as_slice()) {
        return None;
    }
    Some((Some(w), p0 + 10 + k))
}

proof fn lemma_header_value(data: Seq<u8>, p0: int, w: Seq<u8>, s: Option<Seq<u8>>)
    requires
        0 <= p0 <= data.len(),
        valid_unprotected(w),
        data.subrange(p0, data.len() as int) == hdr_member(Some(w)) + sig_member(s) + seq![125u8],
    ensures
        data.subrange(p0 + 10, p0 + 10 + w.len()) == w,
        p0 + 10 + w.len() < data.len(),
        is_delim(data[p0 + 10 + w.len()]),
{
    let rest = data.subrange(p0, data.len() as int);
    assert(rest =~= header_key() + w + (sig_member(s) + seq![125u8]));
    assert(data.subrange(p0 + 10, p0 + 10 + w.len()) =~= w) by {
        assert forall|i: int| 0 <= i < w.len() implies data.subrange(p0 + 10, p0 + 10 + w.len())[i] == w[i] by {
            assert(data[p0 + 10 + i] == rest[10 + i]);
        }
    }
    assert(data[p0 + 10 + w.len()] == rest[10 + w.len() as int]);
    if s is Some {
        assert(rest[10 + w.len() as int] == 44);
    } else {
        assert(rest[10 + w.len() as int] == 125);
    }
}

/// Reads the `signature` member at `p1`, if there is one, and the closing brace.
fn read_signature_member(data: &[u8], p1: usize) -> (r: Option<Option<Vec<u8>>>)
    requires
        p1 <= data@.len(),
    ensures
        r matches Some(s) ==> data@.subrange(p1 as int, data@.len() as int) == sig_member(opt_view(s)) + seq![125u8]
            && sig_ok(opt_view(s)),
        forall|s: Option<Seq<u8>>|
            sig_ok(s) && data@.subrange(p1 as int, data@.len() as int) == #[trigger] (sig_member(s) + seq![125u8])
                ==> (r matches Some(s2) && opt_view(s2) == s),
{
    let n = data.len();
    let sk: [u8; 14] = [44, 34, 115, 105, 103, 110, 97, 116, 117, 114, 101, 34, 58, 34];
    assert(sk@ =~= signature_key());
    let ghost rest = data@.subrange(p1 as int, n as int);
    if !has_at(data, p1, &sk) {
        proof {
            assert forall|s: Option<Seq<u8>>| sig_ok(s) && rest == #[trigger] (sig_member(s) + seq![125u8]) implies s is None by {
                if s is Some {
                    let x = s->Some_0;
                    assert(rest =~= signature_key() + b64url(x) + seq![34u8] + seq![125u8]);
                    assert(rest.subrange(0, 14) =~= signature_key());
                    assert(data@.subrange(p1 as int, p1 + 14) =~= rest.subrange(0, 14));
                }
            }
        }
        if !(p1 < n && p1 + 1 == n && data[p1] == 125) {
            proof {
                assert forall|s: Option<Seq<u8>>| sig_ok(s) && rest == #[trigger] (sig_member(s) + seq![125u8]) implies false by {
                    assert(rest =~= seq![125u8]);
                    assert(rest[0] == data@[p1 as int]);
                }
            }
            return None;
        }
        assert(rest =~= seq![125u8]);
        assert(sig_member(None) + seq![125u8] =~= seq![125u8]);
        return Some(None);
    }
    proof {
        assert forall|s: Option<Seq<u8>>| sig_ok(s) && rest == #[trigger] (sig_member(s) + seq![125u8]) implies s is Some by {
            if s is None {
                assert(rest.len() == 1);
            }
        }
    }
    let q = match find_byte(data, p1 + 14, 34) {
        Some(q) => q,
        None => {
            proof {
                assert forall|s: Option<Seq<u8>>| sig_ok(s) && rest == #[trigger] (sig_member(s) + seq![125u8]) implies false by {
                    let x = s->Some_0;
                    let k = b64url(x).len() as int;
                    assert(rest =~= signature_key() + b64url(x) + seq![34u8] + seq![125u8]);
                    assert(rest[14 + k] == 34);
                    assert(rest[14 + k] == data@[p1 + 14 + k]);
                }
            }
            return None;
        },
    };
    proof {
        assert forall|s: Option<Seq<u8>>| sig_ok(s) && rest == #[trigger] (sig_member(s) + seq![125u8]) implies q == p1 + 14
            + b64url(s->Some_0).len() && data@.subrange(p1 + 14, q as int) == b64url(s->Some_0) && q + 2 == n by {
            let x = s->Some_0;
            let k = b64url(x).len() as int;
            lemma_no_dot(x);
            assert(rest =~= signature_key() + b64url(x) + seq![34u8] + seq![125u8]);
            assert(rest[14 + k] == 34);
            assert(rest[14 + k] == data@[p1 + 14 + k]);
            assert forall|j: int| p1 + 14 <= j < p1 + 14 + k implies #[trigger] data@[j] != 34 by {
                assert(data@[j] == rest[j - p1]);
                assert(rest[j - p1] == b64url(x)[j - p1 - 14]);
            }
            assert(q == p1 + 14 + k);
            assert forall|j: int| 0 <= j < k implies #[trigger] data@.subrange(p1 + 14, q as int)[j] == b64url(x)[j] by {
                assert(data@[p1 + 14 + j] == rest[14 + j]);
            }
            assert(data@.subrange(p1 + 14, q as int) =~= b64url(x));
        }
    }
    let sv = match b64url_decode(&data[p1 + 14..q]) {
        Some(v) => v,
        None => return None,
    };
    proof {
        assert forall|s: Option<Seq<u8>>| sig_ok(s) && rest == #[trigger] (sig_member(s) + seq![125u8]) implies s == Some(sv@) by {
            lemma_b64url_injective(sv@, s->Some_0);
        }
    }
    if sv.len() == 0 || sv.len() > MAX_INPUT || n - q != 2 || data[q + 1] != 125 {
        proof {
            assert forall|s: Option<Seq<u8>>| sig_ok(s) && rest == #[trigger] (sig_member(s) + seq![125u8]) implies false by {
                let x = s->Some_0;
                let k = b64url(x).len() as int;
                assert(rest =~= signature_key() + b64url(x) + seq![34u8] + seq![125u8]);
                assert(rest[15 + k] == data@[q + 1]);
            }
        }
        return None;
    }
    proof {
        assert(rest =~= signature_key() + data@.subrange(p1 + 14, q as int) + seq![34u8] + seq![125u8]) by {
            assert(data@.subrange(p1 as int, p1 + 14) == sk@);
        }
    }
    Some(Some(sv))
}

impl Flat {
    /// Reads the text that `encode` writes. Exactly those texts are
    /// accepted, and each gives back the envelope it was written from.
    #[verifier::rlimit(80)]
    fn decode_canonical(data: &[u8]) -> (r: Result<Flat, FormatError>)
        ensures
            match r {
                Ok(f) => flat_ok(f@) && flat_text(f@) == data@,
                Err(e) => e == FormatError::Malformed,
            },
            forall|e: EnvelopeView| flat_ok(e) && #[trigger] flat_text(e) == data@ ==> (r matches Ok(f) && f@ == e),
    {
        let n = data.len();
        proof {
            assert forall|e: EnvelopeView| flat_ok(e) && #[trigger] flat_text(e) == data@ implies data@ == protected_key()
                + header_text(e.alg, e.extra) + (header_member(e) + signature_member(e) + seq![125u8]) by {
                assert(flat_text(e) =~= protected_key() + header_text(e.alg, e.extra) + (header_member(e)
                    + signature_member(e) + seq![125u8]));
            }
        }
        let (prot, k) = match read_protected(data) {
            Some(x) => x,
            None => return Err(FormatError::Malformed),
        };
        let p0 = 13 + k;
        proof {
            assert forall|e: EnvelopeView| flat_ok(e) && #[trigger] flat_text(e) == data@ implies data@.subrange(p0 as int, n as int)
                == header_member(e) + signature_member(e) + seq![125u8] && prot.alg == e.alg && prot.extra@ == e.extra by {
                let t = header_member(e) + signature_member(e) + seq![125u8];
                assert(data@ == protected_key() + header_text(e.alg, e.extra) + t);
                assert(data@.subrange(p0 as int, n as int) =~= t);
            }
        }
        let (unprot, p1) = match read_header_member(data, p0) {
            Some(x) => x,
            None => return Err(FormatError::Malformed),
        };
        proof {
            assert forall|e: EnvelopeView| flat_ok(e) && #[trigger] flat_text(e) == data@ implies data@.subrange(p1 as int, n as int)
                == signature_member(e) + seq![125u8] && opt_view(unprot) == e.unprotected by {
                let t = header_member(e) + signature_member(e) + seq![125u8];
                assert(data@.subrange(p0 as int, n as int) == hdr_member(e.unprotected) + sig_member(e.signature) + seq![125u8]);
                assert(data@.subrange(p1 as int, n as int) =~= data@.subrange(p0 as int, n as int).subrange(p1 - p0, n - p0));
                assert(t.subrange(p1 - p0, n - p0) =~= signature_member(e) + seq![125u8]);
            }
        }
        let sig = match read_signature_member(data, p1) {
            Some(s) => s,
            None => return Err(FormatError::Malformed),
        };
        let unsecured = match prot.alg {
            SigningAlg::Unsecured => true,
            _ => false,
        };
        if unsecured != sig.is_none() {
            return Err(FormatError::Malformed);
        }
        let signature = Signature::from_parts(prot, unprot, sig);
        proof {
            assert(data@ =~= data@.subrange(0, 13) + data@.subrange(13, p0 as int) + data@.subrange(p0 as int, p1 as int)
                + data@.subrange(p1 as int, n as int));
        }
        Ok(Flat(signature))
    }
}

/// The value of the first member named `key`.
pub open spec fn member(ms: Seq<(Seq<u8>, Seq<u8>)>, key: Seq<u8>) -> Option<Seq<u8>>
    decreases ms.len(),
{
    if ms.len() == 0 {
        None
    } else if ms[0].0 == key {
        Some(ms[0].1)
    } else {
        member(ms.drop_first(), key)
    }
}

pub open spec fn protected_name() -> Seq<u8> {
    seq![112u8, 114, 111, 116, 101, 99, 116, 101, 100]
}

pub open spec fn header_name() -> Seq<u8> {
    seq![104u8, 101, 97, 100, 101, 114]
}

pub open spec fn signature_name() -> Seq<u8> {
    seq![115u8, 105, 103, 110, 97, 116, 117, 114, 101]
}

/// The algorithm and extension of a `protected` value: its canonical header
/// text with a valid extension.
pub open spec fn protected_of(p: Seq<u8>) -> Option<(SigningAlg, Seq<u8>)> {
    if exists|a: SigningAlg, x: Seq<u8>| valid_extension(x) && x.len() <= MAX_INPUT && header_text(a, x) == p {
        Some(choose|a: SigningAlg, x: Seq<u8>| valid_extension(x) && x.len() <= MAX_INPUT && header_text(a, x) == p)
    } else {
        None
    }
}

/// The signature bytes of a `signature` value: a quoted base64url string.
pub open spec fn quoted_sig(t: Seq<u8>) -> Option<Seq<u8>> {
    if exists|x: Seq<u8>| 0 < x.len() <= MAX_INPUT && t == seq![34u8] + b64url(x) + seq![34u8] {
        Some(choose|x: Seq<u8>| 0 < x.len() <= MAX_INPUT && t == seq![34u8] + b64url(x) + seq![34u8])
    } else {
        None
    }
}

/// The signature that an optional `signature` member gives; `None` when it is invalid.
pub open spec fn signature_of(t: Option<Seq<u8>>) -> Option<Option<Seq<u8>>> {
    match t {
        None => Some(None),
        Some(t) => match quoted_sig(t) {
            Some(x) => Some(Some(x)),
            None => None,
        },
    }
}

/// The unprotected header that an optional `header` member gives, an empty
/// one being none; `None` when it is invalid.
pub open spec fn unprotected_of(w: Option<Seq<u8>>) -> Option<Option<Seq<u8>>> {
    match w {
        None => Some(None),
        Some(w) => if empty_unprotected(w) {
            Some(None)
        } else if valid_unprotected(w) {
            Some(Some(w))
        } else {
            None
        },
    }
}

/// The envelope that the members of a Flat object describe; other members
/// are ignored.
pub open spec fn flat_of_members(ms: Seq<(Seq<u8>, Seq<u8>)>) -> Option<EnvelopeView> {
    match member(ms, protected_name()) {
        None => None,
        Some(p) => match (
            protected_of(p),
            unprotected_of(member(ms, header_name())),
            signature_of(member(ms, signature_name())),
        ) {
            (Some(h), Some(u), Some(sg)) => if (h.0 == SigningAlg::Unsecured) == (sg is None) {
                Some(EnvelopeView { alg: h.0, extra: h.1, unprotected: u, signature: sg })
            } else {
                None
            },
            _ => None,
        },
    }
}

fn find_member(ms: &MemberList, key: &[u8]) -> (r: Option<usize>)
    ensures
        match r {
            Some(i) => i < ms@.len() && member(ms.deep_view(), key@) == Some(ms.deep_view()[i as int].1),
            None => member(ms.deep_view(), key@) is None,
        },
{
    let ghost dv = ms.deep_view();
    let mut i: usize = 0;
    assert(dv.subrange(0, dv.len() as int) =~= dv);
    while i < ms.len()
        invariant
            0 <= i <= ms@.len(),
            dv == ms.deep_view(),
            dv.len() == ms@.len(),
            member(dv, key@) == member(dv.subrange(i as int, dv.len() as int), key@),
        decreases ms@.len() - i,
    {
        let ghost t = dv.subrange(i as int, dv.len() as int);
        assert(t[0] == dv[i as int]);
        assert(dv[i as int].0 == ms@[i as int].0@);
        if bytes_eq(ms[i].0.as_slice(), key) {
            return Some(i);
        }
        assert(t.drop_first() =~= dv.subrange(i + 1, dv.len() as int));
        i = i + 1;
    }
    assert(dv.subrange(i as int, dv.len() as int).len() == 0);
    None
}

fn read_protected_value(p: &[u8]) -> (r: Option<Protected>)
    ensures
        match r {
            Some(pr) => protected_of(p@) == Some((pr.alg, pr.extra@)),
            None => protected_of(p@) is None,
        },
{
    let pr = match parse_header(p) {
        Some(pr) => pr,
        None => {
            proof {
                assert forall|a: SigningAlg, x: Seq<u8>| !(valid_extension(x) && x.len() <= MAX_INPUT && header_text(a, x) == p@) by {
                    if valid_extension(x) {
                        crate::header::lemma_header_framed(a, x);
                        assert(opens_object(x));
                    }
                }
            }
            return None;
        },
    };
    proof {
        assert forall|a: SigningAlg, x: Seq<u8>| valid_extension(x) && header_text(a, x) == p@ implies a == pr.alg && x == pr.extra@ by {
            assert(opens_object(x));
            lemma_header_text_injective(a, x, pr.alg, pr.extra@);
        }
    }
    if pr.extra.len() > MAX_INPUT || !check_extension(pr.extra.as_slice()) {
        return None;
    }
    proof {
        let c = choose|a: SigningAlg, x: Seq<u8>| valid_extension(x) && x.len() <= MAX_INPUT && header_text(a, x) == p@;
        assert(valid_extension(pr.extra@) && pr.extra@.len() <= MAX_INPUT && header_text(pr.alg, pr.extra@) == p@);
        assert(c.0 == pr.alg && c.1 == pr.extra@);
    }
    Some(pr)
}

fn read_quoted_sig(t: &[u8]) -> (r: Option<Vec<u8>>)
    ensures
        match r {
            Some(v) => quoted_sig(t@) == Some(v@),
            None => quoted_sig(t@) is None,
        },
{
    let n = t.len();
    if n < 2 || t[0] != 34 || t[n - 1] != 34 {
        proof {
            assert forall|x: Seq<u8>| !(0 < x.len() <= MAX_INPUT && t@ == seq![34u8] + b64url(x) + seq![34u8]) by {
                if t@ == seq![34u8] + b64url(x) + seq![34u8] {
                    assert(t@[t@.len() - 1] == 34);
                }
            }
        }
        return None;
    }
    proof {
        assert forall|x: Seq<u8>| t@ == seq![34u8] + b64url(x) + seq![34u8] implies t@.subrange(1, n - 1) == b64url(x) by {
            assert(t@.subrange(1, n - 1) =~= b64url(x));
        }
    }
    let v = match b64url_decode(&t[1..n - 1]) {
        Some(v) => v,
        None => return None,
    };
    proof {
        assert forall|x: Seq<u8>| t@ == seq![34u8] + b64url(x) + seq![34u8] implies x == v@ by {
            lemma_b64url_injective(x, v@);
        }
    }
    if v.len() == 0 || v.len() > MAX_INPUT {
        return None;
    }
    proof {
        assert(t@ =~= seq![34u8] + t@.subrange(1, n - 1) + seq![34u8]);
        let c = choose|x: Seq<u8>| 0 < x.len() <= MAX_INPUT && t@ == seq![34u8] + b64url(x) + seq![34u8];
        assert(c == v@);
    }
    Some(v)
}

/// The envelope that the members of a Flat object describe.
fn read_members(ms: &MemberList) -> (r: Option<Signature>)
    ensures
        match r {
            Some(sg) => flat_of_members(ms.deep_view()) == Some(sg@),
            None => flat_of_members(ms.deep_view()) is None,
        },
{
    let pn: [u8; 9] = [112, 114, 111, 116, 101, 99, 116, 101, 100];
    let hn: [u8; 6] = [104, 101, 97, 100, 101, 114];
    let sn: [u8; 9] = [115, 105, 103, 110, 97, 116, 117, 114, 101];
    assert(pn@ =~= protected_name());
    assert(hn@ =~= header_name());
    assert(sn@ =~= signature_name());
    let ghost dv = ms.deep_view();
    let pi = match find_member(ms, &pn) {
        Some(i) => i,
        None => return None,
    };
    assert(dv[pi as int].1 == ms@[pi as int].1@);
    let prot = match read_protected_value(ms[pi].1.as_slice()) {
        Some(p) => p,
        None => return None,
    };
    let unprot: Option<Vec<u8>> = match find_member(ms, &hn) {
        None => None,
        Some(i) => {
            assert(dv[i as int].1 == ms@[i as int].1@);
            let w = ms[i].1.as_slice();
            if is_empty_unprotected(w) {
                None
            } else if check_unprotected(w) {
                let mut c: Vec<u8> = Vec::new();
                c.extend_from_slice(w);
                assert(c@ == w@);
                Some(c)
            } else {
                return None;
            }
        },
    };
    let sig: Option<Vec<u8>> = match find_member(ms, &sn) {
        None => None,
        Some(i) => match {
            assert(dv[i as int].1 == ms@[i as int].1@);
            read_quoted_sig(ms[i].1.as_slice())
        } {
            Some(v) => Some(v),
            None => return None,
        },
    };
    let unsecured = match prot.alg {
        SigningAlg::Unsecured => true,
        _ => false,
    };
    assert(unprotected_of(member(dv, header_name())) == Some(opt_view(unprot)));
    assert(signature_of(member(dv, signature_name())) == Some(opt_view(sig)));
    if unsecured != sig.is_none() {
        return None;
    }
    let r = Signature::from_parts(prot, unprot, sig);
    assert(flat_of_members(dv) == Some(r@));
    Some(r)
}

impl Flat {
    /// Reads a Flat JSON object back into the envelope; no signature is
    /// checked.
    ///
    /// The text that `encode` writes is read directly and gives back the
    /// envelope it was written from. Any other text is read as a JSON object
    /// with any spacing and member order: the `protected` value must still be
    /// a canonical header, `signature` a quoted base64url string, and an empty
    /// `header` counts as none; other members are ignored.
    pub fn decode(data: &[u8]) -> (r: Result<Flat, FormatError>)
        ensures
            forall|e: EnvelopeView| flat_ok(e) && #[trigger] flat_text(e) == data@ ==> (r matches Ok(f) && f@ == e),
            match r {
                Ok(f) => flat_ok(f@) && (flat_text(f@) == data@ || (json_members(data@) matches Some(ms)
                    && flat_of_members(ms) == Some(f@))),
                Err(e) => e == FormatError::Malformed && (forall|g: EnvelopeView| flat_ok(g) ==> #[trigger] flat_text(g) != data@)
                    && !(json_members(data@) matches Some(ms) && flat_of_members(ms) is Some),
            },
    {
        if let Ok(f) = Flat::decode_canonical(data) {
            return Ok(f);
        }
        let ms = match parse_json_members(data) {
            Some(ms) => ms,
            None => return Err(FormatError::Malformed),
        };
        match read_members(&ms) {
            Some(sg) => Ok(Flat(sg)),
            None => Err(FormatError::Malformed),
        }
    }
}

} // verus!
