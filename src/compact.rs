//! The Compact form: `base64url(header) "." base64url(payload) "." base64url(signature)`.
use crate::alg::SigningAlg;
use crate::b64::{b64url, b64url_decode, b64url_encode, lemma_b64url_empty, lemma_b64url_injective};
use crate::envelope::{signed, signing_input, signing_input_bytes, unsigned, verify_outcome, EnvelopeView, SignError, Signature, VerifyError, MAX_INPUT};
use crate::formats::{find_byte, lemma_no_dot, FormatError};
use crate::header::{lemma_header_text_injective, parse_header};
use crate::json::{check_extension, empty_unprotected, valid_extension};
use crate::mac::MacAlg;
use vstd::prelude::*;

verus! {

/// The signature bytes, empty when there are none.
pub open spec fn sig_bytes(e: EnvelopeView) -> Seq<u8> {
    match e.signature {
        Some(s) => s,
        None => Seq::<u8>::empty(),
    }
}

/// `H "." P "." S`, each segment base64url; `S` is empty without a signature.
pub open spec fn compact_text(e: EnvelopeView, payload: Seq<u8>) -> Seq<u8> {
    signing_input(e.alg, e.extra, payload) + seq![46u8] + b64url(sig_bytes(e))
}

/// The envelopes that have a Compact form.
pub open spec fn compact_ok(e: EnvelopeView) -> bool {
    &&& e.wf()
    &&& e.unprotected is None
    &&& valid_extension(e.extra)
    &&& e.extra.len() <= MAX_INPUT
}


proof fn lemma_compact_parts(e: EnvelopeView, p: Seq<u8>, data: Seq<u8>)
    requires
        compact_text(e, p) == data,
    ensures
        ({
            let a = b64url(e.header()).len() as int;
            let b = b64url(p).len() as int;
            &&& data.len() == a + b + 2 + b64url(sig_bytes(e)).len()
            &&& data[a] == 46
            &&& data[a + 1 + b] == 46
            &&& forall|j: int| 0 <= j < a ==> #[trigger] data[j] != 46
            &&& forall|j: int| a < j < a + 1 + b ==> #[trigger] data[j] != 46
            &&& forall|j: int| a + 1 + b < j < data.len() ==> #[trigger] data[j] != 46
            &&& data.subrange(0, a) == b64url(e.header())
            &&& data.subrange(a + 1, a + 1 + b) == b64url(p)
            &&& data.subrange(a + 2 + b, data.len() as int) == b64url(sig_bytes(e))
        }),
{
    let x = b64url(e.header());
    let y = b64url(p);
    let z = b64url(sig_bytes(e));
    lemma_no_dot(e.header());
    lemma_no_dot(p);
    lemma_no_dot(sig_bytes(e));
    let a = x.len() as int;
    let b = y.len() as int;
    assert(data =~= x + seq![46u8] + y + seq![46u8] + z);
    assert forall|j: int| 0 <= j < a implies #[trigger] data[j] != 46 by {
        assert(data[j] == x[j]);
    }
    assert forall|j: int| a < j < a + 1 + b implies #[trigger] data[j] != 46 by {
        assert(data[j] == y[j - a - 1]);
    }
    assert forall|j: int| a + 1 + b < j < data.len() implies #[trigger] data[j] != 46 by {
        assert(data[j] == z[j - a - 2 - b]);
    }
    assert(data.subrange(0, a) =~= x);
    assert(data.subrange(a + 1, a + 1 + b) =~= y);
    assert(data.subrange(a + 2 + b, data.len() as int) =~= z);
}

/// Compact form: a single signature with a protected header only.
#[derive(Debug, PartialEq, Eq)]
pub struct Compact {
    signature: Signature,
}

impl View for Compact {
    type V = EnvelopeView;

    closed spec fn view(&self) -> EnvelopeView {
        self.signature@
    }
}

impl Clone for Compact {
    fn clone(&self) -> (r: Compact)
        ensures
            r@ == self@,
    {
        Compact { signature: self.signature.clone() }
    }
}

impl Compact {
    /// Adapts an envelope to the Compact form, which refuses a non-empty
    /// unprotected header (an empty one is never held).
    pub fn new(signature: Signature) -> (r: Result<Compact, FormatError>)
        requires
            signature@.wf(),
            signature@.extra.len() <= MAX_INPUT,
        ensures
            match r {
                Ok(c) => c@ == signature@ && compact_ok(c@),
                Err(e) => match signature@.unprotected {
                    Some(u) => e == FormatError::UnprotectedNotSupported && !empty_unprotected(u),
                    None => e == FormatError::InvalidHeader && !valid_extension(signature@.extra),
                },
            },
    {
        if signature.unprotected().is_some() {
            return Err(FormatError::UnprotectedNotSupported);
        }
        if !check_extension(signature.extra().as_slice()) {
            return Err(FormatError::InvalidHeader);
        }
        Ok(Compact { signature })
    }

    pub fn envelope(&self) -> (r: &Signature)
        ensures
            r@ == self@,
    {
        &self.signature
    }

    /// Signs `payload`; see `Signature::sign_bytes`.
    pub fn sign_bytes(self, alg: MacAlg, key: &[u8], payload: &[u8]) -> (r: Result<Compact, SignError>)
        requires
            compact_ok(self@),
            payload@.len() <= MAX_INPUT,
        ensures
            r matches Ok(c) && c@ == signed(self@, alg, key@, payload@) && compact_ok(c@),
    {
        match self.signature.sign_bytes(alg, key, payload) {
            Ok(s) => Ok(Compact { signature: s }),
            Err(e) => Err(e),
        }
    }

    pub fn into_unsigned(self) -> (r: Compact)
        requires
            compact_ok(self@),
        ensures
            r@ == unsigned(self@),
            compact_ok(r@),
    {
        Compact { signature: self.signature.unsign() }
    }

    pub fn verify(&self, key: &[u8], payload: &[u8]) -> (r: Result<(), VerifyError>)
        requires
            compact_ok(self@),
            payload@.len() <= MAX_INPUT,
        ensures
            r == verify_outcome(self@, key@, payload@),
    {
        self.signature.verify(key, payload)
    }

    /// The wire form of this envelope over `payload`.
    pub fn encode(&self, payload: &[u8]) -> (r: Vec<u8>)
        requires
            compact_ok(self@),
            payload@.len() <= MAX_INPUT,
        ensures
            r@ == compact_text(self@, payload@),
    {
        let mut r = signing_input_bytes(self.signature.alg(), self.signature.extra(), payload);
        r.push(46);
        match self.signature.signature() {
            Some(s) => {
                let t = b64url_encode(s.as_slice());
                r.extend_from_slice(t.as_slice());
            },
            None => {
                assert(b64url(Seq::<u8>::empty()) =~= Seq::<u8>::empty());
            },
        }
        r
    }

    /// Reads a wire form back into the envelope and the payload. Exactly the
    /// texts that `encode` writes for some envelope are accepted, and each
    /// gives back that envelope and payload; no signature is checked.
    pub fn decode(data: &[u8]) -> (r: Result<(Compact, Vec<u8>), FormatError>)
        ensures
            match r {
                Ok((c, p)) => compact_ok(c@) && compact_text(c@, p@) == data@,
                Err(e) => e == FormatError::Malformed,
            },
            forall|e: EnvelopeView, p: Seq<u8>|
                compact_ok(e) && #[trigger] compact_text(e, p) == data@ ==> (r matches Ok((c, q))
                    && c@ == e && q@ == p),
    {
        let n = data.len();
        let i1 = match find_byte(data, 0, 46) {
            Some(i) => i,
            None => {
                proof {
                    assert forall|e: EnvelopeView, p: Seq<u8>| compact_ok(e) implies #[trigger] compact_text(e, p) != data@ by {
                        if compact_text(e, p) == data@ {
                            lemma_compact_parts(e, p, data@);
                        }
                    }
                }
                return Err(FormatError::Malformed);
            },
        };
        let i2 = match find_byte(data, i1 + 1, 46) {
            Some(i) => i,
            None => {
                proof {
                    assert forall|e: EnvelopeView, p: Seq<u8>| compact_ok(e) implies #[trigger] compact_text(e, p) != data@ by {
                        if compact_text(e, p) == data@ {
                            lemma_compact_parts(e, p, data@);
                        }
                    }
                }
                return Err(FormatError::Malformed);
            },
        };
        if find_byte(data, i2 + 1, 46).is_some() {
            proof {
                assert forall|e: EnvelopeView, p: Seq<u8>| compact_ok(e) implies #[trigger] compact_text(e, p) != data@ by {
                    if compact_text(e, p) == data@ {
                        lemma_compact_parts(e, p, data@);
                    }
                }
            }
            return Err(FormatError::Malformed);
        }
        proof {
            assert forall|e: EnvelopeView, p: Seq<u8>| compact_ok(e) && #[trigger] compact_text(e, p) == data@ implies
                data@.subrange(0, i1 as int) == b64url(e.header())
                && data@.subrange(i1 + 1, i2 as int) == b64url(p)
                && data@.subrange(i2 + 1, data@.len() as int) == b64url(sig_bytes(e)) by {
                lemma_compact_parts(e, p, data@);
                let a = b64url(e.header()).len() as int;
                let b = b64url(p).len() as int;
                assert(i1 == a);
                assert(i2 == a + 1 + b);
            }
        }
        let hd = b64url_decode(&data[0..i1]);
        let pd = b64url_decode(&data[i1 + 1..i2]);
        let sd = b64url_decode(&data[i2 + 1..n]);
        if hd.is_none() || pd.is_none() || sd.is_none() {
            return Err(FormatError::Malformed);
        }
        let h = hd.unwrap();
        let payload = pd.unwrap();
        let s = sd.unwrap();
        let prot = match parse_header(h.as_slice()) {
            Some(x) => x,
            None => {
                proof {
                    assert forall|e: EnvelopeView, p: Seq<u8>| compact_ok(e) implies #[trigger] compact_text(e, p) != data@ by {
                        if compact_text(e, p) == data@ {
                            lemma_b64url_injective(h@, e.header());
                            assert(h@ == e.header());
                        }
                    }
                }
                return Err(FormatError::Malformed);
            },
        };
        proof {
            assert forall|e: EnvelopeView, p: Seq<u8>| compact_ok(e) && #[trigger] compact_text(e, p) == data@ implies
                prot.alg == e.alg && prot.extra@ == e.extra && payload@ == p && s@ == sig_bytes(e) by {
                lemma_b64url_injective(h@, e.header());
                lemma_b64url_injective(payload@, p);
                lemma_b64url_injective(s@, sig_bytes(e));
                assert(h@ == e.header());
                lemma_header_text_injective(prot.alg, prot.extra@, e.alg, e.extra);
            }
        }
        if prot.extra.len() > MAX_INPUT || !check_extension(prot.extra.as_slice()) || s.len() > MAX_INPUT {
            return Err(FormatError::Malformed);
        }
        let sig = if s.len() == 0 {
            None
        } else {
            Some(s)
        };
        let unsecured = match prot.alg {
            SigningAlg::Unsecured => true,
            _ => false,
        };
        if unsecured != sig.is_none() {
            return Err(FormatError::Malformed);
        }
        let signature = Signature::from_parts(prot, None, sig);
        proof {
            assert forall|e: EnvelopeView, p: Seq<u8>| compact_ok(e) && #[trigger] compact_text(e, p) == data@ implies signature@ == e by {
                lemma_b64url_empty(sig_bytes(e));
                if e.signature is None {
                    assert(s@.len() == 0);
                }
            }
            assert(compact_text(signature@, payload@) =~= data@) by {
                assert(data@ =~= data@.subrange(0, i1 as int) + seq![46u8] + data@.subrange(i1 + 1, i2 as int)
                    + seq![46u8] + data@.subrange(i2 + 1, data@.len() as int));
                if s@.len() == 0 {
                    assert(s@ =~= Seq::<u8>::empty());
                }
            }
        }
        Ok((Compact { signature }, payload))
    }
}


/// A signed message in Compact form: the payload and its envelope.
#[derive(Debug, PartialEq, Eq)]
pub struct Jws {
    payload: Vec<u8>,
    data: Compact,
}

impl Clone for Jws {
    fn clone(&self) -> (r: Jws)
        ensures
            r.payload_view() == self.payload_view(),
            r.envelope_view() == self.envelope_view(),
    {
        let mut payload: Vec<u8> = Vec::new();
        payload.extend_from_slice(self.payload.as_slice());
        Jws { payload, data: self.data.clone() }
    }
}

impl Jws {
    pub closed spec fn payload_view(&self) -> Seq<u8> {
        self.payload@
    }

    pub closed spec fn envelope_view(&self) -> EnvelopeView {
        self.data@
    }

    /// A message that can be written: its envelope has a Compact form and its
    /// payload fits the encoder.
    pub open spec fn wf(&self) -> bool {
        compact_ok(self.envelope_view()) && self.payload_view().len() <= MAX_INPUT
    }

    pub fn new(payload: Vec<u8>, data: Compact) -> (r: Jws)
        ensures
            r.payload_view() == payload@,
            r.envelope_view() == data@,
    {
        Jws { payload, data }
    }

    pub fn payload(&self) -> (r: &Vec<u8>)
        ensures
            r@ == self.payload_view(),
    {
        &self.payload
    }

    pub fn data(&self) -> (r: &Compact)
        ensures
            r@ == self.envelope_view(),
    {
        &self.data
    }

    /// `H "." P "." S`.
    pub fn encode(&self) -> (r: Vec<u8>)
        requires
            self.wf(),
        ensures
            r@ == compact_text(self.envelope_view(), self.payload_view()),
    {
        self.data.encode(self.payload.as_slice())
    }

    /// Reads a Compact text; see `Compact::decode`.
    pub fn decode(text: &[u8]) -> (r: Result<Jws, FormatError>)
        ensures
            match r {
                Ok(j) => compact_ok(j.envelope_view()) && compact_text(j.envelope_view(), j.payload_view()) == text@,
                Err(e) => e == FormatError::Malformed,
            },
            forall|e: EnvelopeView, p: Seq<u8>|
                compact_ok(e) && #[trigger] compact_text(e, p) == text@ ==> (r matches Ok(j)
                    && j.envelope_view() == e && j.payload_view() == p),
    {
        match Compact::decode(text) {
            Ok((data, payload)) => Ok(Jws { payload, data }),
            Err(e) => Err(e),
        }
    }

    /// Checks the signature over this message's own payload.
    pub fn verify(&self, key: &[u8]) -> (r: Result<(), VerifyError>)
        requires
            self.wf(),
        ensures
            r == verify_outcome(self.envelope_view(), key@, self.payload_view()),
    {
        self.data.verify(key, self.payload.as_slice())
    }
}

} // verus!
