//! The signature envelope and its state machine: unsigned, signed, unsigned again.
use crate::alg::SigningAlg;
use crate::b64::{b64url, b64url_encode};
use crate::header::{header_text, Protected};
use crate::json::{check_extension, empty_unprotected, is_empty_unprotected, valid_extension};
use crate::mac::{mac_for, mac_of, mac_tag, KeyLengthError, MacAlg, MacEngine};
use vstd::prelude::*;

verus! {

/// Longest extension text and payload that the encoders take: their base64
/// forms must fit in memory.
pub const MAX_INPUT: usize = usize::MAX / 16;

/// Members of a JSON object: names and value texts.
pub type MemberList = Vec<(Vec<u8>, Vec<u8>)>;

/// The signature part of an envelope.
#[derive(Debug, PartialEq, Eq)]
pub enum SignatureState {
    /// No signature: omitted from every wire form.
    Absent,
    /// MAC output, base64url-encoded on the wire.
    Present(Vec<u8>),
}

/// Errors of signing: the key does not suit the algorithm, or the protected
/// header cannot be written as one JSON object.
#[derive(Clone, Copy, Debug, PartialEq, Eq, Structural)]
pub enum SignError {
    Length(KeyLengthError),
    Serialization,
}

/// Outcomes of a failed verification.
#[derive(Clone, Copy, Debug, PartialEq, Eq, Structural)]
pub enum VerifyError {
    /// The recomputed tag differs from the stored one.
    Mismatch,
    /// The recorded algorithm is not one this library can check.
    UnknownAlgorithm,
}

/// A single signature: protected header, unprotected header, signature.
///
/// Built by `new_unsigned`, then replaced as a whole by `sign_bytes` and
/// `unsign`; the algorithm tag and the signature always agree.
#[derive(Debug, PartialEq, Eq)]
pub struct Signature {
    protected: Protected,
    unprotected: Option<Vec<u8>>,
    signature: SignatureState,
}

/// What an envelope holds.
pub struct EnvelopeView {
    pub alg: SigningAlg,
    /// JSON object text of the extension fields of the protected header.
    pub extra: Seq<u8>,
    /// JSON text of the unprotected header, if there is one.
    pub unprotected: Option<Seq<u8>>,
    pub signature: Option<Seq<u8>>,
}

impl EnvelopeView {
    /// The tag is `none` exactly when there is no signature, a signature is
    /// never empty (nor longer than its encoders take), and an unprotected
    /// header without data is held as no unprotected header.
    pub open spec fn wf(self) -> bool {
        &&& (self.alg == SigningAlg::Unsecured) == (self.signature is None)
        &&& (self.signature matches Some(s) ==> 0 < s.len() <= MAX_INPUT)
        &&& (self.unprotected matches Some(u) ==> !empty_unprotected(u))
    }

    /// The canonical JSON bytes of the protected header.
    pub open spec fn header(self) -> Seq<u8> {
        header_text(self.alg, self.extra)
    }
}

/// The MAC input: `base64url(header) "." base64url(payload)`.
pub open spec fn signing_input(alg: SigningAlg, extra: Seq<u8>, payload: Seq<u8>) -> Seq<u8> {
    b64url(header_text(alg, extra)) + seq![46u8] + b64url(payload)
}

/// The envelope after signing `payload` with `m` under `key`.
pub open spec fn signed(e: EnvelopeView, m: MacAlg, key: Seq<u8>, payload: Seq<u8>) -> EnvelopeView {
    EnvelopeView {
        alg: mac_tag(m),
        extra: e.extra,
        unprotected: e.unprotected,
        signature: Some(mac_of(m, key, signing_input(mac_tag(m), e.extra, payload))),
    }
}

/// The envelope after `unsign`.
pub open spec fn unsigned(e: EnvelopeView) -> EnvelopeView {
    EnvelopeView {
        alg: SigningAlg::Unsecured,
        extra: e.extra,
        unprotected: e.unprotected,
        signature: None,
    }
}

/// What `verify` answers for an envelope, a key and a payload.
pub open spec fn verify_outcome(e: EnvelopeView, key: Seq<u8>, payload: Seq<u8>) -> Result<(), VerifyError> {
    match mac_for(e.alg) {
        None => Err(VerifyError::UnknownAlgorithm),
        Some(m) => if e.signature == Some(mac_of(m, key, signing_input(e.alg, e.extra, payload))) {
            Ok(())
        } else {
            Err(VerifyError::Mismatch)
        },
    }
}

/// An unprotected header as an envelope holds it: one without data is none.
pub open spec fn normalized(u: Option<Seq<u8>>) -> Option<Seq<u8>> {
    match u {
        Some(w) => if empty_unprotected(w) {
            None
        } else {
            Some(w)
        },
        None => None,
    }
}

pub open spec fn opt_view(o: Option<Vec<u8>>) -> Option<Seq<u8>> {
    match o {
        Some(v) => Some(v@),
        None => None,
    }
}

impl View for Signature {
    type V = EnvelopeView;

    closed spec fn view(&self) -> EnvelopeView {
        EnvelopeView {
            alg: self.protected.alg,
            extra: self.protected.extra@,
            unprotected: opt_view(self.unprotected),
            signature: match self.signature {
                SignatureState::Absent => None,
                SignatureState::Present(s) => Some(s@),
            },
        }
    }
}

fn copy_bytes(b: &[u8]) -> (r: Vec<u8>)
    ensures
        r@ == b@,
{
    let mut r: Vec<u8> = Vec::new();
    r.extend_from_slice(b);
    r
}

fn copy_opt(o: &Option<Vec<u8>>) -> (r: Option<Vec<u8>>)
    ensures
        opt_view(r) == opt_view(*o),
{
    match o {
        Some(v) => Some(copy_bytes(v.as_slice())),
        None => None,
    }
}

/// The MAC input for a header and a payload.
pub fn signing_input_bytes(alg: SigningAlg, extra: &Vec<u8>, payload: &[u8]) -> (r: Vec<u8>)
    requires
        extra@.len() <= MAX_INPUT,
        payload@.len() <= MAX_INPUT,
    ensures
        r@ == signing_input(alg, extra@, payload@),
{
    let header = Protected::new(alg, copy_bytes(extra.as_slice())).to_json();
    assert(header@.len() <= extra@.len() + 16) by {
        crate::header::lemma_header_shape(alg, extra@);
        assert(crate::alg::alg_name(alg).len() <= 6);
    }
    let mut r = b64url_encode(header.as_slice());
    r.push(46);
    let p = b64url_encode(payload);
    r.extend_from_slice(p.as_slice());
    r
}

impl Clone for Signature {
    fn clone(&self) -> (r: Signature)
        ensures
            r@ == self@,
    {
        let signature = match &self.signature {
            SignatureState::Present(s) => SignatureState::Present(copy_bytes(s.as_slice())),
            SignatureState::Absent => SignatureState::Absent,
        };
        Signature {
            protected: Protected::new(self.protected.alg, copy_bytes(self.protected.extra.as_slice())),
            unprotected: copy_opt(&self.unprotected),
            signature,
        }
    }
}

impl Signature {
    /// A new unsigned envelope: algorithm `none`, no signature. An
    /// unprotected header that is an object without members is left out.
    pub fn new_unsigned(extra: Vec<u8>, unprotected: Option<Vec<u8>>) -> (r: Signature)
        ensures
            r@.alg == SigningAlg::Unsecured,
            r@.extra == extra@,
            r@.unprotected == normalized(opt_view(unprotected)),
            r@.signature is None,
            r@.wf(),
    {
        let unprotected = match unprotected {
            Some(u) => if is_empty_unprotected(u.as_slice()) {
                None
            } else {
                Some(u)
            },
            None => None,
        };
        Signature {
            protected: Protected::new(SigningAlg::Unsecured, extra),
            unprotected,
            signature: SignatureState::Absent,
        }
    }

    /// Builds an envelope from its parts, when the tag and the signature agree.
    pub(crate) fn from_parts(
        protected: Protected,
        unprotected: Option<Vec<u8>>,
        signature: Option<Vec<u8>>,
    ) -> (r: Signature)
        ensures
            r@ == (EnvelopeView {
                alg: protected.alg,
                extra: protected.extra@,
                unprotected: opt_view(unprotected),
                signature: opt_view(signature),
            }),
    {
        let signature = match signature {
            Some(s) => SignatureState::Present(s),
            None => SignatureState::Absent,
        };
        Signature { protected, unprotected, signature }
    }

    pub fn alg(&self) -> (r: SigningAlg)
        ensures
            r == self@.alg,
    {
        self.protected.alg
    }

    /// The extension fields of the protected header.
    pub fn extra(&self) -> (r: &Vec<u8>)
        ensures
            r@ == self@.extra,
    {
        &self.protected.extra
    }

    pub fn unprotected(&self) -> (r: &Option<Vec<u8>>)
        ensures
            opt_view(*r) == self@.unprotected,
    {
        &self.unprotected
    }

    /// The signature bytes, if any.
    pub fn signature(&self) -> (r: Option<&Vec<u8>>)
        ensures
            match r {
                Some(s) => self@.signature == Some(s@),
                None => self@.signature is None,
            },
    {
        match &self.signature {
            SignatureState::Present(s) => Some(s),
            SignatureState::Absent => None,
        }
    }

    /// The base64url form of the signature; empty when there is none.
    pub fn signature_b64(&self) -> (r: Vec<u8>)
        requires
            self@.wf(),
        ensures
            match self@.signature {
                Some(s) => r@ == b64url(s),
                None => r@.len() == 0,
            },
    {
        match &self.signature {
            SignatureState::Present(s) => b64url_encode(s.as_slice()),
            SignatureState::Absent => Vec::new(),
        }
    }

    /// The canonical JSON bytes of the protected header.
    pub fn protected_json(&self) -> (r: Vec<u8>)
        requires
            self@.extra.len() <= MAX_INPUT,
        ensures
            r@ == self@.header(),
    {
        self.protected.to_json()
    }

    /// Signs `payload` with `alg` under `key`: the MAC of
    /// `base64url(header) "." base64url(payload)`, where the header carries
    /// the new algorithm tag.
    ///
    /// Fails with `Serialization` when the extension fields are not one JSON
    /// object that leaves `alg` to the header.
    pub fn sign_bytes(self, alg: MacAlg, key: &[u8], payload: &[u8]) -> (r: Result<Signature, SignError>)
        requires
            self@.wf(),
            self@.extra.len() <= MAX_INPUT,
            payload@.len() <= MAX_INPUT,
        ensures
            match r {
                Ok(s) => valid_extension(self@.extra) && s@ == signed(self@, alg, key@, payload@) && s@.wf(),
                Err(e) => !valid_extension(self@.extra) && e == SignError::Serialization,
            },
    {
        if !check_extension(self.protected.extra.as_slice()) {
            return Err(SignError::Serialization);
        }
        let tag = alg.tag();
        let input = signing_input_bytes(tag, &self.protected.extra, payload);
        let mut engine = match MacEngine::init(alg, key) {
            Ok(e) => e,
            Err(e) => return Err(SignError::Length(e)),
        };
        engine.absorb(input.as_slice());
        assert(engine.absorbed() =~= input@);
        let mac = engine.finalize();
        Ok(Signature {
            protected: Protected::new(tag, self.protected.extra),
            unprotected: self.unprotected,
            signature: SignatureState::Present(mac),
        })
    }

    /// Drops the signature and resets the algorithm to `none`, so that the
    /// headers may be edited.
    pub fn unsign(self) -> (r: Signature)
        requires
            self@.wf(),
        ensures
            r@ == unsigned(self@),
            r@.wf(),
    {
        Signature {
            protected: Protected::new(SigningAlg::Unsecured, self.protected.extra),
            unprotected: self.unprotected,
            signature: SignatureState::Absent,
        }
    }

    /// Recomputes the MAC with the recorded algorithm and compares it with the
    /// stored signature in constant time.
    pub fn verify(&self, key: &[u8], payload: &[u8]) -> (r: Result<(), VerifyError>)
        requires
            self@.extra.len() <= MAX_INPUT,
            payload@.len() <= MAX_INPUT,
        ensures
            r == verify_outcome(self@, key@, payload@),
    {
        let m = match MacAlg::from_tag(self.protected.alg) {
            Some(m) => m,
            None => return Err(VerifyError::UnknownAlgorithm),
        };
        let input = signing_input_bytes(self.protected.alg, &self.protected.extra, payload);
        let mut engine = match MacEngine::init(m, key) {
            Ok(e) => e,
            Err(_) => return Err(VerifyError::Mismatch),
        };
        engine.absorb(input.as_slice());
        assert(engine.absorbed() =~= input@);
        let ok = match &self.signature {
            SignatureState::Present(s) => engine.verify(s.as_slice()),
            SignatureState::Absent => false,
        };
        if ok {
            Ok(())
        } else {
            Err(VerifyError::Mismatch)
        }
    }
}

} // verus!
