//! Properties of signing, verification and the wire formats, stated over the
//! models that the functions' contracts use.
use crate::alg::SigningAlg;
use crate::b64::{b64url, lemma_b64url_injective};
use crate::envelope::{signed, signing_input, unsigned, verify_outcome, EnvelopeView, VerifyError};
use crate::formats::lemma_no_dot;
use crate::header::{header_text, lemma_header_text_injective, opens_object};
use crate::flat::{flat_text, protected_key};
use crate::mac::{mac_tag, MacAlg};
use vstd::prelude::*;

verus! {

/// The tag that signing computes depends only on the algorithm, the key, the
/// protected header and the payload: not on the unprotected header nor on any
/// earlier signature.
pub proof fn lemma_sign_deterministic(
    e1: EnvelopeView,
    e2: EnvelopeView,
    m: MacAlg,
    key: Seq<u8>,
    payload: Seq<u8>,
)
    requires
        e1.extra == e2.extra,
    ensures
        signed(e1, m, key, payload).signature == signed(e2, m, key, payload).signature,
        signed(e1, m, key, payload).signature is Some,
{
}

/// After signing, the recorded algorithm is the one used and the signature is
/// present; after unsigning, the algorithm is `none` and the signature absent.
/// Neither touches the headers' other data.
pub proof fn lemma_state_consistency(e: EnvelopeView, m: MacAlg, key: Seq<u8>, payload: Seq<u8>)
    ensures
        signed(e, m, key, payload).alg == mac_tag(m),
        signed(e, m, key, payload).signature is Some,
        signed(e, m, key, payload).extra == e.extra,
        signed(e, m, key, payload).unprotected == e.unprotected,
        unsigned(e).alg == SigningAlg::Unsecured,
        unsigned(e).signature is None,
        unsigned(e).extra == e.extra,
        unsigned(e).unprotected == e.unprotected,
        unsigned(signed(e, m, key, payload)) == unsigned(e),
{
}

/// A freshly signed envelope verifies under the same key and payload.
pub proof fn lemma_sign_then_verify(e: EnvelopeView, m: MacAlg, key: Seq<u8>, payload: Seq<u8>)
    ensures
        verify_outcome(signed(e, m, key, payload), key, payload) == Ok::<(), VerifyError>(()),
{
    assert(crate::mac::mac_for(mac_tag(m)) == Some(m));
}

/// Replacing the signature of a signed envelope by any other bytes makes
/// verification report a mismatch.
pub proof fn lemma_replaced_signature_mismatch(
    e: EnvelopeView,
    m: MacAlg,
    key: Seq<u8>,
    payload: Seq<u8>,
    t: Seq<u8>,
)
    requires
        Some(t) != signed(e, m, key, payload).signature,
    ensures
        verify_outcome(
            EnvelopeView { signature: Some(t), ..signed(e, m, key, payload) },
            key,
            payload,
        ) == Err::<(), VerifyError>(VerifyError::Mismatch),
{
    assert(crate::mac::mac_for(mac_tag(m)) == Some(m));
}

/// An unsigned envelope is never accepted, whatever key and payload.
pub proof fn lemma_unsigned_rejected(e: EnvelopeView, key: Seq<u8>, payload: Seq<u8>)
    ensures
        verify_outcome(unsigned(e), key, payload) == Err::<(), VerifyError>(VerifyError::UnknownAlgorithm),
{
}

/// Without unprotected header and without signature, the Flat object holds
/// the `protected` member only.
pub proof fn lemma_flat_omission(e: EnvelopeView)
    requires
        e.unprotected is None,
        e.signature is None,
    ensures
        flat_text(e) == protected_key() + e.header() + seq![125u8],
{
    assert(flat_text(e) =~= protected_key() + e.header() + seq![125u8]);
}

/// The MAC input determines the protected header and the payload: any change
/// to the algorithm, the extension fields or the payload changes the bytes
/// that are authenticated.
pub proof fn lemma_signing_input_injective(
    a1: SigningAlg,
    e1: Seq<u8>,
    p1: Seq<u8>,
    a2: SigningAlg,
    e2: Seq<u8>,
    p2: Seq<u8>,
)
    requires
        opens_object(e1),
        opens_object(e2),
        signing_input(a1, e1, p1) == signing_input(a2, e2, p2),
    ensures
        a1 == a2,
        e1 == e2,
        p1 == p2,
{
    let h1 = b64url(header_text(a1, e1));
    let h2 = b64url(header_text(a2, e2));
    let s = signing_input(a1, e1, p1);
    lemma_no_dot(header_text(a1, e1));
    lemma_no_dot(header_text(a2, e2));
    assert(s == h1 + seq![46u8] + b64url(p1));
    assert(s == h2 + seq![46u8] + b64url(p2));
    if h1.len() < h2.len() {
        assert(s[h1.len() as int] == 46);
        assert(s[h1.len() as int] == h2[h1.len() as int]);
    } else if h2.len() < h1.len() {
        assert(s[h2.len() as int] == 46);
        assert(s[h2.len() as int] == h1[h2.len() as int]);
    }
    assert(h1 =~= s.subrange(0, h1.len() as int));
    assert(h2 =~= s.subrange(0, h2.len() as int));
    assert(b64url(p1) =~= s.subrange(h1.len() as int + 1, s.len() as int));
    assert(b64url(p2) =~= s.subrange(h2.len() as int + 1, s.len() as int));
    lemma_b64url_injective(header_text(a1, e1), header_text(a2, e2));
    lemma_b64url_injective(p1, p2);
    lemma_header_text_injective(a1, e1, a2, e2);
}

} // verus!
