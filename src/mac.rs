//! Keyed MAC engines: HMAC over SHA-256, SHA-384 and SHA-512.
use crate::alg::SigningAlg;
use hmac::{Hmac, Mac};
use sha2::{Sha256, Sha384, Sha512};
use vstd::prelude::*;

verus! {

/// The MAC algorithms that can sign an envelope.
#[derive(Clone, Copy, Debug, PartialEq, Eq, Structural)]
pub enum MacAlg {
    Hs256,
    Hs384,
    Hs512,
}

/// The registered algorithm tag of a MAC algorithm.
pub open spec fn mac_tag(m: MacAlg) -> SigningAlg {
    match m {
        MacAlg::Hs256 => SigningAlg::Hs256,
        MacAlg::Hs384 => SigningAlg::Hs384,
        MacAlg::Hs512 => SigningAlg::Hs512,
    }
}

/// The MAC algorithm a tag names, if it names one.
pub open spec fn mac_for(a: SigningAlg) -> Option<MacAlg> {
    match a {
        SigningAlg::Hs256 => Some(MacAlg::Hs256),
        SigningAlg::Hs384 => Some(MacAlg::Hs384),
        SigningAlg::Hs512 => Some(MacAlg::Hs512),
        _ => None,
    }
}

/// The output length of a MAC algorithm, in bytes.
pub open spec fn mac_len(m: MacAlg) -> nat {
    match m {
        MacAlg::Hs256 => 32,
        MacAlg::Hs384 => 48,
        MacAlg::Hs512 => 64,
    }
}

/// HMAC-SHA-256 of `msg` under `key`.
pub uninterp spec fn hmac_sha256_of(key: Seq<u8>, msg: Seq<u8>) -> Seq<u8>;

/// HMAC-SHA-384 of `msg` under `key`.
pub uninterp spec fn hmac_sha384_of(key: Seq<u8>, msg: Seq<u8>) -> Seq<u8>;

/// HMAC-SHA-512 of `msg` under `key`.
pub uninterp spec fn hmac_sha512_of(key: Seq<u8>, msg: Seq<u8>) -> Seq<u8>;

/// The MAC of `msg` under `key` with algorithm `m`.
pub open spec fn mac_of(m: MacAlg, key: Seq<u8>, msg: Seq<u8>) -> Seq<u8> {
    match m {
        MacAlg::Hs256 => hmac_sha256_of(key, msg),
        MacAlg::Hs384 => hmac_sha384_of(key, msg),
        MacAlg::Hs512 => hmac_sha512_of(key, msg),
    }
}

impl MacAlg {
    pub fn tag(&self) -> (r: SigningAlg)
        ensures
            r == mac_tag(*self),
    {
        match self {
            MacAlg::Hs256 => SigningAlg::Hs256,
            MacAlg::Hs384 => SigningAlg::Hs384,
            MacAlg::Hs512 => SigningAlg::Hs512,
        }
    }

    pub fn from_tag(a: SigningAlg) -> (r: Option<MacAlg>)
        ensures
            r == mac_for(a),
    {
        match a {
            SigningAlg::Hs256 => Some(MacAlg::Hs256),
            SigningAlg::Hs384 => Some(MacAlg::Hs384),
            SigningAlg::Hs512 => Some(MacAlg::Hs512),
            _ => None,
        }
    }
}

/// Relies on hmac's `Hmac<Sha256>`: `new_from_slice` takes keys of every
/// length (longer ones are hashed), and the tag is SHA-256 sized.
#[verifier::external_body]
fn hmac_sha256(key: &[u8], msg: &[u8]) -> (r: Vec<u8>)
    ensures
        r@ == hmac_sha256_of(key@, msg@),
        r@.len() == 32,
{
    let mut m = <Hmac<Sha256> as Mac>::new_from_slice(key).expect("HMAC takes keys of any length");
    m.update(msg);
    m.finalize().into_bytes().to_vec()
}

/// Relies on hmac's `Hmac<Sha384>`, as for SHA-256; the tag is 48 bytes.
#[verifier::external_body]
fn hmac_sha384(key: &[u8], msg: &[u8]) -> (r: Vec<u8>)
    ensures
        r@ == hmac_sha384_of(key@, msg@),
        r@.len() == 48,
{
    let mut m = <Hmac<Sha384> as Mac>::new_from_slice(key).expect("HMAC takes keys of any length");
    m.update(msg);
    m.finalize().into_bytes().to_vec()
}

/// Relies on hmac's `Hmac<Sha512>`, as for SHA-256; the tag is 64 bytes.
#[verifier::external_body]
fn hmac_sha512(key: &[u8], msg: &[u8]) -> (r: Vec<u8>)
    ensures
        r@ == hmac_sha512_of(key@, msg@),
        r@.len() == 64,
{
    let mut m = <Hmac<Sha512> as Mac>::new_from_slice(key).expect("HMAC takes keys of any length");
    m.update(msg);
    m.finalize().into_bytes().to_vec()
}

/// Relies on hmac's `Mac::verify_slice` for `Hmac<Sha256>`: a constant-time
/// comparison of `tag` with the MAC of `msg`, failing on another length.
#[verifier::external_body]
fn hmac_sha256_verify(key: &[u8], msg: &[u8], tag: &[u8]) -> (r: bool)
    ensures
        r == (tag@ == hmac_sha256_of(key@, msg@)),
{
    let mut m = <Hmac<Sha256> as Mac>::new_from_slice(key).expect("HMAC takes keys of any length");
    m.update(msg);
    m.verify_slice(tag).is_ok()
}

/// Relies on hmac's `Mac::verify_slice` for `Hmac<Sha384>`, as for SHA-256.
#[verifier::external_body]
fn hmac_sha384_verify(key: &[u8], msg: &[u8], tag: &[u8]) -> (r: bool)
    ensures
        r == (tag@ == hmac_sha384_of(key@, msg@)),
{
    let mut m = <Hmac<Sha384> as Mac>::new_from_slice(key).expect("HMAC takes keys of any length");
    m.update(msg);
    m.verify_slice(tag).is_ok()
}

/// Relies on hmac's `Mac::verify_slice` for `Hmac<Sha512>`, as for SHA-256.
#[verifier::external_body]
fn hmac_sha512_verify(key: &[u8], msg: &[u8], tag: &[u8]) -> (r: bool)
    ensures
        r == (tag@ == hmac_sha512_of(key@, msg@)),
{
    let mut m = <Hmac<Sha512> as Mac>::new_from_slice(key).expect("HMAC takes keys of any length");
    m.update(msg);
    m.verify_slice(tag).is_ok()
}

/// Overwrites every byte with zero.
fn wipe(v: &mut Vec<u8>)
    ensures
        final(v)@.len() == old(v)@.len(),
        forall|i: int| 0 <= i < final(v)@.len() ==> final(v)@[i] == 0,
{
    let mut i: usize = 0;
    while i < v.len()
        invariant
            0 <= i <= v@.len(),
            v@.len() == old(v)@.len(),
            forall|j: int| 0 <= j < i ==> v@[j] == 0,
        decreases v@.len() - i,
    {
        v.set(i, 0);
        i = i + 1;
    }
}

/// A key that the algorithm cannot use.
#[derive(Clone, Copy, Debug, PartialEq, Eq, Structural)]
pub struct KeyLengthError;

/// A MAC computation in progress: the algorithm, the key, and the bytes
/// absorbed so far.
pub struct MacEngine {
    alg: MacAlg,
    key: Vec<u8>,
    input: Vec<u8>,
}

impl MacEngine {
    pub closed spec fn algorithm(&self) -> MacAlg {
        self.alg
    }

    pub closed spec fn key(&self) -> Seq<u8> {
        self.key@
    }

    pub closed spec fn absorbed(&self) -> Seq<u8> {
        self.input@
    }

    /// Starts a MAC under `key`. HMAC accepts keys of every length, so this
    /// never fails for the algorithms here.
    pub fn init(alg: MacAlg, key: &[u8]) -> (r: Result<MacEngine, KeyLengthError>)
        ensures
            r matches Ok(e) && e.algorithm() == alg && e.key() == key@ && e.absorbed() == Seq::<u8>::empty(),
    {
        let mut k: Vec<u8> = Vec::new();
        k.extend_from_slice(key);
        Ok(MacEngine { alg, key: k, input: Vec::new() })
    }

    pub fn absorb(&mut self, bytes: &[u8])
        ensures
            final(self).algorithm() == old(self).algorithm(),
            final(self).key() == old(self).key(),
            final(self).absorbed() == old(self).absorbed() + bytes@,
    {
        self.input.extend_from_slice(bytes);
    }

    /// The tag of everything absorbed. The copies of the key and of the
    /// input are overwritten before the engine is dropped.
    pub fn finalize(self) -> (r: Vec<u8>)
        ensures
            r@ == mac_of(self.algorithm(), self.key(), self.absorbed()),
            r@.len() == mac_len(self.algorithm()),
    {
        let mut e = self;
        let tag = match e.alg {
            MacAlg::Hs256 => hmac_sha256(e.key.as_slice(), e.input.as_slice()),
            MacAlg::Hs384 => hmac_sha384(e.key.as_slice(), e.input.as_slice()),
            MacAlg::Hs512 => hmac_sha512(e.key.as_slice(), e.input.as_slice()),
        };
        wipe(&mut e.key);
        wipe(&mut e.input);
        tag
    }

    /// Compares `tag` with the tag of everything absorbed, in constant time.
    /// The key and input copies are overwritten afterwards, as in `finalize`.
    pub fn verify(self, tag: &[u8]) -> (r: bool)
        ensures
            r == (tag@ == mac_of(self.algorithm(), self.key(), self.absorbed())),
    {
        let mut e = self;
        let ok = match e.alg {
            MacAlg::Hs256 => hmac_sha256_verify(e.key.as_slice(), e.input.as_slice(), tag),
            MacAlg::Hs384 => hmac_sha384_verify(e.key.as_slice(), e.input.as_slice(), tag),
            MacAlg::Hs512 => hmac_sha512_verify(e.key.as_slice(), e.input.as_slice(), tag),
        };
        wipe(&mut e.key);
        wipe(&mut e.input);
        ok
    }
}

} // verus!
