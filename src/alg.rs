//! Registered algorithm identifiers and the small enumerations that describe keys.
use vstd::prelude::*;

verus! {

/// Algorithms for digital signatures and MACs, used as the JWS `alg` parameter.
#[derive(Clone, Copy, Debug, PartialEq, Eq, Structural)]
pub enum SigningAlg {
    EdDsa,
    Es256,
    Es256K,
    Es384,
    Es512,
    Hs256,
    Hs384,
    Hs512,
    Ps256,
    Ps384,
    Ps512,
    Rs256,
    Rs384,
    Rs512,
    /// No digital signature or MAC; registered as `none`.
    Unsecured,
}

/// The registered name of an algorithm, as ASCII bytes.
pub open spec fn alg_name(a: SigningAlg) -> Seq<u8> {
    match a {
        SigningAlg::EdDsa => seq![69u8, 100, 68, 83, 65],
        SigningAlg::Es256 => seq![69u8, 83, 50, 53, 54],
        SigningAlg::Es256K => seq![69u8, 83, 50, 53, 54, 75],
        SigningAlg::Es384 => seq![69u8, 83, 51, 56, 52],
        SigningAlg::Es512 => seq![69u8, 83, 53, 49, 50],
        SigningAlg::Hs256 => seq![72u8, 83, 50, 53, 54],
        SigningAlg::Hs384 => seq![72u8, 83, 51, 56, 52],
        SigningAlg::Hs512 => seq![72u8, 83, 53, 49, 50],
        SigningAlg::Ps256 => seq![80u8, 83, 50, 53, 54],
        SigningAlg::Ps384 => seq![80u8, 83, 51, 56, 52],
        SigningAlg::Ps512 => seq![80u8, 83, 53, 49, 50],
        SigningAlg::Rs256 => seq![82u8, 83, 50, 53, 54],
        SigningAlg::Rs384 => seq![82u8, 83, 51, 56, 52],
        SigningAlg::Rs512 => seq![82u8, 83, 53, 49, 50],
        SigningAlg::Unsecured => seq![110u8, 111, 110, 101],
    }
}

/// Every registered name is made of letters and digits only.
pub open spec fn is_name_byte(c: u8) -> bool {
    (48 <= c <= 57) || (65 <= c <= 90) || (97 <= c <= 122)
}

pub proof fn lemma_alg_name_plain(a: SigningAlg)
    ensures
        alg_name(a).len() >= 4,
        forall|i: int| 0 <= i < alg_name(a).len() ==> is_name_byte(#[trigger] alg_name(a)[i]),
{
}

/// Two algorithms share a name only when they are the same algorithm.
pub proof fn lemma_alg_name_injective(a: SigningAlg, b: SigningAlg)
    ensures
        alg_name(a) == alg_name(b) ==> a == b,
{
    if alg_name(a) == alg_name(b) && a != b {
        assert(alg_name(a).len() == alg_name(b).len());
        assert(alg_name(a)[0] == alg_name(b)[0]);
        assert(alg_name(a)[2] == alg_name(b)[2]);
        assert(alg_name(a)[3] == alg_name(b)[3]);
        if alg_name(a).len() > 4 {
            assert(alg_name(a)[4] == alg_name(b)[4]);
        }
    }
}

pub const ALL_SIGNING_ALGS: [SigningAlg; 15] = [
    SigningAlg::EdDsa,
    SigningAlg::Es256,
    SigningAlg::Es256K,
    SigningAlg::Es384,
    SigningAlg::Es512,
    SigningAlg::Hs256,
    SigningAlg::Hs384,
    SigningAlg::Hs512,
    SigningAlg::Ps256,
    SigningAlg::Ps384,
    SigningAlg::Ps512,
    SigningAlg::Rs256,
    SigningAlg::Rs384,
    SigningAlg::Rs512,
    SigningAlg::Unsecured,
];

/// Byte-wise equality of two slices.
pub fn bytes_eq(a: &[u8], b: &[u8]) -> (r: bool)
    ensures
        r == (a@ == b@),
{
    if a.len() != b.len() {
        return false;
    }
    let mut i: usize = 0;
    while i < a.len()
        invariant
            a@.len() == b@.len(),
            0 <= i <= a@.len(),
            a@.subrange(0, i as int) == b@.subrange(0, i as int),
        decreases a@.len() - i,
    {
        if a[i] != b[i] {
            assert(a@[i as int] != b@[i as int]);
            return false;
        }
        assert(a@.subrange(0, i + 1) == a@.subrange(0, i as int).push(a@[i as int]));
        assert(b@.subrange(0, i + 1) == b@.subrange(0, i as int).push(b@[i as int]));
        i = i + 1;
    }
    assert(a@ == a@.subrange(0, a@.len() as int));
    assert(b@ == b@.subrange(0, b@.len() as int));
    true
}

impl SigningAlg {
    /// The registered name of this algorithm (`HS256`, `EdDSA`, `none`, ...).
    pub fn name(&self) -> (r: Vec<u8>)
        ensures
            r@ == alg_name(*self),
    {
        let r = match self {
            SigningAlg::EdDsa => vec![69u8, 100, 68, 83, 65],
            SigningAlg::Es256 => vec![69u8, 83, 50, 53, 54],
            SigningAlg::Es256K => vec![69u8, 83, 50, 53, 54, 75],
            SigningAlg::Es384 => vec![69u8, 83, 51, 56, 52],
            SigningAlg::Es512 => vec![69u8, 83, 53, 49, 50],
            SigningAlg::Hs256 => vec![72u8, 83, 50, 53, 54],
            SigningAlg::Hs384 => vec![72u8, 83, 51, 56, 52],
            SigningAlg::Hs512 => vec![72u8, 83, 53, 49, 50],
            SigningAlg::Ps256 => vec![80u8, 83, 50, 53, 54],
            SigningAlg::Ps384 => vec![80u8, 83, 51, 56, 52],
            SigningAlg::Ps512 => vec![80u8, 83, 53, 49, 50],
            SigningAlg::Rs256 => vec![82u8, 83, 50, 53, 54],
            SigningAlg::Rs384 => vec![82u8, 83, 51, 56, 52],
            SigningAlg::Rs512 => vec![82u8, 83, 53, 49, 50],
            SigningAlg::Unsecured => vec![110u8, 111, 110, 101],
        };
        assert(r@ =~= alg_name(*self));
        r
    }

    /// The algorithm registered under `name`, if any.
    pub fn from_name(name: &[u8]) -> (r: Option<SigningAlg>)
        ensures
            match r {
                Some(a) => alg_name(a) == name@,
                None => forall|a: SigningAlg| alg_name(a) != name@,
            },
    {
        let mut i: usize = 0;
        while i < 15
            invariant
                0 <= i <= 15,
                forall|j: int| 0 <= j < i ==> alg_name(#[trigger] ALL_SIGNING_ALGS@[j]) != name@,
            decreases 15 - i,
        {
            let a = ALL_SIGNING_ALGS[i];
            let n = a.name();
            if bytes_eq(n.as_slice(), name) {
                return Some(a);
            }
            i = i + 1;
        }
        assert forall|a: SigningAlg| alg_name(a) != name@ by {
            let k: int = match a {
                SigningAlg::EdDsa => 0,
                SigningAlg::Es256 => 1,
                SigningAlg::Es256K => 2,
                SigningAlg::Es384 => 3,
                SigningAlg::Es512 => 4,
                SigningAlg::Hs256 => 5,
                SigningAlg::Hs384 => 6,
                SigningAlg::Hs512 => 7,
                SigningAlg::Ps256 => 8,
                SigningAlg::Ps384 => 9,
                SigningAlg::Ps512 => 10,
                SigningAlg::Rs256 => 11,
                SigningAlg::Rs384 => 12,
                SigningAlg::Rs512 => 13,
                SigningAlg::Unsecured => 14,
            };
            assert(ALL_SIGNING_ALGS@[k] == a);
        }
        None
    }
}

} // verus!

verus! {

/// Algorithms for key management, used as the JWE `alg` parameter.
#[derive(Clone, Copy, Debug, PartialEq, Eq, Structural)]
pub enum KeyMgmtAlg {
    Rsa1to5,
    RsaOaep,
    RsaOaep256,
    Aes128Kw,
    Aes192Kw,
    Aes256Kw,
    Dir,
    EcdhEs,
    EcdhEsA128Kw,
    EcdhEsA192Kw,
    EcdhEsA256Kw,
    Aes128GcmKw,
    Aes192GcmKw,
    Aes256GcmKw,
    Pbes2Hs256A128Kw,
    Pbes2Hs384A192Kw,
    Pbes2Hs512A256Kw,
}

pub open spec fn key_mgmt_name(a: KeyMgmtAlg) -> Seq<char> {
    match a {
        KeyMgmtAlg::Rsa1to5 => "RSA1_5"@,
        KeyMgmtAlg::RsaOaep => "RSA-OAEP"@,
        KeyMgmtAlg::RsaOaep256 => "RSA-OAEP-256"@,
        KeyMgmtAlg::Aes128Kw => "A128KW"@,
        KeyMgmtAlg::Aes192Kw => "A192KW"@,
        KeyMgmtAlg::Aes256Kw => "A256KW"@,
        KeyMgmtAlg::Dir => "dir"@,
        KeyMgmtAlg::EcdhEs => "ECDH-ES"@,
        KeyMgmtAlg::EcdhEsA128Kw => "ECDH-ES+A128KW"@,
        KeyMgmtAlg::EcdhEsA192Kw => "ECDH-ES+A192KW"@,
        KeyMgmtAlg::EcdhEsA256Kw => "ECDH-ES+A256KW"@,
        KeyMgmtAlg::Aes128GcmKw => "A128GCMKW"@,
        KeyMgmtAlg::Aes192GcmKw => "A192GCMKW"@,
        KeyMgmtAlg::Aes256GcmKw => "A256GCMKW"@,
        KeyMgmtAlg::Pbes2Hs256A128Kw => "PBES2-HS256+A128KW"@,
        KeyMgmtAlg::Pbes2Hs384A192Kw => "PBES2-HS384+A192KW"@,
        KeyMgmtAlg::Pbes2Hs512A256Kw => "PBES2-HS512+A256KW"@,
    }
}

impl KeyMgmtAlg {
    /// The registered name of this algorithm.
    pub fn as_str(&self) -> (r: &'static str)
        ensures
            r@ == key_mgmt_name(*self),
    {
        match self {
            KeyMgmtAlg::Rsa1to5 => "RSA1_5",
            KeyMgmtAlg::RsaOaep => "RSA-OAEP",
            KeyMgmtAlg::RsaOaep256 => "RSA-OAEP-256",
            KeyMgmtAlg::Aes128Kw => "A128KW",
            KeyMgmtAlg::Aes192Kw => "A192KW",
            KeyMgmtAlg::Aes256Kw => "A256KW",
            KeyMgmtAlg::Dir => "dir",
            KeyMgmtAlg::EcdhEs => "ECDH-ES",
            KeyMgmtAlg::EcdhEsA128Kw => "ECDH-ES+A128KW",
            KeyMgmtAlg::EcdhEsA192Kw => "ECDH-ES+A192KW",
            KeyMgmtAlg::EcdhEsA256Kw => "ECDH-ES+A256KW",
            KeyMgmtAlg::Aes128GcmKw => "A128GCMKW",
            KeyMgmtAlg::Aes192GcmKw => "A192GCMKW",
            KeyMgmtAlg::Aes256GcmKw => "A256GCMKW",
            KeyMgmtAlg::Pbes2Hs256A128Kw => "PBES2-HS256+A128KW",
            KeyMgmtAlg::Pbes2Hs384A192Kw => "PBES2-HS384+A192KW",
            KeyMgmtAlg::Pbes2Hs512A256Kw => "PBES2-HS512+A256KW",
        }
    }
}

/// Algorithms for content encryption, used as the JWE `enc` parameter.
#[derive(Clone, Copy, Debug, PartialEq, Eq, Structural)]
pub enum EncryptionAlg {
    Aes128CbcHs256,
    Aes192CbcHs384,
    Aes256CbcHs512,
    Aes128Gcm,
    Aes192Gcm,
    Aes256Gcm,
}

pub open spec fn encryption_name(a: EncryptionAlg) -> Seq<char> {
    match a {
        EncryptionAlg::Aes128CbcHs256 => "A128CBC-HS256"@,
        EncryptionAlg::Aes192CbcHs384 => "A192CBC-HS384"@,
        EncryptionAlg::Aes256CbcHs512 => "A256CBC-HS512"@,
        EncryptionAlg::Aes128Gcm => "A128GCM"@,
        EncryptionAlg::Aes192Gcm => "A192GCM"@,
        EncryptionAlg::Aes256Gcm => "A256GCM"@,
    }
}

impl EncryptionAlg {
    /// The registered name of this algorithm.
    pub fn as_str(&self) -> (r: &'static str)
        ensures
            r@ == encryption_name(*self),
    {
        match self {
            EncryptionAlg::Aes128CbcHs256 => "A128CBC-HS256",
            EncryptionAlg::Aes192CbcHs384 => "A192CBC-HS384",
            EncryptionAlg::Aes256CbcHs512 => "A256CBC-HS512",
            EncryptionAlg::Aes128Gcm => "A128GCM",
            EncryptionAlg::Aes192Gcm => "A192GCM",
            EncryptionAlg::Aes256Gcm => "A256GCM",
        }
    }
}

/// Any registered algorithm.
#[derive(Clone, Copy, Debug, PartialEq, Eq, Structural)]
pub enum Algorithm {
    Signing(SigningAlg),
    KeyManagement(KeyMgmtAlg),
    Encryption(EncryptionAlg),
}

/// Key types, the JWK `kty` parameter.
#[derive(Clone, Copy, Debug, PartialEq, Eq, Structural)]
pub enum KeyType {
    /// Elliptic curve
    Ec,
    Rsa,
    /// Octet sequence (symmetric key)
    Oct,
}

/// Elliptic curves for EC keys.
#[derive(Clone, Copy, Debug, PartialEq, Eq, Structural)]
pub enum EcCurve {
    P256,
    P384,
    P521,
    P256K,
}

/// Curves for octet key pairs.
#[derive(Clone, Copy, Debug, PartialEq, Eq, Structural)]
pub enum OkpCurve {
    Ed25519,
    Ed448,
    X25519,
    X448,
}

/// Intended use of a key.
#[derive(Clone, Copy, Debug, PartialEq, Eq, Structural)]
pub enum UseFor {
    Encryption,
    Signing,
}

/// Operations a key may be used for, the JWK `key_ops` values.
#[derive(Clone, Copy, Debug, PartialEq, Eq, PartialOrd, Ord, Structural)]
pub enum Operations {
    Decrypt,
    DeriveBits,
    DeriveKey,
    Encrypt,
    Sign,
    UnwrapKey,
    Verify,
    WrapKey,
}

} // verus!
