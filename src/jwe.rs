//! JSON Web Encryption records, carried as their base64url texts.
use vstd::prelude::*;

verus! {

/// An encrypted and integrity-protected message.
pub struct Jwe {
    pub header: Header,
    /// Encrypted content encryption key; empty for some algorithms.
    pub encrypted_key: String,
    /// Initialization vector; empty when the algorithm takes none.
    pub init_vector: String,
    /// Additional authenticated data, JSON serialization only.
    pub aad: Option<String>,
    pub cyphertext: String,
    pub auth_tag: String,
}

/// One of the JWE header kinds.
pub enum Header {
    /// Integrity protected, shared by all recipients.
    Protected(String),
    /// Shared and not integrity protected.
    Unprotected(String),
    /// For one recipient, not integrity protected.
    PerRecipientUnprotected(String),
}

} // verus!
