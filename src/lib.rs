//! JSON Web Signature envelopes: canonical protected headers, HMAC signing and
//! verification, and the Compact and Flat wire formats.

pub mod alg;
pub mod b64;
pub mod json;
pub mod header;
pub mod mac;
pub mod envelope;
pub mod formats;
pub mod compact;
pub mod flat;
pub mod jwe;
pub mod laws;
