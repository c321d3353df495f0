//! Wire formats of a single signature: Compact (`H.P.S`) and Flat (a JSON object).
use crate::alg::bytes_eq;
use crate::b64::{b64url, is_b64_byte, lemma_b64url_alphabet};
use vstd::prelude::*;

pub use crate::compact::{Compact, Jws};
pub use crate::flat::Flat;

verus! {
/// Why an envelope cannot take a wire form, or why bytes are not one.
#[derive(Clone, Copy, Debug, PartialEq, Eq, Structural)]
pub enum FormatError {
    /// The Compact form carries no unprotected header.
    UnprotectedNotSupported,
    /// The extension fields are not one compact JSON object without `alg`.
    InvalidHeader,
    /// The unprotected header is not JSON.
    InvalidUnprotected,
    /// The bytes are not the wire form of any envelope.
    Malformed,
}

/// Representation of no data, as in an envelope without unprotected header.
#[derive(Clone, Copy, Debug, PartialEq, Eq, Structural)]
pub struct Empty;

/// Whether values of type `T` carry no data at all, as `Empty` does.
pub fn is_zst<T>(value: &T) -> (r: bool)
    ensures
        r == (vstd::layout::size_of::<T>() == 0),
{
    core::mem::size_of::<T>() == 0
}


/// The first `b` at or after `from`.
pub(crate) fn find_byte(s: &[u8], from: usize, b: u8) -> (r: Option<usize>)
    ensures
        match r {
            Some(i) => from <= i < s@.len() && s@[i as int] == b && forall|j: int|
                from <= j < i ==> s@[j] != b,
            None => forall|j: int| from <= j < s@.len() ==> s@[j] != b,
        },
{
    let mut i = from;
    while i < s.len()
        invariant
            from <= i,
            forall|j: int| from <= j < i && j < s@.len() ==> s@[j] != b,
        decreases s@.len() - i,
    {
        if s[i] == b {
            return Some(i);
        }
        i = i + 1;
    }
    None
}

/// `s[pos..]` starts with `p`.
pub(crate) fn has_at(s: &[u8], pos: usize, p: &[u8]) -> (r: bool)
    ensures
        r == (pos + p@.len() <= s@.len() && s@.subrange(pos as int, pos + p@.len()) == p@),
{
    if pos > s.len() || p.len() > s.len() - pos {
        return false;
    }
    bytes_eq(&s[pos..pos + p.len()], p)
}

pub(crate) proof fn lemma_no_dot(b: Seq<u8>)
    ensures
        forall|i: int| 0 <= i < b64url(b).len() ==> #[trigger] b64url(b)[i] != 46 && b64url(b)[i] != 34,
{
    lemma_b64url_alphabet(b);
    assert forall|i: int| 0 <= i < b64url(b).len() implies #[trigger] b64url(b)[i] != 46 && b64url(b)[i] != 34 by {
        assert(is_b64_byte(b64url(b)[i]));
    }
}


} // verus!
