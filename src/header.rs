//! The protected header and its canonical byte form.
use crate::alg::{alg_name, bytes_eq, is_name_byte, lemma_alg_name_injective, lemma_alg_name_plain, SigningAlg};
use crate::json::{closed, empty_object, framed_object, is_bracket, is_plain_byte, lemma_scan_concat, lemma_scan_depth, lemma_scan_plain, lemma_scan_push, scan, ScanState};
use vstd::prelude::*;

verus! {

/// Protected header data: the algorithm, and extension fields merged into the
/// same JSON object.
///
/// `extra` is the JSON object text of the extension fields, for example
/// `{"typ":"JWT"}`; `{}` when there are none.
#[derive(Clone, Debug, PartialEq, Eq)]
pub struct Protected {
    pub alg: SigningAlg,
    pub extra: Vec<u8>,
}

/// `{"alg":"`
pub open spec fn alg_prefix() -> Seq<u8> {
    seq![123u8, 34, 97, 108, 103, 34, 58, 34]
}

/// The canonical JSON text of a protected header: `alg` first, then the
/// extension members as written, in one object.
pub open spec fn header_text(a: SigningAlg, e: Seq<u8>) -> Seq<u8> {
    header_head(a) + header_rest(e)
}

/// What follows the algorithm name: `}` when there are no extension fields,
/// else a comma and the members of the extension object.
pub open spec fn header_rest(e: Seq<u8>) -> Seq<u8> {
    if e == empty_object() {
        seq![125u8]
    } else if e.len() == 0 {
        seq![44u8]
    } else {
        seq![44u8] + e.subrange(1, e.len() as int)
    }
}

/// The part of the header text before the extension members.
pub open spec fn header_head(a: SigningAlg) -> Seq<u8> {
    alg_prefix() + alg_name(a) + seq![34u8]
}

proof fn lemma_head_scan(a: SigningAlg, tail: Seq<u8>)
    requires
        tail == seq![44u8] || tail.len() == 0,
    ensures
        scan(header_head(a) + tail) == (1int, false, false),
        forall|j: int|
            1 <= j <= (header_head(a) + tail).len() ==> (#[trigger] scan(
                (header_head(a) + tail).subrange(0, j),
            )).0 == 1,
{
    let p = header_head(a) + tail;
    let w = p.subrange(1, p.len() as int);
    lemma_alg_name_plain(a);
    assert forall|i: int| 0 <= i < w.len() implies !is_bracket(#[trigger] w[i]) by {
        if 7 <= i < 7 + alg_name(a).len() {
            assert(w[i] == alg_name(a)[i - 7]);
            assert(is_name_byte(alg_name(a)[i - 7]));
        }
    }
    let init: ScanState = (0, false, false);
    let one: ScanState = (1, false, false);
    crate::json::lemma_scan_open(123);
    assert forall|j: int| 1 <= j <= p.len() implies (#[trigger] scan(p.subrange(0, j))).0 == 1 by {
        assert(p.subrange(0, j) =~= seq![123u8] + w.subrange(0, j - 1));
        lemma_scan_concat(init, seq![123u8], w.subrange(0, j - 1));
        lemma_scan_depth(one, w.subrange(0, j - 1));
    }
    // the string states through `{"alg":"NAME"`
    let q = alg_prefix();
    lemma_scan_push(init, Seq::<u8>::empty(), 123);
    assert(seq![123u8] =~= Seq::<u8>::empty().push(123));
    assert(q.subrange(0, 1) =~= seq![123u8]);
    lemma_scan_push(init, q.subrange(0, 1), 34);
    assert(q.subrange(0, 2) =~= q.subrange(0, 1).push(34));
    lemma_scan_push(init, q.subrange(0, 2), 97);
    assert(q.subrange(0, 3) =~= q.subrange(0, 2).push(97));
    lemma_scan_push(init, q.subrange(0, 3), 108);
    assert(q.subrange(0, 4) =~= q.subrange(0, 3).push(108));
    lemma_scan_push(init, q.subrange(0, 4), 103);
    assert(q.subrange(0, 5) =~= q.subrange(0, 4).push(103));
    lemma_scan_push(init, q.subrange(0, 5), 34);
    assert(q.subrange(0, 6) =~= q.subrange(0, 5).push(34));
    lemma_scan_push(init, q.subrange(0, 6), 58);
    assert(q.subrange(0, 7) =~= q.subrange(0, 6).push(58));
    lemma_scan_push(init, q.subrange(0, 7), 34);
    assert(q =~= q.subrange(0, 7).push(34));
    let in_str: ScanState = (1, true, false);
    assert(scan(q) == in_str);
    assert forall|i: int| 0 <= i < alg_name(a).len() implies is_plain_byte(#[trigger] alg_name(a)[i]) by {
        assert(is_name_byte(alg_name(a)[i]));
    }
    lemma_scan_plain(in_str, alg_name(a));
    lemma_scan_concat(init, q, alg_name(a));
    lemma_scan_push(init, q + alg_name(a), 34);
    assert(header_head(a) =~= (q + alg_name(a)).push(34));
    if tail.len() == 0 {
        assert(p =~= header_head(a));
    } else {
        lemma_scan_push(init, header_head(a), 44);
        assert(p =~= header_head(a).push(44));
    }
}

/// The header text is a framed object whenever the extension is.
pub proof fn lemma_header_framed(a: SigningAlg, e: Seq<u8>)
    requires
        framed_object(e),
    ensures
        framed_object(header_text(a, e)),
{
    let h = header_text(a, e);
    let init: ScanState = (0, false, false);
    let one: ScanState = (1, false, false);
    if e == empty_object() {
        let p = header_head(a);
        lemma_head_scan(a, Seq::<u8>::empty());
        assert(p + Seq::<u8>::empty() =~= p);
        assert(h =~= p.push(125));
        lemma_scan_push(init, p, 125);
        assert forall|j: int| 1 <= j < h.len() implies !closed(#[trigger] scan(h.subrange(0, j))) by {
            assert(h.subrange(0, j) =~= p.subrange(0, j));
        }
    } else {
        let p = header_head(a) + seq![44u8];
        lemma_head_scan(a, seq![44u8]);
        let t = e.subrange(1, e.len() as int);
        assert(h =~= p + t);
        lemma_scan_concat(init, p, t);
        assert(e =~= seq![123u8] + t);
        crate::json::lemma_scan_open(123);
        lemma_scan_concat(init, seq![123u8], t);
        assert forall|j: int| 1 <= j < h.len() implies !closed(#[trigger] scan(h.subrange(0, j))) by {
            if j <= p.len() {
                assert(h.subrange(0, j) =~= p.subrange(0, j));
            } else {
                let k = j - p.len();
                assert(h.subrange(0, j) =~= p + t.subrange(0, k));
                lemma_scan_concat(init, p, t.subrange(0, k));
                assert(e.subrange(0, k + 1) =~= seq![123u8] + t.subrange(0, k));
                lemma_scan_concat(init, seq![123u8], t.subrange(0, k));
                assert(!closed(scan(e.subrange(0, k + 1))));
            }
        }
    }
}

/// The extension text begins an object: `{` and at least one more byte.
pub open spec fn opens_object(e: Seq<u8>) -> bool {
    e.len() >= 2 && e[0] == 123
}

pub proof fn lemma_header_shape(a: SigningAlg, e: Seq<u8>)
    ensures
        ({
            let h = header_text(a, e);
            let n = alg_name(a).len() as int;
            &&& h.len() == 9 + n + header_rest(e).len()
            &&& h.subrange(0, 8) == alg_prefix()
            &&& h.subrange(8, 8 + n) == alg_name(a)
            &&& h[8 + n] == 34
            &&& forall|i: int| 8 <= i < 8 + n ==> #[trigger] h[i] != 34
            &&& h.subrange(9 + n, h.len() as int) == header_rest(e)
        }),
{
    let h = header_text(a, e);
    let n = alg_name(a).len() as int;
    lemma_alg_name_plain(a);
    assert(h =~= alg_prefix() + alg_name(a) + seq![34u8] + header_rest(e));
    assert(h.subrange(0, 8) =~= alg_prefix());
    assert(h.subrange(8, 8 + n) =~= alg_name(a));
    assert(h.subrange(9 + n, h.len() as int) =~= header_rest(e));
    assert forall|i: int| 8 <= i < 8 + n implies #[trigger] h[i] != 34 by {
        assert(h[i] == alg_name(a)[i - 8]);
        assert(is_name_byte(alg_name(a)[i - 8]));
    }
}

/// A header text determines its algorithm and its extension.
pub proof fn lemma_header_text_injective(a1: SigningAlg, e1: Seq<u8>, a2: SigningAlg, e2: Seq<u8>)
    requires
        opens_object(e1),
        opens_object(e2),
        header_text(a1, e1) == header_text(a2, e2),
    ensures
        a1 == a2,
        e1 == e2,
{
    let h = header_text(a1, e1);
    lemma_header_shape(a1, e1);
    lemma_header_shape(a2, e2);
    let n1 = alg_name(a1).len() as int;
    let n2 = alg_name(a2).len() as int;
    if n1 < n2 {
        assert(h[8 + n1] != 34);
    } else if n2 < n1 {
        assert(h[8 + n2] != 34);
    }
    assert(alg_name(a1) == alg_name(a2));
    lemma_alg_name_injective(a1, a2);
    let r = header_rest(e1);
    assert(r == header_rest(e2));
    if e1 == empty_object() {
        if e2 != empty_object() {
            assert(r.len() == 1);
            assert(e2.len() == 2);
            assert(e2[1] == r[1]);
            assert(e2 =~= empty_object());
        }
    } else {
        if e2 == empty_object() {
            assert(e1.len() == 2);
            assert(e1[1] == r[1]);
            assert(e1 =~= empty_object());
        }
        assert(e1 =~= seq![123u8] + r.subrange(1, r.len() as int));
        assert(e2 =~= seq![123u8] + r.subrange(1, r.len() as int));
    }
}

impl Protected {
    pub fn new(alg: SigningAlg, extra: Vec<u8>) -> (r: Self)
        ensures
            r.alg == alg,
            r.extra@ == extra@,
    {
        Protected { alg, extra }
    }

    /// The canonical JSON bytes of this header.
    pub fn to_json(&self) -> (r: Vec<u8>)
        requires
            self.extra@.len() <= usize::MAX / 2,
        ensures
            r@ == header_text(self.alg, self.extra@),
    {
        let mut r: Vec<u8> = vec![123u8, 34, 97, 108, 103, 34, 58, 34];
        let name = self.alg.name();
        r.extend_from_slice(name.as_slice());
        r.push(34);
        let e = &self.extra;
        if e.len() == 2 && e[0] == 123 && e[1] == 125 {
            assert(e@ =~= empty_object());
            r.push(125);
        } else {
            assert(e@ != empty_object());
            r.push(44);
            if e.len() > 0 {
                r.extend_from_slice(&e[1..e.len()]);
            }
        }
        assert(r@ =~= header_text(self.alg, self.extra@));
        r
    }
}

/// Reads a header text back into its algorithm and extension; only the
/// canonical form that `to_json` writes is accepted.
#[verifier::rlimit(40)]
pub fn parse_header(h: &[u8]) -> (r: Option<Protected>)
    ensures
        match r {
            Some(p) => opens_object(p.extra@) && header_text(p.alg, p.extra@) == h@,
            None => forall|a: SigningAlg, e: Seq<u8>|
                opens_object(e) ==> #[trigger] header_text(a, e) != h@,
        },
{
    let prefix: [u8; 8] = [123, 34, 97, 108, 103, 34, 58, 34];
    assert(prefix@ =~= alg_prefix());
    if h.len() < 10 || !bytes_eq(&h[0..8], &prefix) {
        proof {
            assert forall|a: SigningAlg, e: Seq<u8>| opens_object(e) implies #[trigger] header_text(a, e) != h@ by {
                lemma_header_shape(a, e);
                lemma_alg_name_plain(a);
                if header_text(a, e) == h@ {
                    assert(h@.subrange(0, 8) == alg_prefix());
                }
            }
        }
        return None;
    }
    let mut q: usize = 8;
    while q < h.len() && h[q] != 34
        invariant
            8 <= q <= h@.len(),
            forall|i: int| 8 <= i < q ==> h@[i] != 34,
        decreases h@.len() - q,
    {
        q = q + 1;
    }
    // the name ends at the first quote after the prefix
    if q >= h.len() {
        proof {
            assert forall|a: SigningAlg, e: Seq<u8>| opens_object(e) implies #[trigger] header_text(a, e) != h@ by {
                lemma_header_shape(a, e);
                if header_text(a, e) == h@ {
                    assert(h@[8 + alg_name(a).len() as int] == 34);
                }
            }
        }
        return None;
    }
    let alg = match SigningAlg::from_name(&h[8..q]) {
        Some(a) => a,
        None => {
            proof {
                assert forall|a: SigningAlg, e: Seq<u8>| opens_object(e) implies #[trigger] header_text(a, e) != h@ by {
                    lemma_header_shape(a, e);
                    let n = alg_name(a).len() as int;
                    if header_text(a, e) == h@ {
                        assert(q == 8 + n);
                        assert(h@.subrange(8, q as int) == alg_name(a));
                    }
                }
            }
            return None;
        },
    };
    proof {
        assert forall|a: SigningAlg, e: Seq<u8>| opens_object(e) && #[trigger] header_text(a, e) == h@ implies a == alg
            && h@.subrange(q + 1, h@.len() as int) == header_rest(e) by {
            lemma_header_shape(a, e);
            let n = alg_name(a).len() as int;
            assert(q == 8 + n);
            assert(h@.subrange(8, q as int) == alg_name(a));
            lemma_alg_name_injective(a, alg);
        }
    }
    let rest = &h[q + 1..h.len()];
    if rest.len() == 1 && rest[0] == 125 {
        let extra: Vec<u8> = vec![123u8, 125];
        proof {
            lemma_header_shape(alg, extra@);
            assert(extra@ =~= empty_object());
            assert(h@ =~= h@.subrange(0, 8) + h@.subrange(8, q as int) + seq![34u8] + rest@);
            assert(rest@ =~= seq![125u8]);
            assert(header_text(alg, extra@) =~= alg_prefix() + alg_name(alg) + seq![34u8, 125]);
        }
        return Some(Protected { alg, extra });
    }
    if rest.len() < 2 || rest[0] != 44 || (rest.len() == 2 && rest[1] == 125) {
        proof {
            assert forall|a: SigningAlg, e: Seq<u8>| opens_object(e) implies #[trigger] header_text(a, e) != h@ by {
                if header_text(a, e) == h@ {
                    assert(rest@ == header_rest(e));
                    if e == empty_object() {
                        assert(rest@ == seq![125u8]);
                    } else {
                        assert(rest@[0] == 44);
                        if rest@.len() == 2 && rest@[1] == 125 {
                            assert(e =~= empty_object());
                        }
                    }
                }
            }
        }
        return None;
    }
    let mut extra: Vec<u8> = vec![123u8];
    extra.extend_from_slice(&rest[1..rest.len()]);
    proof {
        assert(extra@ =~= seq![123u8] + rest@.subrange(1, rest@.len() as int));
        assert(extra@ != empty_object()) by {
            if extra@ == empty_object() {
                assert(rest@.len() == 2 && rest@[1] == extra@[1]);
            }
        }
        assert(h@ =~= alg_prefix() + h@.subrange(8, q as int) + seq![34u8] + rest@);
        assert(header_text(alg, extra@) =~= alg_prefix() + alg_name(alg) + seq![34u8, 44] + rest@.subrange(1, rest@.len() as int));
        assert(rest@ =~= seq![44u8] + rest@.subrange(1, rest@.len() as int));
    }
    Some(Protected { alg, extra })
}

} // verus!
