//! Framing of JSON texts: where an object that starts at a given byte ends,
//! and which texts the JSON parser accepts.
use vstd::prelude::*;

verus! {

/// State of the framing scan: nesting depth, inside a string, after a backslash.
pub type ScanState = (int, bool, bool);

pub open spec fn scan_step(st: ScanState, c: u8) -> ScanState {
    if st.1 {
        if st.2 {
            (st.0, true, false)
        } else if c == 92 {
            (st.0, true, true)
        } else if c == 34 {
            (st.0, false, false)
        } else {
            st
        }
    } else if c == 34 {
        (st.0, true, false)
    } else if c == 123 || c == 91 {
        (st.0 + 1, false, false)
    } else if c == 125 || c == 93 {
        (st.0 - 1, false, false)
    } else {
        st
    }
}

/// The state after scanning all of `s` from `st`.
pub open spec fn scan_from(st: ScanState, s: Seq<u8>) -> ScanState
    decreases s.len(),
{
    if s.len() == 0 {
        st
    } else {
        scan_step(scan_from(st, s.drop_last()), s.last())
    }
}

pub open spec fn scan(s: Seq<u8>) -> ScanState {
    scan_from((0, false, false), s)
}

/// Outside any string, with every bracket closed.
pub open spec fn closed(st: ScanState) -> bool {
    st.0 == 0 && !st.1
}

/// `s` is one JSON object text without surrounding space: it starts with `{`
/// and its brackets first balance at its last byte.
pub open spec fn framed_object(s: Seq<u8>) -> bool {
    &&& s.len() >= 2
    &&& s[0] == 123
    &&& closed(scan(s))
    &&& forall|j: int| 1 <= j < s.len() ==> !closed(#[trigger] scan(s.subrange(0, j)))
}

pub proof fn lemma_scan_concat(st: ScanState, x: Seq<u8>, y: Seq<u8>)
    ensures
        scan_from(st, x + y) == scan_from(scan_from(st, x), y),
    decreases y.len(),
{
    if y.len() == 0 {
        assert(x + y =~= x);
    } else {
        assert((x + y).drop_last() =~= x + y.drop_last());
        lemma_scan_concat(st, x, y.drop_last());
    }
}

/// A byte that opens a bracketed or quoted value: `{`, `[` or `"`.
pub open spec fn opens_value(c: u8) -> bool {
    c == 123 || c == 91 || c == 34
}

/// JSON whitespace.
pub open spec fn is_ws(c: u8) -> bool {
    c == 32 || c == 9 || c == 10 || c == 13
}

/// A byte that cannot stand inside a number or a literal.
pub open spec fn is_delim(c: u8) -> bool {
    is_ws(c) || c == 44 || c == 58 || c == 125 || c == 93 || opens_value(c)
}

/// The scan of `v` is closed at its last byte and at no earlier one.
pub open spec fn closes(v: Seq<u8>) -> bool {
    &&& v.len() >= 1
    &&& closed(scan(v))
    &&& forall|j: int| 1 <= j < v.len() ==> !closed(#[trigger] scan(v.subrange(0, j)))
}

/// One JSON value text without surrounding space, as far as framing goes: a
/// bracketed or quoted value that closes at its last byte, or a number or
/// literal made of bytes that are not delimiters.
pub open spec fn framed_value(v: Seq<u8>) -> bool {
    ||| v.len() >= 1 && opens_value(v[0]) && closes(v)
    ||| scalar_text(v)
}

/// A number or literal: bytes that are not delimiters.
pub open spec fn scalar_text(v: Seq<u8>) -> bool {
    v.len() >= 1 && forall|i: int| 0 <= i < v.len() ==> !is_delim(#[trigger] v[i])
}

pub proof fn lemma_scan_open(c: u8)
    requires
        opens_value(c),
    ensures
        scan(seq![c]) == (if c == 34 { (0int, true, false) } else { (1int, false, false) }),
        !closed(scan(seq![c])),
{
    let init: ScanState = (0, false, false);
    lemma_scan_push(init, Seq::<u8>::empty(), c);
    assert(seq![c] =~= Seq::<u8>::empty().push(c));
    assert(scan_from(init, Seq::<u8>::empty()) == init);
}

/// Where the bracketed or quoted value that starts at `start` ends.
pub fn bracket_len(s: &[u8], start: usize) -> (r: Option<usize>)
    ensures
        r matches Some(n) ==> start + n <= s@.len() && closes(s@.subrange(start as int, start + n)),
        forall|n: int|
            #![trigger s@.subrange(start as int, start + n)]
            start < s@.len() && opens_value(s@[start as int]) && 0 <= n && start + n <= s@.len() && closes(
                s@.subrange(start as int, start + n),
            ) ==> r == Some(n as usize),
{
    if start >= s.len() || !(s[start] == 123 || s[start] == 91 || s[start] == 34) {
        return None;
    }
    let c0 = s[start];
    proof {
        lemma_scan_open(c0);
        assert(s@.subrange(start as int, start + 1) =~= seq![c0]);
    }
    let mut depth: usize = if c0 == 34 { 0 } else { 1 };
    let mut in_str = c0 == 34;
    let mut esc = false;
    let mut i: usize = start + 1;
    while i < s.len()
        invariant
            start < i <= s@.len(),
            opens_value(s@[start as int]),
            depth <= i - start,
            !in_str ==> depth >= 1,
            (depth as int, in_str, esc) == scan(s@.subrange(start as int, i as int)),
            forall|j: int|
                1 <= j <= i - start ==> !closed(
                    #[trigger] scan(s@.subrange(start as int, start + j)),
                ),
        decreases s@.len() - i,
    {
        let c = s[i];
        let ghost before = (depth as int, in_str, esc);
        assert(s@.subrange(start as int, i + 1).drop_last() =~= s@.subrange(start as int, i as int));
        assert(s@.subrange(start as int, i + 1).last() == c);
        if in_str {
            if esc {
                esc = false;
            } else if c == 92 {
                esc = true;
            } else if c == 34 {
                in_str = false;
            }
        } else if c == 34 {
            in_str = true;
            esc = false;
        } else if c == 123 || c == 91 {
            depth = depth + 1;
            esc = false;
        } else if c == 125 || c == 93 {
            depth = depth - 1;
            esc = false;
        }
        i = i + 1;
        proof {
            assert(scan(s@.subrange(start as int, i as int)) == scan_step(before, c));
        }
        if depth == 0 && !in_str {
            let n = i - start;
            proof {
                let u = s@.subrange(start as int, start + n);
                assert(u =~= s@.subrange(start as int, i as int));
                assert forall|j: int| 1 <= j < u.len() implies !closed(#[trigger] scan(u.subrange(0, j))) by {
                    assert(u.subrange(0, j) =~= s@.subrange(start as int, start + j));
                }
                assert forall|m: int|
                    #![trigger s@.subrange(start as int, start + m)]
                    0 <= m && start + m <= s@.len() && closes(s@.subrange(start as int, start + m)) implies m
                        == n by {
                    let v = s@.subrange(start as int, start + m);
                    if m < n {
                        assert(!closed(scan(s@.subrange(start as int, start + m))));
                    } else if m > n {
                        assert(v.subrange(0, n as int) =~= u);
                    }
                }
            }
            return Some(n);
        }
    }
    assert forall|n: int|
        #![trigger s@.subrange(start as int, start + n)]
        0 <= n && start + n <= s@.len() implies !closes(s@.subrange(start as int, start + n)) by {
        if n >= 1 {
            assert(!closed(scan(s@.subrange(start as int, start + n))));
        }
    }
    None
}

/// Where the object that starts at `start` ends: `Some(n)` when `s[start..start + n]`
/// is a framed object, and that `n` is the only one.
pub fn object_len(s: &[u8], start: usize) -> (r: Option<usize>)
    ensures
        match r {
            Some(n) => start + n <= s@.len() && framed_object(s@.subrange(start as int, start + n)),
            None => forall|n: int|
                #![trigger s@.subrange(start as int, start + n)]
                0 <= n && start + n <= s@.len() ==> !framed_object(s@.subrange(start as int, start + n)),
        },
        forall|n: int|
            #![trigger s@.subrange(start as int, start + n)]
            0 <= n && start + n <= s@.len() && framed_object(s@.subrange(start as int, start + n)) ==> r
                == Some(n as usize),
{
    if start >= s.len() || s[start] != 123 {
        assert forall|n: int|
            #![trigger s@.subrange(start as int, start + n)]
            0 <= n && start + n <= s@.len() implies !framed_object(s@.subrange(start as int, start + n)) by {
            if start + n <= s@.len() && n >= 2 {
                assert(s@.subrange(start as int, start + n)[0] == s@[start as int]);
            }
        }
        return None;
    }
    let r = bracket_len(s, start);
    proof {
        lemma_scan_open(123);
        assert(s@.subrange(start as int, start + 1) =~= seq![123u8]);
        assert forall|n: int|
            #![trigger s@.subrange(start as int, start + n)]
            0 <= n && start + n <= s@.len() implies framed_object(s@.subrange(start as int, start + n)) == closes(
            s@.subrange(start as int, start + n),
        ) by {
            let v = s@.subrange(start as int, start + n);
            if n == 1 {
                assert(v =~= seq![123u8]);
            }
            if n >= 1 {
                assert(v[0] == 123);
            }
        }
    }
    r
}

/// Where the number or literal that starts at `start` ends: the first delimiter.
pub fn scalar_len(s: &[u8], start: usize) -> (r: Option<usize>)
    ensures
        r matches Some(n) ==> start + n <= s@.len() && scalar_text(s@.subrange(start as int, start + n)) && (
        start + n == s@.len() || is_delim(s@[start + n])),
        forall|n: int|
            #![trigger s@.subrange(start as int, start + n)]
            0 <= n && start + n <= s@.len() && scalar_text(s@.subrange(start as int, start + n)) && (start + n
                == s@.len() || is_delim(s@[start + n])) ==> r == Some(n as usize),
{
    let mut i = start;
    while i < s.len() && !(s[i] == 32 || s[i] == 9 || s[i] == 10 || s[i] == 13 || s[i] == 44 || s[i] == 58
        || s[i] == 125 || s[i] == 93 || s[i] == 123 || s[i] == 91 || s[i] == 34)
        invariant
            start <= i,
            i <= s@.len() || i == start,
            forall|j: int| start <= j < i ==> !is_delim(#[trigger] s@[j]),
        decreases s@.len() - i,
    {
        i = i + 1;
    }
    proof {
        assert forall|n: int|
            #![trigger s@.subrange(start as int, start + n)]
            0 <= n && start + n <= s@.len() && scalar_text(s@.subrange(start as int, start + n)) && (start + n
                == s@.len() || is_delim(s@[start + n])) implies start + n == i by {
            let v = s@.subrange(start as int, start + n);
            if start + n < i {
                assert(!is_delim(s@[start + n]));
            } else if start + n > i {
                assert(v[i - start] == s@[i as int]);
            }
        }
    }
    if i == start || i > s.len() {
        return None;
    }
    proof {
        let v = s@.subrange(start as int, i as int);
        assert forall|k: int| 0 <= k < v.len() implies !is_delim(#[trigger] v[k]) by {
            assert(v[k] == s@[start + k]);
        }
    }
    Some(i - start)
}

/// Where the JSON value that starts at `start` ends, as far as framing goes.
pub fn value_len(s: &[u8], start: usize) -> (r: Option<usize>)
    ensures
        r matches Some(n) ==> start + n <= s@.len() && framed_value(s@.subrange(start as int, start + n)),
        forall|n: int|
            #![trigger s@.subrange(start as int, start + n)]
            0 <= n && start + n <= s@.len() && framed_value(s@.subrange(start as int, start + n)) && (start + n
                == s@.len() || is_delim(s@[start + n])) ==> r == Some(n as usize),
{
    if start >= s.len() {
        return None;
    }
    let c = s[start];
    if c == 123 || c == 91 || c == 34 {
        let r = bracket_len(s, start);
        proof {
            assert forall|n: int|
                #![trigger s@.subrange(start as int, start + n)]
                0 <= n && start + n <= s@.len() && framed_value(s@.subrange(start as int, start + n)) implies closes(
                s@.subrange(start as int, start + n),
            ) by {
                let v = s@.subrange(start as int, start + n);
                assert(v[0] == c);
            }
            if let Some(n) = r {
                let v = s@.subrange(start as int, start + n);
                assert(v[0] == c);
            }
        }
        r
    } else {
        let r = scalar_len(s, start);
        proof {
            assert forall|n: int|
                #![trigger s@.subrange(start as int, start + n)]
                0 <= n && start + n <= s@.len() && framed_value(s@.subrange(start as int, start + n)) implies scalar_text(
                s@.subrange(start as int, start + n),
            ) by {
                let v = s@.subrange(start as int, start + n);
                assert(v[0] == c);
            }
        }
        r
    }
}

/// A byte that changes no scan state but the escape flag.
pub open spec fn is_plain_byte(c: u8) -> bool {
    c != 34 && c != 92 && c != 123 && c != 125 && c != 91 && c != 93
}

pub open spec fn is_bracket(c: u8) -> bool {
    c == 123 || c == 125 || c == 91 || c == 93
}

pub proof fn lemma_scan_push(st: ScanState, s: Seq<u8>, c: u8)
    ensures
        scan_from(st, s.push(c)) == scan_step(scan_from(st, s), c),
{
    assert(s.push(c).drop_last() =~= s);
}

pub proof fn lemma_scan_plain(st: ScanState, w: Seq<u8>)
    requires
        !st.2,
        forall|i: int| 0 <= i < w.len() ==> is_plain_byte(#[trigger] w[i]),
    ensures
        scan_from(st, w) == st,
    decreases w.len(),
{
    if w.len() > 0 {
        lemma_scan_plain(st, w.drop_last());
        assert(is_plain_byte(w[w.len() - 1]));
    }
}

pub proof fn lemma_scan_depth(st: ScanState, w: Seq<u8>)
    requires
        forall|i: int| 0 <= i < w.len() ==> !is_bracket(#[trigger] w[i]),
    ensures
        scan_from(st, w).0 == st.0,
    decreases w.len(),
{
    if w.len() > 0 {
        lemma_scan_depth(st, w.drop_last());
        assert(!is_bracket(w[w.len() - 1]));
    }
}

/// The JSON texts that the parser accepts, with the member names of an object.
///
/// `None` for bytes that are not one JSON text, `Some(None)` for a value that
/// is not an object, `Some(Some(names))` for an object.
pub uninterp spec fn json_keys(b: Seq<u8>) -> Option<Option<Seq<Seq<u8>>>>;

/// Relies on serde_json's `from_slice` into a `serde_json::Value`, which fails
/// on bytes that are not one JSON text; the names of an object are handed out.
#[verifier::external_body]
pub(crate) fn parse_json_keys(b: &[u8]) -> (r: Option<Option<Vec<Vec<u8>>>>)
    ensures
        r.deep_view() == json_keys(b@),
{
    match serde_json::from_slice::<serde_json::Value>(b) {
        Ok(serde_json::Value::Object(m)) => Some(Some(m.keys().map(|k| k.as_bytes().to_vec()).collect())),
        Ok(_) => Some(None),
        Err(_) => None,
    }
}

/// The members of a JSON object text: each name, and the exact text of its
/// value without the space around it. `None` for bytes that are not one
/// JSON object.
pub uninterp spec fn json_members(b: Seq<u8>) -> Option<Seq<(Seq<u8>, Seq<u8>)>>;

/// Relies on serde_json's `from_slice` into a map of `Box<RawValue>`: it
/// accepts one JSON object with any spacing and member order, and keeps each
/// value's text as it stands in the input.
#[verifier::external_body]
pub(crate) fn parse_json_members(b: &[u8]) -> (r: Option<Vec<(Vec<u8>, Vec<u8>)>>)
    ensures
        r.deep_view() == json_members(b@),
{
    match serde_json::from_slice::<std::collections::BTreeMap<String, Box<serde_json::value::RawValue>>>(b) {
        Ok(m) => Some(m.into_iter().map(|(k, v)| (k.into_bytes(), v.get().as_bytes().to_vec())).collect()),
        Err(_) => None,
    }
}

/// The member name `alg`.
pub open spec fn alg_key() -> Seq<u8> {
    seq![97u8, 108, 103]
}

/// The object `{}`.
pub open spec fn empty_object() -> Seq<u8> {
    seq![123u8, 125]
}

/// Extension fields of a protected header: one compact JSON object, framed,
/// that does not define `alg`; an object without members is written `{}`.
pub open spec fn valid_extension(e: Seq<u8>) -> bool {
    &&& framed_object(e)
    &&& match json_keys(e) {
        Some(Some(keys)) => !keys.contains(alg_key()) && (keys.len() == 0 ==> e == empty_object()),
        _ => false,
    }
}

/// An unprotected header that carries no data: an object without members.
pub open spec fn empty_unprotected(u: Seq<u8>) -> bool {
    json_keys(u) == Some(Some(Seq::<Seq<u8>>::empty()))
}

/// An unprotected header: one JSON value without surrounding space, that is
/// not an object without members.
pub open spec fn valid_unprotected(u: Seq<u8>) -> bool {
    &&& json_keys(u) is Some
    &&& framed_value(u)
    &&& !empty_unprotected(u)
}

pub fn check_extension(e: &[u8]) -> (r: bool)
    ensures
        r == valid_extension(e@),
{
    let framed = match object_len(e, 0) {
        Some(n) => n == e.len(),
        None => false,
    };
    assert(e@.subrange(0, e@.len() as int) =~= e@);
    assert(e@.subrange(0usize as int, 0usize + (e@.len() as int)) =~= e@);
    if !framed {
        return false;
    }
    let parsed = parse_json_keys(e);
    match &parsed {
        Some(Some(keys)) => {
            assert(json_keys(e@) == Some(Some(keys.deep_view())));
            let mut i: usize = 0;
            while i < keys.len()
                invariant
                    0 <= i <= keys@.len(),
                    json_keys(e@) == Some(Some(keys.deep_view())),
                    forall|j: int| 0 <= j < i ==> (#[trigger] keys@[j])@ != alg_key(),
                decreases keys@.len() - i,
            {
                let alg: [u8; 3] = [97, 108, 103];
                assert(alg@ =~= alg_key());
                if crate::alg::bytes_eq(keys[i].as_slice(), &alg) {
                    assert(keys.deep_view()[i as int] == alg_key());
                    assert(keys.deep_view().contains(alg_key()));
                    return false;
                }
                i = i + 1;
            }
            assert(!keys.deep_view().contains(alg_key())) by {
                if keys.deep_view().contains(alg_key()) {
                    let j = choose|j: int| 0 <= j < keys.deep_view().len() && keys.deep_view()[j] == alg_key();
                    assert(keys@[j]@ == alg_key());
                }
            }
            if keys.len() == 0 {
                e.len() == 2 && e[0] == 123 && e[1] == 125 && {
                    assert(e@ =~= empty_object());
                    true
                }
            } else {
                true
            }
        },
        _ => false,
    }
}

pub fn is_empty_unprotected(u: &[u8]) -> (r: bool)
    ensures
        r == empty_unprotected(u@),
{
    match parse_json_keys(u) {
        Some(Some(keys)) => {
            assert(json_keys(u@) == Some(Some(keys.deep_view())));
            if keys.len() == 0 {
                assert(keys.deep_view() =~= Seq::<Seq<u8>>::empty());
                true
            } else {
                assert(keys.deep_view().len() != 0);
                false
            }
        },
        _ => false,
    }
}

pub fn check_unprotected(u: &[u8]) -> (r: bool)
    ensures
        r == valid_unprotected(u@),
{
    let framed = match value_len(u, 0) {
        Some(n) => n == u.len(),
        None => false,
    };
    proof {
        assert(u@.subrange(0, u@.len() as int) =~= u@);
        assert(u@.subrange(0usize as int, 0usize + (u@.len() as int)) =~= u@);
    }
    framed && parse_json_keys(u).is_some() && !is_empty_unprotected(u)
}

} // verus!
