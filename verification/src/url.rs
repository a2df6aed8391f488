//! URL analysis: locating the host component, validity of request URLs,
//! canonicalization (scheme and host are compared case-insensitively, the
//! rest of the address case-sensitively), and domain suffix matching.

use crate::bytes::{CASE_GAP, COLON, DOT, HASH, QUESTION, SLASH, UPPER_A, UPPER_Z};
use vstd::prelude::*;

verus! {

pub open spec fn to_lower_byte(b: u8) -> u8 {
    if UPPER_A <= b && b <= UPPER_Z {
        (b + CASE_GAP) as u8
    } else {
        b
    }
}

pub(crate) fn to_lower(b: u8) -> (r: u8)
    ensures
        r == to_lower_byte(b),
{
    if UPPER_A <= b && b <= UPPER_Z {
        b + CASE_GAP
    } else {
        b
    }
}

/// Lower-cased copy of a byte sequence.
pub open spec fn lower_seq(s: Seq<u8>) -> Seq<u8> {
    Seq::new(s.len(), |i: int| to_lower_byte(s[i]))
}

pub(crate) fn lower_vec(s: &Vec<u8>) -> (r: Vec<u8>)
    ensures
        r@ == lower_seq(s@),
{
    let len = s.len();
    let mut r: Vec<u8> = Vec::new();
    let mut i: usize = 0;
    while i < len
        invariant
            i <= len,
            len == s@.len(),
            r@.len() == i,
            forall|j: int| 0 <= j < i ==> r@[j] == to_lower_byte(s@[j]),
        decreases len - i,
    {
        r.push(to_lower(s[i]));
        i += 1;
    }
    proof {
        assert(r@ =~= lower_seq(s@));
    }
    r
}

/// The byte triple `://` separating a URL scheme from its authority.
pub open spec fn scheme_sep_at(u: Seq<u8>, i: int) -> bool {
    0 <= i && i + 3 <= u.len() && u[i] == COLON && u[i + 1] == SLASH && u[i + 2] == SLASH
}

/// Index of the first scheme separator at or after `i`, if any.
pub open spec fn first_scheme_sep_from(u: Seq<u8>, i: int) -> Option<int>
    decreases u.len() - i,
{
    if i + 3 > u.len() {
        None
    } else if scheme_sep_at(u, i) {
        Some(i)
    } else {
        first_scheme_sep_from(u, i + 1)
    }
}

/// Bytes that end the host component of an address.
pub open spec fn is_host_end_byte(b: u8) -> bool {
    b == SLASH || b == COLON || b == QUESTION || b == HASH
}

/// Index of the first host-ending byte at or after `i`, or the length.
pub open spec fn host_end_from(u: Seq<u8>, i: int) -> int
    decreases u.len() - i,
{
    if i < 0 {
        0
    } else if i >= u.len() {
        u.len() as int
    } else if is_host_end_byte(u[i]) {
        i
    } else {
        host_end_from(u, i + 1)
    }
}

/// Start of the host of `u`, assuming a scheme separator exists.
pub open spec fn host_start_of(u: Seq<u8>) -> int {
    match first_scheme_sep_from(u, 0) {
        Some(k) => k + 3,
        None => 0,
    }
}

/// End of the host of `u`, assuming a scheme separator exists.
pub open spec fn host_end_of(u: Seq<u8>) -> int {
    host_end_from(u, host_start_of(u))
}

/// A request URL is well formed when it has a nonempty scheme, the `://`
/// separator, and a nonempty host.
pub open spec fn valid_url(u: Seq<u8>) -> bool {
    match first_scheme_sep_from(u, 0) {
        Some(k) => k >= 1 && host_end_of(u) > k + 3,
        None => false,
    }
}

/// The URL with its scheme and host lower-cased; path and query keep their
/// case.
pub open spec fn canon_url(u: Seq<u8>) -> Seq<u8>
    recommends
        valid_url(u),
{
    Seq::new(
        u.len(),
        |i: int|
            if i < host_end_of(u) {
                to_lower_byte(u[i])
            } else {
                u[i]
            },
    )
}

/// The lower-cased host component of a valid URL.
pub open spec fn url_host(u: Seq<u8>) -> Seq<u8>
    recommends
        valid_url(u),
{
    lower_seq(u.subrange(host_start_of(u), host_end_of(u)))
}

/// The origin may be a full URL or a bare domain; its host is the part after
/// any scheme separator, up to the first delimiter, lower-cased.
pub open spec fn origin_host(o: Seq<u8>) -> Seq<u8> {
    let start = host_start_of(o);
    let end = host_end_from(o, start);
    lower_seq(o.subrange(start, end))
}

/// `h` is a strict subdomain of `d`: it ends with `.` followed by `d`.
pub open spec fn dot_suffix(h: Seq<u8>, d: Seq<u8>) -> bool {
    h.len() > d.len() && h[h.len() - d.len() - 1] == DOT && h.subrange(
        h.len() - d.len(),
        h.len() as int,
    ) == d
}

/// A host `h` matches a constraint domain `d` when it equals `d` or is a
/// subdomain of it.
pub open spec fn domain_matches(h: Seq<u8>, d: Seq<u8>) -> bool {
    h == d || dot_suffix(h, d)
}

/// A request is first-party when the URL host and the origin host are equal
/// or one is a subdomain of the other.
pub open spec fn first_party(uh: Seq<u8>, oh: Seq<u8>) -> bool {
    domain_matches(uh, oh) || domain_matches(oh, uh)
}

proof fn lemma_first_sep_some(u: Seq<u8>, lo: int)
    requires
        0 <= lo,
    ensures
        match first_scheme_sep_from(u, lo) {
            Some(k) => scheme_sep_at(u, k) && lo <= k,
            None => true,
        },
    decreases u.len() - lo,
{
    if lo + 3 > u.len() {
    } else if scheme_sep_at(u, lo) {
    } else {
        lemma_first_sep_some(u, lo + 1);
    }
}

proof fn lemma_host_end_props(u: Seq<u8>, i: int)
    requires
        0 <= i <= u.len(),
    ensures
        i <= host_end_from(u, i) <= u.len(),
        host_end_from(u, i) < u.len() ==> is_host_end_byte(u[host_end_from(u, i)]),
    decreases u.len() - i,
{
    if i < u.len() && !is_host_end_byte(u[i]) {
        lemma_host_end_props(u, i + 1);
    }
}

/// Facts about a valid URL's canonical form and host span that the anchor
/// law relies on: the span is inside the URL, the canonical host equals
/// `url_host`, and the byte after the host (if any) is a separator.
pub proof fn lemma_canon_host(u: Seq<u8>)
    requires
        valid_url(u),
    ensures
        canon_url(u).len() == u.len(),
        0 <= host_start_of(u) < host_end_of(u) <= u.len(),
        canon_url(u).subrange(host_start_of(u), host_end_of(u)) == url_host(u),
        host_end_of(u) < u.len() ==> crate::pattern::is_sep_byte(canon_url(u)[host_end_of(u)]),
{
    lemma_first_sep_some(u, 0);
    lemma_host_end_props(u, host_start_of(u));
    let hs = host_start_of(u);
    let he = host_end_of(u);
    assert(canon_url(u).subrange(hs, he) =~= url_host(u));
    if he < u.len() {
        assert(canon_url(u)[he] == u[he]);
        assert(is_host_end_byte(u[he]));
    }
}

proof fn lemma_first_sep_found(u: Seq<u8>, lo: int, i: int)
    requires
        0 <= lo <= i,
        scheme_sep_at(u, i),
        forall|j: int| lo <= j < i ==> !scheme_sep_at(u, j),
    ensures
        first_scheme_sep_from(u, lo) == Some(i),
    decreases i - lo,
{
    if lo < i {
        lemma_first_sep_found(u, lo + 1, i);
    }
}

proof fn lemma_first_sep_none(u: Seq<u8>, lo: int)
    requires
        0 <= lo,
        forall|j: int| lo <= j ==> !scheme_sep_at(u, j),
    ensures
        first_scheme_sep_from(u, lo) is None,
    decreases u.len() - lo,
{
    if lo + 3 <= u.len() {
        lemma_first_sep_none(u, lo + 1);
    }
}

proof fn lemma_host_end_found(u: Seq<u8>, lo: int, i: int)
    requires
        0 <= lo <= i <= u.len(),
        i == u.len() || is_host_end_byte(u[i]),
        forall|j: int| lo <= j < i ==> !is_host_end_byte(u[j]),
    ensures
        host_end_from(u, lo) == i,
    decreases i - lo,
{
    if lo < i {
        lemma_host_end_found(u, lo + 1, i);
    }
}

/// Finds the first `://` in `u`, with the facts the callers need.
pub(crate) fn find_scheme_sep(u: &Vec<u8>) -> (r: Option<usize>)
    ensures
        match r {
            Some(k) => first_scheme_sep_from(u@, 0) == Some(k as int) && scheme_sep_at(
                u@,
                k as int,
            ),
            None => first_scheme_sep_from(u@, 0) is None,
        },
{
    let len = u.len();
    if len < 3 {
        proof {
            lemma_first_sep_none(u@, 0);
        }
        return None;
    }
    let end = len - 3;
    let mut i: usize = 0;
    while i <= end
        invariant
            len == u@.len(),
            3 <= len,
            end == len - 3,
            i <= end + 1,
            forall|j: int| 0 <= j < i ==> !scheme_sep_at(u@, j),
        decreases end + 1 - i,
    {
        if u[i] == COLON && u[i + 1] == SLASH && u[i + 2] == SLASH {
            proof {
                lemma_first_sep_found(u@, 0, i as int);
            }
            return Some(i);
        }
        i += 1;
    }
    proof {
        assert forall|j: int| 0 <= j implies !scheme_sep_at(u@, j) by {
            if j > end {
                assert(j + 3 > u@.len());
            }
        }
        lemma_first_sep_none(u@, 0);
    }
    None
}

/// Finds the end of the host component starting at `start`.
pub(crate) fn find_host_end(u: &Vec<u8>, start: usize) -> (r: usize)
    requires
        start <= u@.len(),
    ensures
        r == host_end_from(u@, start as int),
        start <= r <= u@.len(),
{
    let len = u.len();
    let mut i = start;
    while i < len
        invariant
            start <= i <= len,
            len == u@.len(),
            forall|j: int| start <= j < i ==> !is_host_end_byte(u@[j]),
        decreases len - i,
    {
        let b = u[i];
        if b == SLASH || b == COLON || b == QUESTION || b == HASH {
            proof {
                lemma_host_end_found(u@, start as int, i as int);
            }
            return i;
        }
        i += 1;
    }
    proof {
        lemma_host_end_found(u@, start as int, len as int);
    }
    len
}

/// Analyzes a request URL. For a valid URL returns the canonical form
/// together with the host span; for a malformed one returns `None`.
pub(crate) fn analyze_url(u: &Vec<u8>) -> (r: Option<(Vec<u8>, usize, usize)>)
    ensures
        r is Some <==> valid_url(u@),
        match r {
            Some(t) => t.0@ == canon_url(u@) && t.1 == host_start_of(u@) && t.2 == host_end_of(u@)
                && t.1 < t.2 <= u@.len(),
            None => true,
        },
{
    let len = u.len();
    match find_scheme_sep(u) {
        None => None,
        Some(k) => {
            if k < 1 {
                return None;
            }
            let hs = k + 3;
            let he = find_host_end(u, hs);
            if he <= hs {
                return None;
            }
            let mut c: Vec<u8> = Vec::new();
            let mut i: usize = 0;
            while i < len
                invariant
                    i <= len,
                    len == u@.len(),
                    he == host_end_of(u@),
                    he <= len,
                    c@.len() == i,
                    forall|j: int|
                        0 <= j < i ==> c@[j] == (if j < he {
                            to_lower_byte(u@[j])
                        } else {
                            u@[j]
                        }),
                decreases len - i,
            {
                if i < he {
                    c.push(to_lower(u[i]));
                } else {
                    c.push(u[i]);
                }
                i += 1;
            }
            proof {
                assert(c@ =~= canon_url(u@));
            }
            Some((c, hs, he))
        },
    }
}

/// Extracts the lower-cased host of an origin (a URL or a bare domain).
pub(crate) fn origin_host_vec(o: &Vec<u8>) -> (h: Vec<u8>)
    ensures
        h@ == origin_host(o@),
{
    let olen = o.len();
    let start = match find_scheme_sep(o) {
        Some(k) => k + 3,
        None => 0,
    };
    assert(start <= olen);
    let end = find_host_end(o, start);
    let mut h: Vec<u8> = Vec::new();
    let mut i = start;
    while i < end
        invariant
            start <= i <= end,
            end <= o@.len(),
            h@.len() == i - start,
            forall|j: int| 0 <= j < i - start ==> h@[j] == to_lower_byte(o@[start + j]),
        decreases end - i,
    {
        h.push(to_lower(o[i]));
        i += 1;
    }
    proof {
        assert(h@ =~= origin_host(o@));
    }
    h
}

/// Compares two byte vectors for equality of their contents.
pub(crate) fn eq_bytes(a: &Vec<u8>, b: &Vec<u8>) -> (r: bool)
    ensures
        r == (a@ == b@),
{
    if a.len() != b.len() {
        return false;
    }
    let len = a.len();
    let mut i: usize = 0;
    while i < len
        invariant
            i <= len,
            len == a@.len() == b@.len(),
            forall|j: int| 0 <= j < i ==> a@[j] == b@[j],
        decreases len - i,
    {
        if a[i] != b[i] {
            return false;
        }
        i += 1;
    }
    proof {
        assert(a@ =~= b@);
    }
    true
}

/// Decides `domain_matches(h@, d@)`.
pub(crate) fn domain_match_exec(h: &Vec<u8>, d: &Vec<u8>) -> (r: bool)
    ensures
        r == domain_matches(h@, d@),
{
    if eq_bytes(h, d) {
        return true;
    }
    if h.len() <= d.len() {
        return false;
    }
    let off = h.len() - d.len();
    if h[off - 1] != DOT {
        return false;
    }
    let dl = d.len();
    let hl = h.len();
    let mut k: usize = 0;
    while k < dl
        invariant
            k <= dl,
            dl == d@.len(),
            hl == h@.len(),
            dl < hl,
            off == hl - dl,
            forall|j: int| 0 <= j < k ==> h@[off + j] == d@[j],
        decreases dl - k,
    {
        if h[off + k] != d[k] {
            assert(h@[off + k] != d@[k as int]);
            assert(!dot_suffix(h@, d@)) by {
                if h@.subrange(off as int, h@.len() as int) == d@ {
                    assert(h@.subrange(off as int, h@.len() as int)[k as int] == h@[off + k]);
                }
            }
            return false;
        }
        k += 1;
    }
    proof {
        assert(h@.subrange(off as int, h@.len() as int) =~= d@);
    }
    true
}

} // verus!
