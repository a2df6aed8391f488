//! Compiled filter patterns and their matching semantics.
//!
//! A pattern is a sequence of elements: literal bytes, the `^` separator
//! class, and the `*` wildcard. Anchors are normalized away at parse time by
//! adding explicit leading/trailing wildcards, so a pattern always matches
//! the whole text it is applied to.

use crate::bytes::{
    DIGIT_0, DIGIT_9, DOT, HYPHEN, LOWER_A, LOWER_Z, PERCENT, UNDERSCORE, UPPER_A, UPPER_Z,
};
use vstd::prelude::*;

verus! {

/// One element of a compiled filter pattern: a literal byte, the `^`
/// separator placeholder, or the `*` wildcard.
#[derive(Clone, Copy, PartialEq, Eq, Structural, Debug)]
pub enum PatElem {
    Lit(u8),
    Sep,
    Wildcard,
}

/// The `^` placeholder matches any byte that is not alphanumeric and not one
/// of `_`, `-`, `.`, `%`; it also matches the end of the address.
pub open spec fn is_sep_byte(b: u8) -> bool {
    !((LOWER_A <= b && b <= LOWER_Z) || (UPPER_A <= b && b <= UPPER_Z) || (DIGIT_0 <= b && b
        <= DIGIT_9) || b == UNDERSCORE || b == HYPHEN || b == DOT || b == PERCENT)
}

/// Whether pattern `p` matches the whole text `u`.
///
/// A literal matches exactly its byte, `Sep` matches one separator byte or
/// the end of the text, and `Wildcard` matches any number of bytes.
pub open spec fn pat_matches(p: Seq<PatElem>, u: Seq<u8>) -> bool
    decreases p.len(), u.len(),
{
    if p.len() == 0 {
        u.len() == 0
    } else {
        match p[0] {
            PatElem::Lit(c) => u.len() > 0 && u[0] == c && pat_matches(p.skip(1), u.skip(1)),
            PatElem::Sep => (u.len() > 0 && is_sep_byte(u[0]) && pat_matches(p.skip(1), u.skip(1)))
                || (u.len() == 0 && pat_matches(p.skip(1), u)),
            PatElem::Wildcard => pat_matches(p.skip(1), u) || (u.len() > 0 && pat_matches(
                p,
                u.skip(1),
            )),
        }
    }
}

pub(crate) fn is_sep(b: u8) -> (r: bool)
    ensures
        r == is_sep_byte(b),
{
    !((LOWER_A <= b && b <= LOWER_Z) || (UPPER_A <= b && b <= UPPER_Z) || (DIGIT_0 <= b && b
        <= DIGIT_9) || b == UNDERSCORE || b == HYPHEN || b == DOT || b == PERCENT)
}

/// Decides `pat_matches(p@.skip(pi), u@.skip(ui))` by direct recursion on
/// the defining equations.
pub(crate) fn match_from(p: &Vec<PatElem>, pi: usize, u: &Vec<u8>, ui: usize) -> (r: bool)
    requires
        pi <= p@.len(),
        ui <= u@.len(),
    ensures
        r == pat_matches(p@.skip(pi as int), u@.skip(ui as int)),
    decreases p@.len() - pi, u@.len() - ui,
{
    if pi == p.len() {
        proof {
            assert(p@.skip(pi as int).len() == 0);
            assert(u@.skip(ui as int).len() == u@.len() - ui);
        }
        ui == u.len()
    } else {
        proof {
            assert(p@.skip(pi as int)[0] == p@[pi as int]);
            assert(p@.skip(pi as int).skip(1) =~= p@.skip(pi as int + 1));
            assert(u@.skip(ui as int).len() == u@.len() - ui);
            if ui < u@.len() {
                assert(u@.skip(ui as int)[0] == u@[ui as int]);
                assert(u@.skip(ui as int).skip(1) =~= u@.skip(ui as int + 1));
            }
        }
        match p[pi] {
            PatElem::Lit(c) => {
                if ui < u.len() && u[ui] == c {
                    match_from(p, pi + 1, u, ui + 1)
                } else {
                    false
                }
            },
            PatElem::Sep => {
                if ui < u.len() && is_sep(u[ui]) {
                    match_from(p, pi + 1, u, ui + 1)
                } else if ui == u.len() {
                    match_from(p, pi + 1, u, ui)
                } else {
                    false
                }
            },
            PatElem::Wildcard => {
                if match_from(p, pi + 1, u, ui) {
                    true
                } else if ui < u.len() {
                    match_from(p, pi, u, ui + 1)
                } else {
                    false
                }
            },
        }
    }
}

/// The needle `n` occurs in `h` starting at index `i`.
pub open spec fn occurs_at(h: Seq<u8>, n: Seq<u8>, i: int) -> bool {
    0 <= i && i + n.len() <= h.len() && forall|k: int| 0 <= k < n.len() ==> h[i + k] == n[k]
}

/// The needle `n` occurs somewhere in `h`.
pub open spec fn occurs(h: Seq<u8>, n: Seq<u8>) -> bool {
    exists|i: int| occurs_at(h, n, i)
}

pub(crate) fn bytes_match_at(h: &Vec<u8>, n: &Vec<u8>, i: usize) -> (r: bool)
    requires
        i + n@.len() <= h@.len(),
    ensures
        r == occurs_at(h@, n@, i as int),
{
    let nl = n.len();
    let hl = h.len();
    let mut k: usize = 0;
    while k < nl
        invariant
            nl == n@.len(),
            hl == h@.len(),
            i + nl <= hl,
            k <= nl,
            forall|t: int| 0 <= t < k ==> h@[i + t] == n@[t],
        decreases nl - k,
    {
        if h[i + k] != n[k] {
            assert(h@[i + k] != n@[k as int]);
            return false;
        }
        k += 1;
    }
    true
}

/// Naive substring search: whether `n@` occurs anywhere in `h@`.
pub(crate) fn find_sub(h: &Vec<u8>, n: &Vec<u8>) -> (r: bool)
    ensures
        r == occurs(h@, n@),
{
    if n.len() == 0 {
        assert(occurs_at(h@, n@, 0));
        return true;
    }
    if n.len() > h.len() {
        assert(forall|i: int| !occurs_at(h@, n@, i));
        return false;
    }
    let nl = n.len();
    let hl = h.len();
    let end = hl - nl;
    let mut i: usize = 0;
    while i <= end
        invariant
            nl == n@.len(),
            hl == h@.len(),
            0 < nl <= hl,
            end == hl - nl,
            i <= end + 1,
            forall|j: int| 0 <= j < i ==> !occurs_at(h@, n@, j),
        decreases end + 1 - i,
    {
        if bytes_match_at(h, n, i) {
            return true;
        }
        i += 1;
    }
    assert forall|j: int| !occurs_at(h@, n@, j) by {
        if 0 <= j < i {
        } else if j > end {
            assert(j + n@.len() > h@.len());
        }
    }
    false
}

/// The pattern holds a run of literal bytes `t` starting at element `j`.
pub open spec fn lit_run_at(p: Seq<PatElem>, j: int, t: Seq<u8>) -> bool {
    0 <= j && j + t.len() <= p.len() && forall|k: int|
        0 <= k < t.len() ==> p[j + k] == PatElem::Lit(t[k])
}

/// A pattern beginning with literal bytes `t` forces the matched text to
/// begin with `t` as well.
proof fn lemma_lit_prefix(p: Seq<PatElem>, u: Seq<u8>, t: Seq<u8>)
    requires
        pat_matches(p, u),
        lit_run_at(p, 0, t),
    ensures
        t.len() <= u.len(),
        forall|k: int| 0 <= k < t.len() ==> u[k] == t[k],
    decreases t.len(),
{
    if t.len() > 0 {
        assert(p[0] == PatElem::Lit(t[0]));
        assert(u.len() > 0 && u[0] == t[0] && pat_matches(p.skip(1), u.skip(1)));
        assert(lit_run_at(p.skip(1), 0, t.skip(1))) by {
            assert forall|k: int| 0 <= k < t.skip(1).len() implies p.skip(1)[k] == PatElem::Lit(
                t.skip(1)[k],
            ) by {
                assert(p.skip(1)[k] == p[k + 1]);
                assert(t.skip(1)[k] == t[k + 1]);
            }
        }
        lemma_lit_prefix(p.skip(1), u.skip(1), t.skip(1));
        assert forall|k: int| 0 <= k < t.len() implies u[k] == t[k] by {
            if k > 0 {
                assert(u.skip(1)[k - 1] == t.skip(1)[k - 1]);
                assert(u.skip(1)[k - 1] == u[k]);
                assert(t.skip(1)[k - 1] == t[k]);
            }
        }
    }
}

proof fn lemma_occurs_shift(u: Seq<u8>, t: Seq<u8>)
    requires
        u.len() > 0,
        occurs(u.skip(1), t),
    ensures
        occurs(u, t),
{
    let i = choose|i: int| occurs_at(u.skip(1), t, i);
    assert(occurs_at(u, t, i + 1)) by {
        assert forall|k: int| 0 <= k < t.len() implies u[i + 1 + k] == t[k] by {
            assert(u.skip(1)[i + k] == u[i + 1 + k]);
        }
    }
}

/// The pattern that matches exactly the byte sequence `t`.
pub open spec fn lits(t: Seq<u8>) -> Seq<PatElem> {
    Seq::new(t.len(), |i: int| PatElem::Lit(t[i]))
}

/// A single wildcard matches any text.
pub proof fn lemma_wildcard_matches(u: Seq<u8>)
    ensures
        pat_matches(seq![PatElem::Wildcard], u),
    decreases u.len(),
{
    let p = seq![PatElem::Wildcard];
    assert(p[0] == PatElem::Wildcard);
    if u.len() == 0 {
        assert(p.skip(1) =~= Seq::<PatElem>::empty());
        assert(pat_matches(p.skip(1), u));
    } else {
        lemma_wildcard_matches(u.skip(1));
    }
}

/// Prefix introduction: when `u` starts with the bytes `t` and the rest of
/// the pattern matches the rest of the text, the whole pattern matches.
pub proof fn lemma_lits_prefix_intro(t: Seq<u8>, rest: Seq<PatElem>, u: Seq<u8>)
    requires
        t.len() <= u.len(),
        forall|k: int| 0 <= k < t.len() ==> u[k] == t[k],
        pat_matches(rest, u.skip(t.len() as int)),
    ensures
        pat_matches(lits(t) + rest, u),
    decreases t.len(),
{
    let p = lits(t) + rest;
    if t.len() == 0 {
        assert(p =~= rest);
        assert(u.skip(0) =~= u);
    } else {
        assert(p[0] == PatElem::Lit(t[0]));
        assert(u[0] == t[0]);
        assert forall|k: int| 0 <= k < t.skip(1).len() implies u.skip(1)[k] == t.skip(1)[k] by {
            assert(u.skip(1)[k] == u[k + 1]);
            assert(t.skip(1)[k] == t[k + 1]);
        }
        assert(u.skip(1).skip(t.len() - 1) =~= u.skip(t.len() as int));
        lemma_lits_prefix_intro(t.skip(1), rest, u.skip(1));
        assert(p.skip(1) =~= lits(t.skip(1)) + rest) by {
            assert forall|j: int| 0 <= j < p.skip(1).len() implies p.skip(1)[j] == (lits(t.skip(1))
                + rest)[j] by {
                assert(p.skip(1)[j] == p[j + 1]);
                if j < t.len() - 1 {
                    assert(p[j + 1] == PatElem::Lit(t[j + 1]));
                    assert((lits(t.skip(1)) + rest)[j] == PatElem::Lit(t.skip(1)[j]));
                    assert(t.skip(1)[j] == t[j + 1]);
                } else {
                    assert(p[j + 1] == rest[j + 1 - t.len()]);
                    assert((lits(t.skip(1)) + rest)[j] == rest[j - (t.len() - 1)]);
                }
            }
        }
        assert(pat_matches(p.skip(1), u.skip(1)));
    }
}

/// What occurs in a suffix of `u` occurs in `u`.
pub proof fn lemma_occurs_skip(u: Seq<u8>, t: Seq<u8>, i: int)
    requires
        0 <= i <= u.len(),
        occurs(u.skip(i), t),
    ensures
        occurs(u, t),
{
    let j = choose|j: int| occurs_at(u.skip(i), t, j);
    assert(occurs_at(u, t, i + j)) by {
        assert forall|k: int| 0 <= k < t.len() implies u[i + j + k] == t[k] by {
            assert(u.skip(i)[j + k] == u[i + j + k]);
        }
    }
}

/// Token-pruning soundness: if a pattern with a nonempty literal run `t`
/// matches the text `u`, then `t` occurs verbatim somewhere in `u`.
pub proof fn lemma_match_run_occurs(p: Seq<PatElem>, u: Seq<u8>, j: int, t: Seq<u8>)
    requires
        pat_matches(p, u),
        lit_run_at(p, j, t),
        t.len() > 0,
    ensures
        occurs(u, t),
    decreases p.len(), u.len(),
{
    if j == 0 {
        lemma_lit_prefix(p, u, t);
        assert(occurs_at(u, t, 0));
    } else {
        assert(p.len() > 0);
        assert(lit_run_at(p.skip(1), j - 1, t)) by {
            assert forall|k: int| 0 <= k < t.len() implies p.skip(1)[j - 1 + k] == PatElem::Lit(
                t[k],
            ) by {
                assert(p.skip(1)[j - 1 + k] == p[j + k]);
            }
        }
        match p[0] {
            PatElem::Lit(c) => {
                lemma_match_run_occurs(p.skip(1), u.skip(1), j - 1, t);
                lemma_occurs_shift(u, t);
            },
            PatElem::Sep => {
                if u.len() == 0 {
                    lemma_match_run_occurs(p.skip(1), u, j - 1, t);
                } else {
                    if pat_matches(p.skip(1), u.skip(1)) && is_sep_byte(u[0]) {
                        lemma_match_run_occurs(p.skip(1), u.skip(1), j - 1, t);
                        lemma_occurs_shift(u, t);
                    } else {
                        assert(u.len() == 0 && pat_matches(p.skip(1), u));
                        lemma_match_run_occurs(p.skip(1), u, j - 1, t);
                    }
                }
            },
            PatElem::Wildcard => {
                if pat_matches(p.skip(1), u) {
                    lemma_match_run_occurs(p.skip(1), u, j - 1, t);
                } else {
                    assert(u.len() > 0 && pat_matches(p, u.skip(1)));
                    lemma_match_run_occurs(p, u.skip(1), j, t);
                    lemma_occurs_shift(u, t);
                }
            },
        }
    }
}

} // verus!
