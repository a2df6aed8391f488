//! The match engine: evaluating one request against the compiled index.
//!
//! Precedence policy: a request is blocked exactly when some blocking rule
//! matches it with specificity strictly higher than that of every matching
//! exception rule. In particular an exception at equal or higher specificity
//! than every matching blocking rule suppresses blocking, and with no
//! matching exception any blocking match blocks.

use crate::index::{has_lit_run, index_wf, tier_covers, tier_in_range, RuleIndex};
use crate::pattern::{
    find_sub, lemma_match_run_occurs, lemma_occurs_skip, lit_run_at, occurs, pat_matches,
};
use crate::request::{Request, RequestV};
use crate::rule::{domain_start, rule_matches, rule_matches_exec, RuleV};
use crate::url::{
    analyze_url, canon_url, host_end_of, host_start_of, origin_host, origin_host_vec, url_host,
    valid_url,
};
use vstd::prelude::*;

verus! {

/// The outcome of evaluating one request.
#[derive(Clone, Copy, PartialEq, Eq, Structural, Debug)]
pub struct Verdict {
    pub blocked: bool,
}

/// Evaluation failure: the request's URL is not a well-formed absolute URL.
#[derive(Clone, Copy, PartialEq, Eq, Structural, Debug)]
pub enum EvalError {
    InvalidRequest,
}

/// The verdict semantics: blocked exactly when some blocking rule matches
/// the request and its specificity is strictly higher than that of every
/// matching exception rule.
pub open spec fn spec_blocked(rules: Seq<RuleV>, q: RequestV) -> bool {
    exists|i: int|
        0 <= i < rules.len() && !(#[trigger] rules[i]).is_exception && rule_matches(rules[i], q)
            && (forall|j: int|
            0 <= j < rules.len() && (#[trigger] rules[j]).is_exception && rule_matches(rules[j], q)
                ==> rules[i].specificity > rules[j].specificity)
}

/// Evaluates one polarity of the index: whether any rule of that polarity
/// matches the request, and the highest specificity among those that do.
fn eval_tier(
    idx: &RuleIndex,
    exc: bool,
    canon: &Vec<u8>,
    hs: usize,
    he: usize,
    uh: &Vec<u8>,
    oh: &Vec<u8>,
    rt: &Vec<u8>,
    Ghost(q): Ghost<RequestV>,
) -> (r: (bool, u64))
    requires
        index_wf(*idx),
        valid_url(q.url),
        canon@ == canon_url(q.url),
        hs == host_start_of(q.url),
        he == host_end_of(q.url),
        hs <= he <= q.url.len(),
        uh@ == url_host(q.url),
        oh@ == origin_host(q.origin),
        rt@ == q.resource_type,
    ensures
        r.0 == exists|i: int|
            0 <= i < idx@.len() && (#[trigger] idx@[i]).is_exception == exc && rule_matches(
                idx@[i],
                q,
            ),
        r.0 ==> exists|i: int|
            0 <= i < idx@.len() && (#[trigger] idx@[i]).is_exception == exc && rule_matches(
                idx@[i],
                q,
            ) && idx@[i].specificity == r.1,
        forall|i: int|
            0 <= i < idx@.len() && (#[trigger] idx@[i]).is_exception == exc && rule_matches(
                idx@[i],
                q,
            ) ==> idx@[i].specificity <= r.1,
{
    let n = idx.rules.len();
    let tier = if exc {
        &idx.exceptions
    } else {
        &idx.blocking
    };
    proof {
        assert(tier_in_range(*tier, n as int));
    }
    // Phase one: mark the candidate rules reachable through the tier.
    let mut cand: Vec<bool> = Vec::new();
    let mut z: usize = 0;
    while z < n
        invariant
            z <= n,
            cand@.len() == z,
        decreases n - z,
    {
        cand.push(false);
        z += 1;
    }
    let fl = tier.fallback_rules.len();
    let mut k: usize = 0;
    while k < fl
        invariant
            cand@.len() == n,
            n == idx.rules@.len(),
            k <= fl,
            fl == tier.fallback_rules@.len(),
            tier_in_range(*tier, n as int),
            forall|t: int| 0 <= t < k ==> cand@[tier.fallback_rules@[t] as int],
        decreases fl - k,
    {
        let m = tier.fallback_rules[k];
        cand.set(m, true);
        k += 1;
    }
    let bl = tier.token_buckets.len();
    let mut b: usize = 0;
    while b < bl
        invariant
            cand@.len() == n,
            n == idx.rules@.len(),
            bl == tier.token_buckets@.len(),
            b <= bl,
            fl == tier.fallback_rules@.len(),
            tier_in_range(*tier, n as int),
            forall|t: int| 0 <= t < fl ==> cand@[tier.fallback_rules@[t] as int],
            forall|w: int, t: int|
                0 <= w < b && occurs(canon@, tier.token_buckets@[w].token@) && 0 <= t
                    < tier.token_buckets@[w].members@.len() ==> cand@[(#[trigger] tier.token_buckets@[w].members@[t]) as int],
        decreases bl - b,
    {
        if find_sub(canon, &tier.token_buckets[b].token) {
            let ml = tier.token_buckets[b].members.len();
            let mut t: usize = 0;
            while t < ml
                invariant
                    cand@.len() == n,
                    n == idx.rules@.len(),
                    bl == tier.token_buckets@.len(),
                    b < bl,
                    t <= ml,
                    ml == tier.token_buckets@[b as int].members@.len(),
                    fl == tier.fallback_rules@.len(),
                    tier_in_range(*tier, n as int),
                    forall|u: int| 0 <= u < fl ==> cand@[tier.fallback_rules@[u] as int],
                    forall|w: int, u: int|
                        0 <= w < b && occurs(canon@, tier.token_buckets@[w].token@) && 0 <= u
                            < tier.token_buckets@[w].members@.len() ==> cand@[(#[trigger] tier.token_buckets@[w].members@[u]) as int],
                    forall|u: int|
                        0 <= u < t ==> cand@[tier.token_buckets@[b as int].members@[u] as int],
                decreases ml - t,
            {
                let m = tier.token_buckets[b].members[t];
                cand.set(m, true);
                t += 1;
            }
        }
        b += 1;
    }
    // Every rule of this polarity that matches the request is marked.
    proof {
        assert forall|i: int|
            0 <= i < n && (#[trigger] idx@[i]).is_exception == exc && rule_matches(
                idx@[i],
                q,
            ) implies cand@[i] by {
            assert(tier_covers(*tier, idx@, i));
            if !tier.fallback_rules@.contains(i as usize) {
                let w = choose|w: int|
                    0 <= w < tier.token_buckets@.len() && (#[trigger] tier.token_buckets@[w]).members@.contains(
                        i as usize,
                    ) && tier.token_buckets@[w].token@.len() > 0 && has_lit_run(
                        idx@[i].pattern,
                        tier.token_buckets@[w].token@,
                    );
                let tok = tier.token_buckets@[w].token@;
                let p = idx@[i].pattern;
                let jr = choose|jr: int| lit_run_at(p, jr, tok);
                let cu = canon_url(q.url);
                assert(occurs(cu, tok)) by {
                    if idx@[i].host_anchor {
                        let a = choose|a: int|
                            host_start_of(q.url) <= a < host_end_of(q.url) && domain_start(
                                cu,
                                host_start_of(q.url),
                                a,
                            ) && pat_matches(p, cu.skip(a));
                        lemma_match_run_occurs(p, cu.skip(a), jr, tok);
                        lemma_occurs_skip(cu, tok, a);
                    } else {
                        lemma_match_run_occurs(p, cu, jr, tok);
                    }
                }
                let mt = choose|mt: int|
                    0 <= mt < tier.token_buckets@[w].members@.len()
                        && tier.token_buckets@[w].members@[mt] == i as usize;
                assert(cand@[tier.token_buckets@[w].members@[mt] as int]);
            } else {
                let t = choose|t: int|
                    0 <= t < tier.fallback_rules@.len() && tier.fallback_rules@[t] == i as usize;
                assert(cand@[tier.fallback_rules@[t] as int]);
            }
        }
    }
    // Phase two: test each candidate in full and fold the best specificity.
    let mut has = false;
    let mut best: u64 = 0;
    let mut i: usize = 0;
    while i < n
        invariant
            cand@.len() == n,
            n == idx.rules@.len(),
            i <= n,
            index_wf(*idx),
            valid_url(q.url),
            canon@ == canon_url(q.url),
            hs == host_start_of(q.url),
            he == host_end_of(q.url),
            hs <= he <= q.url.len(),
            uh@ == url_host(q.url),
            oh@ == origin_host(q.origin),
            rt@ == q.resource_type,
            forall|i0: int|
                0 <= i0 < n && (#[trigger] idx@[i0]).is_exception == exc && rule_matches(
                    idx@[i0],
                    q,
                ) ==> cand@[i0],
            has == exists|j: int|
                0 <= j < i && (#[trigger] idx@[j]).is_exception == exc && rule_matches(idx@[j], q),
            has ==> exists|j: int|
                0 <= j < i && (#[trigger] idx@[j]).is_exception == exc && rule_matches(idx@[j], q)
                    && idx@[j].specificity == best,
            forall|j: int|
                0 <= j < i && (#[trigger] idx@[j]).is_exception == exc && rule_matches(idx@[j], q)
                    ==> idx@[j].specificity <= best,
        decreases n - i,
    {
        proof {
            assert(idx@[i as int] == idx.rules@[i as int]@);
        }
        if cand[i] {
            let rule = &idx.rules[i];
            if rule.is_exception == exc {
                let m = rule_matches_exec(rule, canon, hs, he, uh, oh, rt, Ghost(q));
                if m {
                    if has == false || rule.specificity > best {
                        best = rule.specificity;
                    }
                    has = true;
                }
            }
        }
        i += 1;
    }
    (has, best)
}

/// Evaluates one request against the compiled index.
///
/// A malformed request URL is reported as `InvalidRequest`, never as a
/// verdict. For a valid URL the verdict is exactly `spec_blocked`.
pub fn evaluate(idx: &RuleIndex, q: &Request) -> (r: Result<Verdict, EvalError>)
    requires
        index_wf(*idx),
    ensures
        match r {
            Ok(v) => valid_url(q@.url) && v.blocked == spec_blocked(idx@, q@),
            Err(e) => !valid_url(q@.url) && e == EvalError::InvalidRequest,
        },
{
    match analyze_url(&q.url) {
        None => Err(EvalError::InvalidRequest),
        Some((canon, hs, he)) => {
            let mut uh: Vec<u8> = Vec::new();
            let mut t = hs;
            while t < he
                invariant
                    hs <= t <= he,
                    he <= canon@.len(),
                    uh@.len() == t - hs,
                    forall|j: int| 0 <= j < t - hs ==> uh@[j] == canon@[hs + j],
                decreases he - t,
            {
                uh.push(canon[t]);
                t += 1;
            }
            proof {
                assert(uh@ =~= url_host(q@.url));
            }
            let oh = origin_host_vec(&q.origin);
            let (bh, bb) = eval_tier(idx, false, &canon, hs, he, &uh, &oh, &q.resource_type,
                Ghost(q@));
            let (eh, eb) = eval_tier(idx, true, &canon, hs, he, &uh, &oh, &q.resource_type,
                Ghost(q@));
            let blocked = bh && (!eh || bb > eb);
            proof {
                let rs = idx@;
                if blocked {
                    let ib = choose|ib: int|
                        0 <= ib < rs.len() && !(#[trigger] rs[ib]).is_exception && rule_matches(
                            rs[ib],
                            q@,
                        ) && rs[ib].specificity == bb;
                    assert forall|j: int|
                        0 <= j < rs.len() && (#[trigger] rs[j]).is_exception && rule_matches(
                            rs[j],
                            q@,
                        ) implies rs[ib].specificity > rs[j].specificity by {
                        assert(eh);
                        assert(rs[j].specificity <= eb);
                    }
                    assert(spec_blocked(rs, q@));
                } else {
                    if spec_blocked(rs, q@) {
                        let i = choose|i: int|
                            0 <= i < rs.len() && !(#[trigger] rs[i]).is_exception && rule_matches(
                                rs[i],
                                q@,
                            ) && (forall|j: int|
                                0 <= j < rs.len() && (#[trigger] rs[j]).is_exception
                                    && rule_matches(rs[j], q@) ==> rs[i].specificity
                                    > rs[j].specificity);
                        assert(bh);
                        assert(eh && bb <= eb);
                        let je = choose|je: int|
                            0 <= je < rs.len() && (#[trigger] rs[je]).is_exception && rule_matches(
                                rs[je],
                                q@,
                            ) && rs[je].specificity == eb;
                        assert(rs[i].specificity > eb);
                        assert(rs[i].specificity <= bb);
                        assert(false);
                    }
                }
            }
            Ok(Verdict { blocked })
        },
    }
}

} // verus!
