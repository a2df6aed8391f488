//! The compiled ruleset: rules in encounter order plus per-polarity pruning
//! structures. A rule with a literal run of at least `MIN_TOKEN_LEN` bytes is
//! reachable through a token bucket; any other rule sits in the fallback list
//! and is always scanned. Host-anchored rules are keyed by their leading
//! domain run, which also serves the exact domain-anchor lookup.

use crate::pattern::{lit_run_at, PatElem};
use crate::rule::{Rule, RuleV};
use crate::url::eq_bytes;
use vstd::prelude::*;

verus! {

/// Patterns whose longest literal run is shorter than this go to the
/// fallback list.
pub const MIN_TOKEN_LEN: usize = 3;

/// Rules whose pattern contains `token` as a contiguous literal run.
pub struct TokenBucket {
    pub token: Vec<u8>,
    pub members: Vec<usize>,
}

/// The pruning structures for one polarity (blocking or exception rules).
pub struct IndexTier {
    pub token_buckets: Vec<TokenBucket>,
    pub fallback_rules: Vec<usize>,
}

/// The compiled ruleset, built once and read-only thereafter.
pub struct RuleIndex {
    pub rules: Vec<Rule>,
    pub blocking: IndexTier,
    pub exceptions: IndexTier,
}

pub open spec fn rule_views(rs: Seq<Rule>) -> Seq<RuleV> {
    Seq::new(rs.len(), |i: int| rs[i]@)
}

impl View for RuleIndex {
    type V = Seq<RuleV>;

    open spec fn view(&self) -> Seq<RuleV> {
        rule_views(self.rules@)
    }
}

/// The pattern contains the token as a contiguous literal run.
pub open spec fn has_lit_run(p: Seq<PatElem>, t: Seq<u8>) -> bool {
    exists|j: int| lit_run_at(p, j, t)
}

/// Rule `i` is reachable through the tier: it is in the fallback list, or in
/// a bucket whose token is a nonempty literal run of the rule's pattern.
pub open spec fn tier_covers(tier: IndexTier, rules: Seq<RuleV>, i: int) -> bool {
    tier.fallback_rules@.contains(i as usize) || exists|b: int|
        0 <= b < tier.token_buckets@.len() && (#[trigger] tier.token_buckets@[b]).members@.contains(
            i as usize,
        ) && tier.token_buckets@[b].token@.len() > 0 && has_lit_run(
            rules[i].pattern,
            tier.token_buckets@[b].token@,
        )
}

/// Every rule identifier stored in the tier is below `n`.
pub open spec fn tier_in_range(tier: IndexTier, n: int) -> bool {
    (forall|k: int| 0 <= k < tier.fallback_rules@.len() ==> (tier.fallback_rules@[k] as int) < n)
        && (forall|b: int, k: int|
        0 <= b < tier.token_buckets@.len() && 0 <= k
            < tier.token_buckets@[b].members@.len() ==> ((#[trigger] tier.token_buckets@[b].members@[k]) as int) < n)
}

/// Well-formedness: the pruning structures point into the rule vector and
/// cover every rule of their polarity.
pub open spec fn index_wf(idx: RuleIndex) -> bool {
    &&& tier_in_range(idx.blocking, idx.rules@.len() as int)
    &&& tier_in_range(idx.exceptions, idx.rules@.len() as int)
    &&& forall|i: int|
        0 <= i < idx@.len() && !idx@[i].is_exception ==> #[trigger] tier_covers(
            idx.blocking,
            idx@,
            i,
        )
    &&& forall|i: int|
        0 <= i < idx@.len() && idx@[i].is_exception ==> #[trigger] tier_covers(
            idx.exceptions,
            idx@,
            i,
        )
}

/// Finds the longest run of literal elements in `p`: returns its start and
/// length, every element of the run being a literal.
fn longest_lit_run(p: &Vec<PatElem>) -> (r: (usize, usize))
    ensures
        r.0 + r.1 <= p@.len(),
        forall|k: int| 0 <= k < r.1 ==> (#[trigger] p@[r.0 + k]) is Lit,
{
    let len = p.len();
    let mut best_s: usize = 0;
    let mut best_l: usize = 0;
    let mut cur_s: usize = 0;
    let mut cur_l: usize = 0;
    let mut i: usize = 0;
    while i < len
        invariant
            i <= len,
            len == p@.len(),
            best_s + best_l <= len,
            cur_s + cur_l == i,
            cur_l <= i,
            forall|k: int| 0 <= k < best_l ==> (#[trigger] p@[best_s + k]) is Lit,
            forall|k: int| 0 <= k < cur_l ==> (#[trigger] p@[cur_s + k]) is Lit,
        decreases len - i,
    {
        match p[i] {
            PatElem::Lit(_c) => {
                cur_l += 1;
                if cur_l > best_l {
                    best_s = cur_s;
                    best_l = cur_l;
                }
            },
            _ => {
                cur_s = i + 1;
                cur_l = 0;
            },
        }
        i += 1;
    }
    (best_s, best_l)
}

/// Extracts the pruning token of a rule: the bytes of its longest literal
/// run, provided the run has at least `MIN_TOKEN_LEN` bytes.
fn extract_token(rule: &Rule) -> (r: Option<Vec<u8>>)
    ensures
        match r {
            Some(t) => t@.len() >= MIN_TOKEN_LEN && has_lit_run(rule@.pattern, t@),
            None => true,
        },
{
    let (s, l) = longest_lit_run(&rule.pattern);
    if l < MIN_TOKEN_LEN {
        return None;
    }
    let pl = rule.pattern.len();
    let mut t: Vec<u8> = Vec::new();
    let mut k: usize = 0;
    while k < l
        invariant
            k <= l,
            pl == rule.pattern@.len(),
            s + l <= rule.pattern@.len(),
            forall|j: int| 0 <= j < l ==> (#[trigger] rule.pattern@[s + j]) is Lit,
            t@.len() == k,
            forall|j: int| 0 <= j < k ==> rule.pattern@[s + j] == PatElem::Lit(t@[j]),
        decreases l - k,
    {
        match rule.pattern[s + k] {
            PatElem::Lit(c) => {
                t.push(c);
            },
            _ => {
                proof {
                    assert(false);
                }
            },
        }
        k += 1;
    }
    proof {
        assert(lit_run_at(rule@.pattern, s as int, t@));
    }
    Some(t)
}

/// Finds a bucket holding exactly this token, if one exists.
fn find_bucket(buckets: &Vec<TokenBucket>, t: &Vec<u8>) -> (r: Option<usize>)
    ensures
        match r {
            Some(b) => b < buckets@.len() && buckets@[b as int].token@ == t@,
            None => true,
        },
{
    let len = buckets.len();
    let mut b: usize = 0;
    while b < len
        invariant
            b <= len,
            len == buckets@.len(),
        decreases len - b,
    {
        if eq_bytes(&buckets[b].token, t) {
            return Some(b);
        }
        b += 1;
    }
    None
}

/// Adds rule `i` to the tier: into the bucket of its token (creating the
/// bucket if needed), or into the fallback list when it has no token.
fn tier_add(tier: &mut IndexTier, tok: Option<Vec<u8>>, i: usize, Ghost(rv): Ghost<Seq<RuleV>>)
    requires
        (i as int) < rv.len(),
        tier_in_range(*old(tier), i as int),
        match tok {
            Some(t) => t@.len() > 0 && has_lit_run(rv[i as int].pattern, t@),
            None => true,
        },
    ensures
        tier_in_range(*final(tier), i as int + 1),
        tier_covers(*final(tier), rv, i as int),
        forall|j: int| #[trigger]
            tier_covers(*old(tier), rv, j) ==> tier_covers(*final(tier), rv, j),
{
    match tok {
        None => {
            tier.fallback_rules.push(i);
            proof {
                assert(tier.fallback_rules@.last() == i);
                assert(tier.fallback_rules@.contains(i));
                assert(tier.token_buckets@ == old(tier).token_buckets@);
                assert forall|j: int| tier_covers(*old(tier), rv, j) implies tier_covers(
                    *tier,
                    rv,
                    j,
                ) by {
                    if old(tier).fallback_rules@.contains(j as usize) {
                        let k = choose|k: int|
                            0 <= k < old(tier).fallback_rules@.len()
                                && old(tier).fallback_rules@[k] == j as usize;
                        assert(tier.fallback_rules@[k] == j as usize);
                        assert(tier.fallback_rules@.contains(j as usize));
                    }
                }
            }
        },
        Some(t) => {
            let ghost tspec = t@;
            match find_bucket(&tier.token_buckets, &t) {
                Some(b) => {
                    let mut bucket = tier.token_buckets.swap_remove(b);
                    bucket.members.push(i);
                    tier.token_buckets.push(bucket);
                    proof {
                        let bs = tier.token_buckets@;
                        let obs = old(tier).token_buckets@;
                        let last = bs.len() - 1;
                        assert(bs.len() == obs.len());
                        assert(tier.fallback_rules@ == old(tier).fallback_rules@);
                        assert(bs[last].token@ == tspec);
                        assert(bs[last].members@ == obs[b as int].members@.push(i));
                        assert(bs[last].members@.last() == i);
                        assert(bs[last].members@.contains(i));
                        assert(tier_covers(*tier, rv, i as int));
                        assert forall|j: int| tier_covers(*old(tier), rv, j) implies tier_covers(
                            *tier,
                            rv,
                            j,
                        ) by {
                            if old(tier).fallback_rules@.contains(j as usize) {
                                assert(tier.fallback_rules@.contains(j as usize));
                            } else {
                                let w = choose|w: int|
                                    0 <= w < obs.len() && (#[trigger] obs[w]).members@.contains(
                                        j as usize,
                                    ) && obs[w].token@.len() > 0 && has_lit_run(
                                        rv[j].pattern,
                                        obs[w].token@,
                                    );
                                if w == b {
                                    let k = choose|k: int|
                                        0 <= k < obs[w].members@.len() && obs[w].members@[k]
                                            == j as usize;
                                    assert(bs[last].members@[k] == j as usize);
                                    assert(bs[last].members@.contains(j as usize));
                                    assert(bs[last].token@ == obs[w].token@);
                                    assert(tier_covers(*tier, rv, j));
                                } else if w == obs.len() - 1 {
                                    assert(bs[b as int] == obs[w]);
                                    assert(tier_covers(*tier, rv, j));
                                } else {
                                    assert(bs[w] == obs[w]);
                                    assert(tier_covers(*tier, rv, j));
                                }
                            }
                        }
                        assert(tier_in_range(*tier, i as int + 1)) by {
                            assert forall|w: int, k: int|
                                0 <= w < bs.len() && 0 <= k
                                    < bs[w].members@.len() implies ((#[trigger] bs[w].members@[k]) as int) < i as int
                                + 1 by {
                                if w == last {
                                    if k < bs[w].members@.len() - 1 {
                                        assert(bs[w].members@[k] == obs[b as int].members@[k]);
                                    }
                                } else if w == b && b != last {
                                    assert(bs[w] == obs[obs.len() - 1]);
                                } else {
                                    assert(bs[w] == obs[w]);
                                }
                            }
                        }
                    }
                },
                None => {
                    let mut members: Vec<usize> = Vec::new();
                    members.push(i);
                    tier.token_buckets.push(TokenBucket { token: t, members });
                    proof {
                        let bs = tier.token_buckets@;
                        let obs = old(tier).token_buckets@;
                        let last = bs.len() - 1;
                        assert(tier.fallback_rules@ == old(tier).fallback_rules@);
                        assert(bs[last].token@ == tspec);
                        assert(bs[last].members@[0] == i);
                        assert(bs[last].members@.contains(i));
                        assert(tier_covers(*tier, rv, i as int));
                        assert forall|j: int| tier_covers(*old(tier), rv, j) implies tier_covers(
                            *tier,
                            rv,
                            j,
                        ) by {
                            if old(tier).fallback_rules@.contains(j as usize) {
                                assert(tier.fallback_rules@.contains(j as usize));
                            } else {
                                let w = choose|w: int|
                                    0 <= w < obs.len() && (#[trigger] obs[w]).members@.contains(
                                        j as usize,
                                    ) && obs[w].token@.len() > 0 && has_lit_run(
                                        rv[j].pattern,
                                        obs[w].token@,
                                    );
                                assert(bs[w] == obs[w]);
                                assert(tier_covers(*tier, rv, j));
                            }
                        }
                        assert(tier_in_range(*tier, i as int + 1)) by {
                            assert forall|w: int, k: int|
                                0 <= w < bs.len() && 0 <= k
                                    < bs[w].members@.len() implies ((#[trigger] bs[w].members@[k]) as int) < i as int
                                + 1 by {
                                if w < last {
                                    assert(bs[w] == obs[w]);
                                }
                            }
                        }
                    }
                },
            }
        },
    }
}

/// Compiles a rule sequence into the index. Building is a pure function of
/// the input sequence: the index holds exactly the given rules, in encounter
/// order, and well-formed pruning structures over them.
pub fn build(rules: Vec<Rule>) -> (idx: RuleIndex)
    ensures
        idx@ == rule_views(rules@),
        index_wf(idx),
{
    let n = rules.len();
    let mut blocking = IndexTier { token_buckets: Vec::new(), fallback_rules: Vec::new() };
    let mut exceptions = IndexTier { token_buckets: Vec::new(), fallback_rules: Vec::new() };
    let ghost rv = rule_views(rules@);
    let mut i: usize = 0;
    while i < n
        invariant
            n == rules@.len(),
            i <= n,
            rv == rule_views(rules@),
            tier_in_range(blocking, i as int),
            tier_in_range(exceptions, i as int),
            forall|j: int| 0 <= j < i && !rv[j].is_exception ==> #[trigger] tier_covers(
                blocking,
                rv,
                j,
            ),
            forall|j: int| 0 <= j < i && rv[j].is_exception ==> #[trigger] tier_covers(
                exceptions,
                rv,
                j,
            ),
        decreases n - i,
    {
        let rule = &rules[i];
        let tok = extract_token(rule);
        proof {
            assert(rv[i as int] == rule@);
        }
        let ghost pre_b = blocking;
        let ghost pre_e = exceptions;
        if rule.is_exception {
            tier_add(&mut exceptions, tok, i, Ghost(rv));
        } else {
            tier_add(&mut blocking, tok, i, Ghost(rv));
        }
        proof {
            assert forall|j: int| 0 <= j <= i && !rv[j].is_exception implies tier_covers(
                blocking,
                rv,
                j,
            ) by {
                if j < i {
                    assert(tier_covers(pre_b, rv, j));
                }
            }
            assert forall|j: int| 0 <= j <= i && rv[j].is_exception implies tier_covers(
                exceptions,
                rv,
                j,
            ) by {
                if j < i {
                    assert(tier_covers(pre_e, rv, j));
                }
            }
        }
        i += 1;
    }
    let idx = RuleIndex { rules, blocking, exceptions };
    proof {
        assert(tier_in_range(idx.blocking, n as int));
        assert(tier_in_range(idx.exceptions, n as int));
    }
    idx
}

} // verus!
