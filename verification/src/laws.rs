//! The library's stated laws: properties of the verdict semantics and of
//! list loading, proved once and for all over the models that the public
//! contracts speak of.

use crate::bytes::DOT;
use crate::engine::spec_blocked;
use crate::oracle::parsed_rules;
use crate::parser::spec_parse;
use crate::pattern::{
    lemma_lits_prefix_intro, lemma_wildcard_matches, lits, pat_matches, PatElem,
};
use crate::request::RequestV;
use crate::rule::{domain_start, domains_allow, host_anchor_matches, rule_matches, DomainEntryV,
    RuleV};
use crate::url::{
    canon_url, domain_matches, dot_suffix, host_end_of, host_start_of, lemma_canon_host, url_host,
    valid_url,
};
use vstd::prelude::*;

verus! {

/// Default-allow: when no rule of the ruleset matches the request, the
/// verdict is "not blocked".
pub proof fn law_default_allow(rules: Seq<RuleV>, q: RequestV)
    requires
        forall|i: int| 0 <= i < rules.len() ==> !rule_matches(#[trigger] rules[i], q),
    ensures
        !spec_blocked(rules, q),
{
    if spec_blocked(rules, q) {
        let i = choose|i: int|
            0 <= i < rules.len() && !(#[trigger] rules[i]).is_exception && rule_matches(
                rules[i],
                q,
            ) && (forall|j: int|
                0 <= j < rules.len() && (#[trigger] rules[j]).is_exception && rule_matches(
                    rules[j],
                    q,
                ) ==> rules[i].specificity > rules[j].specificity);
        assert(rule_matches(rules[i], q));
        assert(false);
    }
}

/// A ruleset with no exception rules blocks as soon as any blocking rule
/// matches; `b` is such a matching rule.
pub proof fn law_blocking_match(rules: Seq<RuleV>, q: RequestV, b: int)
    requires
        forall|j: int| 0 <= j < rules.len() ==> !(#[trigger] rules[j]).is_exception,
        0 <= b < rules.len(),
        rule_matches(rules[b], q),
    ensures
        spec_blocked(rules, q),
{
    assert(!rules[b].is_exception);
    assert forall|j: int|
        0 <= j < rules.len() && (#[trigger] rules[j]).is_exception && rule_matches(rules[j], q)
            implies rules[b].specificity > rules[j].specificity by {
        assert(false);
    }
}

/// Exception precedence: a matching exception rule whose specificity is at
/// least that of every matching blocking rule suppresses blocking.
pub proof fn law_exception_precedence(rules: Seq<RuleV>, q: RequestV, e: int)
    requires
        0 <= e < rules.len(),
        rules[e].is_exception,
        rule_matches(rules[e], q),
        forall|i: int|
            0 <= i < rules.len() && !(#[trigger] rules[i]).is_exception && rule_matches(
                rules[i],
                q,
            ) ==> rules[i].specificity <= rules[e].specificity,
    ensures
        !spec_blocked(rules, q),
{
    if spec_blocked(rules, q) {
        let i = choose|i: int|
            0 <= i < rules.len() && !(#[trigger] rules[i]).is_exception && rule_matches(
                rules[i],
                q,
            ) && (forall|j: int|
                0 <= j < rules.len() && (#[trigger] rules[j]).is_exception && rule_matches(
                    rules[j],
                    q,
                ) ==> rules[i].specificity > rules[j].specificity);
        assert(rules[i].specificity > rules[e].specificity);
        assert(rules[i].specificity <= rules[e].specificity);
        assert(false);
    }
}

/// Determinism: the verdict is a function of the ruleset model and the
/// request alone. Two indexes built from equal rule sequences give every
/// request the same verdict; together with the constructors' contracts
/// (building is a pure function of the input lines, and `evaluate` returns
/// exactly `spec_blocked`), building twice from the same lines and querying
/// the same request yields identical verdicts.
pub proof fn law_deterministic(rules1: Seq<RuleV>, rules2: Seq<RuleV>, q: RequestV)
    requires
        rules1 == rules2,
    ensures
        spec_blocked(rules1, q) == spec_blocked(rules2, q),
{
}

/// Domain-constraint correctness: a rule constrained to a single included
/// domain applies exactly to origins equal to that domain or inside it as a
/// subdomain.
pub proof fn law_domain_constraint(d: Seq<u8>, oh: Seq<u8>)
    ensures
        domains_allow(seq![DomainEntryV { name: d, included: true }], oh) == domain_matches(oh, d),
{
    let ds = seq![DomainEntryV { name: d, included: true }];
    assert(ds[0].included);
    if domain_matches(oh, d) {
        assert(ds[0].included && domain_matches(oh, ds[0].name));
    }
    assert forall|i: int| 0 <= i < ds.len() implies ds[i].included by {
        assert(i == 0);
    }
}

/// Anchor correctness: a host-anchored pattern of the shape `||d^` — the
/// domain's bytes, a separator, then anything — matches every valid URL
/// whose host equals `d` or is a subdomain of `d`. (The parser compiles the
/// line `||d^` to exactly this pattern, with `d` lower-cased.)
pub proof fn law_host_anchor_domain(u: Seq<u8>, d: Seq<u8>)
    requires
        valid_url(u),
        d.len() > 0,
        url_host(u) == d || dot_suffix(url_host(u), d),
    ensures
        host_anchor_matches(
            lits(d) + seq![PatElem::Sep, PatElem::Wildcard],
            canon_url(u),
            host_start_of(u),
            host_end_of(u),
        ),
{
    lemma_canon_host(u);
    let cu = canon_url(u);
    let hs = host_start_of(u);
    let he = host_end_of(u);
    let h = url_host(u);
    assert(h.len() == he - hs);
    let i = he - d.len();
    assert forall|k: int| 0 <= k < h.len() implies cu[hs + k] == h[k] by {
        assert(cu.subrange(hs, he)[k] == cu[hs + k]);
    }
    if h == d {
        assert(i == hs);
        assert(domain_start(cu, hs, i));
    } else {
        assert(h.len() > d.len());
        assert(cu[i - 1] == h[h.len() - d.len() - 1]);
        assert(cu[i - 1] == DOT);
        assert(domain_start(cu, hs, i));
    }
    let rest = cu.skip(i);
    assert forall|k: int| 0 <= k < d.len() implies rest[k] == d[k] by {
        assert(rest[k] == cu[i + k]);
        if h == d {
            assert(cu[hs + k] == h[k]);
        } else {
            assert(cu[hs + (h.len() - d.len() + k)] == h[h.len() - d.len() + k]);
            assert(h.subrange(h.len() - d.len(), h.len() as int)[k] == h[h.len() - d.len() + k]);
        }
    }
    let tail = seq![PatElem::Sep, PatElem::Wildcard];
    assert(tail[0] == PatElem::Sep);
    assert(tail.skip(1) =~= seq![PatElem::Wildcard]);
    assert(rest.skip(d.len() as int) =~= cu.skip(he));
    if he == u.len() {
        assert(cu.skip(he).len() == 0);
        lemma_wildcard_matches(cu.skip(he));
        assert(pat_matches(tail, cu.skip(he)));
    } else {
        assert(crate::pattern::is_sep_byte(cu[he]));
        assert(cu.skip(he)[0] == cu[he]);
        assert(cu.skip(he).skip(1) =~= cu.skip(he + 1));
        lemma_wildcard_matches(cu.skip(he + 1));
        assert(pat_matches(tail, cu.skip(he)));
    }
    assert(rest.len() == cu.len() - i);
    lemma_lits_prefix_intro(d, tail, rest);
    assert(hs <= i < he);
    assert(pat_matches(lits(d) + tail, cu.skip(i)));
}

/// A malformed line among valid ones has no effect: the rules loaded from a
/// line sequence with the malformed line inserted are exactly the rules
/// loaded without it.
pub proof fn law_malformed_line_skipped(xs: Seq<Seq<u8>>, bad: Seq<u8>, ys: Seq<Seq<u8>>)
    requires
        spec_parse(bad) is None,
    ensures
        parsed_rules(xs + seq![bad] + ys) == parsed_rules(xs + ys),
    decreases ys.len(),
{
    if ys.len() == 0 {
        assert((xs + seq![bad] + ys) =~= xs + seq![bad]);
        assert((xs + ys) =~= xs);
        assert((xs + seq![bad]).last() == bad);
        assert((xs + seq![bad]).drop_last() =~= xs);
    } else {
        let l = xs + seq![bad] + ys;
        let m = xs + ys;
        assert(l.last() == ys.last());
        assert(m.last() == ys.last());
        assert(l.drop_last() =~= xs + seq![bad] + ys.drop_last());
        assert(m.drop_last() =~= xs + ys.drop_last());
        law_malformed_line_skipped(xs, bad, ys.drop_last());
    }
}

} // verus!
