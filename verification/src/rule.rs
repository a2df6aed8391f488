//! Compiled filter rules and the semantics of matching one rule against one
//! request.

use crate::bytes::DOT;
use crate::pattern::{match_from, pat_matches, PatElem};
use crate::request::RequestV;
use crate::url::{
    canon_url, domain_match_exec, domain_matches, eq_bytes, first_party, host_end_of,
    host_start_of, origin_host, url_host, valid_url,
};
use vstd::prelude::*;

verus! {

/// The `third-party` option: a rule may apply to every request, only to
/// third-party requests, or only to first-party requests.
#[derive(Clone, Copy, PartialEq, Eq, Structural, Debug)]
pub enum Party {
    Any,
    ThirdOnly,
    FirstOnly,
}

/// One `domain=` constraint entry: a lower-cased domain, included
/// (`good.com`) or excluded (`~bad.com`).
pub struct DomainEntry {
    pub name: Vec<u8>,
    pub included: bool,
}

/// Mathematical model of a domain entry.
pub struct DomainEntryV {
    pub name: Seq<u8>,
    pub included: bool,
}

impl View for DomainEntry {
    type V = DomainEntryV;

    open spec fn view(&self) -> DomainEntryV {
        DomainEntryV { name: self.name@, included: self.included }
    }
}

pub open spec fn domain_views(ds: Seq<DomainEntry>) -> Seq<DomainEntryV> {
    Seq::new(ds.len(), |i: int| ds[i]@)
}

pub open spec fn byte_views(ts: Seq<Vec<u8>>) -> Seq<Seq<u8>> {
    Seq::new(ts.len(), |i: int| ts[i]@)
}

/// The compiled form of one filter-list line.
///
/// `pattern` is normalized: a leading wildcard stands for "match anywhere"
/// and a trailing wildcard for "match any suffix", so the pattern always
/// spans the whole matched text. For a host-anchored rule (`||`) the pattern
/// has no leading wildcard and is instead aligned at a domain-label start
/// within the URL's host.
pub struct Rule {
    pub pattern: Vec<PatElem>,
    pub host_anchor: bool,
    pub domains: Vec<DomainEntry>,
    pub resource_types: Vec<Vec<u8>>,
    pub party: Party,
    pub is_exception: bool,
    pub specificity: u64,
}

/// Mathematical model of a rule.
pub struct RuleV {
    pub pattern: Seq<PatElem>,
    pub host_anchor: bool,
    pub domains: Seq<DomainEntryV>,
    pub resource_types: Seq<Seq<u8>>,
    pub party: Party,
    pub is_exception: bool,
    pub specificity: u64,
}

impl View for Rule {
    type V = RuleV;

    open spec fn view(&self) -> RuleV {
        RuleV {
            pattern: self.pattern@,
            host_anchor: self.host_anchor,
            domains: domain_views(self.domains@),
            resource_types: byte_views(self.resource_types@),
            party: self.party,
            is_exception: self.is_exception,
            specificity: self.specificity,
        }
    }
}

/// Index `i` of the canonical URL is a place a `||` pattern may align: the
/// start of the host, or just after a dot inside the host.
pub open spec fn domain_start(cu: Seq<u8>, hs: int, i: int) -> bool {
    i == hs || (hs < i && cu[i - 1] == DOT)
}

/// A host-anchored pattern matches when it aligns at some domain-label start
/// within the host and matches from there to the end of the URL.
pub open spec fn host_anchor_matches(p: Seq<PatElem>, cu: Seq<u8>, hs: int, he: int) -> bool {
    exists|i: int| hs <= i < he && domain_start(cu, hs, i) && pat_matches(p, cu.skip(i))
}

/// Whether the rule's pattern matches the request URL (canonicalized:
/// scheme and host lower-cased), honoring the rule's anchoring.
pub open spec fn rule_pattern_matches(r: RuleV, u: Seq<u8>) -> bool
    recommends
        valid_url(u),
{
    if r.host_anchor {
        host_anchor_matches(r.pattern, canon_url(u), host_start_of(u), host_end_of(u))
    } else {
        pat_matches(r.pattern, canon_url(u))
    }
}

pub open spec fn has_included(ds: Seq<DomainEntryV>) -> bool {
    exists|i: int| 0 <= i < ds.len() && ds[i].included
}

pub open spec fn included_hit(ds: Seq<DomainEntryV>, oh: Seq<u8>) -> bool {
    exists|i: int| 0 <= i < ds.len() && ds[i].included && domain_matches(oh, ds[i].name)
}

pub open spec fn excluded_hit(ds: Seq<DomainEntryV>, oh: Seq<u8>) -> bool {
    exists|i: int| 0 <= i < ds.len() && !ds[i].included && domain_matches(oh, ds[i].name)
}

/// The `domain=` constraint admits an origin host when some included domain
/// covers it (or none is included) and no excluded domain covers it.
pub open spec fn domains_allow(ds: Seq<DomainEntryV>, oh: Seq<u8>) -> bool {
    (!has_included(ds) || included_hit(ds, oh)) && !excluded_hit(ds, oh)
}

/// An empty resource-type set means the rule applies to every type.
pub open spec fn types_allow(ts: Seq<Seq<u8>>, rt: Seq<u8>) -> bool {
    ts.len() == 0 || exists|i: int| 0 <= i < ts.len() && ts[i] == rt
}

pub open spec fn party_allows(p: Party, uh: Seq<u8>, oh: Seq<u8>) -> bool {
    match p {
        Party::Any => true,
        Party::ThirdOnly => !first_party(uh, oh),
        Party::FirstOnly => first_party(uh, oh),
    }
}

/// Whether one rule matches one request: the pattern matches the URL and the
/// domain, resource-type and party constraints all admit the request.
pub open spec fn rule_matches(r: RuleV, q: RequestV) -> bool
    recommends
        valid_url(q.url),
{
    &&& rule_pattern_matches(r, q.url)
    &&& domains_allow(r.domains, origin_host(q.origin))
    &&& types_allow(r.resource_types, q.resource_type)
    &&& party_allows(r.party, url_host(q.url), origin_host(q.origin))
}

pub(crate) fn host_anchor_match_exec(p: &Vec<PatElem>, canon: &Vec<u8>, hs: usize, he: usize) -> (r:
    bool)
    requires
        hs <= he <= canon@.len(),
    ensures
        r == host_anchor_matches(p@, canon@, hs as int, he as int),
{
    let mut i = hs;
    while i < he
        invariant
            hs <= i <= he <= canon@.len(),
            forall|j: int|
                hs <= j < i ==> !(domain_start(canon@, hs as int, j) && pat_matches(
                    p@,
                    canon@.skip(j),
                )),
        decreases he - i,
    {
        let ds = if i == hs {
            true
        } else {
            canon[i - 1] == DOT
        };
        if ds {
            if match_from(p, 0, canon, i) {
                proof {
                    assert(p@.skip(0) =~= p@);
                    assert(host_anchor_matches(p@, canon@, hs as int, he as int)) by {
                        assert(domain_start(canon@, hs as int, i as int));
                        assert(pat_matches(p@, canon@.skip(i as int)));
                    }
                }
                return true;
            }
        }
        proof {
            assert(p@.skip(0) =~= p@);
        }
        i += 1;
    }
    false
}

pub(crate) fn domains_allow_exec(ds: &Vec<DomainEntry>, oh: &Vec<u8>) -> (r: bool)
    ensures
        r == domains_allow(domain_views(ds@), oh@),
{
    let len = ds.len();
    let mut has_inc = false;
    let mut inc_hit = false;
    let mut exc_hit = false;
    let mut k: usize = 0;
    while k < len
        invariant
            k <= len,
            len == ds@.len(),
            has_inc == has_included(domain_views(ds@).take(k as int)),
            inc_hit == included_hit(domain_views(ds@).take(k as int), oh@),
            exc_hit == excluded_hit(domain_views(ds@).take(k as int), oh@),
        decreases len - k,
    {
        let entry = &ds[k];
        let hit = domain_match_exec(oh, &entry.name);
        proof {
            assert(domain_views(ds@).take(k as int + 1)[k as int] == ds@[k as int]@);
            assert forall|j: int| 0 <= j < k implies domain_views(ds@).take(k as int + 1)[j]
                == domain_views(ds@).take(k as int)[j] by {}
        }
        if entry.included {
            has_inc = true;
            if hit {
                inc_hit = true;
            }
        } else {
            if hit {
                exc_hit = true;
            }
        }
        k += 1;
    }
    proof {
        assert(domain_views(ds@).take(len as int) =~= domain_views(ds@));
    }
    (!has_inc || inc_hit) && !exc_hit
}

pub(crate) fn types_allow_exec(ts: &Vec<Vec<u8>>, rt: &Vec<u8>) -> (r: bool)
    ensures
        r == types_allow(byte_views(ts@), rt@),
{
    let len = ts.len();
    if len == 0 {
        return true;
    }
    let mut k: usize = 0;
    while k < len
        invariant
            k <= len,
            len == ts@.len(),
            forall|j: int| 0 <= j < k ==> byte_views(ts@)[j] != rt@,
        decreases len - k,
    {
        if eq_bytes(&ts[k], rt) {
            assert(byte_views(ts@)[k as int] == rt@);
            return true;
        }
        k += 1;
    }
    false
}

pub(crate) fn party_allows_exec(p: Party, uh: &Vec<u8>, oh: &Vec<u8>) -> (r: bool)
    ensures
        r == party_allows(p, uh@, oh@),
{
    match p {
        Party::Any => true,
        Party::ThirdOnly => !(domain_match_exec(uh, oh) || domain_match_exec(oh, uh)),
        Party::FirstOnly => domain_match_exec(uh, oh) || domain_match_exec(oh, uh),
    }
}

/// Decides `rule_matches(rule@, q)` given the precomputed canonical URL,
/// host span, URL host, and origin host of the request.
pub(crate) fn rule_matches_exec(
    rule: &Rule,
    canon: &Vec<u8>,
    hs: usize,
    he: usize,
    uh: &Vec<u8>,
    oh: &Vec<u8>,
    rt: &Vec<u8>,
    Ghost(q): Ghost<RequestV>,
) -> (r: bool)
    requires
        valid_url(q.url),
        canon@ == canon_url(q.url),
        hs == host_start_of(q.url),
        he == host_end_of(q.url),
        hs <= he <= q.url.len(),
        uh@ == url_host(q.url),
        oh@ == origin_host(q.origin),
        rt@ == q.resource_type,
    ensures
        r == rule_matches(rule@, q),
{
    let pm = if rule.host_anchor {
        host_anchor_match_exec(&rule.pattern, canon, hs, he)
    } else {
        proof {
            assert(rule.pattern@.skip(0) =~= rule.pattern@);
            assert(canon@.skip(0) =~= canon@);
        }
        match_from(&rule.pattern, 0, canon, 0)
    };
    if !pm {
        return false;
    }
    let dm = domains_allow_exec(&rule.domains, oh);
    if !dm {
        return false;
    }
    let tm = types_allow_exec(&rule.resource_types, rt);
    if !tm {
        return false;
    }
    party_allows_exec(rule.party, uh, oh)
}

} // verus!
