//! The filter parser: one raw filter-list line to a compiled `Rule`, or
//! `None` for lines that are blank, comments, cosmetic filters, or malformed.

use crate::bytes::{AT, BANG, CARET, COMMA, CR, DOLLAR, PIPE, SLASH, SPACE, STAR, TAB, TILDE};
use crate::pattern::{occurs, occurs_at, PatElem};
use crate::rule::{byte_views, domain_views, DomainEntry, DomainEntryV, Party, Rule, RuleV};
use crate::url::{eq_bytes, lower_seq, lower_vec, to_lower_byte, to_lower};
use vstd::prelude::*;

verus! {

// Specificity bonuses: more constrained rules rank higher.
pub const HOST_ANCHOR_BONUS: u64 = 50;

pub const EXACT_START_BONUS: u64 = 25;

pub const EXACT_END_BONUS: u64 = 25;

pub const DOMAIN_BONUS: u64 = 30;

pub const TYPE_BONUS: u64 = 10;

pub const PARTY_BONUS: u64 = 10;

/// Literal characters counted toward the specificity score are capped here,
/// so the score always fits in `u64` with all bonuses added.
pub const LIT_CAP: u64 = 0xFFFF_FFFF;

pub open spec fn is_ws(b: u8) -> bool {
    b == SPACE || b == TAB || b == CR
}

/// A line of nothing but whitespace carries no rule.
pub open spec fn is_blank(l: Seq<u8>) -> bool {
    forall|i: int| 0 <= i < l.len() ==> is_ws(l[i])
}

pub open spec fn starts_with(l: Seq<u8>, p: Seq<u8>) -> bool {
    occurs_at(l, p, 0)
}

/// The cosmetic-filter separator `##`.
pub open spec fn kw_cosmetic_plain() -> Seq<u8> {
    seq![35u8, 35]
}

/// The cosmetic-filter separator `#@#`.
pub open spec fn kw_cosmetic_unhide() -> Seq<u8> {
    seq![35u8, 64, 35]
}

/// The cosmetic-filter separator `#?#`.
pub open spec fn kw_cosmetic_proc() -> Seq<u8> {
    seq![35u8, 63, 35]
}

/// The option keyword `third-party`.
pub open spec fn kw_third_party() -> Seq<u8> {
    seq![116u8, 104, 105, 114, 100, 45, 112, 97, 114, 116, 121]
}

/// The option keyword `~third-party`.
pub open spec fn kw_not_third_party() -> Seq<u8> {
    seq![126u8, 116, 104, 105, 114, 100, 45, 112, 97, 114, 116, 121]
}

/// The option prefix `domain=`.
pub open spec fn kw_domain_eq() -> Seq<u8> {
    seq![100u8, 111, 109, 97, 105, 110, 61]
}

/// The bytes of `script`.
pub open spec fn kw_script() -> Seq<u8> {
    seq![115u8, 99, 114, 105, 112, 116]
}

/// The bytes of `image`.
pub open spec fn kw_image() -> Seq<u8> {
    seq![105u8, 109, 97, 103, 101]
}

/// The bytes of `stylesheet`.
pub open spec fn kw_stylesheet() -> Seq<u8> {
    seq![115u8, 116, 121, 108, 101, 115, 104, 101, 101, 116]
}

/// The bytes of `object`.
pub open spec fn kw_object() -> Seq<u8> {
    seq![111u8, 98, 106, 101, 99, 116]
}

/// The bytes of `xmlhttprequest`.
pub open spec fn kw_xmlhttprequest() -> Seq<u8> {
    seq![120u8, 109, 108, 104, 116, 116, 112, 114, 101, 113, 117, 101, 115, 116]
}

/// The bytes of `subdocument`.
pub open spec fn kw_subdocument() -> Seq<u8> {
    seq![115u8, 117, 98, 100, 111, 99, 117, 109, 101, 110, 116]
}

/// The bytes of `document`.
pub open spec fn kw_document() -> Seq<u8> {
    seq![100u8, 111, 99, 117, 109, 101, 110, 116]
}

/// The bytes of `font`.
pub open spec fn kw_font() -> Seq<u8> {
    seq![102u8, 111, 110, 116]
}

/// The bytes of `media`.
pub open spec fn kw_media() -> Seq<u8> {
    seq![109u8, 101, 100, 105, 97]
}

/// The bytes of `websocket`.
pub open spec fn kw_websocket() -> Seq<u8> {
    seq![119u8, 101, 98, 115, 111, 99, 107, 101, 116]
}

/// The bytes of `ping`.
pub open spec fn kw_ping() -> Seq<u8> {
    seq![112u8, 105, 110, 103]
}

/// The bytes of `other`.
pub open spec fn kw_other() -> Seq<u8> {
    seq![111u8, 116, 104, 101, 114]
}

/// The resource-type keywords the parser recognizes.
pub open spec fn is_type_keyword(s: Seq<u8>) -> bool {
    s == kw_script() || s == kw_image() || s == kw_stylesheet() || s == kw_object() || s == kw_xmlhttprequest() || s == kw_subdocument() || s == kw_document() || s == kw_font() || s == kw_media() || s == kw_websocket() || s == kw_ping() || s == kw_other()
}

pub(crate) fn is_type_keyword_exec(item: &Vec<u8>) -> (r: bool)
    ensures
        r == is_type_keyword(item@),
{
    let v_script: Vec<u8> = vec![115u8, 99, 114, 105, 112, 116];
    proof {
        assert(v_script@ =~= kw_script());
    }
    if eq_bytes(item, &v_script) {
        return true;
    }
    let v_image: Vec<u8> = vec![105u8, 109, 97, 103, 101];
    proof {
        assert(v_image@ =~= kw_image());
    }
    if eq_bytes(item, &v_image) {
        return true;
    }
    let v_stylesheet: Vec<u8> = vec![115u8, 116, 121, 108, 101, 115, 104, 101, 101, 116];
    proof {
        assert(v_stylesheet@ =~= kw_stylesheet());
    }
    if eq_bytes(item, &v_stylesheet) {
        return true;
    }
    let v_object: Vec<u8> = vec![111u8, 98, 106, 101, 99, 116];
    proof {
        assert(v_object@ =~= kw_object());
    }
    if eq_bytes(item, &v_object) {
        return true;
    }
    let v_xmlhttprequest: Vec<u8> = vec![120u8, 109, 108, 104, 116, 116, 112, 114, 101, 113, 117, 101, 115, 116];
    proof {
        assert(v_xmlhttprequest@ =~= kw_xmlhttprequest());
    }
    if eq_bytes(item, &v_xmlhttprequest) {
        return true;
    }
    let v_subdocument: Vec<u8> = vec![115u8, 117, 98, 100, 111, 99, 117, 109, 101, 110, 116];
    proof {
        assert(v_subdocument@ =~= kw_subdocument());
    }
    if eq_bytes(item, &v_subdocument) {
        return true;
    }
    let v_document: Vec<u8> = vec![100u8, 111, 99, 117, 109, 101, 110, 116];
    proof {
        assert(v_document@ =~= kw_document());
    }
    if eq_bytes(item, &v_document) {
        return true;
    }
    let v_font: Vec<u8> = vec![102u8, 111, 110, 116];
    proof {
        assert(v_font@ =~= kw_font());
    }
    if eq_bytes(item, &v_font) {
        return true;
    }
    let v_media: Vec<u8> = vec![109u8, 101, 100, 105, 97];
    proof {
        assert(v_media@ =~= kw_media());
    }
    if eq_bytes(item, &v_media) {
        return true;
    }
    let v_websocket: Vec<u8> = vec![119u8, 101, 98, 115, 111, 99, 107, 101, 116];
    proof {
        assert(v_websocket@ =~= kw_websocket());
    }
    if eq_bytes(item, &v_websocket) {
        return true;
    }
    let v_ping: Vec<u8> = vec![112u8, 105, 110, 103];
    proof {
        assert(v_ping@ =~= kw_ping());
    }
    if eq_bytes(item, &v_ping) {
        return true;
    }
    let v_other: Vec<u8> = vec![111u8, 116, 104, 101, 114];
    proof {
        assert(v_other@ =~= kw_other());
    }
    if eq_bytes(item, &v_other) {
        return true;
    }
    false
}

/// Parsed option suffix: domain constraints, resource types, party flag.
pub struct OptsV {
    pub domains: Seq<DomainEntryV>,
    pub types: Seq<Seq<u8>>,
    pub party: Party,
}

pub open spec fn empty_opts() -> OptsV {
    OptsV { domains: Seq::empty(), types: Seq::empty(), party: Party::Any }
}

/// One `domain=` list entry: optional `~`, then a nonempty domain,
/// lower-cased.
pub open spec fn parse_domain_entry(e: Seq<u8>) -> Option<DomainEntryV> {
    if e.len() > 0 && e[0] == TILDE {
        if e.len() > 1 {
            Some(DomainEntryV { name: lower_seq(e.skip(1)), included: false })
        } else {
            None
        }
    } else if e.len() > 0 {
        Some(DomainEntryV { name: lower_seq(e), included: true })
    } else {
        None
    }
}

/// Splits the `domain=` value on `|`; an empty entry is malformed.
pub open spec fn parse_domains_from(
    list: Seq<u8>,
    i: int,
    cur: Seq<u8>,
    acc: Seq<DomainEntryV>,
) -> Option<Seq<DomainEntryV>>
    decreases list.len() - i,
{
    if i < 0 || i >= list.len() {
        match parse_domain_entry(cur) {
            None => None,
            Some(d) => Some(acc.push(d)),
        }
    } else if list[i] == PIPE {
        match parse_domain_entry(cur) {
            None => None,
            Some(d) => parse_domains_from(list, i + 1, Seq::empty(), acc.push(d)),
        }
    } else {
        parse_domains_from(list, i + 1, cur.push(list[i]), acc)
    }
}

/// Applies one option item. Unrecognized keywords are ignored; an empty item
/// or a bad `domain=` list makes the whole line malformed.
pub open spec fn apply_opt(acc: OptsV, item: Seq<u8>) -> Option<OptsV> {
    if item == kw_third_party() {
        Some(OptsV { domains: acc.domains, types: acc.types, party: Party::ThirdOnly })
    } else if item == kw_not_third_party() {
        Some(OptsV { domains: acc.domains, types: acc.types, party: Party::FirstOnly })
    } else if starts_with(item, kw_domain_eq()) {
        match parse_domains_from(item.skip(7), 0, Seq::empty(), Seq::empty()) {
            None => None,
            Some(ds) => Some(
                OptsV { domains: acc.domains + ds, types: acc.types, party: acc.party },
            ),
        }
    } else if is_type_keyword(item) {
        Some(OptsV { domains: acc.domains, types: acc.types.push(item), party: acc.party })
    } else if item.len() == 0 {
        None
    } else {
        Some(acc)
    }
}

/// Splits the option suffix on commas and applies each item in turn.
pub open spec fn parse_opts_from(o: Seq<u8>, i: int, cur: Seq<u8>, acc: OptsV) -> Option<OptsV>
    decreases o.len() - i,
{
    if i < 0 || i >= o.len() {
        apply_opt(acc, cur)
    } else if o[i] == COMMA {
        match apply_opt(acc, cur) {
            None => None,
            Some(a2) => parse_opts_from(o, i + 1, Seq::empty(), a2),
        }
    } else {
        parse_opts_from(o, i + 1, cur.push(o[i]), acc)
    }
}

/// Index of the last occurrence of `c` in `l`.
pub open spec fn last_index_of(l: Seq<u8>, c: u8) -> Option<int>
    decreases l.len(),
{
    if l.len() == 0 {
        None
    } else if l[l.len() - 1] == c {
        Some(l.len() - 1)
    } else {
        last_index_of(l.drop_last(), c)
    }
}

/// Bytes ending the domain portion of a host-anchored pattern.
pub open spec fn is_pat_delim(b: u8) -> bool {
    b == SLASH || b == CARET || b == STAR
}

pub open spec fn pat_delim_from(core: Seq<u8>, i: int) -> int
    decreases core.len() - i,
{
    if i < 0 {
        0
    } else if i >= core.len() {
        core.len() as int
    } else if is_pat_delim(core[i]) {
        i
    } else {
        pat_delim_from(core, i + 1)
    }
}

pub open spec fn byte_elem(b: u8, lower: bool) -> PatElem {
    if b == STAR {
        PatElem::Wildcard
    } else if b == CARET {
        PatElem::Sep
    } else if lower {
        PatElem::Lit(to_lower_byte(b))
    } else {
        PatElem::Lit(b)
    }
}

/// Compiles the pattern body: `*` and `^` become wildcard and separator
/// elements; a host-anchored pattern's domain portion (up to the first `/`,
/// `^` or `*`) is lower-cased; anchors are normalized into explicit leading
/// and trailing wildcards.
pub open spec fn compile_core(
    core: Seq<u8>,
    host_anchor: bool,
    exact_start: bool,
    exact_end: bool,
) -> Seq<PatElem> {
    let d = if host_anchor {
        pat_delim_from(core, 0)
    } else {
        0
    };
    let elems = Seq::new(core.len(), |i: int| byte_elem(core[i], host_anchor && i < d));
    let with_lead = if host_anchor || exact_start {
        elems
    } else {
        seq![PatElem::Wildcard] + elems
    };
    if exact_end {
        with_lead
    } else {
        with_lead.push(PatElem::Wildcard)
    }
}

/// Recognizes the anchors of a raw pattern (`||`, leading `|`, trailing `|`)
/// and compiles the rest; an empty core pattern is malformed.
pub open spec fn spec_parse_pattern(pat: Seq<u8>) -> Option<(Seq<PatElem>, bool, bool, bool)> {
    if pat.len() == 0 {
        None
    } else {
        let host_anchor = pat.len() >= 2 && pat[0] == PIPE && pat[1] == PIPE;
        let exact_start = !host_anchor && pat[0] == PIPE;
        let after = if host_anchor {
            pat.skip(2)
        } else if exact_start {
            pat.skip(1)
        } else {
            pat
        };
        let exact_end = after.len() > 0 && after[after.len() - 1] == PIPE;
        let core = if exact_end {
            after.drop_last()
        } else {
            after
        };
        if core.len() == 0 {
            None
        } else {
            Some(
                (
                    compile_core(core, host_anchor, exact_start, exact_end),
                    host_anchor,
                    exact_start,
                    exact_end,
                ),
            )
        }
    }
}

pub open spec fn lit_count(p: Seq<PatElem>) -> int
    decreases p.len(),
{
    if p.len() == 0 {
        0
    } else {
        (if p.last() is Lit {
            1int
        } else {
            0int
        }) + lit_count(p.drop_last())
    }
}

/// The specificity score: the capped literal count plus anchor and
/// constraint bonuses, monotone in how constrained the rule is.
pub open spec fn spec_score(
    p: Seq<PatElem>,
    host_anchor: bool,
    exact_start: bool,
    exact_end: bool,
    has_domains: bool,
    has_types: bool,
    party: Party,
) -> u64 {
    ((if lit_count(p) > LIT_CAP as int {
        LIT_CAP as int
    } else {
        lit_count(p)
    }) + (if host_anchor {
        HOST_ANCHOR_BONUS as int
    } else {
        0
    }) + (if exact_start {
        EXACT_START_BONUS as int
    } else {
        0
    }) + (if exact_end {
        EXACT_END_BONUS as int
    } else {
        0
    }) + (if has_domains {
        DOMAIN_BONUS as int
    } else {
        0
    }) + (if has_types {
        TYPE_BONUS as int
    } else {
        0
    }) + (if party != Party::Any {
        PARTY_BONUS as int
    } else {
        0
    })) as u64
}

/// Assembles the rule from a compiled pattern and parsed options.
pub open spec fn finish_rule(pat_part: Seq<u8>, opts: OptsV, is_exception: bool) -> Option<RuleV> {
    match spec_parse_pattern(pat_part) {
        None => None,
        Some(t) => Some(
            RuleV {
                pattern: t.0,
                host_anchor: t.1,
                domains: opts.domains,
                resource_types: opts.types,
                party: opts.party,
                is_exception: is_exception,
                specificity: spec_score(
                    t.0,
                    t.1,
                    t.2,
                    t.3,
                    opts.domains.len() > 0,
                    opts.types.len() > 0,
                    opts.party,
                ),
            },
        ),
    }
}

/// What one raw line parses to: `None` for blank, comment, cosmetic or
/// malformed lines; `Some` for a network rule.
pub open spec fn spec_parse(l: Seq<u8>) -> Option<RuleV> {
    if is_blank(l) {
        None
    } else if l[0] == BANG {
        None
    } else if occurs(l, kw_cosmetic_plain()) || occurs(l, kw_cosmetic_unhide()) || occurs(
        l,
        kw_cosmetic_proc(),
    ) {
        None
    } else {
        let exc = starts_with(l, seq![AT, AT]);
        let body = if exc {
            l.skip(2)
        } else {
            l
        };
        match last_index_of(body, DOLLAR) {
            Some(dp) => {
                if body.skip(dp + 1).len() == 0 {
                    None
                } else {
                    match parse_opts_from(body.skip(dp + 1), 0, Seq::empty(), empty_opts()) {
                        None => None,
                        Some(opts) => finish_rule(body.take(dp), opts, exc),
                    }
                }
            },
            None => finish_rule(body, empty_opts(), exc),
        }
    }
}

proof fn lemma_last_byte_found(l: Seq<u8>, c: u8, j: int)
    requires
        0 <= j < l.len(),
        l[j] == c,
        forall|t: int| j < t < l.len() ==> l[t] != c,
    ensures
        last_index_of(l, c) == Some(j),
    decreases l.len(),
{
    if j < l.len() - 1 {
        assert(l.drop_last()[j] == l[j]);
        assert forall|t: int| j < t < l.drop_last().len() implies l.drop_last()[t] != c by {
            assert(l.drop_last()[t] == l[t]);
        }
        lemma_last_byte_found(l.drop_last(), c, j);
    }
}

proof fn lemma_last_byte_none(l: Seq<u8>, c: u8)
    requires
        forall|t: int| 0 <= t < l.len() ==> l[t] != c,
    ensures
        last_index_of(l, c) is None,
    decreases l.len(),
{
    if l.len() > 0 {
        assert forall|t: int| 0 <= t < l.drop_last().len() implies l.drop_last()[t] != c by {
            assert(l.drop_last()[t] == l[t]);
        }
        lemma_last_byte_none(l.drop_last(), c);
    }
}

proof fn lemma_pat_delim_found(core: Seq<u8>, lo: int, i: int)
    requires
        0 <= lo <= i <= core.len(),
        i == core.len() || is_pat_delim(core[i]),
        forall|j: int| lo <= j < i ==> !is_pat_delim(core[j]),
    ensures
        pat_delim_from(core, lo) == i,
    decreases i - lo,
{
    if lo < i {
        lemma_pat_delim_found(core, lo + 1, i);
    }
}

/// Copies `v[a..b]` into a fresh vector.
pub(crate) fn sub_vec(v: &Vec<u8>, a: usize, b: usize) -> (r: Vec<u8>)
    requires
        a <= b <= v@.len(),
    ensures
        r@ == v@.subrange(a as int, b as int),
{
    let mut r: Vec<u8> = Vec::new();
    let mut i = a;
    while i < b
        invariant
            a <= i <= b <= v@.len(),
            r@.len() == i - a,
            forall|j: int| 0 <= j < i - a ==> r@[j] == v@[a + j],
        decreases b - i,
    {
        r.push(v[i]);
        i += 1;
    }
    proof {
        assert(r@ =~= v@.subrange(a as int, b as int));
    }
    r
}

pub(crate) fn starts_with_exec(v: &Vec<u8>, p: &Vec<u8>) -> (r: bool)
    ensures
        r == starts_with(v@, p@),
{
    if p.len() > v.len() {
        return false;
    }
    crate::pattern::bytes_match_at(v, p, 0)
}

fn is_blank_exec(l: &Vec<u8>) -> (r: bool)
    ensures
        r == is_blank(l@),
{
    let len = l.len();
    let mut i: usize = 0;
    while i < len
        invariant
            i <= len,
            len == l@.len(),
            forall|j: int| 0 <= j < i ==> is_ws(l@[j]),
        decreases len - i,
    {
        let b = l[i];
        if !(b == SPACE || b == TAB || b == CR) {
            assert(!is_ws(l@[i as int]));
            return false;
        }
        i += 1;
    }
    true
}

fn last_byte_exec(v: &Vec<u8>, c: u8) -> (r: Option<usize>)
    ensures
        match r {
            Some(k) => last_index_of(v@, c) == Some(k as int) && (k as int) < v@.len(),
            None => last_index_of(v@, c) is None,
        },
{
    let len = v.len();
    let mut i = len;
    while i > 0
        invariant
            i <= len,
            len == v@.len(),
            forall|t: int| i <= t < len ==> v@[t] != c,
        decreases i,
    {
        if v[i - 1] == c {
            proof {
                lemma_last_byte_found(v@, c, i - 1);
            }
            return Some(i - 1);
        }
        i -= 1;
    }
    proof {
        lemma_last_byte_none(v@, c);
    }
    None
}

fn pat_delim_exec(core: &Vec<u8>) -> (r: usize)
    ensures
        r == pat_delim_from(core@, 0),
        r <= core@.len(),
{
    let len = core.len();
    let mut i: usize = 0;
    while i < len
        invariant
            i <= len,
            len == core@.len(),
            forall|j: int| 0 <= j < i ==> !is_pat_delim(core@[j]),
        decreases len - i,
    {
        let b = core[i];
        if b == SLASH || b == CARET || b == STAR {
            proof {
                lemma_pat_delim_found(core@, 0, i as int);
            }
            return i;
        }
        i += 1;
    }
    proof {
        lemma_pat_delim_found(core@, 0, len as int);
    }
    len
}

fn parse_domain_entry_exec(e: &Vec<u8>) -> (r: Option<DomainEntry>)
    ensures
        match r {
            Some(d) => parse_domain_entry(e@) == Some(d@),
            None => parse_domain_entry(e@) is None,
        },
{
    let elen = e.len();
    if elen > 0 && e[0] == TILDE {
        if elen > 1 {
            let name = sub_vec(e, 1, elen);
            proof {
                assert(name@ =~= e@.skip(1));
            }
            let low = lower_vec(&name);
            Some(DomainEntry { name: low, included: false })
        } else {
            None
        }
    } else if elen > 0 {
        let low = lower_vec(e);
        Some(DomainEntry { name: low, included: true })
    } else {
        None
    }
}

fn parse_domains_exec(list: &Vec<u8>) -> (r: Option<Vec<DomainEntry>>)
    ensures
        match r {
            Some(ds) => parse_domains_from(list@, 0, Seq::empty(), Seq::empty()) == Some(
                domain_views(ds@),
            ),
            None => parse_domains_from(list@, 0, Seq::empty(), Seq::empty()) is None,
        },
{
    let len = list.len();
    let mut cur: Vec<u8> = Vec::new();
    let mut acc: Vec<DomainEntry> = Vec::new();
    let mut i: usize = 0;
    proof {
        assert(domain_views(acc@) =~= Seq::<DomainEntryV>::empty());
        assert(cur@ =~= Seq::<u8>::empty());
    }
    while i < len
        invariant
            i <= len,
            len == list@.len(),
            parse_domains_from(list@, i as int, cur@, domain_views(acc@)) == parse_domains_from(
                list@,
                0,
                Seq::empty(),
                Seq::empty(),
            ),
        decreases len - i,
    {
        let b = list[i];
        if b == PIPE {
            match parse_domain_entry_exec(&cur) {
                None => {
                    return None;
                },
                Some(d) => {
                    let ghost pre = domain_views(acc@);
                    let ghost dv = d@;
                    acc.push(d);
                    proof {
                        assert(domain_views(acc@) =~= pre.push(dv));
                    }
                    cur = Vec::new();
                    proof {
                        assert(cur@ =~= Seq::<u8>::empty());
                    }
                },
            }
        } else {
            cur.push(b);
        }
        i += 1;
    }
    match parse_domain_entry_exec(&cur) {
        None => None,
        Some(d) => {
            let ghost pre = domain_views(acc@);
            let ghost dv = d@;
            acc.push(d);
            proof {
                assert(domain_views(acc@) =~= pre.push(dv));
            }
            Some(acc)
        },
    }
}

fn apply_opt_exec(acc_d: Vec<DomainEntry>, acc_t: Vec<Vec<u8>>, acc_p: Party, item: &Vec<u8>) -> (r:
    Option<(Vec<DomainEntry>, Vec<Vec<u8>>, Party)>)
    ensures
        ({
            let acc = OptsV {
                domains: domain_views(acc_d@),
                types: byte_views(acc_t@),
                party: acc_p,
            };
            match r {
                Some(t) => apply_opt(acc, item@) == Some(
                    OptsV { domains: domain_views(t.0@), types: byte_views(t.1@), party: t.2 },
                ),
                None => apply_opt(acc, item@) is None,
            }
        }),
{
    let kw_tp: Vec<u8> = vec![116u8, 104, 105, 114, 100, 45, 112, 97, 114, 116, 121];
    proof {
        assert(kw_tp@ =~= kw_third_party());
    }
    if eq_bytes(item, &kw_tp) {
        return Some((acc_d, acc_t, Party::ThirdOnly));
    }
    let kw_ntp: Vec<u8> = vec![126u8, 116, 104, 105, 114, 100, 45, 112, 97, 114, 116, 121];
    proof {
        assert(kw_ntp@ =~= kw_not_third_party());
    }
    if eq_bytes(item, &kw_ntp) {
        return Some((acc_d, acc_t, Party::FirstOnly));
    }
    let kw_dom: Vec<u8> = vec![100u8, 111, 109, 97, 105, 110, 61];
    proof {
        assert(kw_dom@ =~= kw_domain_eq());
    }
    if starts_with_exec(item, &kw_dom) {
        let dl = sub_vec(item, 7, item.len());
        proof {
            assert(dl@ =~= item@.skip(7));
        }
        match parse_domains_exec(&dl) {
            None => {
                return None;
            },
            Some(mut ds) => {
                let mut out_d = acc_d;
                let ghost pre = domain_views(out_d@);
                let ghost dsv = domain_views(ds@);
                out_d.append(&mut ds);
                proof {
                    assert(domain_views(out_d@) =~= pre + dsv);
                }
                return Some((out_d, acc_t, acc_p));
            },
        }
    }
    if is_type_keyword_exec(item) {
        let copy = sub_vec(item, 0, item.len());
        proof {
            assert(copy@ =~= item@);
        }
        let ghost pre = byte_views(acc_t@);
        let mut out_t = acc_t;
        out_t.push(copy);
        proof {
            assert(byte_views(out_t@) =~= pre.push(item@));
        }
        return Some((acc_d, out_t, acc_p));
    }
    if item.len() == 0 {
        return None;
    }
    Some((acc_d, acc_t, acc_p))
}

fn parse_opts_exec(o: &Vec<u8>) -> (r: Option<(Vec<DomainEntry>, Vec<Vec<u8>>, Party)>)
    ensures
        match r {
            Some(t) => parse_opts_from(o@, 0, Seq::empty(), empty_opts()) == Some(
                OptsV { domains: domain_views(t.0@), types: byte_views(t.1@), party: t.2 },
            ),
            None => parse_opts_from(o@, 0, Seq::empty(), empty_opts()) is None,
        },
{
    let len = o.len();
    let mut cur: Vec<u8> = Vec::new();
    let mut dv: Vec<DomainEntry> = Vec::new();
    let mut tv: Vec<Vec<u8>> = Vec::new();
    let mut pv = Party::Any;
    let mut i: usize = 0;
    proof {
        assert(domain_views(dv@) =~= Seq::<DomainEntryV>::empty());
        assert(byte_views(tv@) =~= Seq::<Seq<u8>>::empty());
        assert(cur@ =~= Seq::<u8>::empty());
    }
    while i < len
        invariant
            i <= len,
            len == o@.len(),
            parse_opts_from(
                o@,
                i as int,
                cur@,
                OptsV { domains: domain_views(dv@), types: byte_views(tv@), party: pv },
            ) == parse_opts_from(o@, 0, Seq::empty(), empty_opts()),
        decreases len - i,
    {
        let b = o[i];
        if b == COMMA {
            match apply_opt_exec(dv, tv, pv, &cur) {
                None => {
                    return None;
                },
                Some((d2, t2, p2)) => {
                    dv = d2;
                    tv = t2;
                    pv = p2;
                    cur = Vec::new();
                    proof {
                        assert(cur@ =~= Seq::<u8>::empty());
                    }
                },
            }
        } else {
            cur.push(b);
        }
        i += 1;
    }
    match apply_opt_exec(dv, tv, pv, &cur) {
        None => None,
        Some(t) => Some(t),
    }
}

fn lit_count_exec(p: &Vec<PatElem>) -> (r: usize)
    ensures
        r == lit_count(p@),
        r <= p@.len(),
{
    let len = p.len();
    let mut cnt: usize = 0;
    let mut i: usize = 0;
    proof {
        assert(p@.take(0) =~= Seq::<PatElem>::empty());
    }
    while i < len
        invariant
            i <= len,
            len == p@.len(),
            cnt <= i,
            cnt == lit_count(p@.take(i as int)),
        decreases len - i,
    {
        proof {
            assert(p@.take(i as int + 1).drop_last() =~= p@.take(i as int));
            assert(p@.take(i as int + 1).last() == p@[i as int]);
        }
        match p[i] {
            PatElem::Lit(_c) => {
                cnt += 1;
            },
            _ => {},
        }
        i += 1;
    }
    proof {
        assert(p@.take(len as int) =~= p@);
    }
    cnt
}

fn score_exec(
    p: &Vec<PatElem>,
    host_anchor: bool,
    exact_start: bool,
    exact_end: bool,
    has_domains: bool,
    has_types: bool,
    party: Party,
) -> (s: u64)
    ensures
        s == spec_score(p@, host_anchor, exact_start, exact_end, has_domains, has_types, party),
{
    let cnt = lit_count_exec(p);
    let mut s: u64 = if cnt as u64 > LIT_CAP {
        LIT_CAP
    } else {
        cnt as u64
    };
    if host_anchor {
        s += HOST_ANCHOR_BONUS;
    }
    if exact_start {
        s += EXACT_START_BONUS;
    }
    if exact_end {
        s += EXACT_END_BONUS;
    }
    if has_domains {
        s += DOMAIN_BONUS;
    }
    if has_types {
        s += TYPE_BONUS;
    }
    match party {
        Party::Any => {},
        _ => {
            s += PARTY_BONUS;
        },
    }
    s
}

fn compile_pattern_exec(pat: &Vec<u8>) -> (r: Option<(Vec<PatElem>, bool, bool, bool)>)
    ensures
        match r {
            Some(t) => spec_parse_pattern(pat@) == Some((t.0@, t.1, t.2, t.3)),
            None => spec_parse_pattern(pat@) is None,
        },
{
    let plen = pat.len();
    if plen == 0 {
        return None;
    }
    let host_anchor = plen >= 2 && pat[0] == PIPE && pat[1] == PIPE;
    let exact_start = !host_anchor && pat[0] == PIPE;
    let a: usize = if host_anchor {
        2
    } else if exact_start {
        1
    } else {
        0
    };
    let ghost after = if host_anchor {
        pat@.skip(2)
    } else if exact_start {
        pat@.skip(1)
    } else {
        pat@
    };
    proof {
        assert(after =~= pat@.subrange(a as int, plen as int));
    }
    let exact_end = plen > a && pat[plen - 1] == PIPE;
    let core_end: usize = if exact_end {
        plen - 1
    } else {
        plen
    };
    let ghost spec_core = if exact_end {
        after.drop_last()
    } else {
        after
    };
    proof {
        assert(spec_core =~= pat@.subrange(a as int, core_end as int));
    }
    if core_end <= a {
        proof {
            assert(spec_core.len() == 0);
        }
        return None;
    }
    let core = sub_vec(pat, a, core_end);
    proof {
        assert(core@ =~= spec_core);
    }
    let d: usize = if host_anchor {
        pat_delim_exec(&core)
    } else {
        0
    };
    let clen = core.len();
    let mut elems: Vec<PatElem> = Vec::new();
    let mut i: usize = 0;
    while i < clen
        invariant
            i <= clen,
            clen == core@.len(),
            elems@.len() == i,
            d == (if host_anchor {
                pat_delim_from(core@, 0)
            } else {
                0
            }),
            forall|j: int| 0 <= j < i ==> elems@[j] == byte_elem(core@[j], host_anchor && j < d),
        decreases clen - i,
    {
        let b = core[i];
        if b == STAR {
            elems.push(PatElem::Wildcard);
        } else if b == CARET {
            elems.push(PatElem::Sep);
        } else if host_anchor && i < d {
            elems.push(PatElem::Lit(to_lower(b)));
        } else {
            elems.push(PatElem::Lit(b));
        }
        i += 1;
    }
    let mut out: Vec<PatElem> = Vec::new();
    if !host_anchor && !exact_start {
        out.push(PatElem::Wildcard);
    }
    out.append(&mut elems);
    if !exact_end {
        out.push(PatElem::Wildcard);
    }
    proof {
        assert(out@ =~= compile_core(core@, host_anchor, exact_start, exact_end));
    }
    Some((out, host_anchor, exact_start, exact_end))
}

fn finish_rule_exec(
    pat_part: &Vec<u8>,
    dv: Vec<DomainEntry>,
    tv: Vec<Vec<u8>>,
    pv: Party,
    exc: bool,
) -> (r: Option<Rule>)
    ensures
        ({
            let opts = OptsV { domains: domain_views(dv@), types: byte_views(tv@), party: pv };
            match r {
                Some(rule) => finish_rule(pat_part@, opts, exc) == Some(rule@),
                None => finish_rule(pat_part@, opts, exc) is None,
            }
        }),
{
    match compile_pattern_exec(pat_part) {
        None => None,
        Some((p, ha, es, ee)) => {
            let has_d = dv.len() > 0;
            let has_t = tv.len() > 0;
            let s = score_exec(&p, ha, es, ee, has_d, has_t, pv);
            Some(
                Rule {
                    pattern: p,
                    host_anchor: ha,
                    domains: dv,
                    resource_types: tv,
                    party: pv,
                    is_exception: exc,
                    specificity: s,
                },
            )
        },
    }
}

/// Parses one raw filter-list line. Returns `None` exactly where
/// `spec_parse` does: for blank lines, `!` comments, cosmetic filters and
/// malformed lines; otherwise the compiled rule.
pub fn parse_line(line: &Vec<u8>) -> (r: Option<Rule>)
    ensures
        match r {
            Some(rule) => spec_parse(line@) == Some(rule@),
            None => spec_parse(line@) is None,
        },
{
    if is_blank_exec(line) {
        return None;
    }
    proof {
        if line@.len() == 0 {
            assert(is_blank(line@));
        }
    }
    if line[0] == BANG {
        return None;
    }
    let c1: Vec<u8> = vec![35u8, 35];
    let c2: Vec<u8> = vec![35u8, 64, 35];
    let c3: Vec<u8> = vec![35u8, 63, 35];
    proof {
        assert(c1@ =~= kw_cosmetic_plain());
        assert(c2@ =~= kw_cosmetic_unhide());
        assert(c3@ =~= kw_cosmetic_proc());
    }
    if crate::pattern::find_sub(line, &c1) {
        return None;
    }
    if crate::pattern::find_sub(line, &c2) {
        return None;
    }
    if crate::pattern::find_sub(line, &c3) {
        return None;
    }
    let atat: Vec<u8> = vec![64u8, 64];
    proof {
        assert(atat@ =~= seq![AT, AT]);
    }
    let exc = starts_with_exec(line, &atat);
    let len = line.len();
    let body: Vec<u8> = if exc {
        sub_vec(line, 2, len)
    } else {
        sub_vec(line, 0, len)
    };
    proof {
        if exc {
            assert(body@ =~= line@.skip(2));
        } else {
            assert(body@ =~= line@);
        }
    }
    match last_byte_exec(&body, DOLLAR) {
        Some(dp) => {
            let blen = body.len();
            if dp + 1 == blen {
                proof {
                    assert(body@.skip(dp as int + 1).len() == 0);
                }
                return None;
            }
            let opts_part = sub_vec(&body, dp + 1, blen);
            let pat_part = sub_vec(&body, 0, dp);
            proof {
                assert(opts_part@ =~= body@.skip(dp as int + 1));
                assert(pat_part@ =~= body@.take(dp as int));
            }
            match parse_opts_exec(&opts_part) {
                None => None,
                Some((dv, tv, pv)) => finish_rule_exec(&pat_part, dv, tv, pv, exc),
            }
        },
        None => {
            proof {
                assert(domain_views(Seq::<DomainEntry>::empty()) =~= Seq::<DomainEntryV>::empty());
                assert(byte_views(Seq::<Vec<u8>>::empty()) =~= Seq::<Seq<u8>>::empty());
            }
            finish_rule_exec(&body, Vec::new(), Vec::new(), Party::Any, exc)
        },
    }
}

} // verus!
