//! The decision oracle: load the filter lists once, then answer any number
//! of independent, read-only queries against the immutable compiled index.

use crate::engine::{evaluate, spec_blocked, EvalError};
use crate::index::{build, index_wf, RuleIndex};
use crate::parser::{parse_line, spec_parse};
use crate::request::{Request, RequestV};
use crate::rule::{Rule, RuleV};
use crate::url::valid_url;
use vstd::prelude::*;

verus! {

/// The rules that a sequence of raw filter-list lines yields, in encounter
/// order; lines that parse to nothing are skipped.
pub open spec fn parsed_rules(lines: Seq<Seq<u8>>) -> Seq<RuleV>
    decreases lines.len(),
{
    if lines.len() == 0 {
        Seq::empty()
    } else {
        let rest = parsed_rules(lines.drop_last());
        match spec_parse(lines.last()) {
            Some(r) => rest.push(r),
            None => rest,
        }
    }
}

/// The decision oracle: an immutable compiled ruleset. Built once; queried
/// through `check` arbitrarily often with no further mutation.
pub struct Oracle {
    pub index: RuleIndex,
}

impl View for Oracle {
    type V = Seq<RuleV>;

    open spec fn view(&self) -> Seq<RuleV> {
        self.index@
    }
}

impl Oracle {
    pub open spec fn wf(&self) -> bool {
        index_wf(self.index)
    }

    /// Parses every line of the loaded lists and compiles the index.
    /// A pure function of the input lines: the same lines always give an
    /// oracle with the same model, hence identical verdicts.
    pub fn from_lines(lines: &Vec<Vec<u8>>) -> (o: Oracle)
        ensures
            o@ == parsed_rules(lines.deep_view()),
            o.wf(),
    {
        let ghost dv = lines.deep_view();
        let n = lines.len();
        let mut rules: Vec<Rule> = Vec::new();
        let mut i: usize = 0;
        proof {
            assert(dv.take(0) =~= Seq::<Seq<u8>>::empty());
            assert(crate::index::rule_views(rules@) =~= parsed_rules(dv.take(0)));
        }
        while i < n
            invariant
                i <= n,
                n == lines@.len(),
                dv == lines.deep_view(),
                dv.len() == n,
                crate::index::rule_views(rules@) == parsed_rules(dv.take(i as int)),
            decreases n - i,
        {
            proof {
                assert(dv.take(i as int + 1).drop_last() =~= dv.take(i as int));
                assert(dv.take(i as int + 1).last() == dv[i as int]);
                assert(dv[i as int] == lines@[i as int].deep_view());
                assert(lines@[i as int].deep_view() =~= lines@[i as int]@);
            }
            let ghost pre = crate::index::rule_views(rules@);
            match parse_line(&lines[i]) {
                Some(rule) => {
                    let ghost rv = rule@;
                    rules.push(rule);
                    proof {
                        assert(crate::index::rule_views(rules@) =~= pre.push(rv));
                    }
                },
                None => {},
            }
            i += 1;
        }
        proof {
            assert(dv.take(n as int) =~= dv);
        }
        Oracle { index: build(rules) }
    }

    /// Answers one query: whether the request is blocked under the loaded
    /// ruleset, or `InvalidRequest` when the URL is malformed.
    pub fn check(&self, url: Vec<u8>, origin: Vec<u8>, resource_type: Vec<u8>) -> (r: Result<
        bool,
        EvalError,
    >)
        requires
            self.wf(),
        ensures
            match r {
                Ok(b) => valid_url(url@) && b == spec_blocked(
                    self@,
                    RequestV { url: url@, origin: origin@, resource_type: resource_type@ },
                ),
                Err(e) => !valid_url(url@) && e == EvalError::InvalidRequest,
            },
    {
        let req = Request::new(url, origin, resource_type);
        match evaluate(&self.index, &req) {
            Ok(v) => Ok(v.blocked),
            Err(e) => Err(e),
        }
    }
}

} // verus!
