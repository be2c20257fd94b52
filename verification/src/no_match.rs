//! The signal raised when a situation query matched no rule.
use vstd::prelude::*;

use crate::text::{clone_strings, string_views};

verus! {

/// A query that found no matching rule, with its context tags.
#[derive(Debug)]
pub struct MissingRuleMatchSignal {
    pub query: String,
    pub context_tags: Vec<String>,
    pub has_matching_rule: bool,
}

impl MissingRuleMatchSignal {
    pub fn indicates_no_match(&self) -> (r: bool)
        ensures
            r == !self.has_matching_rule,
    {
        !self.has_matching_rule
    }
}

/// A signal exactly when no rule matched.
pub fn emit_missing_rule_match_signal(
    query: String,
    context_tags: &Vec<String>,
    has_matching_rule: bool,
) -> (r: Option<MissingRuleMatchSignal>)
    ensures
        r is None <==> has_matching_rule,
        r matches Some(s) ==> s.query@ == query@ && string_views(s.context_tags@) == string_views(
            context_tags@,
        ) && !s.has_matching_rule,
{
    if has_matching_rule {
        return None;
    }
    Some(
        MissingRuleMatchSignal {
            query,
            context_tags: clone_strings(context_tags),
            has_matching_rule,
        },
    )
}

} // verus!
