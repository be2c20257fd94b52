//! Filters that select rules by metadata and feedback.
use vstd::prelude::*;

use crate::manifest::{opt_view, RuleManifest};
use crate::text::{opt_string_view, str_eq, string_views};

verus! {

/// Criteria a rule must meet; `None` leaves a criterion open.
#[derive(Debug)]
pub struct RuleFilter {
    pub state: Option<String>,
    pub file_kind: Option<String>,
    pub section: Option<String>,
    pub repo_scope: Option<String>,
    pub path_scope: Option<String>,
    pub slug: Option<String>,
    pub has_low_feedback: Option<bool>,
    pub has_unresolved_feedback: Option<bool>,
}

impl Default for RuleFilter {
    fn default() -> (f: Self)
        ensures
            f.state is None,
            f.file_kind is None,
            f.section is None,
            f.repo_scope is None,
            f.path_scope is None,
            f.slug is None,
            f.has_low_feedback is None,
            f.has_unresolved_feedback is None,
    {
        RuleFilter {
            state: None,
            file_kind: None,
            section: None,
            repo_scope: None,
            path_scope: None,
            slug: None,
            has_low_feedback: None,
            has_unresolved_feedback: None,
        }
    }
}

/// An open criterion, or an actual value equal to the expected one.
pub open spec fn field_matches(expected: Option<Seq<char>>, actual: Option<Seq<char>>) -> bool {
    match expected {
        None => true,
        Some(e) => actual == Some(e),
    }
}

/// An open criterion, or one of the actual scopes equal to the expected one.
pub open spec fn scope_matches(expected: Option<Seq<char>>, actual: Seq<Seq<char>>) -> bool {
    match expected {
        None => true,
        Some(e) => actual.contains(e),
    }
}

/// The rule has mixed or not-helpful feedback (a missing count reads as 0).
pub open spec fn has_low_feedback(rule: RuleManifest) -> bool {
    rule.spec_mixed().unwrap_or(0) > 0 || rule.spec_not_helpful().unwrap_or(0) > 0
}

/// The rule has unresolved feedback (a missing count reads as 0).
pub open spec fn has_unresolved_feedback(rule: RuleManifest) -> bool {
    rule.spec_unresolved().unwrap_or(0) > 0
}

pub open spec fn flag_matches(expected: Option<bool>, actual: bool) -> bool {
    match expected {
        None => true,
        Some(e) => actual == e,
    }
}

impl RuleFilter {
    /// Whether a rule meets every criterion but the state (which a store
    /// checks against its index).
    pub open spec fn accepts(self, rule: RuleManifest) -> bool {
        &&& field_matches(opt_string_view(self.file_kind), rule.spec_file_kind())
        &&& field_matches(opt_string_view(self.section), rule.spec_section())
        &&& scope_matches(opt_string_view(self.repo_scope), rule.spec_repo_scopes())
        &&& scope_matches(opt_string_view(self.path_scope), rule.spec_path_scopes())
        &&& field_matches(opt_string_view(self.slug), rule.spec_slug())
        &&& flag_matches(self.has_low_feedback, has_low_feedback(rule))
        &&& flag_matches(self.has_unresolved_feedback, has_unresolved_feedback(rule))
    }

    pub fn matches(&self, rule: &RuleManifest) -> (r: bool)
        ensures
            r == self.accepts(*rule),
    {
        Self::matches_field(&self.file_kind, rule.file_kind()) && Self::matches_field(
            &self.section,
            rule.section(),
        ) && Self::matches_scope(&self.repo_scope, &rule.repo_scopes()) && Self::matches_scope(
            &self.path_scope,
            &rule.path_scopes(),
        ) && Self::matches_field(&self.slug, rule.slug()) && self.matches_low_feedback(rule)
            && self.matches_unresolved_feedback(rule)
    }

    fn matches_field(expected: &Option<String>, actual: Option<&str>) -> (r: bool)
        ensures
            r == field_matches(opt_string_view(*expected), opt_view(actual)),
    {
        match (expected, actual) {
            (None, _) => true,
            (Some(e), Some(a)) => str_eq(a, e.as_str()),
            (Some(_), None) => false,
        }
    }

    fn matches_scope(expected: &Option<String>, actual: &Vec<String>) -> (r: bool)
        ensures
            r == scope_matches(opt_string_view(*expected), string_views(actual@)),
    {
        match expected {
            None => true,
            Some(e) => {
                let mut i: usize = 0;
                while i < actual.len()
                    invariant
                        0 <= i <= actual@.len(),
                        opt_string_view(*expected) == Some(e@),
                        forall|j: int| 0 <= j < i ==> actual@[j]@ != e@,
                    decreases actual@.len() - i,
                {
                    if str_eq(actual[i].as_str(), e.as_str()) {
                        assert(string_views(actual@)[i as int] == e@);
                        assert(string_views(actual@).contains(e@));
                        return true;
                    }
                    i += 1;
                }
                assert(!string_views(actual@).contains(e@));
                false
            },
        }
    }

    fn matches_unresolved_feedback(&self, rule: &RuleManifest) -> (r: bool)
        ensures
            r == flag_matches(self.has_unresolved_feedback, has_unresolved_feedback(*rule)),
    {
        match self.has_unresolved_feedback {
            None => true,
            Some(expected) => {
                let unresolved = match rule.feedback_unresolved_count() {
                    Some(n) => n > 0,
                    None => false,
                };
                unresolved == expected
            },
        }
    }

    fn matches_low_feedback(&self, rule: &RuleManifest) -> (r: bool)
        ensures
            r == flag_matches(self.has_low_feedback, has_low_feedback(*rule)),
    {
        match self.has_low_feedback {
            None => true,
            Some(expected) => {
                let mixed = match rule.feedback_mixed_count() {
                    Some(n) => n > 0,
                    None => false,
                };
                let not_helpful = match rule.feedback_not_helpful_count() {
                    Some(n) => n > 0,
                    None => false,
                };
                (mixed || not_helpful) == expected
            },
        }
    }
}

/// The low-feedback criterion.  A filter that asks only that a rule have low
/// feedback accepts exactly the rules with a positive mixed count or a
/// positive not-helpful count (a missing count reads as 0); one that asks
/// only for its absence accepts exactly the rules with neither.
pub proof fn lemma_low_feedback_criterion(f: RuleFilter, rule: RuleManifest)
    requires
        f.file_kind is None,
        f.section is None,
        f.repo_scope is None,
        f.path_scope is None,
        f.slug is None,
        f.has_unresolved_feedback is None,
    ensures
        f.has_low_feedback == Some(true) ==> (f.accepts(rule) <==> (rule.spec_mixed().unwrap_or(0) > 0
            || rule.spec_not_helpful().unwrap_or(0) > 0)),
        f.has_low_feedback == Some(false) ==> (f.accepts(rule) <==> (rule.spec_mixed().unwrap_or(0) <= 0
            && rule.spec_not_helpful().unwrap_or(0) <= 0)),
        f.has_low_feedback is None ==> f.accepts(rule),
{
}

} // verus!
