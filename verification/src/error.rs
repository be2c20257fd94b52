//! Errors of rule store operations.
use vstd::prelude::*;

use crate::manifest::RuleId;

verus! {

/// Why a rule store operation failed.
#[derive(Debug)]
pub enum RuleError {
    NotFound(String),
    DuplicateSlug(String),
    InvalidSlug(String),
    AmbiguousPrefix(String),
    Asset(String),
    DuplicateRenderRule { target: String, node: String, slug: String },
    IdMismatch { expected: RuleId, actual: RuleId },
}

/// [`RuleError`] with its text as character sequences.
pub enum RuleErrorView {
    NotFound(Seq<char>),
    DuplicateSlug(Seq<char>),
    InvalidSlug(Seq<char>),
    AmbiguousPrefix(Seq<char>),
    Asset(Seq<char>),
    DuplicateRenderRule { target: Seq<char>, node: Seq<char>, slug: Seq<char> },
    IdMismatch { expected: RuleId, actual: RuleId },
}

impl View for RuleError {
    type V = RuleErrorView;

    open spec fn view(&self) -> RuleErrorView {
        match self {
            RuleError::NotFound(s) => RuleErrorView::NotFound(s@),
            RuleError::DuplicateSlug(s) => RuleErrorView::DuplicateSlug(s@),
            RuleError::InvalidSlug(s) => RuleErrorView::InvalidSlug(s@),
            RuleError::AmbiguousPrefix(s) => RuleErrorView::AmbiguousPrefix(s@),
            RuleError::Asset(s) => RuleErrorView::Asset(s@),
            RuleError::DuplicateRenderRule { target, node, slug } =>
                RuleErrorView::DuplicateRenderRule { target: target@, node: node@, slug: slug@ },
            RuleError::IdMismatch { expected, actual } => RuleErrorView::IdMismatch {
                expected: *expected,
                actual: *actual,
            },
        }
    }
}

} // verus!
