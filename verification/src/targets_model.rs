//! Render targets: named outputs whose content is an outline of nodes, each
//! node selecting rules by a filter that refines its parent's filter.
use vstd::prelude::*;

use crate::filter::RuleFilter;
use crate::manifest::RuleId;
use crate::text::{clone_opt_string, opt_string_view};

verus! {

/// Rule-selection criteria of a target or node; `None` leaves one open.
#[derive(Debug)]
pub struct RenderTargetFilter {
    pub repo_scope: Option<String>,
    pub file_kind: Option<String>,
    pub path_scope: Option<String>,
    pub section: Option<String>,
    pub state: Option<String>,
}

/// Mathematical view of a target filter.
pub struct FilterView {
    pub repo_scope: Option<Seq<char>>,
    pub file_kind: Option<Seq<char>>,
    pub path_scope: Option<Seq<char>>,
    pub section: Option<Seq<char>>,
    pub state: Option<Seq<char>>,
}

impl View for RenderTargetFilter {
    type V = FilterView;

    open spec fn view(&self) -> FilterView {
        FilterView {
            repo_scope: opt_string_view(self.repo_scope),
            file_kind: opt_string_view(self.file_kind),
            path_scope: opt_string_view(self.path_scope),
            section: opt_string_view(self.section),
            state: opt_string_view(self.state),
        }
    }
}

impl Default for RenderTargetFilter {
    fn default() -> (f: Self)
        ensures
            f@ == (FilterView {
                repo_scope: None,
                file_kind: None,
                path_scope: None,
                section: None,
                state: None,
            }),
    {
        RenderTargetFilter {
            repo_scope: None,
            file_kind: None,
            path_scope: None,
            section: None,
            state: None,
        }
    }
}

/// The child's value where it has one, else the parent's.
pub open spec fn or_else(child: Option<Seq<char>>, parent: Option<Seq<char>>) -> Option<Seq<char>> {
    match child {
        Some(c) => Some(c),
        None => parent,
    }
}

/// The filter of a child under a parent filter: each criterion the child
/// leaves open is inherited.
pub open spec fn merge_filters(parent: FilterView, child: FilterView) -> FilterView {
    FilterView {
        repo_scope: or_else(child.repo_scope, parent.repo_scope),
        file_kind: or_else(child.file_kind, parent.file_kind),
        path_scope: or_else(child.path_scope, parent.path_scope),
        section: or_else(child.section, parent.section),
        state: or_else(child.state, parent.state),
    }
}

fn or_else_exec(child: &Option<String>, parent: &Option<String>) -> (r: Option<String>)
    ensures
        opt_string_view(r) == or_else(opt_string_view(*child), opt_string_view(*parent)),
{
    match child {
        Some(c) => Some(c.clone()),
        None => clone_opt_string(parent),
    }
}

impl RenderTargetFilter {
    pub fn duplicate(&self) -> (r: Self)
        ensures
            r@ == self@,
    {
        RenderTargetFilter {
            repo_scope: clone_opt_string(&self.repo_scope),
            file_kind: clone_opt_string(&self.file_kind),
            path_scope: clone_opt_string(&self.path_scope),
            section: clone_opt_string(&self.section),
            state: clone_opt_string(&self.state),
        }
    }

    pub fn merged_with(&self, child: &RenderTargetFilter) -> (r: Self)
        ensures
            r@ == merge_filters(self@, child@),
    {
        RenderTargetFilter {
            repo_scope: or_else_exec(&child.repo_scope, &self.repo_scope),
            file_kind: or_else_exec(&child.file_kind, &self.file_kind),
            path_scope: or_else_exec(&child.path_scope, &self.path_scope),
            section: or_else_exec(&child.section, &self.section),
            state: or_else_exec(&child.state, &self.state),
        }
    }

    /// The rule filter with the same criteria and nothing else.
    pub fn to_rule_filter(&self) -> (r: RuleFilter)
        ensures
            opt_string_view(r.state) == self@.state,
            opt_string_view(r.file_kind) == self@.file_kind,
            opt_string_view(r.section) == self@.section,
            opt_string_view(r.repo_scope) == self@.repo_scope,
            opt_string_view(r.path_scope) == self@.path_scope,
            r.slug is None,
            r.has_low_feedback is None,
            r.has_unresolved_feedback is None,
    {
        RuleFilter {
            state: clone_opt_string(&self.state),
            file_kind: clone_opt_string(&self.file_kind),
            section: clone_opt_string(&self.section),
            repo_scope: clone_opt_string(&self.repo_scope),
            path_scope: clone_opt_string(&self.path_scope),
            slug: None,
            has_low_feedback: None,
            has_unresolved_feedback: None,
        }
    }
}

/// One node of a target outline, with its own criteria and children.
#[derive(Debug)]
pub struct RenderTargetNode {
    pub name: String,
    pub title: Option<String>,
    pub repo_scope: Option<String>,
    pub file_kind: Option<String>,
    pub path_scope: Option<String>,
    pub section: Option<String>,
    pub state: Option<String>,
    pub nodes: Vec<RenderTargetNode>,
}

/// Mathematical view of an outline node.
pub struct NodeView {
    pub name: Seq<char>,
    pub title: Option<Seq<char>>,
    pub filter: FilterView,
    pub nodes: Seq<NodeView>,
}

pub open spec fn node_view(n: RenderTargetNode) -> NodeView
    decreases n,
{
    NodeView {
        name: n.name@,
        title: opt_string_view(n.title),
        filter: FilterView {
            repo_scope: opt_string_view(n.repo_scope),
            file_kind: opt_string_view(n.file_kind),
            path_scope: opt_string_view(n.path_scope),
            section: opt_string_view(n.section),
            state: opt_string_view(n.state),
        },
        nodes: node_views(n.nodes@),
    }
}

pub open spec fn node_views(s: Seq<RenderTargetNode>) -> Seq<NodeView>
    decreases s,
{
    if s.len() == 0 {
        Seq::empty()
    } else {
        node_views(s.drop_last()).push(node_view(s.last()))
    }
}

impl View for RenderTargetNode {
    type V = NodeView;

    open spec fn view(&self) -> NodeView {
        node_view(*self)
    }
}

pub proof fn lemma_node_views_index(s: Seq<RenderTargetNode>)
    ensures
        node_views(s).len() == s.len(),
        forall|j: int| 0 <= j < s.len() ==> #[trigger] node_views(s)[j] == node_view(s[j]),
    decreases s.len(),
{
    if s.len() > 0 {
        lemma_node_views_index(s.drop_last());
    }
}

pub proof fn lemma_node_views_take(s: Seq<RenderTargetNode>, i: int)
    requires
        0 <= i <= s.len(),
    ensures
        node_views(s.take(i)) == node_views(s).take(i),
{
    lemma_node_views_index(s);
    lemma_node_views_index(s.take(i));
    assert(node_views(s.take(i)) =~= node_views(s).take(i));
}

pub proof fn lemma_node_views_add(a: Seq<RenderTargetNode>, b: Seq<RenderTargetNode>)
    ensures
        node_views(a + b) == node_views(a) + node_views(b),
{
    lemma_node_views_index(a);
    lemma_node_views_index(b);
    lemma_node_views_index(a + b);
    assert(node_views(a + b) =~= node_views(a) + node_views(b));
}

/// A copy of a list of outline nodes.
pub fn copy_nodes(v: &Vec<RenderTargetNode>) -> (r: Vec<RenderTargetNode>)
    ensures
        node_views(r@) == node_views(v@),
    decreases v@,
{
    proof {
        lemma_node_views_index(v@);
    }
    let mut r: Vec<RenderTargetNode> = Vec::new();
    let mut i: usize = 0;
    while i < v.len()
        invariant
            0 <= i <= v@.len(),
            r@.len() == i,
            forall|j: int| 0 <= j < i ==> node_view(#[trigger] r@[j]) == node_view(v@[j]),
        decreases v@.len() - i,
    {
        assert(decreases_to!(v@ => v@[i as int]));
        let n = v[i].duplicate();
        r.push(n);
        i += 1;
    }
    proof {
        lemma_node_views_index(r@);
    }
    assert(node_views(r@) =~= node_views(v@));
    r
}

/// Two outline lists are equal when they have the same length and are equal
/// node by node.
pub proof fn lemma_node_views_eq(a: Seq<RenderTargetNode>, b: Seq<RenderTargetNode>)
    ensures
        (node_views(a) == node_views(b)) == (a.len() == b.len() && forall|j: int|
            0 <= j < a.len() ==> node_view(#[trigger] a[j]) == node_view(b[j])),
{
    lemma_node_views_index(a);
    lemma_node_views_index(b);
    if a.len() == b.len() && forall|j: int| 0 <= j < a.len() ==> node_view(#[trigger] a[j]) == node_view(b[j]) {
        assert(node_views(a) =~= node_views(b));
    }
    if node_views(a) == node_views(b) {
        assert forall|j: int| 0 <= j < a.len() implies node_view(#[trigger] a[j]) == node_view(b[j]) by {
            assert(node_views(a)[j] == node_views(b)[j]);
        }
    }
}

impl RenderTargetNode {
    /// Whether two nodes are equal in every field, children included.
    pub fn same_as(&self, other: &RenderTargetNode) -> (r: bool)
        ensures
            r == (self@ == other@),
        decreases *self,
    {
        if !crate::text::str_eq(self.name.as_str(), other.name.as_str()) || !crate::text::opt_string_eq(&self.title, &other.title)
            || !crate::text::opt_string_eq(&self.repo_scope, &other.repo_scope) || !crate::text::opt_string_eq(
            &self.file_kind,
            &other.file_kind,
        ) || !crate::text::opt_string_eq(&self.path_scope, &other.path_scope) || !crate::text::opt_string_eq(
            &self.section,
            &other.section,
        ) || !crate::text::opt_string_eq(&self.state, &other.state) {
            return false;
        }
        proof {
            lemma_node_views_eq(self.nodes@, other.nodes@);
        }
        if self.nodes.len() != other.nodes.len() {
            return false;
        }
        let mut i: usize = 0;
        while i < self.nodes.len()
            invariant
                0 <= i <= self.nodes@.len(),
                self.nodes@.len() == other.nodes@.len(),
                forall|j: int| 0 <= j < i ==> node_view(#[trigger] self.nodes@[j]) == node_view(other.nodes@[j]),
                (node_views(self.nodes@) == node_views(other.nodes@)) == (forall|j: int|
                    0 <= j < self.nodes@.len() ==> node_view(#[trigger] self.nodes@[j]) == node_view(
                        other.nodes@[j],
                    )),
            decreases self.nodes@.len() - i,
        {
            assert(decreases_to!(*self => self.nodes));
            assert(decreases_to!(self.nodes => self.nodes@));
            assert(decreases_to!(self.nodes@ => self.nodes@[i as int]));
            if !self.nodes[i].same_as(&other.nodes[i]) {
                return false;
            }
            i += 1;
        }
        true
    }

    pub fn duplicate(&self) -> (r: Self)
        ensures
            r@ == self@,
        decreases *self,
    {
        assert(decreases_to!(*self => self.nodes));
        assert(decreases_to!(self.nodes => self.nodes@));
        RenderTargetNode {
            name: self.name.clone(),
            title: clone_opt_string(&self.title),
            repo_scope: clone_opt_string(&self.repo_scope),
            file_kind: clone_opt_string(&self.file_kind),
            path_scope: clone_opt_string(&self.path_scope),
            section: clone_opt_string(&self.section),
            state: clone_opt_string(&self.state),
            nodes: copy_nodes(&self.nodes),
        }
    }

    /// The node's own criteria.
    pub fn local_filter(&self) -> (r: RenderTargetFilter)
        ensures
            r@ == self@.filter,
    {
        RenderTargetFilter {
            repo_scope: clone_opt_string(&self.repo_scope),
            file_kind: clone_opt_string(&self.file_kind),
            path_scope: clone_opt_string(&self.path_scope),
            section: clone_opt_string(&self.section),
            state: clone_opt_string(&self.state),
        }
    }

    /// The node's criteria under an inherited filter.
    pub fn effective_filter(&self, inherited: &RenderTargetFilter) -> (r: RenderTargetFilter)
        ensures
            r@ == merge_filters(inherited@, self@.filter),
    {
        inherited.merged_with(&self.local_filter())
    }
}

/// A named output: root criteria, an outline, and where it is written.
#[derive(Debug)]
pub struct RenderTarget {
    pub name: String,
    pub repo_scope: String,
    pub file_kind: String,
    pub path_scope: Option<String>,
    pub section: Option<String>,
    pub state: Option<String>,
    pub nodes: Vec<RenderTargetNode>,
    pub output_path: String,
    pub source_config_path: Option<String>,
    pub source_output_root: Option<String>,
}

/// Mathematical view of a render target.
pub struct TargetView {
    pub name: Seq<char>,
    pub repo_scope: Seq<char>,
    pub file_kind: Seq<char>,
    pub path_scope: Option<Seq<char>>,
    pub section: Option<Seq<char>>,
    pub state: Option<Seq<char>>,
    pub nodes: Seq<NodeView>,
    pub output_path: Seq<char>,
    pub source_config_path: Option<Seq<char>>,
    pub source_output_root: Option<Seq<char>>,
}

impl View for RenderTarget {
    type V = TargetView;

    open spec fn view(&self) -> TargetView {
        TargetView {
            name: self.name@,
            repo_scope: self.repo_scope@,
            file_kind: self.file_kind@,
            path_scope: opt_string_view(self.path_scope),
            section: opt_string_view(self.section),
            state: opt_string_view(self.state),
            nodes: node_views(self.nodes@),
            output_path: self.output_path@,
            source_config_path: opt_string_view(self.source_config_path),
            source_output_root: opt_string_view(self.source_output_root),
        }
    }
}

/// The root filter of a target: its repository and file kind are fixed.
pub open spec fn target_filter(t: TargetView) -> FilterView {
    FilterView {
        repo_scope: Some(t.repo_scope),
        file_kind: Some(t.file_kind),
        path_scope: t.path_scope,
        section: t.section,
        state: t.state,
    }
}

/// The outline of a target: its nodes, or one node named after the target
/// carrying the target's criteria when it declares none.
pub open spec fn target_outline(t: TargetView) -> Seq<NodeView> {
    if t.nodes.len() == 0 {
        seq![
            NodeView {
                name: t.name,
                title: None,
                filter: target_filter(t),
                nodes: Seq::empty(),
            },
        ]
    } else {
        t.nodes
    }
}

pub open spec fn target_views(v: Seq<RenderTarget>) -> Seq<TargetView> {
    Seq::new(v.len(), |i: int| v[i]@)
}

impl RenderTarget {
    pub fn duplicate(&self) -> (r: Self)
        ensures
            r@ == self@,
    {
        RenderTarget {
            name: self.name.clone(),
            repo_scope: self.repo_scope.clone(),
            file_kind: self.file_kind.clone(),
            path_scope: clone_opt_string(&self.path_scope),
            section: clone_opt_string(&self.section),
            state: clone_opt_string(&self.state),
            nodes: copy_nodes(&self.nodes),
            output_path: self.output_path.clone(),
            source_config_path: clone_opt_string(&self.source_config_path),
            source_output_root: clone_opt_string(&self.source_output_root),
        }
    }

    /// The config file the target came from, else the given fallback.
    pub fn config_path<'a>(&'a self, fallback: &'a str) -> (r: &'a str)
        ensures
            r@ == match self@.source_config_path {
                Some(p) => p,
                None => fallback@,
            },
    {
        match &self.source_config_path {
            Some(p) => p.as_str(),
            None => fallback,
        }
    }

    pub fn flat_filter(&self) -> (r: RenderTargetFilter)
        ensures
            r@ == target_filter(self@),
    {
        RenderTargetFilter {
            repo_scope: Some(self.repo_scope.clone()),
            file_kind: Some(self.file_kind.clone()),
            path_scope: clone_opt_string(&self.path_scope),
            section: clone_opt_string(&self.section),
            state: clone_opt_string(&self.state),
        }
    }

    pub fn ordered_nodes(&self) -> (r: Vec<RenderTargetNode>)
        ensures
            node_views(r@) == target_outline(self@),
    {
        if self.nodes.len() == 0 {
            let mut r: Vec<RenderTargetNode> = Vec::new();
            r.push(
                RenderTargetNode {
                    name: self.name.clone(),
                    title: None,
                    repo_scope: Some(self.repo_scope.clone()),
                    file_kind: Some(self.file_kind.clone()),
                    path_scope: clone_opt_string(&self.path_scope),
                    section: clone_opt_string(&self.section),
                    state: clone_opt_string(&self.state),
                    nodes: Vec::new(),
                },
            );
            proof {
                lemma_node_views_index(r@);
                assert(node_views(r@[0].nodes@) =~= Seq::<NodeView>::empty());
            }
            assert(node_views(r@) =~= target_outline(self@));
            r
        } else {
            copy_nodes(&self.nodes)
        }
    }
}

/// All targets of a configuration, in order.
#[derive(Debug)]
pub struct RenderTargetConfig {
    pub targets: Vec<RenderTarget>,
}

/// One rule matched by an outline node.
#[derive(Debug)]
pub struct ExplainedRuleMatch {
    pub id: RuleId,
    pub slug: String,
    pub title: Option<String>,
    pub section: Option<String>,
    pub order_key: Option<i64>,
}

/// An outline node with its effective filter and the rules it matched.
#[derive(Debug)]
pub struct ExplainedTargetNode {
    pub name: String,
    pub title: Option<String>,
    pub effective_filter: RenderTargetFilter,
    pub matched_rules: Vec<ExplainedRuleMatch>,
    pub nodes: Vec<ExplainedTargetNode>,
}

/// The outline of a target with the rules each node matched.
#[derive(Debug)]
pub struct ExplainedTarget {
    pub name: String,
    pub output_path: String,
    pub root_filter: RenderTargetFilter,
    pub matched_rule_count: usize,
    pub nodes: Vec<ExplainedTargetNode>,
}

/// Inheritance of criteria: in the filter of a child under a parent, every
/// criterion (repo scope, file kind, path scope, section and state) is the
/// child's own where the child sets it, and the parent's where it does not.
pub proof fn lemma_merged_filter_inherits(parent: FilterView, child: FilterView)
    ensures
        ({
            let m = merge_filters(parent, child);
            &&& m.repo_scope == (if child.repo_scope is Some { child.repo_scope } else { parent.repo_scope })
            &&& m.file_kind == (if child.file_kind is Some { child.file_kind } else { parent.file_kind })
            &&& m.path_scope == (if child.path_scope is Some { child.path_scope } else { parent.path_scope })
            &&& m.section == (if child.section is Some { child.section } else { parent.section })
            &&& m.state == (if child.state is Some { child.state } else { parent.state })
        }),
{
}

} // verus!
