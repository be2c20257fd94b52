//! Which rules a render target collects: each node of its outline lists the
//! rules its effective filter selects, in outline order, and no rule may be
//! collected twice.
use vstd::prelude::*;

use crate::error::{RuleError, RuleErrorView};
use crate::filter::{field_matches, scope_matches, RuleFilter};
use crate::manifest::{map_str, uuid_text, uuid_to_string, ManifestView, RuleId, RuleManifest};
use crate::rule_index::{
    listable, listed, manifest_views, rule_entry_type, sorted_rules, IndexedEntry, RuleIndex,
};
use crate::targets_model::{
    lemma_node_views_index, merge_filters, node_view, node_views, target_filter, target_outline,
    ExplainedRuleMatch, ExplainedTarget, ExplainedTargetNode, FilterView, NodeView, RenderTarget,
    RenderTargetFilter, RenderTargetNode,
};
use crate::text::opt_string_view;

verus! {

/// Whether an entry is listed under a target filter.
pub open spec fn listable_under(e: IndexedEntry, f: FilterView) -> bool {
    &&& match f.state {
        Some(s) => e.manifest.spec_state() == Some(s),
        None => true,
    }
    &&& e.type_id@ == rule_entry_type()
    &&& field_matches(f.file_kind, e.manifest.spec_file_kind())
    &&& field_matches(f.section, e.manifest.spec_section())
    &&& scope_matches(f.repo_scope, e.manifest.spec_repo_scopes())
    &&& scope_matches(f.path_scope, e.manifest.spec_path_scopes())
}

/// The rules listed under a target filter, in index order.
pub open spec fn listed_under(entries: Seq<IndexedEntry>, f: FilterView) -> Seq<ManifestView>
    decreases entries.len(),
{
    if entries.len() == 0 {
        Seq::empty()
    } else {
        let init = listed_under(entries.drop_last(), f);
        if listable_under(entries.last(), f) {
            init.push(entries.last().manifest@)
        } else {
            init
        }
    }
}

/// A rule filter made from a target filter lists what the target filter
/// selects.
pub proof fn lemma_listed_under(entries: Seq<IndexedEntry>, rf: RuleFilter, f: FilterView)
    requires
        opt_string_view(rf.state) == f.state,
        opt_string_view(rf.file_kind) == f.file_kind,
        opt_string_view(rf.section) == f.section,
        opt_string_view(rf.repo_scope) == f.repo_scope,
        opt_string_view(rf.path_scope) == f.path_scope,
        rf.slug is None,
        rf.has_low_feedback is None,
        rf.has_unresolved_feedback is None,
    ensures
        listed(entries, rf) == listed_under(entries, f),
    decreases entries.len(),
{
    if entries.len() > 0 {
        lemma_listed_under(entries.drop_last(), rf, f);
        let e = entries.last();
        assert(listable(e, rf) == listable_under(e, f));
    }
}

/// The rules a node lists: those its effective filter selects, in listing
/// order.
pub open spec fn node_rules(entries: Seq<IndexedEntry>, effective: FilterView) -> Seq<ManifestView> {
    sorted_rules(listed_under(entries, effective))
}

pub open spec fn ids_of(s: Seq<ManifestView>) -> Seq<RuleId> {
    Seq::new(s.len(), |i: int| s[i].id)
}

/// How a rule is named in messages: its slug, else its UUID.
pub open spec fn rule_label(r: ManifestView) -> Seq<char> {
    match map_str(r.fields, "slug"@) {
        Some(s) => s,
        None => uuid_text(r.id),
    }
}

/// Adding a node's rules to those collected so far; a rule collected before
/// is an error naming the target, the node and the rule.
pub open spec fn add_rules(
    acc: Seq<ManifestView>,
    rules: Seq<ManifestView>,
    target: Seq<char>,
    node: Seq<char>,
) -> Result<Seq<ManifestView>, RuleErrorView>
    decreases rules.len(),
{
    if rules.len() == 0 {
        Ok(acc)
    } else {
        match add_rules(acc, rules.drop_last(), target, node) {
            Err(e) => Err(e),
            Ok(a) => if ids_of(a).contains(rules.last().id) {
                Err(
                    RuleErrorView::DuplicateRenderRule {
                        target,
                        node,
                        slug: rule_label(rules.last()),
                    },
                )
            } else {
                Ok(a.push(rules.last()))
            },
        }
    }
}

/// Collecting a node: its own rules, then its children's under its
/// effective filter, depth first.
pub open spec fn collect_node(
    entries: Seq<IndexedEntry>,
    target: Seq<char>,
    n: NodeView,
    inherited: FilterView,
    acc: Seq<ManifestView>,
) -> Result<Seq<ManifestView>, RuleErrorView>
    decreases n,
{
    let effective = merge_filters(inherited, n.filter);
    match add_rules(acc, node_rules(entries, effective), target, n.name) {
        Err(e) => Err(e),
        Ok(a) => collect_nodes(entries, target, n.nodes, effective, a),
    }
}

/// Collecting a list of sibling nodes in order.
pub open spec fn collect_nodes(
    entries: Seq<IndexedEntry>,
    target: Seq<char>,
    ns: Seq<NodeView>,
    inherited: FilterView,
    acc: Seq<ManifestView>,
) -> Result<Seq<ManifestView>, RuleErrorView>
    decreases ns,
{
    if ns.len() == 0 {
        Ok(acc)
    } else {
        match collect_nodes(entries, target, ns.drop_last(), inherited, acc) {
            Err(e) => Err(e),
            Ok(a) => collect_node(entries, target, ns.last(), inherited, a),
        }
    }
}

fn contains_id(rules: &Vec<RuleManifest>, id: RuleId) -> (r: bool)
    ensures
        r == ids_of(manifest_views(rules@)).contains(id),
{
    let ghost ids = ids_of(manifest_views(rules@));
    let mut i: usize = 0;
    while i < rules.len()
        invariant
            0 <= i <= rules@.len(),
            ids == ids_of(manifest_views(rules@)),
            forall|j: int| 0 <= j < i ==> rules@[j].id != id,
        decreases rules@.len() - i,
    {
        if rules[i].id == id {
            assert(ids[i as int] == id);
            return true;
        }
        i += 1;
    }
    assert forall|j: int| 0 <= j < ids.len() implies ids[j] != id by {
        assert(ids[j] == rules@[j].id);
    }
    false
}

proof fn lemma_add_rules_prefix_err(
    acc: Seq<ManifestView>,
    rules: Seq<ManifestView>,
    target: Seq<char>,
    node: Seq<char>,
    n: int,
)
    requires
        0 <= n <= rules.len(),
        add_rules(acc, rules.take(n), target, node) is Err,
    ensures
        add_rules(acc, rules, target, node) == add_rules(acc, rules.take(n), target, node),
    decreases rules.len() - n,
{
    if n < rules.len() {
        assert(rules.take(n + 1).drop_last() =~= rules.take(n));
        lemma_add_rules_prefix_err(acc, rules, target, node, n + 1);
    } else {
        assert(rules.take(n) =~= rules);
    }
}

proof fn lemma_collect_nodes_prefix_err(
    entries: Seq<IndexedEntry>,
    target: Seq<char>,
    ns: Seq<NodeView>,
    inherited: FilterView,
    acc: Seq<ManifestView>,
    n: int,
)
    requires
        0 <= n <= ns.len(),
        collect_nodes(entries, target, ns.take(n), inherited, acc) is Err,
    ensures
        collect_nodes(entries, target, ns, inherited, acc) == collect_nodes(
            entries,
            target,
            ns.take(n),
            inherited,
            acc,
        ),
    decreases ns.len() - n,
{
    if n < ns.len() {
        assert(ns.take(n + 1).drop_last() =~= ns.take(n));
        lemma_collect_nodes_prefix_err(entries, target, ns, inherited, acc, n + 1);
    } else {
        assert(ns.take(n) =~= ns);
    }
}

/// Collects the rules of a node and its children.
fn collect_target_node_rules(
    index: &RuleIndex,
    target: &RenderTarget,
    node: &RenderTargetNode,
    inherited: &RenderTargetFilter,
    collected: &mut Vec<RuleManifest>,
) -> (r: Result<(), RuleError>)
    ensures
        match collect_node(
            index.entries@,
            target.name@,
            node@,
            inherited@,
            manifest_views(old(collected)@),
        ) {
            Ok(a) => r is Ok && manifest_views(final(collected)@) == a,
            Err(e) => r matches Err(x) && x@ == e,
        },
    decreases *node,
{
    let ghost es = index.entries@;
    let effective = node.effective_filter(inherited);
    let rf = effective.to_rule_filter();
    let rules = index.list(&rf, None);
    proof {
        lemma_listed_under(es, rf, effective@);
    }
    let ghost rv = manifest_views(rules@);
    assert(rv == node_rules(es, effective@));
    let ghost acc0 = manifest_views(collected@);
    let mut i: usize = 0;
    while i < rules.len()
        invariant
            0 <= i <= rules@.len(),
            rv == manifest_views(rules@),
            es == index.entries@,
            rv == node_rules(es, effective@),
            effective@ == merge_filters(inherited@, node@.filter),
            acc0 == manifest_views(old(collected)@),
            add_rules(acc0, rv.take(i as int), target.name@, node@.name) matches Ok(a)
                && manifest_views(collected@) == a,
        decreases rules@.len() - i,
    {
        assert(rv.take(i + 1).drop_last() =~= rv.take(i as int));
        assert(rv.take(i + 1).last() == rules@[i as int]@);
        let rule = &rules[i];
        if contains_id(collected, rule.id) {
            let label = match rule.slug() {
                Some(s) => s.to_owned(),
                None => uuid_to_string(rule.id),
            };
            proof {
                lemma_add_rules_prefix_err(acc0, rv, target.name@, node@.name, i + 1);
            }
            return Err(
                RuleError::DuplicateRenderRule {
                    target: target.name.clone(),
                    node: node.name.clone(),
                    slug: label,
                },
            );
        }
        let ghost before = manifest_views(collected@);
        collected.push(rule.duplicate());
        assert(manifest_views(collected@) =~= before.push(rule@));
        i += 1;
    }
    assert(rv.take(rules@.len() as int) =~= rv);
    let ghost after_own = manifest_views(collected@);
    let mut k: usize = 0;
    while k < node.nodes.len()
        invariant
            0 <= k <= node.nodes@.len(),
            es == index.entries@,
            rv == node_rules(es, effective@),
            effective@ == merge_filters(inherited@, node@.filter),
            acc0 == manifest_views(old(collected)@),
            add_rules(acc0, rv, target.name@, node@.name) == Ok::<Seq<ManifestView>, RuleErrorView>(after_own),
            collect_nodes(es, target.name@, node_views(node.nodes@).take(k as int), effective@, after_own)
                matches Ok(a) && manifest_views(collected@) == a,
        decreases node.nodes@.len() - k,
    {
        proof {
            lemma_node_views_index(node.nodes@);
        }
        let ghost nv = node_views(node.nodes@);
        assert(nv.take(k + 1).drop_last() =~= nv.take(k as int));
        assert(nv.take(k + 1).last() == node.nodes@[k as int]@);
        assert(decreases_to!(*node => node.nodes));
        assert(decreases_to!(node.nodes => node.nodes@));
        assert(decreases_to!(node.nodes@ => node.nodes@[k as int]));
        match collect_target_node_rules(index, target, &node.nodes[k], &effective, collected) {
            Ok(()) => {},
            Err(e) => {
                proof {
                    lemma_collect_nodes_prefix_err(
                        es,
                        target.name@,
                        nv,
                        effective@,
                        after_own,
                        k + 1,
                    );
                }
                return Err(e);
            },
        }
        k += 1;
    }
    proof {
        lemma_node_views_index(node.nodes@);
        assert(node_views(node.nodes@).take(node.nodes@.len() as int) =~= node_views(node.nodes@));
    }
    Ok(())
}

/// The rules of a target in outline order.
pub open spec fn target_rules(entries: Seq<IndexedEntry>, t: crate::targets_model::TargetView) -> Result<
    Seq<ManifestView>,
    RuleErrorView,
> {
    collect_nodes(entries, t.name, target_outline(t), target_filter(t), Seq::empty())
}

/// The rules a target renders: each node of its outline (depth first) adds
/// the rules its effective filter lists; a rule matched by two nodes is an
/// error.
pub fn collect_target_rules(index: &RuleIndex, target: &RenderTarget) -> (r: Result<
    Vec<RuleManifest>,
    RuleError,
>)
    ensures
        match target_rules(index.entries@, target@) {
            Ok(a) => r matches Ok(v) && manifest_views(v@) == a,
            Err(e) => r matches Err(x) && x@ == e,
        },
{
    let ghost es = index.entries@;
    let inherited = target.flat_filter();
    let nodes = target.ordered_nodes();
    let ghost nv = node_views(nodes@);
    let mut collected: Vec<RuleManifest> = Vec::new();
    assert(manifest_views(collected@) =~= Seq::<ManifestView>::empty());
    let mut k: usize = 0;
    while k < nodes.len()
        invariant
            0 <= k <= nodes@.len(),
            es == index.entries@,
            nv == node_views(nodes@),
            nv == target_outline(target@),
            inherited@ == target_filter(target@),
            collect_nodes(es, target.name@, nv.take(k as int), inherited@, Seq::empty()) matches Ok(a)
                && manifest_views(collected@) == a,
        decreases nodes@.len() - k,
    {
        proof {
            lemma_node_views_index(nodes@);
        }
        assert(nv.take(k + 1).drop_last() =~= nv.take(k as int));
        assert(nv.take(k + 1).last() == nodes@[k as int]@);
        match collect_target_node_rules(index, target, &nodes[k], &inherited, &mut collected) {
            Ok(()) => {},
            Err(e) => {
                proof {
                    lemma_collect_nodes_prefix_err(
                        es,
                        target.name@,
                        nv,
                        inherited@,
                        Seq::empty(),
                        k + 1,
                    );
                }
                return Err(e);
            },
        }
        k += 1;
    }
    proof {
        lemma_node_views_index(nodes@);
    }
    assert(nv.take(nodes@.len() as int) =~= nv);
    Ok(collected)
}

// ---------------------------------------------------------------------------
// Laws

proof fn lemma_add_rules_distinct(
    acc: Seq<ManifestView>,
    rules: Seq<ManifestView>,
    target: Seq<char>,
    node: Seq<char>,
)
    requires
        ids_of(acc).no_duplicates(),
    ensures
        add_rules(acc, rules, target, node) matches Ok(a) ==> ids_of(a).no_duplicates(),
    decreases rules.len(),
{
    if rules.len() > 0 {
        lemma_add_rules_distinct(acc, rules.drop_last(), target, node);
        match add_rules(acc, rules.drop_last(), target, node) {
            Ok(a) => {
                let x = rules.last();
                if !ids_of(a).contains(x.id) {
                    assert(ids_of(a.push(x)) =~= ids_of(a).push(x.id));
                    let b = ids_of(a.push(x));
                    assert forall|i: int, j: int| 0 <= i < b.len() && 0 <= j < b.len() && i != j
                        implies b[i] != b[j] by {
                        if i < b.len() - 1 && j < b.len() - 1 {
                            assert(b[i] == ids_of(a)[i] && b[j] == ids_of(a)[j]);
                        } else if i == b.len() - 1 {
                            assert(b[j] == ids_of(a)[j]);
                        } else {
                            assert(b[i] == ids_of(a)[i]);
                        }
                    }
                }
            },
            Err(_) => {},
        }
    }
}

proof fn lemma_collect_node_distinct(
    entries: Seq<IndexedEntry>,
    target: Seq<char>,
    n: NodeView,
    inherited: FilterView,
    acc: Seq<ManifestView>,
)
    requires
        ids_of(acc).no_duplicates(),
    ensures
        collect_node(entries, target, n, inherited, acc) matches Ok(a) ==> ids_of(a).no_duplicates(),
    decreases n,
{
    let effective = merge_filters(inherited, n.filter);
    lemma_add_rules_distinct(acc, node_rules(entries, effective), target, n.name);
    match add_rules(acc, node_rules(entries, effective), target, n.name) {
        Ok(a) => {
            lemma_collect_nodes_distinct(entries, target, n.nodes, effective, a);
        },
        Err(_) => {},
    }
}

proof fn lemma_collect_nodes_distinct(
    entries: Seq<IndexedEntry>,
    target: Seq<char>,
    ns: Seq<NodeView>,
    inherited: FilterView,
    acc: Seq<ManifestView>,
)
    requires
        ids_of(acc).no_duplicates(),
    ensures
        collect_nodes(entries, target, ns, inherited, acc) matches Ok(a) ==> ids_of(
            a,
        ).no_duplicates(),
    decreases ns,
{
    if ns.len() > 0 {
        lemma_collect_nodes_distinct(entries, target, ns.drop_last(), inherited, acc);
        match collect_nodes(entries, target, ns.drop_last(), inherited, acc) {
            Ok(a) => {
                lemma_collect_node_distinct(entries, target, ns.last(), inherited, a);
            },
            Err(_) => {},
        }
    }
}

/// A target never renders a rule twice: the rules it collects have
/// distinct ids.
pub proof fn lemma_target_rules_distinct(
    entries: Seq<IndexedEntry>,
    t: crate::targets_model::TargetView,
)
    ensures
        target_rules(entries, t) matches Ok(a) ==> ids_of(a).no_duplicates(),
{
    assert(ids_of(Seq::<ManifestView>::empty()) =~= Seq::<RuleId>::empty());
    lemma_collect_nodes_distinct(
        entries,
        t.name,
        target_outline(t),
        target_filter(t),
        Seq::empty(),
    );
}

// ---------------------------------------------------------------------------
// Explaining a target

/// A matched rule as reported: id, label, title, section and order key.
pub struct MatchView {
    pub id: RuleId,
    pub slug: Seq<char>,
    pub title: Option<Seq<char>>,
    pub section: Option<Seq<char>>,
    pub order_key: Option<int>,
}

impl View for ExplainedRuleMatch {
    type V = MatchView;

    open spec fn view(&self) -> MatchView {
        MatchView {
            id: self.id,
            slug: self.slug@,
            title: opt_string_view(self.title),
            section: opt_string_view(self.section),
            order_key: match self.order_key {
                Some(k) => Some(k as int),
                None => None,
            },
        }
    }
}

/// How a matched rule is reported.
pub open spec fn match_of(r: ManifestView) -> MatchView {
    MatchView {
        id: r.id,
        slug: rule_label(r),
        title: map_str(r.fields, "title"@),
        section: map_str(r.fields, "section"@),
        order_key: crate::manifest::map_int(r.fields, "order_key"@),
    }
}

pub open spec fn matches_of(rs: Seq<ManifestView>) -> Seq<MatchView> {
    Seq::new(rs.len(), |i: int| match_of(rs[i]))
}

pub open spec fn match_views(v: Seq<ExplainedRuleMatch>) -> Seq<MatchView> {
    Seq::new(v.len(), |i: int| v[i]@)
}

/// An explained node as values.
pub struct ExplainedNodeView {
    pub name: Seq<char>,
    pub title: Option<Seq<char>>,
    pub filter: FilterView,
    pub matched: Seq<MatchView>,
    pub nodes: Seq<ExplainedNodeView>,
}

pub open spec fn explained_view(n: ExplainedTargetNode) -> ExplainedNodeView
    decreases n,
{
    ExplainedNodeView {
        name: n.name@,
        title: opt_string_view(n.title),
        filter: n.effective_filter@,
        matched: match_views(n.matched_rules@),
        nodes: explained_views(n.nodes@),
    }
}

pub open spec fn explained_views(s: Seq<ExplainedTargetNode>) -> Seq<ExplainedNodeView>
    decreases s,
{
    if s.len() == 0 {
        Seq::empty()
    } else {
        explained_views(s.drop_last()).push(explained_view(s.last()))
    }
}

/// Explaining a node: its effective filter, the rules it matches, and its
/// children explained under its filter; the rules matched so far are
/// threaded through, and a rule matched twice is an error.
pub open spec fn explain_node(
    entries: Seq<IndexedEntry>,
    target: Seq<char>,
    n: NodeView,
    inherited: FilterView,
    acc: Seq<ManifestView>,
) -> Result<(ExplainedNodeView, Seq<ManifestView>), RuleErrorView>
    decreases n,
{
    let effective = merge_filters(inherited, n.filter);
    let rules = node_rules(entries, effective);
    match add_rules(acc, rules, target, n.name) {
        Err(e) => Err(e),
        Ok(a) => match explain_nodes(entries, target, n.nodes, effective, a) {
            Err(e) => Err(e),
            Ok((children, a2)) => Ok(
                (
                    ExplainedNodeView {
                        name: n.name,
                        title: n.title,
                        filter: effective,
                        matched: matches_of(rules),
                        nodes: children,
                    },
                    a2,
                ),
            ),
        },
    }
}

pub open spec fn explain_nodes(
    entries: Seq<IndexedEntry>,
    target: Seq<char>,
    ns: Seq<NodeView>,
    inherited: FilterView,
    acc: Seq<ManifestView>,
) -> Result<(Seq<ExplainedNodeView>, Seq<ManifestView>), RuleErrorView>
    decreases ns,
{
    if ns.len() == 0 {
        Ok((Seq::empty(), acc))
    } else {
        match explain_nodes(entries, target, ns.drop_last(), inherited, acc) {
            Err(e) => Err(e),
            Ok((done, a)) => match explain_node(entries, target, ns.last(), inherited, a) {
                Err(e) => Err(e),
                Ok((x, a2)) => Ok((done.push(x), a2)),
            },
        }
    }
}

proof fn lemma_explain_nodes_prefix_err(
    entries: Seq<IndexedEntry>,
    target: Seq<char>,
    ns: Seq<NodeView>,
    inherited: FilterView,
    acc: Seq<ManifestView>,
    n: int,
)
    requires
        0 <= n <= ns.len(),
        explain_nodes(entries, target, ns.take(n), inherited, acc) is Err,
    ensures
        explain_nodes(entries, target, ns, inherited, acc) == explain_nodes(
            entries,
            target,
            ns.take(n),
            inherited,
            acc,
        ),
    decreases ns.len() - n,
{
    if n < ns.len() {
        assert(ns.take(n + 1).drop_last() =~= ns.take(n));
        lemma_explain_nodes_prefix_err(entries, target, ns, inherited, acc, n + 1);
    } else {
        assert(ns.take(n) =~= ns);
    }
}

/// How a matched rule is reported.
pub fn rule_match_summary(rule: &RuleManifest) -> (r: ExplainedRuleMatch)
    ensures
        r@ == match_of(rule@),
{
    ExplainedRuleMatch {
        id: rule.id,
        slug: match rule.slug() {
            Some(s) => s.to_owned(),
            None => uuid_to_string(rule.id),
        },
        title: match rule.title() {
            Some(s) => Some(s.to_owned()),
            None => None,
        },
        section: match rule.section() {
            Some(s) => Some(s.to_owned()),
            None => None,
        },
        order_key: rule.order_key(),
    }
}

fn explain_target_node(
    index: &RuleIndex,
    target: &RenderTarget,
    node: &RenderTargetNode,
    inherited: &RenderTargetFilter,
    seen: &mut Vec<RuleManifest>,
) -> (r: Result<ExplainedTargetNode, RuleError>)
    ensures
        match explain_node(index.entries@, target.name@, node@, inherited@, manifest_views(old(seen)@)) {
            Ok((x, a)) => r matches Ok(v) && explained_view(v) == x && manifest_views(final(seen)@)
                == a,
            Err(e) => r matches Err(err) && err@ == e,
        },
    decreases *node,
{
    let ghost es = index.entries@;
    let effective = node.effective_filter(inherited);
    let rf = effective.to_rule_filter();
    let rules = index.list(&rf, None);
    proof {
        lemma_listed_under(es, rf, effective@);
    }
    let ghost rv = manifest_views(rules@);
    assert(rv == node_rules(es, effective@));
    let ghost acc0 = manifest_views(seen@);
    let mut matched: Vec<ExplainedRuleMatch> = Vec::new();
    let mut i: usize = 0;
    while i < rules.len()
        invariant
            0 <= i <= rules@.len(),
            rv == manifest_views(rules@),
            es == index.entries@,
            rv == node_rules(es, effective@),
            effective@ == merge_filters(inherited@, node@.filter),
            acc0 == manifest_views(old(seen)@),
            match_views(matched@) == matches_of(rv.take(i as int)),
            add_rules(acc0, rv.take(i as int), target.name@, node@.name) matches Ok(a)
                && manifest_views(seen@) == a,
        decreases rules@.len() - i,
    {
        assert(rv.take(i + 1).drop_last() =~= rv.take(i as int));
        assert(rv.take(i + 1).last() == rules@[i as int]@);
        let rule = &rules[i];
        if contains_id(seen, rule.id) {
            let label = match rule.slug() {
                Some(s) => s.to_owned(),
                None => uuid_to_string(rule.id),
            };
            proof {
                lemma_add_rules_prefix_err(acc0, rv, target.name@, node@.name, i + 1);
            }
            return Err(
                RuleError::DuplicateRenderRule {
                    target: target.name.clone(),
                    node: node.name.clone(),
                    slug: label,
                },
            );
        }
        let ghost before = manifest_views(seen@);
        let ghost mbefore = match_views(matched@);
        seen.push(rule.duplicate());
        assert(manifest_views(seen@) =~= before.push(rule@));
        matched.push(rule_match_summary(rule));
        assert(match_views(matched@) =~= mbefore.push(match_of(rule@)));
        assert(matches_of(rv.take(i + 1)) =~= matches_of(rv.take(i as int)).push(match_of(rule@)));
        i += 1;
    }
    assert(rv.take(rules@.len() as int) =~= rv);
    let ghost after_own = manifest_views(seen@);
    let mut children: Vec<ExplainedTargetNode> = Vec::new();
    assert(explained_views(children@) =~= Seq::<ExplainedNodeView>::empty());
    let mut k: usize = 0;
    while k < node.nodes.len()
        invariant
            0 <= k <= node.nodes@.len(),
            es == index.entries@,
            rv == node_rules(es, effective@),
            effective@ == merge_filters(inherited@, node@.filter),
            acc0 == manifest_views(old(seen)@),
            match_views(matched@) == matches_of(rv),
            add_rules(acc0, rv, target.name@, node@.name) == Ok::<Seq<ManifestView>, RuleErrorView>(
                after_own,
            ),
            explain_nodes(es, target.name@, node_views(node.nodes@).take(k as int), effective@, after_own)
                matches Ok((done, a)) && explained_views(children@) == done && manifest_views(
                seen@,
            ) == a,
        decreases node.nodes@.len() - k,
    {
        proof {
            lemma_node_views_index(node.nodes@);
        }
        let ghost nv = node_views(node.nodes@);
        assert(nv.take(k + 1).drop_last() =~= nv.take(k as int));
        assert(nv.take(k + 1).last() == node.nodes@[k as int]@);
        assert(decreases_to!(*node => node.nodes));
        assert(decreases_to!(node.nodes => node.nodes@));
        assert(decreases_to!(node.nodes@ => node.nodes@[k as int]));
        match explain_target_node(index, target, &node.nodes[k], &effective, seen) {
            Ok(x) => {
                let ghost cb = children@;
                let ghost xv = explained_view(x);
                children.push(x);
                assert(children@.drop_last() =~= cb);
                assert(explained_views(children@) == explained_views(cb).push(xv));
            },
            Err(e) => {
                proof {
                    lemma_explain_nodes_prefix_err(
                        es,
                        target.name@,
                        nv,
                        effective@,
                        after_own,
                        k + 1,
                    );
                }
                return Err(e);
            },
        }
        k += 1;
    }
    proof {
        lemma_node_views_index(node.nodes@);
        assert(node_views(node.nodes@).take(node.nodes@.len() as int) =~= node_views(node.nodes@));
    }
    let title = match &node.title {
        Some(t) => Some(t.clone()),
        None => None,
    };
    Ok(
        ExplainedTargetNode {
            name: node.name.clone(),
            title,
            effective_filter: effective,
            matched_rules: matched,
            nodes: children,
        },
    )
}

/// The explanation of a target: its outline explained node by node.
pub open spec fn target_explanation(entries: Seq<IndexedEntry>, t: crate::targets_model::TargetView) -> Result<
    (Seq<ExplainedNodeView>, Seq<ManifestView>),
    RuleErrorView,
> {
    explain_nodes(entries, t.name, target_outline(t), target_filter(t), Seq::empty())
}

/// The outline of a target with the effective filter of each node and the
/// rules each node matched; the count of matched rules over the whole target.
pub fn explain_target(index: &RuleIndex, target: &RenderTarget) -> (r: Result<
    ExplainedTarget,
    RuleError,
>)
    ensures
        match target_explanation(index.entries@, target@) {
            Ok((nodes, matched)) => r matches Ok(x) && x.name@ == target.name@ && x.output_path@
                == target.output_path@ && x.root_filter@ == target_filter(target@)
                && x.matched_rule_count == matched.len() && explained_views(x.nodes@) == nodes,
            Err(e) => r matches Err(x) && x@ == e,
        },
{
    let ghost es = index.entries@;
    let root_filter = target.flat_filter();
    let ordered = target.ordered_nodes();
    let ghost nv = node_views(ordered@);
    let mut seen: Vec<RuleManifest> = Vec::new();
    assert(manifest_views(seen@) =~= Seq::<ManifestView>::empty());
    let mut nodes: Vec<ExplainedTargetNode> = Vec::new();
    assert(explained_views(nodes@) =~= Seq::<ExplainedNodeView>::empty());
    let mut k: usize = 0;
    while k < ordered.len()
        invariant
            0 <= k <= ordered@.len(),
            es == index.entries@,
            nv == node_views(ordered@),
            nv == target_outline(target@),
            root_filter@ == target_filter(target@),
            explain_nodes(es, target.name@, nv.take(k as int), root_filter@, Seq::empty()) matches Ok(
                (done, a),
            ) && explained_views(nodes@) == done && manifest_views(seen@) == a,
        decreases ordered@.len() - k,
    {
        proof {
            lemma_node_views_index(ordered@);
        }
        assert(nv.take(k + 1).drop_last() =~= nv.take(k as int));
        assert(nv.take(k + 1).last() == ordered@[k as int]@);
        match explain_target_node(index, target, &ordered[k], &root_filter, &mut seen) {
            Ok(x) => {
                let ghost nb = nodes@;
                let ghost xv = explained_view(x);
                nodes.push(x);
                assert(nodes@.drop_last() =~= nb);
                assert(explained_views(nodes@) == explained_views(nb).push(xv));
            },
            Err(e) => {
                proof {
                    lemma_explain_nodes_prefix_err(
                        es,
                        target.name@,
                        nv,
                        root_filter@,
                        Seq::empty(),
                        k + 1,
                    );
                }
                return Err(e);
            },
        }
        k += 1;
    }
    proof {
        lemma_node_views_index(ordered@);
    }
    assert(nv.take(ordered@.len() as int) =~= nv);
    assert(seen@.len() == manifest_views(seen@).len());
    Ok(
        ExplainedTarget {
            name: target.name.clone(),
            output_path: target.output_path.clone(),
            root_filter,
            matched_rule_count: seen.len(),
            nodes,
        },
    )
}

proof fn lemma_explain_node_agrees(
    entries: Seq<IndexedEntry>,
    target: Seq<char>,
    n: NodeView,
    inherited: FilterView,
    acc: Seq<ManifestView>,
)
    ensures
        match explain_node(entries, target, n, inherited, acc) {
            Ok((_, a)) => collect_node(entries, target, n, inherited, acc) == Ok::<
                Seq<ManifestView>,
                RuleErrorView,
            >(a),
            Err(e) => collect_node(entries, target, n, inherited, acc) == Err::<
                Seq<ManifestView>,
                RuleErrorView,
            >(e),
        },
    decreases n,
{
    let effective = merge_filters(inherited, n.filter);
    match add_rules(acc, node_rules(entries, effective), target, n.name) {
        Ok(a) => {
            lemma_explain_nodes_agree(entries, target, n.nodes, effective, a);
        },
        Err(_) => {},
    }
}

proof fn lemma_explain_nodes_agree(
    entries: Seq<IndexedEntry>,
    target: Seq<char>,
    ns: Seq<NodeView>,
    inherited: FilterView,
    acc: Seq<ManifestView>,
)
    ensures
        match explain_nodes(entries, target, ns, inherited, acc) {
            Ok((_, a)) => collect_nodes(entries, target, ns, inherited, acc) == Ok::<
                Seq<ManifestView>,
                RuleErrorView,
            >(a),
            Err(e) => collect_nodes(entries, target, ns, inherited, acc) == Err::<
                Seq<ManifestView>,
                RuleErrorView,
            >(e),
        },
    decreases ns,
{
    if ns.len() > 0 {
        lemma_explain_nodes_agree(entries, target, ns.drop_last(), inherited, acc);
        match explain_nodes(entries, target, ns.drop_last(), inherited, acc) {
            Ok((_, a)) => {
                lemma_explain_node_agrees(entries, target, ns.last(), inherited, a);
            },
            Err(_) => {},
        }
    }
}

/// Explaining a target reports what collecting its rules finds: it fails
/// exactly when collecting fails, with the same error, and otherwise counts
/// the rules collecting returns.
pub proof fn lemma_explain_matches_collect(
    entries: Seq<IndexedEntry>,
    t: crate::targets_model::TargetView,
)
    ensures
        match target_explanation(entries, t) {
            Ok((_, matched)) => target_rules(entries, t) == Ok::<Seq<ManifestView>, RuleErrorView>(
                matched,
            ),
            Err(e) => target_rules(entries, t) == Err::<Seq<ManifestView>, RuleErrorView>(e),
        },
{
    lemma_explain_nodes_agree(entries, t.name, target_outline(t), target_filter(t), Seq::empty());
}

} // verus!
