//! Looking targets up by name or output path, and where their output goes.
use vstd::prelude::*;

use crate::paths::{
    forward_slashes, forward_slashes_exec, is_absolute, is_absolute_exec, parent_or_dot,
    parent_or_dot_exec, path_join, path_join_exec,
};
use crate::targets_model::{target_views, RenderTarget, RenderTargetConfig, TargetView};
use crate::text::{append_str, append_chars, chars_eq, chars_of, str_eq, string_from_chars};

verus! {

/// Why a target configuration could not be loaded or a target not chosen.
#[derive(Debug)]
pub enum TargetConfigError {
    Io { path: String, message: String },
    DirectoryPathWithSuggestion { path: String, suggested: String },
    DirectoryPath { path: String },
    ParseToml { path: String, message: String },
    ParseYaml { path: String, message: String },
    NotFound(String),
    AmbiguousSelector { selector: String, matches: String },
    DuplicateName(String),
    DuplicateSchemaName(String),
    ImportCycle { path: String },
    UnknownSchema { target: String, schema: String },
    MissingRequiredBlock { target: String, schema: String, target_kind: String, block: String },
    MissingRepoScope { target: String },
    MissingFileKind { target: String },
    InvalidScope { target: String, scope: String },
    MissingOutputPath { target: String },
}

/// [`TargetConfigError`] with its text as character sequences.
pub enum ConfigErrorView {
    Io { path: Seq<char>, message: Seq<char> },
    DirectoryPathWithSuggestion { path: Seq<char>, suggested: Seq<char> },
    DirectoryPath { path: Seq<char> },
    ParseToml { path: Seq<char>, message: Seq<char> },
    ParseYaml { path: Seq<char>, message: Seq<char> },
    NotFound(Seq<char>),
    AmbiguousSelector { selector: Seq<char>, matches: Seq<char> },
    DuplicateName(Seq<char>),
    DuplicateSchemaName(Seq<char>),
    ImportCycle { path: Seq<char> },
    UnknownSchema { target: Seq<char>, schema: Seq<char> },
    MissingRequiredBlock {
        target: Seq<char>,
        schema: Seq<char>,
        target_kind: Seq<char>,
        block: Seq<char>,
    },
    MissingRepoScope { target: Seq<char> },
    MissingFileKind { target: Seq<char> },
    InvalidScope { target: Seq<char>, scope: Seq<char> },
    MissingOutputPath { target: Seq<char> },
}

impl View for TargetConfigError {
    type V = ConfigErrorView;

    open spec fn view(&self) -> ConfigErrorView {
        match self {
            TargetConfigError::Io { path, message } => ConfigErrorView::Io {
                path: path@,
                message: message@,
            },
            TargetConfigError::DirectoryPathWithSuggestion { path, suggested } =>
                ConfigErrorView::DirectoryPathWithSuggestion { path: path@, suggested: suggested@ },
            TargetConfigError::DirectoryPath { path } => ConfigErrorView::DirectoryPath {
                path: path@,
            },
            TargetConfigError::ParseToml { path, message } => ConfigErrorView::ParseToml {
                path: path@,
                message: message@,
            },
            TargetConfigError::ParseYaml { path, message } => ConfigErrorView::ParseYaml {
                path: path@,
                message: message@,
            },
            TargetConfigError::NotFound(s) => ConfigErrorView::NotFound(s@),
            TargetConfigError::AmbiguousSelector { selector, matches } =>
                ConfigErrorView::AmbiguousSelector { selector: selector@, matches: matches@ },
            TargetConfigError::DuplicateName(s) => ConfigErrorView::DuplicateName(s@),
            TargetConfigError::DuplicateSchemaName(s) => ConfigErrorView::DuplicateSchemaName(s@),
            TargetConfigError::ImportCycle { path } => ConfigErrorView::ImportCycle { path: path@ },
            TargetConfigError::UnknownSchema { target, schema } => ConfigErrorView::UnknownSchema {
                target: target@,
                schema: schema@,
            },
            TargetConfigError::MissingRequiredBlock { target, schema, target_kind, block } =>
                ConfigErrorView::MissingRequiredBlock {
                target: target@,
                schema: schema@,
                target_kind: target_kind@,
                block: block@,
            },
            TargetConfigError::MissingRepoScope { target } => ConfigErrorView::MissingRepoScope {
                target: target@,
            },
            TargetConfigError::MissingFileKind { target } => ConfigErrorView::MissingFileKind {
                target: target@,
            },
            TargetConfigError::InvalidScope { target, scope } => ConfigErrorView::InvalidScope {
                target: target@,
                scope: scope@,
            },
            TargetConfigError::MissingOutputPath { target } => ConfigErrorView::MissingOutputPath {
                target: target@,
            },
        }
    }
}

impl TargetConfigError {
    /// A copy of the error.
    pub fn duplicate(&self) -> (r: Self)
        ensures
            r@ == self@,
    {
        match self {
            TargetConfigError::Io { path, message } => TargetConfigError::Io {
                path: path.clone(),
                message: message.clone(),
            },
            TargetConfigError::DirectoryPathWithSuggestion { path, suggested } =>
                TargetConfigError::DirectoryPathWithSuggestion {
                path: path.clone(),
                suggested: suggested.clone(),
            },
            TargetConfigError::DirectoryPath { path } => TargetConfigError::DirectoryPath {
                path: path.clone(),
            },
            TargetConfigError::ParseToml { path, message } => TargetConfigError::ParseToml {
                path: path.clone(),
                message: message.clone(),
            },
            TargetConfigError::ParseYaml { path, message } => TargetConfigError::ParseYaml {
                path: path.clone(),
                message: message.clone(),
            },
            TargetConfigError::NotFound(s) => TargetConfigError::NotFound(s.clone()),
            TargetConfigError::AmbiguousSelector { selector, matches } =>
                TargetConfigError::AmbiguousSelector {
                selector: selector.clone(),
                matches: matches.clone(),
            },
            TargetConfigError::DuplicateName(s) => TargetConfigError::DuplicateName(s.clone()),
            TargetConfigError::DuplicateSchemaName(s) => TargetConfigError::DuplicateSchemaName(
                s.clone(),
            ),
            TargetConfigError::ImportCycle { path } => TargetConfigError::ImportCycle {
                path: path.clone(),
            },
            TargetConfigError::UnknownSchema { target, schema } =>
                TargetConfigError::UnknownSchema { target: target.clone(), schema: schema.clone() },
            TargetConfigError::MissingRequiredBlock { target, schema, target_kind, block } =>
                TargetConfigError::MissingRequiredBlock {
                target: target.clone(),
                schema: schema.clone(),
                target_kind: target_kind.clone(),
                block: block.clone(),
            },
            TargetConfigError::MissingRepoScope { target } => TargetConfigError::MissingRepoScope {
                target: target.clone(),
            },
            TargetConfigError::MissingFileKind { target } => TargetConfigError::MissingFileKind {
                target: target.clone(),
            },
            TargetConfigError::InvalidScope { target, scope } => TargetConfigError::InvalidScope {
                target: target.clone(),
                scope: scope.clone(),
            },
            TargetConfigError::MissingOutputPath { target } =>
                TargetConfigError::MissingOutputPath { target: target.clone() },
        }
    }
}

/// Index of the first target with the given name.
pub open spec fn find_by_name(targets: Seq<TargetView>, name: Seq<char>) -> Option<int>
    decreases targets.len(),
{
    if targets.len() == 0 {
        None
    } else {
        match find_by_name(targets.drop_last(), name) {
            Some(i) => Some(i),
            None => if targets.last().name == name {
                Some(targets.len() - 1)
            } else {
                None
            },
        }
    }
}

pub proof fn lemma_find_by_name(targets: Seq<TargetView>, name: Seq<char>)
    ensures
        match find_by_name(targets, name) {
            Some(i) => 0 <= i < targets.len() && targets[i].name == name && forall|j: int|
                0 <= j < i ==> targets[j].name != name,
            None => forall|j: int| 0 <= j < targets.len() ==> targets[j].name != name,
        },
    decreases targets.len(),
{
    if targets.len() > 0 {
        let init = targets.drop_last();
        lemma_find_by_name(init, name);
        assert forall|j: int| 0 <= j < init.len() implies init[j] == targets[j] by {}
    }
}

proof fn lemma_find_by_name_at(targets: Seq<TargetView>, name: Seq<char>, i: int)
    requires
        0 <= i < targets.len(),
        targets[i].name == name,
        forall|j: int| 0 <= j < i ==> targets[j].name != name,
    ensures
        find_by_name(targets, name) == Some(i),
{
    lemma_find_by_name(targets, name);
    match find_by_name(targets, name) {
        Some(k) => {
            if k < i {
            } else if k > i {
            }
        },
        None => {},
    }
}

/// Where a target's output is written: its path when absolute, else under
/// the root of its config tree (or the directory of its config file).
pub open spec fn output_location(config_path: Seq<char>, t: TargetView) -> Seq<char> {
    if is_absolute(t.output_path) {
        t.output_path
    } else {
        let base = match t.source_output_root {
            Some(root) => root,
            None => parent_or_dot(
                match t.source_config_path {
                    Some(p) => p,
                    None => config_path,
                },
            ),
        };
        path_join(base, t.output_path)
    }
}

pub fn resolve_render_target_output(config_path: &str, target: &RenderTarget) -> (r: String)
    ensures
        r@ == output_location(config_path@, target@),
{
    let output = chars_of(target.output_path.as_str());
    if is_absolute_exec(&output) {
        return target.output_path.clone();
    }
    let base = match &target.source_output_root {
        Some(root) => chars_of(root.as_str()),
        None => {
            let cfg = chars_of(target.config_path(config_path));
            parent_or_dot_exec(&cfg)
        },
    };
    string_from_chars(path_join_exec(&base, &output))
}

pub fn render_target_by_name<'a>(config: &'a RenderTargetConfig, name: &str) -> (r: Result<
    &'a RenderTarget,
    TargetConfigError,
>)
    ensures
        match r {
            Ok(t) => find_by_name(target_views(config.targets@), name@) matches Some(i)
                && target_views(config.targets@)[i] == t@,
            Err(e) => find_by_name(target_views(config.targets@), name@) is None && (e
                matches TargetConfigError::NotFound(n) && n@ == name@),
        },
{
    let ghost tv = target_views(config.targets@);
    let mut i: usize = 0;
    while i < config.targets.len()
        invariant
            0 <= i <= config.targets@.len(),
            tv == target_views(config.targets@),
            forall|j: int| 0 <= j < i ==> tv[j].name != name@,
        decreases config.targets@.len() - i,
    {
        if str_eq(config.targets[i].name.as_str(), name) {
            proof {
                lemma_find_by_name_at(tv, name@, i as int);
            }
            return Ok(&config.targets[i]);
        }
        i += 1;
    }
    proof {
        lemma_find_by_name(tv, name@);
    }
    Err(TargetConfigError::NotFound(name.to_owned()))
}

/// Whether a target is named by a selector: its output path or resolved
/// output location, slashes normalized, equals the selector.
pub open spec fn selects(config_path: Seq<char>, t: TargetView, selector: Seq<char>) -> bool {
    forward_slashes(t.output_path) == forward_slashes(selector) || forward_slashes(
        output_location(config_path, t),
    ) == forward_slashes(selector)
}

/// Indices of the targets a selector names, in order.
pub open spec fn selected(config_path: Seq<char>, targets: Seq<TargetView>, selector: Seq<char>) -> Seq<int>
    decreases targets.len(),
{
    if targets.len() == 0 {
        Seq::empty()
    } else {
        let init = selected(config_path, targets.drop_last(), selector);
        if selects(config_path, targets.last(), selector) {
            init.push(targets.len() - 1)
        } else {
            init
        }
    }
}

/// Names of the selected targets joined with `, `.
pub open spec fn joined_names(targets: Seq<TargetView>, idx: Seq<int>) -> Seq<char>
    decreases idx.len(),
{
    if idx.len() == 0 {
        Seq::empty()
    } else if idx.len() == 1 {
        targets[idx[0]].name
    } else {
        joined_names(targets, idx.drop_last()) + ", "@ + targets[idx.last()].name
    }
}

proof fn lemma_selected_bounds(config_path: Seq<char>, targets: Seq<TargetView>, selector: Seq<char>)
    ensures
        forall|j: int|
            0 <= j < selected(config_path, targets, selector).len() ==> 0 <= #[trigger] selected(
                config_path,
                targets,
                selector,
            )[j] < targets.len(),
    decreases targets.len(),
{
    if targets.len() > 0 {
        let init = selected(config_path, targets.drop_last(), selector);
        lemma_selected_bounds(config_path, targets.drop_last(), selector);
        let all = selected(config_path, targets, selector);
        assert forall|j: int| 0 <= j < all.len() implies 0 <= #[trigger] all[j] < targets.len() by {
            if j < init.len() {
                assert(all[j] == init[j]);
            }
        }
    }
}

/// A target chosen by name, or else by its output path.
pub fn render_target_by_selector<'a>(
    config: &'a RenderTargetConfig,
    config_path: &str,
    selector: &str,
) -> (r: Result<&'a RenderTarget, TargetConfigError>)
    ensures
        ({
            let tv = target_views(config.targets@);
            let sel = selected(config_path@, tv, selector@);
            match find_by_name(tv, selector@) {
                Some(i) => r matches Ok(t) && t@ == tv[i],
                None => if sel.len() == 1 {
                    r matches Ok(t) && t@ == tv[sel[0]]
                } else if sel.len() == 0 {
                    r matches Err(TargetConfigError::NotFound(s)) && s@ == forward_slashes(
                        selector@,
                    )
                } else {
                    r matches Err(TargetConfigError::AmbiguousSelector { selector: s, matches: m })
                        && s@ == forward_slashes(selector@) && m@ == joined_names(tv, sel)
                },
            }
        }),
{
    if let Ok(t) = render_target_by_name(config, selector) {
        return Ok(t);
    }
    let ghost tv = target_views(config.targets@);
    let sel = forward_slashes_exec(&chars_of(selector));
    let mut found: Vec<usize> = Vec::new();
    let mut names: Vec<char> = Vec::new();
    let mut i: usize = 0;
    while i < config.targets.len()
        invariant
            0 <= i <= config.targets@.len(),
            tv == target_views(config.targets@),
            sel@ == forward_slashes(selector@),
            found@.len() == selected(config_path@, tv.take(i as int), selector@).len(),
            forall|j: int| 0 <= j < found@.len() ==> found@[j] as int == #[trigger] selected(
                config_path@,
                tv.take(i as int),
                selector@,
            )[j],
            names@ == joined_names(tv, selected(config_path@, tv.take(i as int), selector@)),
            forall|j: int| 0 <= j < found@.len() ==> found@[j] < i,
        decreases config.targets@.len() - i,
    {
        let t = &config.targets[i];
        assert(tv[i as int] == t@);
        let own = forward_slashes_exec(&chars_of(t.output_path.as_str()));
        let loc = resolve_render_target_output(config_path, t);
        let loc_norm = forward_slashes_exec(&chars_of(loc.as_str()));
        let hit = chars_eq(&own, &sel) || chars_eq(&loc_norm, &sel);
        let ghost prev = selected(config_path@, tv.take(i as int), selector@);
        assert(tv.take(i + 1).drop_last() =~= tv.take(i as int));
        assert(tv.take(i + 1).last() == tv[i as int]);
        if hit {
            if found.len() > 0 {
                append_str(&mut names, ", ");
            }
            let nm = chars_of(t.name.as_str());
            append_chars(&mut names, &nm);
            found.push(i);
            let ghost now = selected(config_path@, tv.take(i + 1), selector@);
            assert(now == prev.push(i as int));
            assert(now.drop_last() =~= prev);
            assert(prev.len() == 0 ==> now.len() == 1 && now[0] == i);
        }
        i += 1;
    }
    assert(tv.take(config.targets@.len() as int) =~= tv);
    proof {
        lemma_find_by_name(tv, selector@);
        lemma_selected_bounds(config_path@, tv, selector@);
    }
    if found.len() == 1 {
        Ok(&config.targets[found[0]])
    } else if found.len() == 0 {
        Err(TargetConfigError::NotFound(string_from_chars(sel)))
    } else {
        Err(
            TargetConfigError::AmbiguousSelector {
                selector: string_from_chars(sel),
                matches: string_from_chars(names),
            },
        )
    }
}

} // verus!
