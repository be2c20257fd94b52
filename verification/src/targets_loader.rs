//! Target configuration files as written, and how they become render targets:
//! the `scope` shorthand, config-level defaults, file kinds inferred from
//! well-known paths, shared schemas and file/folder trees.
use vstd::prelude::*;

use crate::paths::{
    forward_slashes, forward_slashes_exec, parent_or_dot, parent_or_dot_exec, path_extension,
    path_extension_exec, path_file_name, path_file_name_exec, path_join, path_join_exec,
    path_parent, path_parent_exec,
};
use crate::targets_model::{
    copy_nodes, lemma_node_views_add, lemma_node_views_eq, lemma_node_views_index, node_view, node_views, or_else,
    target_views, NodeView, RenderTarget, RenderTargetNode, TargetView,
};
use crate::targets_query::{ConfigErrorView, TargetConfigError};
use crate::text::{
    chars_end_with, chars_eq, chars_of, chars_start_with, copy_range, ends_with,
    first_index_exec, first_index_of, lemma_first_index_of, opt_string_view, starts_with,
    string_from_chars, string_views,
};

verus! {

/// The `defaults:` block of a configuration file.
pub struct RawTargetDefaults {
    pub repo_scope: Option<String>,
    pub file_kind: Option<String>,
    pub path_scope: Option<String>,
    pub section: Option<String>,
    pub state: Option<String>,
}

/// Blocks that every target using a schema must declare, by target kind.
pub struct RenderTargetRequiredBlocks {
    pub root: Vec<String>,
    pub child: Vec<String>,
}

/// A named outline shared by several targets.
pub struct RenderTargetSchema {
    pub name: String,
    pub nodes: Vec<RenderTargetNode>,
    pub required_blocks: RenderTargetRequiredBlocks,
}

/// Whether a target is a repository's root document or a child one.
#[derive(Clone, Copy, PartialEq, Eq, Structural, Debug)]
pub enum RenderTargetKind {
    Root,
    Child,
}

/// How a target's own nodes combine with its schema's outline.
#[derive(Clone, Copy, PartialEq, Eq, Structural, Debug)]
pub enum RenderTargetNodeMode {
    Replace,
    Append,
}

/// A target as listed under `targets:`.
pub struct RawRenderTarget {
    pub name: String,
    pub scope: Option<String>,
    pub repo_scope: Option<String>,
    pub file_kind: Option<String>,
    pub path_scope: Option<String>,
    pub section: Option<String>,
    pub state: Option<String>,
    pub nodes: Vec<RenderTargetNode>,
    pub output_path: Option<String>,
    pub schema: Option<String>,
    pub target_kind: Option<RenderTargetKind>,
    pub node_mode: Option<RenderTargetNodeMode>,
}

/// A target attached to a file of the `files:`/`folders:` tree.
pub struct RenderTargetDefinition {
    pub name: String,
    pub scope: Option<String>,
    pub repo_scope: Option<String>,
    pub file_kind: Option<String>,
    pub path_scope: Option<String>,
    pub section: Option<String>,
    pub state: Option<String>,
    pub nodes: Vec<RenderTargetNode>,
    pub schema: Option<String>,
    pub target_kind: Option<RenderTargetKind>,
    pub node_mode: Option<RenderTargetNodeMode>,
}

/// A file of the tree, named relative to its folder.
pub struct RenderTargetFile {
    pub name: String,
    pub target: RenderTargetDefinition,
}

/// A folder of the tree.
pub struct RenderTargetFolder {
    pub name: String,
    pub folders: Vec<RenderTargetFolder>,
    pub files: Vec<RenderTargetFile>,
}

/// One configuration file as written.
pub struct RawRenderTargetConfig {
    pub imports: Vec<String>,
    pub defaults: RawTargetDefaults,
    pub schemas: Vec<RenderTargetSchema>,
    pub targets: Vec<RawRenderTarget>,
    pub folders: Vec<RenderTargetFolder>,
    pub files: Vec<RenderTargetFile>,
}

impl RenderTargetKind {
    pub open spec fn name(self) -> Seq<char> {
        match self {
            RenderTargetKind::Root => "root"@,
            RenderTargetKind::Child => "child"@,
        }
    }

    pub fn as_str(self) -> (r: &'static str)
        ensures
            r@ == self.name(),
    {
        match self {
            RenderTargetKind::Root => "root",
            RenderTargetKind::Child => "child",
        }
    }
}

// ---------------------------------------------------------------------------
// The `scope` shorthand and inferred file kinds

/// `repo:path` split at its first colon, both parts non-empty.
pub open spec fn scope_split(scope: Seq<char>) -> Option<(Seq<char>, Seq<char>)> {
    match first_index_of(scope, ':') {
        Some(k) => if k > 0 && k + 1 < scope.len() {
            Some((scope.take(k), scope.skip(k + 1)))
        } else {
            None
        },
        None => None,
    }
}

/// Parses a `scope` shorthand like `"repo_scope:path_scope"` into
/// `(repo_scope, path_scope)`; both parts must be non-empty.
pub fn parse_scope(target_name: &str, scope: &str) -> (r: Result<(String, String), TargetConfigError>)
    ensures
        match scope_split(scope@) {
            Some((repo, path)) => r matches Ok((a, b)) && a@ == repo && b@ == path,
            None => r matches Err(e) && e@ == (ConfigErrorView::InvalidScope {
                target: target_name@,
                scope: scope@,
            }),
        },
{
    let v = chars_of(scope);
    proof {
        lemma_first_index_of(v@, ':');
    }
    match first_index_exec(&v, ':') {
        Some(k) => {
            assert(k < v@.len());
            if k > 0 && k < v.len() - 1 {
                let repo = copy_range(&v, 0, k);
                let path = copy_range(&v, k + 1, v.len());
                assert(repo@ =~= scope@.take(k as int));
                assert(path@ =~= scope@.skip(k + 1));
                return Ok((string_from_chars(repo), string_from_chars(path)));
            }
        },
        None => {},
    }
    Err(TargetConfigError::InvalidScope { target: target_name.to_owned(), scope: scope.to_owned() })
}

/// A scope shorthand splits at its first colon: the two parts, joined with a
/// colon, give the shorthand back, and the repository part holds no colon.
pub proof fn lemma_scope_split_roundtrip(scope: Seq<char>)
    ensures
        scope_split(scope) matches Some((repo, path)) ==> repo + ":"@ + path == scope
            && !repo.contains(':') && repo.len() > 0 && path.len() > 0,
{
    reveal_strlit(":");
    lemma_first_index_of(scope, ':');
    match first_index_of(scope, ':') {
        Some(k) => {
            if k > 0 && k + 1 < scope.len() {
                assert(scope.take(k) + ":"@ + scope.skip(k + 1) =~= scope);
                assert forall|j: int| 0 <= j < scope.take(k).len() implies scope.take(k)[j] != ':' by {
                    assert(scope.take(k)[j] == scope[j]);
                }
            }
        },
        None => {},
    }
}

/// The last `/`-separated part of a path.
pub open spec fn last_segment(path: Seq<char>) -> Seq<char> {
    match crate::paths::last_index_of(path, '/') {
        Some(k) => path.skip(k + 1),
        None => path,
    }
}

/// The file kind that a well-known path implies.
pub open spec fn inferred_file_kind(path: Seq<char>) -> Option<Seq<char>> {
    let name = last_segment(path);
    if name == "AGENTS.md"@ {
        Some("AGENTS"@)
    } else if name == "README.md"@ {
        Some("README"@)
    } else if name == "copilot-instructions.md"@ {
        Some("copilot-instructions"@)
    } else if ends_with(name, ".agent.md"@) {
        Some(".agent"@)
    } else if ends_with(name, ".prompt.md"@) {
        Some(".prompt"@)
    } else if ends_with(name, ".instructions.md"@) {
        Some(".instructions"@)
    } else if starts_with(path, ".spec/specs/"@) {
        Some("spec-doc"@)
    } else {
        None
    }
}

pub open spec fn static_str_view(o: Option<&'static str>) -> Option<Seq<char>> {
    match o {
        Some(s) => Some(s@),
        None => None,
    }
}

/// Infers `file_kind` from a well-known path pattern; `None` when the path
/// matches no recognised convention.
pub fn infer_file_kind(path: &str) -> (r: Option<&'static str>)
    ensures
        static_str_view(r) == inferred_file_kind(path@),
{
    let v = chars_of(path);
    let name = match crate::paths::last_index_exec(&v, v.len(), '/') {
        Some(k) => copy_range(&v, k + 1, v.len()),
        None => copy_range(&v, 0, v.len()),
    };
    proof {
        crate::paths::lemma_last_index_of(v@, '/');
        assert(v@.take(v@.len() as int) =~= v@);
        match crate::paths::last_index_of(v@, '/') {
            Some(k) => {
                assert(name@ =~= v@.skip(k + 1));
            },
            None => {
                assert(name@ =~= v@);
            },
        }
    }
    if chars_eq(&name, &chars_of("AGENTS.md")) {
        Some("AGENTS")
    } else if chars_eq(&name, &chars_of("README.md")) {
        Some("README")
    } else if chars_eq(&name, &chars_of("copilot-instructions.md")) {
        Some("copilot-instructions")
    } else if chars_end_with(&name, &chars_of(".agent.md")) {
        Some(".agent")
    } else if chars_end_with(&name, &chars_of(".prompt.md")) {
        Some(".prompt")
    } else if chars_end_with(&name, &chars_of(".instructions.md")) {
        Some(".instructions")
    } else if chars_start_with(&v, &chars_of(".spec/specs/")) {
        Some("spec-doc")
    } else {
        None
    }
}

/// `repo_scope`, `file_kind` and `path_scope` of a target: explicit fields
/// first, then the `scope` shorthand, then the defaults; the file kind last
/// of all inferred from the path scope.
pub open spec fn scope_fields(
    target_name: Seq<char>,
    repo_scope: Option<Seq<char>>,
    file_kind: Option<Seq<char>>,
    path_scope: Option<Seq<char>>,
    scope: Option<Seq<char>>,
    defaults: RawTargetDefaults,
) -> Result<(Seq<char>, Seq<char>, Option<Seq<char>>), ConfigErrorView> {
    let split = match scope {
        Some(s) => match scope_split(s) {
            Some(p) => Ok(Some(p)),
            None => Err(ConfigErrorView::InvalidScope { target: target_name, scope: s }),
        },
        None => Ok(None),
    };
    match split {
        Err(e) => Err(e),
        Ok(sp) => {
            let scope_repo = match sp {
                Some(p) => Some(p.0),
                None => None,
            };
            let scope_path = match sp {
                Some(p) => Some(p.1),
                None => None,
            };
            match or_else(repo_scope, or_else(scope_repo, opt_string_view(defaults.repo_scope))) {
                None => Err(ConfigErrorView::MissingRepoScope { target: target_name }),
                Some(repo) => {
                    let path = or_else(
                        path_scope,
                        or_else(scope_path, opt_string_view(defaults.path_scope)),
                    );
                    let inferred = match path {
                        Some(p) => inferred_file_kind(p),
                        None => None,
                    };
                    match or_else(
                        file_kind,
                        or_else(opt_string_view(defaults.file_kind), inferred),
                    ) {
                        None => Err(ConfigErrorView::MissingFileKind { target: target_name }),
                        Some(kind) => Ok((repo, kind, path)),
                    }
                },
            }
        },
    }
}

pub open spec fn scope_result_view(r: Result<(String, String, Option<String>), TargetConfigError>) -> Result<
    (Seq<char>, Seq<char>, Option<Seq<char>>),
    ConfigErrorView,
> {
    match r {
        Ok((a, b, c)) => Ok((a@, b@, opt_string_view(c))),
        Err(e) => Err(e@),
    }
}

fn first_of(a: &Option<String>, b: &Option<String>) -> (r: Option<String>)
    ensures
        opt_string_view(r) == or_else(opt_string_view(*a), opt_string_view(*b)),
{
    match a {
        Some(s) => Some(s.clone()),
        None => match b {
            Some(s) => Some(s.clone()),
            None => None,
        },
    }
}

/// Resolves `repo_scope`, `file_kind`, and `path_scope` for a target by
/// merging the explicit fields, the `scope` shorthand, and the config-level
/// `defaults` (in that precedence order).
pub fn resolve_scope_fields(
    target_name: &str,
    explicit_repo_scope: &Option<String>,
    explicit_file_kind: &Option<String>,
    explicit_path_scope: &Option<String>,
    scope: &Option<String>,
    defaults: &RawTargetDefaults,
) -> (r: Result<(String, String, Option<String>), TargetConfigError>)
    ensures
        scope_result_view(r) == scope_fields(
            target_name@,
            opt_string_view(*explicit_repo_scope),
            opt_string_view(*explicit_file_kind),
            opt_string_view(*explicit_path_scope),
            opt_string_view(*scope),
            *defaults,
        ),
{
    let mut scope_repo: Option<String> = None;
    let mut scope_path: Option<String> = None;
    if let Some(s) = scope {
        match parse_scope(target_name, s.as_str()) {
            Ok((a, b)) => {
                scope_repo = Some(a);
                scope_path = Some(b);
            },
            Err(e) => {
                return Err(e);
            },
        }
    }
    let repo_default = first_of(&scope_repo, &defaults.repo_scope);
    let repo = match first_of(explicit_repo_scope, &repo_default) {
        Some(r) => r,
        None => {
            return Err(TargetConfigError::MissingRepoScope { target: target_name.to_owned() });
        },
    };
    let path_default = first_of(&scope_path, &defaults.path_scope);
    let path = first_of(explicit_path_scope, &path_default);
    let inferred: Option<String> = match &path {
        Some(p) => match infer_file_kind(p.as_str()) {
            Some(k) => Some(k.to_owned()),
            None => None,
        },
        None => None,
    };
    let kind_default = first_of(&defaults.file_kind, &inferred);
    let kind = match first_of(explicit_file_kind, &kind_default) {
        Some(k) => k,
        None => {
            return Err(TargetConfigError::MissingFileKind { target: target_name.to_owned() });
        },
    };
    Ok((repo, kind, path))
}

// ---------------------------------------------------------------------------
// Paths of configuration files and tree targets

/// The output path of a tree file: its folder path joined with its name,
/// with forward slashes.
pub open spec fn tree_output(parent: Seq<char>, name: Seq<char>) -> Seq<char> {
    forward_slashes(path_join(parent, name))
}

pub fn tree_output_path(parent: &str, name: &str) -> (r: String)
    ensures
        r@ == tree_output(parent@, name@),
{
    let joined = path_join_exec(&chars_of(parent), &chars_of(name));
    string_from_chars(forward_slashes_exec(&joined))
}

/// Searching `dir` and its ancestors for a directory named `rule-targets`:
/// the parent of the first one found.
pub open spec fn rule_targets_parent(dir: Seq<char>) -> Option<Seq<char>>
    decreases dir.len(),
{
    if path_file_name(dir) == Some("rule-targets"@) {
        Some(parent_or_dot(dir))
    } else {
        match path_parent(dir) {
            Some(p) => if p.len() < dir.len() {
                rule_targets_parent(p)
            } else {
                None
            },
            None => None,
        }
    }
}

/// Where the outputs of a configuration file are rooted: the parent of an
/// enclosing `rule-targets` directory, else the file's own directory.
pub open spec fn config_output_root(config_path: Seq<char>) -> Seq<char> {
    let dir = parent_or_dot(config_path);
    match rule_targets_parent(dir) {
        Some(root) => root,
        None => dir,
    }
}

pub fn resolve_config_output_root(config_path: &str) -> (r: String)
    ensures
        r@ == config_output_root(config_path@),
{
    let dir = parent_or_dot_exec(&chars_of(config_path));
    let marker = chars_of("rule-targets");
    let mut cur = copy_range(&dir, 0, dir.len());
    assert(cur@ =~= dir@);
    loop
        invariant
            dir@ == parent_or_dot(config_path@),
            rule_targets_parent(dir@) == rule_targets_parent(cur@),
            marker@ == "rule-targets"@,
        decreases cur@.len(),
    {
        if let Some(name) = path_file_name_exec(&cur) {
            if chars_eq(&name, &marker) {
                return string_from_chars(parent_or_dot_exec(&cur));
            }
        }
        match path_parent_exec(&cur) {
            Some(p) => {
                if p.len() < cur.len() {
                    cur = p;
                } else {
                    return string_from_chars(dir);
                }
            },
            None => {
                return string_from_chars(dir);
            },
        }
    }
}

/// An import is read relative to the directory of the file naming it.
pub open spec fn import_location(config_path: Seq<char>, import: Seq<char>) -> Seq<char> {
    path_join(parent_or_dot(config_path), import)
}

pub fn resolve_import_path(config_path: &str, import: &str) -> (r: String)
    ensures
        r@ == import_location(config_path@, import@),
{
    let dir = parent_or_dot_exec(&chars_of(config_path));
    string_from_chars(path_join_exec(&dir, &chars_of(import)))
}

/// Configuration files are YAML (`.yaml`, `.yml`) or TOML (`.toml`).
pub open spec fn is_config_file_name(path: Seq<char>) -> bool {
    path_extension(path) == Some("yaml"@) || path_extension(path) == Some("yml"@)
        || path_extension(path) == Some("toml"@)
}

pub fn is_supported_render_target_config(path: &str) -> (r: bool)
    ensures
        r == is_config_file_name(path@),
{
    match path_extension_exec(&chars_of(path)) {
        Some(ext) => chars_eq(&ext, &chars_of("yaml")) || chars_eq(&ext, &chars_of("yml"))
            || chars_eq(&ext, &chars_of("toml")),
        None => false,
    }
}

/// A configuration file is read as YAML when its extension says so, and as
/// TOML otherwise.
pub open spec fn is_yaml_file_name(path: Seq<char>) -> bool {
    path_extension(path) == Some("yaml"@) || path_extension(path) == Some("yml"@)
}

pub fn is_yaml_config(path: &str) -> (r: bool)
    ensures
        r == is_yaml_file_name(path@),
{
    match path_extension_exec(&chars_of(path)) {
        Some(ext) => chars_eq(&ext, &chars_of("yaml")) || chars_eq(&ext, &chars_of("yml")),
        None => false,
    }
}

// ---------------------------------------------------------------------------
// Schemas

/// A schema as values: its name, outline and required blocks.
pub struct SchemaView {
    pub name: Seq<char>,
    pub nodes: Seq<NodeView>,
    pub root: Seq<Seq<char>>,
    pub child: Seq<Seq<char>>,
}

impl View for RenderTargetSchema {
    type V = SchemaView;

    open spec fn view(&self) -> SchemaView {
        SchemaView {
            name: self.name@,
            nodes: node_views(self.nodes@),
            root: string_views(self.required_blocks.root@),
            child: string_views(self.required_blocks.child@),
        }
    }
}

pub open spec fn schema_views(s: Seq<RenderTargetSchema>) -> Seq<SchemaView> {
    Seq::new(s.len(), |i: int| s[i]@)
}

/// Whether two outline lists are equal, node by node.
pub fn nodes_same(a: &Vec<RenderTargetNode>, b: &Vec<RenderTargetNode>) -> (r: bool)
    ensures
        r == (node_views(a@) == node_views(b@)),
{
    proof {
        lemma_node_views_eq(a@, b@);
    }
    if a.len() != b.len() {
        return false;
    }
    let mut i: usize = 0;
    while i < a.len()
        invariant
            0 <= i <= a@.len(),
            a@.len() == b@.len(),
            forall|j: int| 0 <= j < i ==> node_view(#[trigger] a@[j]) == node_view(b@[j]),
            (node_views(a@) == node_views(b@)) == (forall|j: int|
                0 <= j < a@.len() ==> node_view(#[trigger] a@[j]) == node_view(b@[j])),
        decreases a@.len() - i,
    {
        if !a[i].same_as(&b[i]) {
            return false;
        }
        i += 1;
    }
    true
}

impl RenderTargetSchema {
    /// Whether two schemas are identical.
    pub fn same_as(&self, other: &RenderTargetSchema) -> (r: bool)
        ensures
            r == (self@ == other@),
    {
        crate::text::str_eq(self.name.as_str(), other.name.as_str()) && nodes_same(&self.nodes, &other.nodes)
            && crate::text::strings_eq(&self.required_blocks.root, &other.required_blocks.root)
            && crate::text::strings_eq(&self.required_blocks.child, &other.required_blocks.child)
    }

    pub fn duplicate(&self) -> (r: Self)
        ensures
            r@ == self@,
    {
        RenderTargetSchema {
            name: self.name.clone(),
            nodes: copy_nodes(&self.nodes),
            required_blocks: RenderTargetRequiredBlocks {
                root: crate::text::clone_strings(&self.required_blocks.root),
                child: crate::text::clone_strings(&self.required_blocks.child),
            },
        }
    }
}

/// The first schema with the given name.
pub open spec fn find_schema(s: Seq<SchemaView>, name: Seq<char>) -> Option<SchemaView>
    decreases s.len(),
{
    if s.len() == 0 {
        None
    } else {
        match find_schema(s.drop_last(), name) {
            Some(x) => Some(x),
            None => if s.last().name == name {
                Some(s.last())
            } else {
                None
            },
        }
    }
}

pub proof fn lemma_find_schema(s: Seq<SchemaView>, name: Seq<char>)
    ensures
        match find_schema(s, name) {
            Some(x) => exists|i: int| 0 <= i < s.len() && s[i] == x && x.name == name,
            None => forall|i: int| 0 <= i < s.len() ==> s[i].name != name,
        },
    decreases s.len(),
{
    if s.len() > 0 {
        let init = s.drop_last();
        lemma_find_schema(init, name);
        assert forall|i: int| 0 <= i < init.len() implies init[i] == s[i] by {}
        match find_schema(init, name) {
            Some(x) => {
                let i = choose|i: int| 0 <= i < init.len() && init[i] == x && x.name == name;
                assert(s[i] == x);
            },
            None => {
                assert(s[s.len() - 1] == s.last());
            },
        }
    }
}

/// Position of the first schema named `name`.
pub(crate) fn schema_position(schemas: &Vec<RenderTargetSchema>, name: &str) -> (r: Option<usize>)
    ensures
        match r {
            Some(i) => i < schemas@.len() && find_schema(schema_views(schemas@), name@) == Some(
                schemas@[i as int]@,
            ),
            None => find_schema(schema_views(schemas@), name@) is None,
        },
{
    let ghost sv = schema_views(schemas@);
    let mut i: usize = 0;
    while i < schemas.len()
        invariant
            0 <= i <= schemas@.len(),
            sv == schema_views(schemas@),
            find_schema(sv.take(i as int), name@) is None,
        decreases schemas@.len() - i,
    {
        assert(sv.take(i + 1).drop_last() =~= sv.take(i as int));
        assert(sv.take(i + 1).last() == schemas@[i as int]@);
        if crate::text::str_eq(schemas[i].name.as_str(), name) {
            assert(find_schema(sv.take(i + 1), name@) == Some(schemas@[i as int]@));
            proof {
                lemma_find_schema_prefix(sv, name@, i + 1);
            }
            return Some(i);
        }
        i += 1;
    }
    assert(sv.take(schemas@.len() as int) =~= sv);
    None
}

proof fn lemma_find_schema_prefix(s: Seq<SchemaView>, name: Seq<char>, n: int)
    requires
        0 <= n <= s.len(),
        find_schema(s.take(n), name) is Some,
    ensures
        find_schema(s, name) == find_schema(s.take(n), name),
    decreases s.len() - n,
{
    if n < s.len() {
        assert(s.take(n + 1).drop_last() =~= s.take(n));
        lemma_find_schema_prefix(s, name, n + 1);
    } else {
        assert(s.take(n) =~= s);
    }
}

/// Whether some top-level node has the given name.
pub open spec fn has_block(nodes: Seq<NodeView>, name: Seq<char>) -> bool {
    exists|j: int| 0 <= j < nodes.len() && (#[trigger] nodes[j]).name == name
}

/// The first required block that no top-level node provides.
pub open spec fn first_missing(required: Seq<Seq<char>>, nodes: Seq<NodeView>) -> Option<Seq<char>>
    decreases required.len(),
{
    if required.len() == 0 {
        None
    } else {
        match first_missing(required.drop_last(), nodes) {
            Some(b) => Some(b),
            None => if has_block(nodes, required.last()) {
                None
            } else {
                Some(required.last())
            },
        }
    }
}

/// The blocks a schema requires of a target of the given kind are present.
pub open spec fn required_blocks_check(
    target_name: Seq<char>,
    schema: SchemaView,
    target_kind: Option<RenderTargetKind>,
    nodes: Seq<NodeView>,
) -> Result<(), ConfigErrorView> {
    match target_kind {
        None => Ok(()),
        Some(kind) => {
            let required = match kind {
                RenderTargetKind::Root => schema.root,
                RenderTargetKind::Child => schema.child,
            };
            match first_missing(required, nodes) {
                None => Ok(()),
                Some(block) => Err(
                    ConfigErrorView::MissingRequiredBlock {
                        target: target_name,
                        schema: schema.name,
                        target_kind: kind.name(),
                        block,
                    },
                ),
            }
        },
    }
}

fn nodes_have_name(nodes: &Vec<RenderTargetNode>, name: &str) -> (r: bool)
    ensures
        r == has_block(node_views(nodes@), name@),
{
    proof {
        lemma_node_views_index(nodes@);
    }
    let ghost nv = node_views(nodes@);
    let mut i: usize = 0;
    while i < nodes.len()
        invariant
            0 <= i <= nodes@.len(),
            nv == node_views(nodes@),
            nv.len() == nodes@.len(),
            forall|j: int| 0 <= j < nodes@.len() ==> #[trigger] nv[j] == node_view(nodes@[j]),
            forall|j: int| 0 <= j < i ==> (#[trigger] nv[j]).name != name@,
        decreases nodes@.len() - i,
    {
        assert(nv[i as int] == node_view(nodes@[i as int]));
        if crate::text::str_eq(nodes[i].name.as_str(), name) {
            assert(nv[i as int].name == name@);
            return true;
        }
        i += 1;
    }
    false
}

/// Position of the first required block that no top-level node provides.
fn first_missing_position(required: &Vec<String>, nodes: &Vec<RenderTargetNode>) -> (r: Option<
    usize,
>)
    ensures
        match r {
            Some(i) => i < required@.len() && first_missing(
                string_views(required@),
                node_views(nodes@),
            ) == Some(required@[i as int]@),
            None => first_missing(string_views(required@), node_views(nodes@)) is None,
        },
{
    let ghost rv = string_views(required@);
    let ghost nv = node_views(nodes@);
    let mut i: usize = 0;
    while i < required.len()
        invariant
            0 <= i <= required@.len(),
            rv == string_views(required@),
            nv == node_views(nodes@),
            first_missing(rv.take(i as int), nv) is None,
        decreases required@.len() - i,
    {
        assert(rv.take(i + 1).drop_last() =~= rv.take(i as int));
        assert(rv.take(i + 1).last() == required@[i as int]@);
        if !nodes_have_name(nodes, required[i].as_str()) {
            proof {
                lemma_first_missing_prefix(rv, nv, i + 1);
            }
            return Some(i);
        }
        i += 1;
    }
    assert(rv.take(required@.len() as int) =~= rv);
    None
}

pub fn validate_required_blocks(
    target_name: &str,
    schema: &RenderTargetSchema,
    target_kind: Option<RenderTargetKind>,
    nodes: &Vec<RenderTargetNode>,
) -> (r: Result<(), TargetConfigError>)
    ensures
        match r {
            Ok(()) => required_blocks_check(target_name@, schema@, target_kind, node_views(nodes@))
                is Ok,
            Err(e) => required_blocks_check(
                target_name@,
                schema@,
                target_kind,
                node_views(nodes@),
            ) == Err::<(), ConfigErrorView>(e@),
        },
{
    let kind = match target_kind {
        None => {
            return Ok(());
        },
        Some(k) => k,
    };
    let block = match kind {
        RenderTargetKind::Root => match first_missing_position(&schema.required_blocks.root, nodes) {
            Some(i) => schema.required_blocks.root[i].clone(),
            None => {
                return Ok(());
            },
        },
        RenderTargetKind::Child => match first_missing_position(
            &schema.required_blocks.child,
            nodes,
        ) {
            Some(i) => schema.required_blocks.child[i].clone(),
            None => {
                return Ok(());
            },
        },
    };
    Err(
        TargetConfigError::MissingRequiredBlock {
            target: target_name.to_owned(),
            schema: schema.name.clone(),
            target_kind: kind.as_str().to_owned(),
            block,
        },
    )
}

proof fn lemma_first_missing_prefix(s: Seq<Seq<char>>, nodes: Seq<NodeView>, n: int)
    requires
        0 <= n <= s.len(),
        first_missing(s.take(n), nodes) is Some,
    ensures
        first_missing(s, nodes) == first_missing(s.take(n), nodes),
    decreases s.len() - n,
{
    if n < s.len() {
        assert(s.take(n + 1).drop_last() =~= s.take(n));
        lemma_first_missing_prefix(s, nodes, n + 1);
    } else {
        assert(s.take(n) =~= s);
    }
}

/// A target's outline once its schema is applied: the schema's outline when
/// the target lists no nodes, both in order under `node_mode: append`, and
/// the target's own nodes otherwise; the schema's required blocks checked.
pub open spec fn resolved_nodes(
    target_name: Seq<char>,
    nodes: Seq<NodeView>,
    schema_name: Option<Seq<char>>,
    target_kind: Option<RenderTargetKind>,
    node_mode: Option<RenderTargetNodeMode>,
    schemas: Seq<SchemaView>,
) -> Result<Seq<NodeView>, ConfigErrorView> {
    match schema_name {
        None => Ok(nodes),
        Some(name) => match find_schema(schemas, name) {
            None => Err(ConfigErrorView::UnknownSchema { target: target_name, schema: name }),
            Some(schema) => {
                let resolved = if nodes.len() == 0 {
                    schema.nodes
                } else if node_mode == Some(RenderTargetNodeMode::Append) {
                    schema.nodes + nodes
                } else {
                    nodes
                };
                match required_blocks_check(target_name, schema, target_kind, resolved) {
                    Ok(_) => Ok(resolved),
                    Err(e) => Err(e),
                }
            },
        },
    }
}

pub open spec fn nodes_result_view(r: Result<Vec<RenderTargetNode>, TargetConfigError>) -> Result<
    Seq<NodeView>,
    ConfigErrorView,
> {
    match r {
        Ok(v) => Ok(node_views(v@)),
        Err(e) => Err(e@),
    }
}

pub fn resolve_target_nodes(
    target_name: &str,
    nodes: &Vec<RenderTargetNode>,
    schema_name: &Option<String>,
    target_kind: Option<RenderTargetKind>,
    node_mode: Option<RenderTargetNodeMode>,
    schemas: &Vec<RenderTargetSchema>,
) -> (r: Result<Vec<RenderTargetNode>, TargetConfigError>)
    ensures
        nodes_result_view(r) == resolved_nodes(
            target_name@,
            node_views(nodes@),
            opt_string_view(*schema_name),
            target_kind,
            node_mode,
            schema_views(schemas@),
        ),
{
    let name = match schema_name {
        None => {
            return Ok(copy_nodes(nodes));
        },
        Some(n) => n,
    };
    let pos = match schema_position(schemas, name.as_str()) {
        None => {
            return Err(
                TargetConfigError::UnknownSchema {
                    target: target_name.to_owned(),
                    schema: name.clone(),
                },
            );
        },
        Some(p) => p,
    };
    let schema = &schemas[pos];
    proof {
        lemma_node_views_index(nodes@);
    }
    let resolved = if nodes.len() == 0 {
        copy_nodes(&schema.nodes)
    } else if node_mode == Some(RenderTargetNodeMode::Append) {
        let mut merged = copy_nodes(&schema.nodes);
        let mut own = copy_nodes(nodes);
        let ghost m0 = merged@;
        let ghost o0 = own@;
        merged.append(&mut own);
        proof {
            lemma_node_views_add(m0, o0);
        }
        merged
    } else {
        copy_nodes(nodes)
    };
    match validate_required_blocks(target_name, schema, target_kind, &resolved) {
        Ok(()) => Ok(resolved),
        Err(e) => Err(e),
    }
}

// ---------------------------------------------------------------------------
// From configuration entries to render targets

pub open spec fn target_result_view(r: Result<RenderTarget, TargetConfigError>) -> Result<
    TargetView,
    ConfigErrorView,
> {
    match r {
        Ok(t) => Ok(t@),
        Err(e) => Err(e@),
    }
}

/// A render target assembled from its resolved parts; it remembers the file
/// it came from and where that file's outputs are rooted.
pub open spec fn assembled_target(
    name: Seq<char>,
    fields: (Seq<char>, Seq<char>, Option<Seq<char>>),
    section: Option<Seq<char>>,
    state: Option<Seq<char>>,
    nodes: Seq<NodeView>,
    output_path: Seq<char>,
    config_path: Seq<char>,
) -> TargetView {
    TargetView {
        name,
        repo_scope: fields.0,
        file_kind: fields.1,
        path_scope: fields.2,
        section,
        state,
        nodes,
        output_path,
        source_config_path: Some(config_path),
        source_output_root: Some(config_output_root(config_path)),
    }
}

/// A target listed under `targets:`; without `output_path` its path scope is
/// the output.
pub open spec fn raw_target(
    t: RawRenderTarget,
    config_path: Seq<char>,
    schemas: Seq<SchemaView>,
    defaults: RawTargetDefaults,
) -> Result<TargetView, ConfigErrorView> {
    match scope_fields(
        t.name@,
        opt_string_view(t.repo_scope),
        opt_string_view(t.file_kind),
        opt_string_view(t.path_scope),
        opt_string_view(t.scope),
        defaults,
    ) {
        Err(e) => Err(e),
        Ok(fields) => match or_else(opt_string_view(t.output_path), fields.2) {
            None => Err(ConfigErrorView::MissingOutputPath { target: t.name@ }),
            Some(output_path) => match resolved_nodes(
                t.name@,
                node_views(t.nodes@),
                opt_string_view(t.schema),
                t.target_kind,
                t.node_mode,
                schemas,
            ) {
                Err(e) => Err(e),
                Ok(nodes) => Ok(
                    assembled_target(
                        t.name@,
                        fields,
                        or_else(opt_string_view(t.section), opt_string_view(defaults.section)),
                        or_else(opt_string_view(t.state), opt_string_view(defaults.state)),
                        nodes,
                        output_path,
                        config_path,
                    ),
                ),
            },
        },
    }
}

/// A target of the file tree: its output is the file's place in the tree,
/// unless it names a path scope (directly or by `scope`), which then wins.
pub open spec fn tree_target(
    t: RenderTargetDefinition,
    default_output_path: Seq<char>,
    config_path: Seq<char>,
    schemas: Seq<SchemaView>,
    defaults: RawTargetDefaults,
) -> Result<TargetView, ConfigErrorView> {
    match scope_fields(
        t.name@,
        opt_string_view(t.repo_scope),
        opt_string_view(t.file_kind),
        opt_string_view(t.path_scope),
        opt_string_view(t.scope),
        defaults,
    ) {
        Err(e) => Err(e),
        Ok(fields) => {
            let output_path = if t.path_scope is Some || t.scope is Some {
                match fields.2 {
                    Some(p) => p,
                    None => default_output_path,
                }
            } else {
                default_output_path
            };
            match resolved_nodes(
                t.name@,
                node_views(t.nodes@),
                opt_string_view(t.schema),
                t.target_kind,
                t.node_mode,
                schemas,
            ) {
                Err(e) => Err(e),
                Ok(nodes) => Ok(
                    assembled_target(
                        t.name@,
                        fields,
                        or_else(opt_string_view(t.section), opt_string_view(defaults.section)),
                        or_else(opt_string_view(t.state), opt_string_view(defaults.state)),
                        nodes,
                        output_path,
                        config_path,
                    ),
                ),
            }
        },
    }
}

fn assemble_target(
    name: &String,
    fields: (String, String, Option<String>),
    section: &Option<String>,
    state: &Option<String>,
    defaults: &RawTargetDefaults,
    nodes: Vec<RenderTargetNode>,
    output_path: String,
    config_path: &str,
) -> (r: RenderTarget)
    ensures
        r@ == assembled_target(
            name@,
            (fields.0@, fields.1@, opt_string_view(fields.2)),
            or_else(opt_string_view(*section), opt_string_view(defaults.section)),
            or_else(opt_string_view(*state), opt_string_view(defaults.state)),
            node_views(nodes@),
            output_path@,
            config_path@,
        ),
{
    let (repo_scope, file_kind, path_scope) = fields;
    RenderTarget {
        name: name.clone(),
        repo_scope,
        file_kind,
        path_scope,
        section: first_of(section, &defaults.section),
        state: first_of(state, &defaults.state),
        nodes,
        output_path,
        source_config_path: Some(config_path.to_owned()),
        source_output_root: Some(resolve_config_output_root(config_path)),
    }
}

impl RawRenderTarget {
    pub fn into_render_target(
        &self,
        config_path: &str,
        schemas: &Vec<RenderTargetSchema>,
        defaults: &RawTargetDefaults,
    ) -> (r: Result<RenderTarget, TargetConfigError>)
        ensures
            target_result_view(r) == raw_target(*self, config_path@, schema_views(schemas@), *defaults),
    {
        let fields = match resolve_scope_fields(
            self.name.as_str(),
            &self.repo_scope,
            &self.file_kind,
            &self.path_scope,
            &self.scope,
            defaults,
        ) {
            Ok(f) => f,
            Err(e) => {
                return Err(e);
            },
        };
        let output_path = match first_of(&self.output_path, &fields.2) {
            Some(p) => p,
            None => {
                return Err(TargetConfigError::MissingOutputPath { target: self.name.clone() });
            },
        };
        let nodes = match resolve_target_nodes(
            self.name.as_str(),
            &self.nodes,
            &self.schema,
            self.target_kind,
            self.node_mode,
            schemas,
        ) {
            Ok(n) => n,
            Err(e) => {
                return Err(e);
            },
        };
        Ok(
            assemble_target(
                &self.name,
                fields,
                &self.section,
                &self.state,
                defaults,
                nodes,
                output_path,
                config_path,
            ),
        )
    }
}

impl RenderTargetDefinition {
    pub fn into_render_target(
        &self,
        default_output_path: String,
        config_path: &str,
        schemas: &Vec<RenderTargetSchema>,
        defaults: &RawTargetDefaults,
    ) -> (r: Result<RenderTarget, TargetConfigError>)
        ensures
            target_result_view(r) == tree_target(
                *self,
                default_output_path@,
                config_path@,
                schema_views(schemas@),
                *defaults,
            ),
    {
        let explicit_path_like_output = self.path_scope.is_some() || self.scope.is_some();
        let fields = match resolve_scope_fields(
            self.name.as_str(),
            &self.repo_scope,
            &self.file_kind,
            &self.path_scope,
            &self.scope,
            defaults,
        ) {
            Ok(f) => f,
            Err(e) => {
                return Err(e);
            },
        };
        let output_path = if explicit_path_like_output {
            match &fields.2 {
                Some(p) => p.clone(),
                None => default_output_path,
            }
        } else {
            default_output_path
        };
        let nodes = match resolve_target_nodes(
            self.name.as_str(),
            &self.nodes,
            &self.schema,
            self.target_kind,
            self.node_mode,
            schemas,
        ) {
            Ok(n) => n,
            Err(e) => {
                return Err(e);
            },
        };
        Ok(
            assemble_target(
                &self.name,
                fields,
                &self.section,
                &self.state,
                defaults,
                nodes,
                output_path,
                config_path,
            ),
        )
    }
}

impl RenderTargetFile {
    pub fn into_render_target(
        &self,
        parent: &str,
        config_path: &str,
        schemas: &Vec<RenderTargetSchema>,
        defaults: &RawTargetDefaults,
    ) -> (r: Result<RenderTarget, TargetConfigError>)
        ensures
            target_result_view(r) == tree_target(
                self.target,
                tree_output(parent@, self.name@),
                config_path@,
                schema_views(schemas@),
                *defaults,
            ),
    {
        self.target.into_render_target(
            tree_output_path(parent, self.name.as_str()),
            config_path,
            schemas,
            defaults,
        )
    }
}

/// The targets of a list of tree files under a folder path, in order.
pub open spec fn file_targets(
    files: Seq<RenderTargetFile>,
    parent: Seq<char>,
    config_path: Seq<char>,
    schemas: Seq<SchemaView>,
    defaults: RawTargetDefaults,
) -> Result<Seq<TargetView>, ConfigErrorView>
    decreases files.len(),
{
    if files.len() == 0 {
        Ok(Seq::empty())
    } else {
        match file_targets(files.drop_last(), parent, config_path, schemas, defaults) {
            Err(e) => Err(e),
            Ok(init) => match tree_target(
                files.last().target,
                tree_output(parent, files.last().name@),
                config_path,
                schemas,
                defaults,
            ) {
                Err(e) => Err(e),
                Ok(t) => Ok(init.push(t)),
            },
        }
    }
}

/// The targets of a folder: its files, then its subfolders, depth first.
pub open spec fn folder_targets(
    folder: RenderTargetFolder,
    parent: Seq<char>,
    config_path: Seq<char>,
    schemas: Seq<SchemaView>,
    defaults: RawTargetDefaults,
) -> Result<Seq<TargetView>, ConfigErrorView>
    decreases folder,
{
    let prefix = path_join(parent, folder.name@);
    match file_targets(folder.files@, prefix, config_path, schemas, defaults) {
        Err(e) => Err(e),
        Ok(a) => match folders_targets(folder.folders@, prefix, config_path, schemas, defaults) {
            Err(e) => Err(e),
            Ok(b) => Ok(a + b),
        },
    }
}

/// The targets of a list of folders, in order.
pub open spec fn folders_targets(
    folders: Seq<RenderTargetFolder>,
    parent: Seq<char>,
    config_path: Seq<char>,
    schemas: Seq<SchemaView>,
    defaults: RawTargetDefaults,
) -> Result<Seq<TargetView>, ConfigErrorView>
    decreases folders,
{
    if folders.len() == 0 {
        Ok(Seq::empty())
    } else {
        match folders_targets(folders.drop_last(), parent, config_path, schemas, defaults) {
            Err(e) => Err(e),
            Ok(a) => match folder_targets(folders.last(), parent, config_path, schemas, defaults) {
                Err(e) => Err(e),
                Ok(b) => Ok(a + b),
            },
        }
    }
}

/// Appends the targets of tree files, in order, stopping at the first error.
pub fn push_tree_files(
    parent: &str,
    files: &Vec<RenderTargetFile>,
    config_path: &str,
    schemas: &Vec<RenderTargetSchema>,
    defaults: &RawTargetDefaults,
    targets: &mut Vec<RenderTarget>,
) -> (r: Result<(), TargetConfigError>)
    ensures
        match file_targets(files@, parent@, config_path@, schema_views(schemas@), *defaults) {
            Ok(ts) => r is Ok && target_views(final(targets)@) == target_views(old(targets)@) + ts,
            Err(e) => r == Err::<(), TargetConfigError>(r->Err_0) && r->Err_0@ == e,
        },
{
    let ghost sv = schema_views(schemas@);
    let ghost start = target_views(targets@);
    let mut i: usize = 0;
    while i < files.len()
        invariant
            0 <= i <= files@.len(),
            sv == schema_views(schemas@),
            file_targets(files@.take(i as int), parent@, config_path@, sv, *defaults) matches Ok(
                ts,
            ) && target_views(targets@) == start + ts,
        decreases files@.len() - i,
    {
        assert(files@.take(i + 1).drop_last() =~= files@.take(i as int));
        assert(files@.take(i + 1).last() == files@[i as int]);
        let ghost before = target_views(targets@);
        match files[i].into_render_target(parent, config_path, schemas, defaults) {
            Ok(t) => {
                targets.push(t);
                assert(target_views(targets@) =~= before.push(t@));
            },
            Err(e) => {
                proof {
                    lemma_file_targets_prefix_err(files@, parent@, config_path@, sv, *defaults, i + 1);
                }
                return Err(e);
            },
        }
        i += 1;
    }
    assert(files@.take(files@.len() as int) =~= files@);
    Ok(())
}

proof fn lemma_file_targets_prefix_err(
    files: Seq<RenderTargetFile>,
    parent: Seq<char>,
    config_path: Seq<char>,
    schemas: Seq<SchemaView>,
    defaults: RawTargetDefaults,
    n: int,
)
    requires
        0 <= n <= files.len(),
        file_targets(files.take(n), parent, config_path, schemas, defaults) is Err,
    ensures
        file_targets(files, parent, config_path, schemas, defaults) == file_targets(
            files.take(n),
            parent,
            config_path,
            schemas,
            defaults,
        ),
    decreases files.len() - n,
{
    if n < files.len() {
        assert(files.take(n + 1).drop_last() =~= files.take(n));
        lemma_file_targets_prefix_err(files, parent, config_path, schemas, defaults, n + 1);
    } else {
        assert(files.take(n) =~= files);
    }
}

impl RenderTargetFolder {
    /// Appends the targets of this folder (files first, then subfolders,
    /// depth first), stopping at the first error.
    pub fn collect_targets(
        &self,
        parent: &str,
        config_path: &str,
        schemas: &Vec<RenderTargetSchema>,
        defaults: &RawTargetDefaults,
        targets: &mut Vec<RenderTarget>,
    ) -> (r: Result<(), TargetConfigError>)
        ensures
            match folder_targets(*self, parent@, config_path@, schema_views(schemas@), *defaults) {
                Ok(ts) => r is Ok && target_views(final(targets)@) == target_views(old(targets)@)
                    + ts,
                Err(e) => r == Err::<(), TargetConfigError>(r->Err_0) && r->Err_0@ == e,
            },
        decreases *self,
    {
        let prefix = string_from_chars(path_join_exec(&chars_of(parent), &chars_of(self.name.as_str())));
        let ghost start = target_views(targets@);
        match push_tree_files(prefix.as_str(), &self.files, config_path, schemas, defaults, targets) {
            Ok(()) => {},
            Err(e) => {
                return Err(e);
            },
        }
        let ghost after_files = target_views(targets@);
        assert(file_targets(self.files@, prefix@, config_path@, schema_views(schemas@), *defaults) is Ok);
        let ghost sv = schema_views(schemas@);
        let mut i: usize = 0;
        while i < self.folders.len()
            invariant
                0 <= i <= self.folders@.len(),
                sv == schema_views(schemas@),
                prefix@ == path_join(parent@, self.name@),
                file_targets(self.files@, prefix@, config_path@, sv, *defaults) matches Ok(a)
                    && after_files == start + a,
                folders_targets(self.folders@.take(i as int), prefix@, config_path@, sv, *defaults)
                    matches Ok(ts) && target_views(targets@) == after_files + ts,
            decreases self.folders@.len() - i,
        {
            assert(self.folders@.take(i + 1).drop_last() =~= self.folders@.take(i as int));
            assert(self.folders@.take(i + 1).last() == self.folders@[i as int]);
            assert(decreases_to!(*self => self.folders));
            assert(decreases_to!(self.folders => self.folders@));
            assert(decreases_to!(self.folders@ => self.folders@[i as int]));
            let ghost before = target_views(targets@);
            let ghost prev = folders_targets(
                self.folders@.take(i as int),
                prefix@,
                config_path@,
                sv,
                *defaults,
            );
            match self.folders[i].collect_targets(prefix.as_str(), config_path, schemas, defaults, targets) {
                Ok(()) => {
                    assert(target_views(targets@) =~= after_files + prev->Ok_0 + folder_targets(
                        self.folders@[i as int],
                        prefix@,
                        config_path@,
                        sv,
                        *defaults,
                    )->Ok_0);
                },
                Err(e) => {
                    assert(folder_targets(self.folders@[i as int], prefix@, config_path@, sv, *defaults)
                        == Err::<Seq<TargetView>, ConfigErrorView>(e@));
                    assert(folders_targets(
                        self.folders@.take(i + 1),
                        prefix@,
                        config_path@,
                        sv,
                        *defaults,
                    ) == Err::<Seq<TargetView>, ConfigErrorView>(e@));
                    proof {
                        lemma_folders_targets_prefix_err(
                            self.folders@,
                            prefix@,
                            config_path@,
                            sv,
                            *defaults,
                            i + 1,
                        );
                        assert(folders_targets(self.folders@, prefix@, config_path@, sv, *defaults)
                            == Err::<Seq<TargetView>, ConfigErrorView>(e@));
                        assert(folder_targets(*self, parent@, config_path@, sv, *defaults) == Err::<
                            Seq<TargetView>,
                            ConfigErrorView,
                        >(e@));
                    }
                    return Err(e);
                },
            }
            i += 1;
        }
        assert(self.folders@.take(self.folders@.len() as int) =~= self.folders@);
        Ok(())
    }
}

proof fn lemma_folders_targets_prefix_err(
    folders: Seq<RenderTargetFolder>,
    parent: Seq<char>,
    config_path: Seq<char>,
    schemas: Seq<SchemaView>,
    defaults: RawTargetDefaults,
    n: int,
)
    requires
        0 <= n <= folders.len(),
        folders_targets(folders.take(n), parent, config_path, schemas, defaults) is Err,
    ensures
        folders_targets(folders, parent, config_path, schemas, defaults) == folders_targets(
            folders.take(n),
            parent,
            config_path,
            schemas,
            defaults,
        ),
    decreases folders.len() - n,
{
    if n < folders.len() {
        assert(folders.take(n + 1).drop_last() =~= folders.take(n));
        lemma_folders_targets_prefix_err(folders, parent, config_path, schemas, defaults, n + 1);
    } else {
        assert(folders.take(n) =~= folders);
    }
}

/// The targets listed under `targets:`, in order.
pub open spec fn raw_targets(
    targets: Seq<RawRenderTarget>,
    config_path: Seq<char>,
    schemas: Seq<SchemaView>,
    defaults: RawTargetDefaults,
) -> Result<Seq<TargetView>, ConfigErrorView>
    decreases targets.len(),
{
    if targets.len() == 0 {
        Ok(Seq::empty())
    } else {
        match raw_targets(targets.drop_last(), config_path, schemas, defaults) {
            Err(e) => Err(e),
            Ok(init) => match raw_target(targets.last(), config_path, schemas, defaults) {
                Err(e) => Err(e),
                Ok(t) => Ok(init.push(t)),
            },
        }
    }
}

/// All targets of one configuration file: `targets:` first, then the files
/// and folders of its tree.
pub open spec fn config_targets(
    raw: RawRenderTargetConfig,
    config_path: Seq<char>,
    schemas: Seq<SchemaView>,
) -> Result<Seq<TargetView>, ConfigErrorView> {
    match raw_targets(raw.targets@, config_path, schemas, raw.defaults) {
        Err(e) => Err(e),
        Ok(a) => match file_targets(raw.files@, Seq::empty(), config_path, schemas, raw.defaults) {
            Err(e) => Err(e),
            Ok(b) => match folders_targets(
                raw.folders@,
                Seq::empty(),
                config_path,
                schemas,
                raw.defaults,
            ) {
                Err(e) => Err(e),
                Ok(c) => Ok(a + b + c),
            },
        },
    }
}

pub open spec fn targets_result_view(r: Result<Vec<RenderTarget>, TargetConfigError>) -> Result<
    Seq<TargetView>,
    ConfigErrorView,
> {
    match r {
        Ok(v) => Ok(target_views(v@)),
        Err(e) => Err(e@),
    }
}

proof fn lemma_raw_targets_prefix_err(
    targets: Seq<RawRenderTarget>,
    config_path: Seq<char>,
    schemas: Seq<SchemaView>,
    defaults: RawTargetDefaults,
    n: int,
)
    requires
        0 <= n <= targets.len(),
        raw_targets(targets.take(n), config_path, schemas, defaults) is Err,
    ensures
        raw_targets(targets, config_path, schemas, defaults) == raw_targets(
            targets.take(n),
            config_path,
            schemas,
            defaults,
        ),
    decreases targets.len() - n,
{
    if n < targets.len() {
        assert(targets.take(n + 1).drop_last() =~= targets.take(n));
        lemma_raw_targets_prefix_err(targets, config_path, schemas, defaults, n + 1);
    } else {
        assert(targets.take(n) =~= targets);
    }
}

impl RawRenderTargetConfig {
    pub fn into_render_targets(&self, config_path: &str, schemas: &Vec<RenderTargetSchema>) -> (r:
        Result<Vec<RenderTarget>, TargetConfigError>)
        ensures
            targets_result_view(r) == config_targets(*self, config_path@, schema_views(schemas@)),
    {
        let ghost sv = schema_views(schemas@);
        let root = "";
        proof {
            reveal_strlit("");
        }
        assert(root@ =~= Seq::<char>::empty());
        let mut targets: Vec<RenderTarget> = Vec::new();
        let mut i: usize = 0;
        while i < self.targets.len()
            invariant
                0 <= i <= self.targets@.len(),
                sv == schema_views(schemas@),
                raw_targets(self.targets@.take(i as int), config_path@, sv, self.defaults) matches Ok(
                    ts,
                ) && target_views(targets@) == ts,
            decreases self.targets@.len() - i,
        {
            assert(self.targets@.take(i + 1).drop_last() =~= self.targets@.take(i as int));
            assert(self.targets@.take(i + 1).last() == self.targets@[i as int]);
            let ghost before = target_views(targets@);
            match self.targets[i].into_render_target(config_path, schemas, &self.defaults) {
                Ok(t) => {
                    targets.push(t);
                    assert(target_views(targets@) =~= before.push(t@));
                },
                Err(e) => {
                    proof {
                        lemma_raw_targets_prefix_err(
                            self.targets@,
                            config_path@,
                            sv,
                            self.defaults,
                            i + 1,
                        );
                    }
                    return Err(e);
                },
            }
            i += 1;
        }
        assert(self.targets@.take(self.targets@.len() as int) =~= self.targets@);
        let ghost after_targets = target_views(targets@);
        match push_tree_files(root, &self.files, config_path, schemas, &self.defaults, &mut targets) {
            Ok(()) => {},
            Err(e) => {
                return Err(e);
            },
        }
        let ghost after_files = target_views(targets@);
        let mut k: usize = 0;
        while k < self.folders.len()
            invariant
                0 <= k <= self.folders@.len(),
                root@ == Seq::<char>::empty(),
                sv == schema_views(schemas@),
                raw_targets(self.targets@, config_path@, sv, self.defaults) == Ok::<
                    Seq<TargetView>,
                    ConfigErrorView,
                >(after_targets),
                file_targets(self.files@, Seq::empty(), config_path@, sv, self.defaults) matches Ok(
                    b,
                ) && after_files == after_targets + b,
                folders_targets(
                    self.folders@.take(k as int),
                    Seq::empty(),
                    config_path@,
                    sv,
                    self.defaults,
                ) matches Ok(c) && target_views(targets@) == after_files + c,
            decreases self.folders@.len() - k,
        {
            assert(self.folders@.take(k + 1).drop_last() =~= self.folders@.take(k as int));
            assert(self.folders@.take(k + 1).last() == self.folders@[k as int]);
            let ghost prev = folders_targets(
                self.folders@.take(k as int),
                Seq::empty(),
                config_path@,
                sv,
                self.defaults,
            );
            match self.folders[k].collect_targets(root, config_path, schemas, &self.defaults, &mut targets) {
                Ok(()) => {
                    assert(target_views(targets@) =~= after_files + prev->Ok_0 + folder_targets(
                        self.folders@[k as int],
                        Seq::empty(),
                        config_path@,
                        sv,
                        self.defaults,
                    )->Ok_0);
                },
                Err(e) => {
                    assert(folders_targets(
                        self.folders@.take(k + 1),
                        Seq::empty(),
                        config_path@,
                        sv,
                        self.defaults,
                    ) == Err::<Seq<TargetView>, ConfigErrorView>(e@));
                    proof {
                        lemma_folders_targets_prefix_err(
                            self.folders@,
                            Seq::empty(),
                            config_path@,
                            sv,
                            self.defaults,
                            k + 1,
                        );
                    }
                    return Err(e);
                },
            }
            k += 1;
        }
        assert(self.folders@.take(self.folders@.len() as int) =~= self.folders@);
        assert(target_views(targets@) =~= after_targets + (after_files.skip(after_targets.len() as int)) + (target_views(targets@).skip(after_files.len() as int)));
        Ok(targets)
    }
}

/// A scope shorthand `repo:path` with a non-empty repo part free of `:` and a
/// non-empty path part splits into exactly those two parts.
pub proof fn lemma_scope_split_parts(repo: Seq<char>, path: Seq<char>)
    requires
        repo.len() > 0,
        path.len() > 0,
        forall|j: int| 0 <= j < repo.len() ==> repo[j] != ':',
    ensures
        scope_split(repo + ":"@ + path) == Some((repo, path)),
{
    let s = repo + ":"@ + path;
    lemma_first_index_of(s, ':');
    assert(":"@ =~= seq![':']) by {
        reveal_strlit(":");
    }
    assert(s[repo.len() as int] == ':');
    assert forall|j: int| 0 <= j < repo.len() implies s[j] != ':' by {
        assert(s[j] == repo[j]);
    }
    assert(first_index_of(s, ':') == Some(repo.len() as int));
    assert(s.take(repo.len() as int) =~= repo);
    assert(s.skip(repo.len() as int + 1) =~= path);
}

/// Which repo scope a target gets.  An explicit `repo_scope` wins; without
/// one, a `repo:path` scope shorthand gives its repo part, whatever the
/// defaults say; only with neither does the defaults block's repo scope
/// apply, and with none of the three the target is refused for want of a
/// repo scope.
pub proof fn lemma_repo_scope_precedence(
    target_name: Seq<char>,
    repo_scope: Option<Seq<char>>,
    file_kind: Option<Seq<char>>,
    path_scope: Option<Seq<char>>,
    scope: Option<Seq<char>>,
    defaults: RawTargetDefaults,
    scope_repo: Seq<char>,
    scope_path: Seq<char>,
)
    requires
        scope is Some ==> scope == Some(scope_repo + ":"@ + scope_path),
        scope is Some ==> scope_repo.len() > 0 && scope_path.len() > 0,
        scope is Some ==> forall|j: int| 0 <= j < scope_repo.len() ==> scope_repo[j] != ':',
    ensures
        ({
            let r = scope_fields(target_name, repo_scope, file_kind, path_scope, scope, defaults);
            &&& repo_scope matches Some(e) ==> (r matches Ok(x) ==> x.0 == e)
            &&& (repo_scope is None && scope is Some) ==> (r matches Ok(x) ==> x.0 == scope_repo)
            &&& (repo_scope is None && scope is Some) ==> !(r matches Err(
                ConfigErrorView::MissingRepoScope { .. },
            ))
            &&& (repo_scope is None && scope is None) ==> (r matches Ok(x) ==> Some(x.0)
                == opt_string_view(defaults.repo_scope))
            &&& (repo_scope is None && scope is None && defaults.repo_scope is None) ==> r
                == Err::<(Seq<char>, Seq<char>, Option<Seq<char>>), ConfigErrorView>(
                ConfigErrorView::MissingRepoScope { target: target_name },
            )
        }),
{
    if scope is Some {
        lemma_scope_split_parts(scope_repo, scope_path);
    }
}

} // verus!
