//! Loading a target configuration: following imports and directories of
//! fragments, sharing schemas, detecting import cycles and duplicate names.
//!
//! The files are read by the caller. What the loader has seen of the file
//! system is a [`ConfigSnapshot`]; when the load reaches a path the snapshot
//! does not hold, it stops and names that path, so that the caller can read
//! it and load again.
use vstd::prelude::*;

use crate::paths::{path_file_name, path_file_name_exec, path_join, path_join_exec, path_parent, path_parent_exec};
use crate::targets_loader::{
    config_targets, find_schema, import_location, is_config_file_name, lemma_find_schema,
    resolve_import_path, schema_views, is_supported_render_target_config, RawRenderTargetConfig,
    RenderTargetSchema, SchemaView,
};
use crate::targets_model::{target_views, RenderTarget, RenderTargetConfig, TargetView};
use crate::targets_query::{ConfigErrorView, TargetConfigError};
use crate::text::{
    append_str, chars_eq, chars_of, sort_texts, sorted_texts, str_eq, string_from_chars,
    string_views,
};

verus! {

/// What the loader knows of one path.
pub enum SnapshotEntry {
    /// A file: its canonical path, and its contents parsed as a
    /// configuration (or the error reading or parsing it gave).
    File { canonical: String, parsed: Result<RawRenderTargetConfig, TargetConfigError> },
    /// A directory: the names of its entries (or the error listing it gave).
    Directory { listing: Result<Vec<String>, String> },
    /// A path whose metadata could not be read.
    Unreadable { message: String },
}

/// The paths read so far, each with what was found there.
pub struct ConfigSnapshot {
    pub entries: Vec<(String, SnapshotEntry)>,
}

/// What was found at a path: the first entry recorded for it.
pub open spec fn lookup(entries: Seq<(String, SnapshotEntry)>, path: Seq<char>) -> Option<
    SnapshotEntry,
>
    decreases entries.len(),
{
    if entries.len() == 0 {
        None
    } else {
        match lookup(entries.drop_last(), path) {
            Some(e) => Some(e),
            None => if entries.last().0@ == path {
                Some(entries.last().1)
            } else {
                None
            },
        }
    }
}

/// Whether a path is a file; `None` when it has not been read.
pub open spec fn file_probe(entries: Seq<(String, SnapshotEntry)>, path: Seq<char>) -> Option<bool> {
    match lookup(entries, path) {
        None => None,
        Some(SnapshotEntry::File { .. }) => Some(true),
        Some(_) => Some(false),
    }
}

/// Why a load stopped: a path still to read, or an error of the configuration.
pub enum StopView {
    Pending(Seq<char>),
    Failed(ConfigErrorView),
}

/// What the loader carries from file to file: the canonical paths fully
/// loaded, and the schemas registered so far.
pub struct LoadState {
    pub visited: Seq<Seq<char>>,
    pub schemas: Seq<SchemaView>,
}

/// Number of file entries whose canonical path is not on the import stack.
pub open spec fn unvisited(entries: Seq<(String, SnapshotEntry)>, visiting: Seq<Seq<char>>) -> nat
    decreases entries.len(),
{
    if entries.len() == 0 {
        0
    } else {
        unvisited(entries.drop_last(), visiting) + match entries.last().1 {
            SnapshotEntry::File { canonical, .. } => if visiting.contains(canonical@) {
                0nat
            } else {
                1nat
            },
            _ => 0nat,
        }
    }
}

pub proof fn lemma_unvisited_mono(
    entries: Seq<(String, SnapshotEntry)>,
    visiting: Seq<Seq<char>>,
    c: Seq<char>,
)
    ensures
        unvisited(entries, visiting.push(c)) <= unvisited(entries, visiting),
    decreases entries.len(),
{
    if entries.len() > 0 {
        lemma_unvisited_mono(entries.drop_last(), visiting, c);
        match entries.last().1 {
            SnapshotEntry::File { canonical, .. } => {
                if visiting.contains(canonical@) {
                    let j = choose|j: int| 0 <= j < visiting.len() && visiting[j] == canonical@;
                    assert(visiting.push(c)[j] == canonical@);
                }
            },
            _ => {},
        }
    }
}

pub proof fn lemma_unvisited_push(
    entries: Seq<(String, SnapshotEntry)>,
    visiting: Seq<Seq<char>>,
    path: Seq<char>,
    c: Seq<char>,
)
    requires
        lookup(entries, path) matches Some(SnapshotEntry::File { canonical, .. }) && canonical@
            == c,
        !visiting.contains(c),
    ensures
        unvisited(entries, visiting.push(c)) < unvisited(entries, visiting),
    decreases entries.len(),
{
    let init = entries.drop_last();
    if lookup(init, path) is Some {
        lemma_unvisited_push(init, visiting, path, c);
        match entries.last().1 {
            SnapshotEntry::File { canonical, .. } => {
                if visiting.contains(canonical@) {
                    let j = choose|j: int| 0 <= j < visiting.len() && visiting[j] == canonical@;
                    assert(visiting.push(c)[j] == canonical@);
                }
            },
            _ => {},
        }
    } else {
        lemma_unvisited_mono(init, visiting, c);
        assert(visiting.push(c)[visiting.len() as int] == c);
    }
}

// ---------------------------------------------------------------------------
// The load

/// `<stem>.<ext>` beside a path.
pub open spec fn sibling_config(parent: Seq<char>, stem: Seq<char>, ext: Seq<char>) -> Seq<char> {
    path_join(parent, stem + "."@ + ext)
}

/// The error for a directory given where a configuration file was expected,
/// suggesting a sibling `.yaml`, `.yml` or `.toml` file of the same name.
pub open spec fn directory_error(entries: Seq<(String, SnapshotEntry)>, path: Seq<char>) -> StopView {
    let plain = StopView::Failed(ConfigErrorView::DirectoryPath { path });
    match path_parent(path) {
        None => plain,
        Some(parent) => match path_file_name(path) {
            None => plain,
            Some(stem) => {
                let c1 = sibling_config(parent, stem, "yaml"@);
                let c2 = sibling_config(parent, stem, "yml"@);
                let c3 = sibling_config(parent, stem, "toml"@);
                match file_probe(entries, c1) {
                    None => StopView::Pending(c1),
                    Some(true) => StopView::Failed(
                        ConfigErrorView::DirectoryPathWithSuggestion { path, suggested: c1 },
                    ),
                    Some(false) => match file_probe(entries, c2) {
                        None => StopView::Pending(c2),
                        Some(true) => StopView::Failed(
                            ConfigErrorView::DirectoryPathWithSuggestion { path, suggested: c2 },
                        ),
                        Some(false) => match file_probe(entries, c3) {
                            None => StopView::Pending(c3),
                            Some(true) => StopView::Failed(
                                ConfigErrorView::DirectoryPathWithSuggestion {
                                    path,
                                    suggested: c3,
                                },
                            ),
                            Some(false) => plain,
                        },
                    },
                }
            },
        },
    }
}

/// Registers schemas in order: a schema already registered under its name
/// must be identical to it.
pub open spec fn register_schemas(known: Seq<SchemaView>, new: Seq<SchemaView>) -> Result<
    Seq<SchemaView>,
    ConfigErrorView,
>
    decreases new.len(),
{
    if new.len() == 0 {
        Ok(known)
    } else {
        match register_schemas(known, new.drop_last()) {
            Err(e) => Err(e),
            Ok(k) => register_schema(k, new.last()),
        }
    }
}

/// Registers one schema: a schema already registered under its name must be
/// identical to it.
pub open spec fn register_schema(known: Seq<SchemaView>, schema: SchemaView) -> Result<
    Seq<SchemaView>,
    ConfigErrorView,
> {
    match find_schema(known, schema.name) {
        Some(existing) => if existing == schema {
            Ok(known)
        } else {
            Err(ConfigErrorView::DuplicateSchemaName(schema.name))
        },
        None => Ok(known.push(schema)),
    }
}

/// The configuration files of a directory listing, in listing order; a name
/// that looks like one but has not been read stops the load.
pub open spec fn fragments(
    entries: Seq<(String, SnapshotEntry)>,
    dir: Seq<char>,
    names: Seq<Seq<char>>,
) -> Result<Seq<Seq<char>>, Seq<char>>
    decreases names.len(),
{
    if names.len() == 0 {
        Ok(Seq::empty())
    } else {
        match fragments(entries, dir, names.drop_last()) {
            Err(p) => Err(p),
            Ok(a) => {
                let p = path_join(dir, names.last());
                if !is_config_file_name(p) {
                    Ok(a)
                } else {
                    match file_probe(entries, p) {
                        None => Err(p),
                        Some(true) => Ok(a.push(p)),
                        Some(false) => Ok(a),
                    }
                }
            },
        }
    }
}

/// Loading one configuration file. A file already loaded contributes
/// nothing; one on the import stack is an import cycle. Otherwise its
/// imports come first, then its schemas are registered, then its own
/// targets follow.
pub open spec fn load_file(
    entries: Seq<(String, SnapshotEntry)>,
    path: Seq<char>,
    visiting: Seq<Seq<char>>,
    st: LoadState,
) -> Result<(Seq<TargetView>, LoadState), StopView>
    decreases unvisited(entries, visiting), 0int, 0int,
{
    match lookup(entries, path) {
        None => Err(StopView::Pending(path)),
        Some(SnapshotEntry::Directory { .. }) => Err(directory_error(entries, path)),
        Some(SnapshotEntry::Unreadable { message }) => Err(
            StopView::Failed(ConfigErrorView::Io { path, message: message@ }),
        ),
        Some(SnapshotEntry::File { canonical, parsed }) => {
            if st.visited.contains(canonical@) {
                Ok((Seq::empty(), st))
            } else if visiting.contains(canonical@) {
                Err(StopView::Failed(ConfigErrorView::ImportCycle { path }))
            } else {
                match parsed {
                    Err(e) => Err(StopView::Failed(e@)),
                    Ok(raw) => {
                        proof {
                            lemma_unvisited_push(entries, visiting, path, canonical@);
                        }
                        finish_file(
                            raw,
                            path,
                            canonical@,
                            imports_fold(
                                entries,
                                path,
                                string_views(raw.imports@),
                                visiting.push(canonical@),
                                st,
                            ),
                        )
                    },
                }
            }
        },
    }
}

/// The rest of loading a file once its imports are loaded: its schemas are
/// registered, then its own targets follow those of its imports, and the
/// file counts as loaded.
pub open spec fn finish_file(
    raw: RawRenderTargetConfig,
    path: Seq<char>,
    canonical: Seq<char>,
    imported: Result<(Seq<TargetView>, LoadState), StopView>,
) -> Result<(Seq<TargetView>, LoadState), StopView> {
    match imported {
        Err(s) => Err(s),
        Ok((a, st1)) => match register_schemas(st1.schemas, schema_views(raw.schemas@)) {
            Err(e) => Err(StopView::Failed(e)),
            Ok(schemas) => match config_targets(raw, path, schemas) {
                Err(e) => Err(StopView::Failed(e)),
                Ok(b) => Ok((a + b, LoadState { visited: st1.visited.push(canonical), schemas })),
            },
        },
    }
}

/// Loading the imports of the file at `path`, in order.
pub open spec fn imports_fold(
    entries: Seq<(String, SnapshotEntry)>,
    path: Seq<char>,
    imports: Seq<Seq<char>>,
    visiting: Seq<Seq<char>>,
    st: LoadState,
) -> Result<(Seq<TargetView>, LoadState), StopView>
    decreases unvisited(entries, visiting), 3int, imports.len(),
{
    if imports.len() == 0 {
        Ok((Seq::empty(), st))
    } else {
        match imports_fold(entries, path, imports.drop_last(), visiting, st) {
            Err(s) => Err(s),
            Ok((a, st1)) => match load_import(
                entries,
                import_location(path, imports.last()),
                visiting,
                st1,
            ) {
                Err(s) => Err(s),
                Ok((b, st2)) => Ok((a + b, st2)),
            },
        }
    }
}

/// Loading an import: a file, or every configuration file of a directory in
/// sorted order.
pub open spec fn load_import(
    entries: Seq<(String, SnapshotEntry)>,
    path: Seq<char>,
    visiting: Seq<Seq<char>>,
    st: LoadState,
) -> Result<(Seq<TargetView>, LoadState), StopView>
    decreases unvisited(entries, visiting), 2int, 0int,
{
    match lookup(entries, path) {
        None => Err(StopView::Pending(path)),
        Some(SnapshotEntry::Unreadable { message }) => Err(
            StopView::Failed(ConfigErrorView::Io { path, message: message@ }),
        ),
        Some(SnapshotEntry::File { .. }) => load_file(entries, path, visiting, st),
        Some(SnapshotEntry::Directory { listing }) => match listing {
            Err(message) => Err(StopView::Failed(ConfigErrorView::Io { path, message: message@ })),
            Ok(names) => match fragments(entries, path, string_views(names@)) {
                Err(p) => Err(StopView::Pending(p)),
                Ok(found) => frags_fold(entries, sorted_texts(found), visiting, st),
            },
        },
    }
}

/// Loading fragment files in order.
pub open spec fn frags_fold(
    entries: Seq<(String, SnapshotEntry)>,
    frags: Seq<Seq<char>>,
    visiting: Seq<Seq<char>>,
    st: LoadState,
) -> Result<(Seq<TargetView>, LoadState), StopView>
    decreases unvisited(entries, visiting), 1int, frags.len(),
{
    if frags.len() == 0 {
        Ok((Seq::empty(), st))
    } else {
        match frags_fold(entries, frags.drop_last(), visiting, st) {
            Err(s) => Err(s),
            Ok((a, st1)) => match load_file(entries, frags.last(), visiting, st1) {
                Err(s) => Err(s),
                Ok((b, st2)) => Ok((a + b, st2)),
            },
        }
    }
}

/// The name of the first target whose name an earlier target already has.
pub open spec fn first_duplicate_name(ts: Seq<TargetView>) -> Option<Seq<char>>
    decreases ts.len(),
{
    if ts.len() == 0 {
        None
    } else {
        match first_duplicate_name(ts.drop_last()) {
            Some(n) => Some(n),
            None => if exists|i: int| 0 <= i < ts.len() - 1 && (#[trigger] ts[i]).name == ts.last().name {
                Some(ts.last().name)
            } else {
                None
            },
        }
    }
}

/// Loading the configuration at `path` (a file or a directory of fragments):
/// its targets in order, every name used once.
pub open spec fn load_config(entries: Seq<(String, SnapshotEntry)>, path: Seq<char>) -> Result<
    Seq<TargetView>,
    StopView,
> {
    let st0 = LoadState { visited: Seq::empty(), schemas: Seq::empty() };
    let r = match lookup(entries, path) {
        Some(SnapshotEntry::Directory { .. }) => load_import(entries, path, Seq::empty(), st0),
        _ => load_file(entries, path, Seq::empty(), st0),
    };
    match r {
        Err(s) => Err(s),
        Ok((ts, _)) => match first_duplicate_name(ts) {
            Some(n) => Err(StopView::Failed(ConfigErrorView::DuplicateName(n))),
            None => Ok(ts),
        },
    }
}

// ---------------------------------------------------------------------------
// Executable load

/// Why a load stopped: a path still to read, or an error of the configuration.
pub enum LoadStop {
    Pending(String),
    Failed(TargetConfigError),
}

impl View for LoadStop {
    type V = StopView;

    open spec fn view(&self) -> StopView {
        match self {
            LoadStop::Pending(p) => StopView::Pending(p@),
            LoadStop::Failed(e) => StopView::Failed(e@),
        }
    }
}

/// Files fully loaded (by canonical path) and schemas registered so far.
pub struct LoadCtx {
    pub visited: Vec<String>,
    pub schemas: Vec<RenderTargetSchema>,
}

pub open spec fn state_of(ctx: LoadCtx) -> LoadState {
    LoadState { visited: string_views(ctx.visited@), schemas: schema_views(ctx.schemas@) }
}

proof fn lemma_lookup_prefix(entries: Seq<(String, SnapshotEntry)>, path: Seq<char>, n: int)
    requires
        0 <= n <= entries.len(),
        lookup(entries.take(n), path) is Some,
    ensures
        lookup(entries, path) == lookup(entries.take(n), path),
    decreases entries.len() - n,
{
    if n < entries.len() {
        assert(entries.take(n + 1).drop_last() =~= entries.take(n));
        lemma_lookup_prefix(entries, path, n + 1);
    } else {
        assert(entries.take(n) =~= entries);
    }
}

/// Position of the first entry recorded for `path`.
fn lookup_entry(snap: &ConfigSnapshot, path: &str) -> (r: Option<usize>)
    ensures
        match r {
            Some(i) => i < snap.entries@.len() && lookup(snap.entries@, path@) == Some(
                snap.entries@[i as int].1,
            ),
            None => lookup(snap.entries@, path@) is None,
        },
{
    let ghost es = snap.entries@;
    let mut i: usize = 0;
    while i < snap.entries.len()
        invariant
            0 <= i <= es.len(),
            es == snap.entries@,
            lookup(es.take(i as int), path@) is None,
        decreases es.len() - i,
    {
        assert(es.take(i + 1).drop_last() =~= es.take(i as int));
        assert(es.take(i + 1).last() == es[i as int]);
        if str_eq(snap.entries[i].0.as_str(), path) {
            proof {
                lemma_lookup_prefix(es, path@, i + 1);
            }
            return Some(i);
        }
        i += 1;
    }
    assert(es.take(es.len() as int) =~= es);
    None
}

fn probe_file(snap: &ConfigSnapshot, path: &str) -> (r: Option<bool>)
    ensures
        r == file_probe(snap.entries@, path@),
{
    match lookup_entry(snap, path) {
        None => None,
        Some(i) => match &snap.entries[i].1 {
            SnapshotEntry::File { .. } => Some(true),
            _ => Some(false),
        },
    }
}

/// Whether a list of strings holds `s`.
fn contains_str(v: &Vec<String>, s: &str) -> (r: bool)
    ensures
        r == string_views(v@).contains(s@),
{
    let mut i: usize = 0;
    while i < v.len()
        invariant
            0 <= i <= v@.len(),
            forall|j: int| 0 <= j < i ==> (#[trigger] v@[j])@ != s@,
        decreases v@.len() - i,
    {
        if str_eq(v[i].as_str(), s) {
            assert(string_views(v@)[i as int] == s@);
            return true;
        }
        i += 1;
    }
    assert forall|j: int| 0 <= j < string_views(v@).len() implies string_views(v@)[j] != s@ by {
        assert(string_views(v@)[j] == v@[j]@);
    }
    false
}

fn sibling_config_exec(parent: &Vec<char>, stem: &Vec<char>, ext: &str) -> (r: String)
    ensures
        r@ == sibling_config(parent@, stem@, ext@),
{
    let mut name = stem.clone();
    append_str(&mut name, ".");
    append_str(&mut name, ext);
    proof {
        reveal_strlit(".");
    }
    assert(name@ =~= stem@ + "."@ + ext@);
    string_from_chars(path_join_exec(parent, &name))
}

fn directory_error_exec(snap: &ConfigSnapshot, path: &str) -> (r: LoadStop)
    ensures
        r@ == directory_error(snap.entries@, path@),
{
    let p = chars_of(path);
    let parent = match path_parent_exec(&p) {
        None => {
            return LoadStop::Failed(TargetConfigError::DirectoryPath { path: path.to_owned() });
        },
        Some(d) => d,
    };
    let stem = match path_file_name_exec(&p) {
        None => {
            return LoadStop::Failed(TargetConfigError::DirectoryPath { path: path.to_owned() });
        },
        Some(n) => n,
    };
    let c1 = sibling_config_exec(&parent, &stem, "yaml");
    match probe_file(snap, c1.as_str()) {
        None => {
            return LoadStop::Pending(c1);
        },
        Some(true) => {
            return LoadStop::Failed(
                TargetConfigError::DirectoryPathWithSuggestion { path: path.to_owned(), suggested: c1 },
            );
        },
        Some(false) => {},
    }
    let c2 = sibling_config_exec(&parent, &stem, "yml");
    match probe_file(snap, c2.as_str()) {
        None => {
            return LoadStop::Pending(c2);
        },
        Some(true) => {
            return LoadStop::Failed(
                TargetConfigError::DirectoryPathWithSuggestion { path: path.to_owned(), suggested: c2 },
            );
        },
        Some(false) => {},
    }
    let c3 = sibling_config_exec(&parent, &stem, "toml");
    match probe_file(snap, c3.as_str()) {
        None => LoadStop::Pending(c3),
        Some(true) => LoadStop::Failed(
            TargetConfigError::DirectoryPathWithSuggestion { path: path.to_owned(), suggested: c3 },
        ),
        Some(false) => LoadStop::Failed(TargetConfigError::DirectoryPath { path: path.to_owned() }),
    }
}

impl LoadCtx {
    /// Registers a schema; one already registered under the same name must be
    /// identical to it.
    pub fn insert_schema(&mut self, schema: RenderTargetSchema) -> (r: Result<(), TargetConfigError>)
        ensures
            match register_schema(schema_views(old(self).schemas@), schema@) {
                Ok(k) => r is Ok && schema_views(final(self).schemas@) == k && final(self).visited
                    == old(self).visited,
                Err(e) => r matches Err(x) && x@ == e,
            },
    {
        let ghost before = schema_views(self.schemas@);
        match crate::targets_loader::schema_position(&self.schemas, schema.name.as_str()) {
            Some(p) => {
                if self.schemas[p].same_as(&schema) {
                    Ok(())
                } else {
                    Err(TargetConfigError::DuplicateSchemaName(schema.name))
                }
            },
            None => {
                self.schemas.push(schema);
                assert(schema_views(self.schemas@) =~= before.push(schema@));
                Ok(())
            },
        }
    }
}

proof fn lemma_fragments_prefix_err(
    entries: Seq<(String, SnapshotEntry)>,
    dir: Seq<char>,
    names: Seq<Seq<char>>,
    n: int,
)
    requires
        0 <= n <= names.len(),
        fragments(entries, dir, names.take(n)) is Err,
    ensures
        fragments(entries, dir, names) == fragments(entries, dir, names.take(n)),
    decreases names.len() - n,
{
    if n < names.len() {
        assert(names.take(n + 1).drop_last() =~= names.take(n));
        lemma_fragments_prefix_err(entries, dir, names, n + 1);
    } else {
        assert(names.take(n) =~= names);
    }
}

/// The configuration files among a directory's entries.
fn find_fragments(snap: &ConfigSnapshot, dir: &str, names: &Vec<String>) -> (r: Result<
    Vec<String>,
    String,
>)
    ensures
        match fragments(snap.entries@, dir@, string_views(names@)) {
            Ok(f) => r matches Ok(v) && string_views(v@) == f,
            Err(p) => r matches Err(q) && q@ == p,
        },
{
    let ghost nv = string_views(names@);
    let d = chars_of(dir);
    let mut found: Vec<String> = Vec::new();
    let mut i: usize = 0;
    while i < names.len()
        invariant
            0 <= i <= names@.len(),
            nv == string_views(names@),
            d@ == dir@,
            fragments(snap.entries@, dir@, nv.take(i as int)) matches Ok(f) && string_views(found@)
                == f,
        decreases names@.len() - i,
    {
        assert(nv.take(i + 1).drop_last() =~= nv.take(i as int));
        assert(nv.take(i + 1).last() == names@[i as int]@);
        let p = string_from_chars(path_join_exec(&d, &chars_of(names[i].as_str())));
        if is_supported_render_target_config(p.as_str()) {
            match probe_file(snap, p.as_str()) {
                None => {
                    proof {
                        lemma_fragments_prefix_err(snap.entries@, dir@, nv, i + 1);
                    }
                    return Err(p);
                },
                Some(true) => {
                    let ghost before = string_views(found@);
                    found.push(p);
                    assert(string_views(found@) =~= before.push(p@));
                },
                Some(false) => {},
            }
        }
        i += 1;
    }
    assert(nv.take(names@.len() as int) =~= nv);
    Ok(found)
}

proof fn lemma_imports_prefix_err(
    entries: Seq<(String, SnapshotEntry)>,
    path: Seq<char>,
    imports: Seq<Seq<char>>,
    visiting: Seq<Seq<char>>,
    st: LoadState,
    n: int,
)
    requires
        0 <= n <= imports.len(),
        imports_fold(entries, path, imports.take(n), visiting, st) is Err,
    ensures
        imports_fold(entries, path, imports, visiting, st) == imports_fold(
            entries,
            path,
            imports.take(n),
            visiting,
            st,
        ),
    decreases imports.len() - n,
{
    if n < imports.len() {
        assert(imports.take(n + 1).drop_last() =~= imports.take(n));
        lemma_imports_prefix_err(entries, path, imports, visiting, st, n + 1);
    } else {
        assert(imports.take(n) =~= imports);
    }
}

proof fn lemma_frags_prefix_err(
    entries: Seq<(String, SnapshotEntry)>,
    frags: Seq<Seq<char>>,
    visiting: Seq<Seq<char>>,
    st: LoadState,
    n: int,
)
    requires
        0 <= n <= frags.len(),
        frags_fold(entries, frags.take(n), visiting, st) is Err,
    ensures
        frags_fold(entries, frags, visiting, st) == frags_fold(entries, frags.take(n), visiting, st),
    decreases frags.len() - n,
{
    if n < frags.len() {
        assert(frags.take(n + 1).drop_last() =~= frags.take(n));
        lemma_frags_prefix_err(entries, frags, visiting, st, n + 1);
    } else {
        assert(frags.take(n) =~= frags);
    }
}

proof fn lemma_register_prefix_err(known: Seq<SchemaView>, new: Seq<SchemaView>, n: int)
    requires
        0 <= n <= new.len(),
        register_schemas(known, new.take(n)) is Err,
    ensures
        register_schemas(known, new) == register_schemas(known, new.take(n)),
    decreases new.len() - n,
{
    if n < new.len() {
        assert(new.take(n + 1).drop_last() =~= new.take(n));
        lemma_register_prefix_err(known, new, n + 1);
    } else {
        assert(new.take(n) =~= new);
    }
}

fn load_file_exec(
    snap: &ConfigSnapshot,
    path: &str,
    visiting: &Vec<String>,
    ctx: &mut LoadCtx,
) -> (r: Result<Vec<RenderTarget>, LoadStop>)
    ensures
        match load_file(snap.entries@, path@, string_views(visiting@), state_of(*old(ctx))) {
            Ok((ts, st)) => r matches Ok(v) && target_views(v@) == ts && state_of(*final(ctx)) == st,
            Err(s) => r matches Err(x) && x@ == s,
        },
    decreases unvisited(snap.entries@, string_views(visiting@)), 0int, 0int,
{
    let ghost es = snap.entries@;
    let ghost vis = string_views(visiting@);
    let ghost expected = load_file(es, path@, vis, state_of(*ctx));
    let idx = match lookup_entry(snap, path) {
        None => {
            return Err(LoadStop::Pending(path.to_owned()));
        },
        Some(i) => i,
    };
    match &snap.entries[idx].1 {
        SnapshotEntry::Directory { .. } => Err(directory_error_exec(snap, path)),
        SnapshotEntry::Unreadable { message } => Err(
            LoadStop::Failed(TargetConfigError::Io { path: path.to_owned(), message: message.clone() }),
        ),
        SnapshotEntry::File { canonical, parsed } => {
            if contains_str(&ctx.visited, canonical.as_str()) {
                let v: Vec<RenderTarget> = Vec::new();
                assert(target_views(v@) =~= Seq::<TargetView>::empty());
                return Ok(v);
            }
            if contains_str(visiting, canonical.as_str()) {
                return Err(LoadStop::Failed(TargetConfigError::ImportCycle { path: path.to_owned() }));
            }
            let raw = match parsed {
                Err(e) => {
                    return Err(LoadStop::Failed(e.duplicate()));
                },
                Ok(raw) => raw,
            };
            proof {
                lemma_unvisited_push(es, vis, path@, canonical@);
            }
            let mut inner: Vec<String> = crate::text::clone_strings(visiting);
            let ghost before_push = string_views(inner@);
            inner.push(canonical.clone());
            assert(string_views(inner@) =~= vis.push(canonical@));
            let ghost iv = string_views(raw.imports@);
            let ghost st0 = state_of(*ctx);
            assert(expected == finish_file(
                *raw,
                path@,
                canonical@,
                imports_fold(es, path@, iv, vis.push(canonical@), st0),
            ));
            let mut acc: Vec<RenderTarget> = Vec::new();
            assert(target_views(acc@) =~= Seq::<TargetView>::empty());
            let mut i: usize = 0;
            while i < raw.imports.len()
                invariant
                    0 <= i <= raw.imports@.len(),
                    es == snap.entries@,
                    expected == load_file(es, path@, vis, state_of(*old(ctx))),
                    expected == finish_file(
                        *raw,
                        path@,
                        canonical@,
                        imports_fold(es, path@, iv, vis.push(canonical@), st0),
                    ),
                    vis == string_views(visiting@),
                    iv == string_views(raw.imports@),
                    string_views(inner@) == vis.push(canonical@),
                    unvisited(es, vis.push(canonical@)) < unvisited(es, vis),
                    imports_fold(es, path@, iv.take(i as int), vis.push(canonical@), st0) matches Ok(
                        (a, st),
                    ) && target_views(acc@) == a && state_of(*ctx) == st,
                decreases raw.imports@.len() - i,
            {
                assert(iv.take(i + 1).drop_last() =~= iv.take(i as int));
                assert(iv.take(i + 1).last() == raw.imports@[i as int]@);
                let ip = resolve_import_path(path, raw.imports[i].as_str());
                let ghost before = target_views(acc@);
                match load_import_exec(snap, ip.as_str(), &inner, ctx) {
                    Ok(mut v) => {
                        let ghost vv = target_views(v@);
                        acc.append(&mut v);
                        assert(target_views(acc@) =~= before + vv);
                    },
                    Err(stop) => {
                        proof {
                            lemma_imports_prefix_err(es, path@, iv, vis.push(canonical@), st0, i + 1);
                        }
                        return Err(stop);
                    },
                }
                i += 1;
            }
            assert(iv.take(raw.imports@.len() as int) =~= iv);
            let ghost nv = schema_views(raw.schemas@);
            let ghost sch0 = schema_views(ctx.schemas@);
            let ghost visited0 = ctx.visited;
            let ghost imported = target_views(acc@);
            assert(expected == finish_file(
                *raw,
                path@,
                canonical@,
                Ok((imported, state_of(*ctx))),
            ));
            assert(register_schemas(sch0, nv.take(0)) == Ok::<Seq<SchemaView>, ConfigErrorView>(sch0));
            let mut j: usize = 0;
            while j < raw.schemas.len()
                invariant
                    0 <= j <= raw.schemas@.len(),
                    es == snap.entries@,
                    vis == string_views(visiting@),
                    expected == load_file(es, path@, vis, state_of(*old(ctx))),
                    expected == finish_file(
                        *raw,
                        path@,
                        canonical@,
                        Ok((imported, LoadState { visited: string_views(visited0@), schemas: sch0 })),
                    ),
                    nv == schema_views(raw.schemas@),
                    ctx.visited == visited0,
                    register_schemas(sch0, nv.take(j as int)) matches Ok(k) && schema_views(
                        ctx.schemas@,
                    ) == k,
                decreases raw.schemas@.len() - j,
            {
                assert(nv.take(j + 1).drop_last() =~= nv.take(j as int));
                assert(nv.take(j + 1).last() == raw.schemas@[j as int]@);
                match ctx.insert_schema(raw.schemas[j].duplicate()) {
                    Ok(()) => {},
                    Err(e) => {
                        proof {
                            assert(register_schemas(sch0, nv.take(j + 1)) == Err::<
                                Seq<SchemaView>,
                                ConfigErrorView,
                            >(e@));
                            lemma_register_prefix_err(sch0, nv, j + 1);
                            assert(register_schemas(sch0, nv) == Err::<Seq<SchemaView>, ConfigErrorView>(
                                e@,
                            ));
                        }
                        return Err(LoadStop::Failed(e));
                    },
                }
                j += 1;
            }
            assert(nv.take(raw.schemas@.len() as int) =~= nv);
            match raw.into_render_targets(path, &ctx.schemas) {
                Err(e) => Err(LoadStop::Failed(e)),
                Ok(mut own) => {
                    let ghost before = target_views(acc@);
                    let ghost ov = target_views(own@);
                    acc.append(&mut own);
                    assert(target_views(acc@) =~= before + ov);
                    let ghost vbefore = string_views(ctx.visited@);
                    ctx.visited.push(canonical.clone());
                    assert(string_views(ctx.visited@) =~= vbefore.push(canonical@));
                    Ok(acc)
                },
            }
        },
    }
}

fn load_import_exec(
    snap: &ConfigSnapshot,
    path: &str,
    visiting: &Vec<String>,
    ctx: &mut LoadCtx,
) -> (r: Result<Vec<RenderTarget>, LoadStop>)
    ensures
        match load_import(snap.entries@, path@, string_views(visiting@), state_of(*old(ctx))) {
            Ok((ts, st)) => r matches Ok(v) && target_views(v@) == ts && state_of(*final(ctx)) == st,
            Err(s) => r matches Err(x) && x@ == s,
        },
    decreases unvisited(snap.entries@, string_views(visiting@)), 2int, 0int,
{
    let ghost es = snap.entries@;
    let ghost vis = string_views(visiting@);
    let idx = match lookup_entry(snap, path) {
        None => {
            return Err(LoadStop::Pending(path.to_owned()));
        },
        Some(i) => i,
    };
    match &snap.entries[idx].1 {
        SnapshotEntry::Unreadable { message } => Err(
            LoadStop::Failed(TargetConfigError::Io { path: path.to_owned(), message: message.clone() }),
        ),
        SnapshotEntry::File { .. } => load_file_exec(snap, path, visiting, ctx),
        SnapshotEntry::Directory { listing } => match listing {
            Err(message) => Err(
                LoadStop::Failed(
                    TargetConfigError::Io { path: path.to_owned(), message: message.clone() },
                ),
            ),
            Ok(names) => {
                let found = match find_fragments(snap, path, names) {
                    Err(p) => {
                        return Err(LoadStop::Pending(p));
                    },
                    Ok(f) => f,
                };
                let frags = sort_texts(found);
                let ghost fv = string_views(frags@);
                let ghost st0 = state_of(*ctx);
                assert(load_import(es, path@, vis, st0) == frags_fold(es, fv, vis, st0));
                let mut acc: Vec<RenderTarget> = Vec::new();
                assert(target_views(acc@) =~= Seq::<TargetView>::empty());
                let mut k: usize = 0;
                while k < frags.len()
                    invariant
                        0 <= k <= frags@.len(),
                        es == snap.entries@,
                        vis == string_views(visiting@),
                        fv == string_views(frags@),
                        load_import(es, path@, vis, st0) == frags_fold(es, fv, vis, st0),
                        st0 == state_of(*old(ctx)),
                        frags_fold(es, fv.take(k as int), vis, st0) matches Ok((a, st)) && target_views(
                            acc@,
                        ) == a && state_of(*ctx) == st,
                    decreases frags@.len() - k,
                {
                    assert(fv.take(k + 1).drop_last() =~= fv.take(k as int));
                    assert(fv.take(k + 1).last() == frags@[k as int]@);
                    let ghost before = target_views(acc@);
                    match load_file_exec(snap, frags[k].as_str(), visiting, ctx) {
                        Ok(mut v) => {
                            let ghost vv = target_views(v@);
                            acc.append(&mut v);
                            assert(target_views(acc@) =~= before + vv);
                        },
                        Err(stop) => {
                            proof {
                                lemma_frags_prefix_err(es, fv, vis, st0, k + 1);
                            }
                            return Err(stop);
                        },
                    }
                    k += 1;
                }
                assert(fv.take(frags@.len() as int) =~= fv);
                Ok(acc)
            },
        },
    }
}

proof fn lemma_first_duplicate_prefix(ts: Seq<TargetView>, n: int)
    requires
        0 <= n <= ts.len(),
        first_duplicate_name(ts.take(n)) is Some,
    ensures
        first_duplicate_name(ts) == first_duplicate_name(ts.take(n)),
    decreases ts.len() - n,
{
    if n < ts.len() {
        assert(ts.take(n + 1).drop_last() =~= ts.take(n));
        lemma_first_duplicate_prefix(ts, n + 1);
    } else {
        assert(ts.take(n) =~= ts);
    }
}

/// Position of the first target whose name an earlier target already has.
fn first_duplicate(ts: &Vec<RenderTarget>) -> (r: Option<usize>)
    ensures
        match r {
            Some(j) => j < ts@.len() && first_duplicate_name(target_views(ts@)) == Some(
                ts@[j as int].name@,
            ),
            None => first_duplicate_name(target_views(ts@)) is None,
        },
{
    let ghost tv = target_views(ts@);
    let mut j: usize = 0;
    while j < ts.len()
        invariant
            0 <= j <= ts@.len(),
            tv == target_views(ts@),
            first_duplicate_name(tv.take(j as int)) is None,
        decreases ts@.len() - j,
    {
        let ghost pre = tv.take(j + 1);
        assert(pre.drop_last() =~= tv.take(j as int));
        assert(pre.last() == ts@[j as int]@);
        let mut i: usize = 0;
        while i < j
            invariant
                0 <= i <= j < ts@.len(),
                tv == target_views(ts@),
                pre == tv.take(j + 1),
                pre.drop_last() == tv.take(j as int),
                first_duplicate_name(tv.take(j as int)) is None,
                pre.last() == ts@[j as int]@,
                forall|k: int| 0 <= k < i ==> (#[trigger] pre[k]).name != pre.last().name,
            decreases j - i,
        {
            if str_eq(ts[i].name.as_str(), ts[j].name.as_str()) {
                assert(pre[i as int].name == pre.last().name);
                assert(first_duplicate_name(pre) == Some(ts@[j as int].name@));
                proof {
                    lemma_first_duplicate_prefix(tv, j + 1);
                }
                return Some(j);
            }
            i += 1;
        }
        assert(first_duplicate_name(pre) is None);
        j += 1;
    }
    assert(tv.take(ts@.len() as int) =~= tv);
    None
}

fn load_config_exec(snap: &ConfigSnapshot, path: &str) -> (r: Result<Vec<RenderTarget>, LoadStop>)
    ensures
        match load_config(snap.entries@, path@) {
            Ok(ts) => r matches Ok(v) && target_views(v@) == ts,
            Err(s) => r matches Err(x) && x@ == s,
        },
{
    let mut ctx = LoadCtx { visited: Vec::new(), schemas: Vec::new() };
    let empty: Vec<String> = Vec::new();
    assert(string_views(empty@) =~= Seq::<Seq<char>>::empty());
    assert(state_of(ctx) == LoadState { visited: Seq::empty(), schemas: Seq::empty() }) by {
        assert(string_views(ctx.visited@) =~= Seq::<Seq<char>>::empty());
        assert(schema_views(ctx.schemas@) =~= Seq::<SchemaView>::empty());
    }
    let is_dir = match lookup_entry(snap, path) {
        Some(i) => matches!(snap.entries[i].1, SnapshotEntry::Directory { .. }),
        None => false,
    };
    let loaded = if is_dir {
        load_import_exec(snap, path, &empty, &mut ctx)
    } else {
        load_file_exec(snap, path, &empty, &mut ctx)
    };
    match loaded {
        Err(s) => Err(s),
        Ok(ts) => match first_duplicate(&ts) {
            Some(j) => Err(LoadStop::Failed(TargetConfigError::DuplicateName(ts[j].name.clone()))),
            None => Ok(ts),
        },
    }
}

/// Loads the configuration at `path` from what `snapshot` holds. A path
/// that the snapshot does not hold is reported as not read.
pub fn load_render_target_config(snapshot: &ConfigSnapshot, path: &str) -> (r: Result<
    RenderTargetConfig,
    TargetConfigError,
>)
    ensures
        match load_config(snapshot.entries@, path@) {
            Ok(ts) => r matches Ok(c) && target_views(c.targets@) == ts,
            Err(StopView::Failed(e)) => r matches Err(x) && x@ == e,
            Err(StopView::Pending(p)) => r matches Err(x) && x@ == (ConfigErrorView::Io {
                path: p,
                message: "not read"@,
            }),
        },
{
    match load_config_exec(snapshot, path) {
        Ok(targets) => Ok(RenderTargetConfig { targets }),
        Err(LoadStop::Failed(e)) => Err(e),
        Err(LoadStop::Pending(p)) => Err(
            TargetConfigError::Io { path: p, message: "not read".to_owned() },
        ),
    }
}

/// The next path that loading the configuration at `path` needs and the
/// snapshot does not hold; `None` once the load can complete.
pub fn pending_config_read(snapshot: &ConfigSnapshot, path: &str) -> (r: Option<String>)
    ensures
        match load_config(snapshot.entries@, path@) {
            Err(StopView::Pending(p)) => r matches Some(q) && q@ == p,
            _ => r is None,
        },
{
    match load_config_exec(snapshot, path) {
        Err(LoadStop::Pending(p)) => Some(p),
        _ => None,
    }
}

// ---------------------------------------------------------------------------
// Laws

proof fn lemma_no_duplicate_names(ts: Seq<TargetView>)
    requires
        first_duplicate_name(ts) is None,
    ensures
        forall|i: int, j: int| 0 <= i < j < ts.len() ==> ts[i].name != ts[j].name,
    decreases ts.len(),
{
    if ts.len() > 0 {
        let init = ts.drop_last();
        lemma_no_duplicate_names(init);
        assert forall|i: int, j: int| 0 <= i < j < ts.len() implies ts[i].name != ts[j].name by {
            if j < ts.len() - 1 {
                assert(ts[i] == init[i] && ts[j] == init[j]);
            } else {
                if ts[i].name == ts[j].name {
                    assert(ts[i] == ts[i]);
                    assert(exists|k: int| 0 <= k < ts.len() - 1 && (#[trigger] ts[k]).name == ts.last().name);
                }
            }
        }
    }
}

/// A configuration that loads has every target name at most once.
pub proof fn lemma_loaded_names_distinct(entries: Seq<(String, SnapshotEntry)>, path: Seq<char>)
    ensures
        load_config(entries, path) matches Ok(ts) ==> forall|i: int, j: int|
            0 <= i < j < ts.len() ==> ts[i].name != ts[j].name,
{
    let st0 = LoadState { visited: Seq::empty(), schemas: Seq::empty() };
    let r = match lookup(entries, path) {
        Some(SnapshotEntry::Directory { .. }) => load_import(entries, path, Seq::empty(), st0),
        _ => load_file(entries, path, Seq::empty(), st0),
    };
    match r {
        Ok((ts, _)) => {
            if first_duplicate_name(ts) is None {
                lemma_no_duplicate_names(ts);
            }
        },
        Err(_) => {},
    }
}

} // verus!
