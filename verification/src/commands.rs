//! Decisions that commands make on their arguments and the rule index before
//! any store work: what a move is asked to do, and which path scopes an
//! update writes.
use vstd::prelude::*;

use crate::cli::{CliRunError, CreateArgs, ImportFileArgs, MoveArgs};
use crate::error::RuleError;
use crate::import::{
    block_views, import_blocks, import_markdown_blocks, BlockView, ImportedRuleBlock,
    MarkdownImportOptions,
};
use crate::manifest::{
    copy_json, fields_get, fields_map, json_entry_views, json_view, uuid_parse_error, uuid_value, JsonValue, JsonView,
    NumberView, RuleId, RuleManifest,
};
use crate::paths::{
    display_path, forward_slashes, lemma_last_index_of, path_extension, path_extension_exec, path_file_name,
    path_file_name_exec,
};
use crate::rule_index::{find_entry, resolution, target_position, RuleIndex};
use crate::text::{
    append_chars, char_is_ascii_alnum, chars_of, clone_strings, copy_range, first_index_exec,
    first_index_of, is_ascii_alnum, lemma_first_index_of, str_lowered, opt_string_view, owned,
    str_eq, str_to_lowercase, string_from_chars, string_views, trim, trim_by, trim_chars,
    CharClass,
};

verus! {

// ---------------------------------------------------------------------------
// Moves

/// What a move command asks for.
#[derive(Debug)]
pub enum MoveRequest {
    /// Continue the move recorded in a journal.
    Resume(RuleId),
    /// Undo the move recorded in a journal.
    Rollback(RuleId),
    /// Plan (and unless previewing, run) the move of a rule to a workspace.
    Plan { rule_id: RuleId, to_workspace_root: String, dry_run: bool },
}

/// A move request as values.
pub enum MoveRequestView {
    Resume(RuleId),
    Rollback(RuleId),
    Plan { rule_id: RuleId, to_workspace_root: Seq<char>, dry_run: bool },
}

impl View for MoveRequest {
    type V = MoveRequestView;

    open spec fn view(&self) -> MoveRequestView {
        match self {
            MoveRequest::Resume(j) => MoveRequestView::Resume(*j),
            MoveRequest::Rollback(j) => MoveRequestView::Rollback(*j),
            MoveRequest::Plan { rule_id, to_workspace_root, dry_run } => MoveRequestView::Plan {
                rule_id: *rule_id,
                to_workspace_root: to_workspace_root@,
                dry_run: *dry_run,
            },
        }
    }
}

/// Why a move was refused: a message of the command, or an error of the
/// rule index.
pub enum MoveRefusal {
    Message(Seq<char>),
    Index(crate::error::RuleErrorView),
}

/// A resume or a rollback names a journal by UUID; otherwise a move names a
/// rule (by UUID, prefix or slug) and the workspace to move it to.
pub open spec fn move_request_spec(
    entries: Seq<crate::rule_index::IndexedEntry>,
    slugs: Map<Seq<char>, RuleId>,
    id: Option<Seq<char>>,
    to_workspace_root: Option<Seq<char>>,
    dry_run: bool,
    resume: Option<Seq<char>>,
    rollback: Option<Seq<char>>,
    recovery_hint: Seq<char>,
) -> Result<MoveRequestView, MoveRefusal> {
    if resume is Some && rollback is Some {
        Err(MoveRefusal::Message("move accepts only one of --resume or --rollback"@))
    } else if resume is Some {
        match uuid_value(resume->0) {
            Some(j) => Ok(MoveRequestView::Resume(j)),
            None => Err(
                MoveRefusal::Message(
                    "invalid "@ + "--resume"@ + " journal UUID: "@ + uuid_parse_error(resume->0),
                ),
            ),
        }
    } else if rollback is Some {
        match uuid_value(rollback->0) {
            Some(j) => Ok(MoveRequestView::Rollback(j)),
            None => Err(
                MoveRefusal::Message(
                    "invalid "@ + "--rollback"@ + " journal UUID: "@ + uuid_parse_error(rollback->0),
                ),
            ),
        }
    } else if id is None {
        Err(MoveRefusal::Message("move requires <id> unless --resume/--rollback"@))
    } else if to_workspace_root is None {
        Err(MoveRefusal::Message("move requires --to-workspace-root"@))
    } else {
        match resolution(entries, slugs, id->0, recovery_hint) {
            Ok(rule_id) => Ok(
                MoveRequestView::Plan { rule_id, to_workspace_root: to_workspace_root->0, dry_run },
            ),
            Err(e) => Err(MoveRefusal::Index(e)),
        }
    }
}

fn journal_id(flag: &str, journal: &str) -> (r: Result<RuleId, CliRunError>)
    ensures
        match uuid_value(journal@) {
            Some(j) => r == Ok::<RuleId, CliRunError>(j),
            None => r matches Err(CliRunError::BadRequest(m)) && m@ == "invalid "@ + flag@
                + " journal UUID: "@ + uuid_parse_error(journal@),
        },
{
    match crate::manifest::parse_uuid(journal) {
        Ok(j) => Ok(j),
        Err(e) => {
            let mut msg = chars_of("invalid ");
            append_chars(&mut msg, &chars_of(flag));
            append_chars(&mut msg, &chars_of(" journal UUID: "));
            append_chars(&mut msg, &chars_of(e.as_str()));
            Err(CliRunError::BadRequest(string_from_chars(msg)))
        },
    }
}

/// Reads what a move command asks for, resolving the rule it names.
pub fn move_request(index: &RuleIndex, args: &MoveArgs, recovery_hint: &str) -> (r: Result<
    MoveRequest,
    CliRunError,
>)
    ensures
        match move_request_spec(
            index.entries@,
            index.slugs@,
            opt_string_view(args.id),
            opt_string_view(args.to_workspace_root),
            args.dry_run,
            opt_string_view(args.resume),
            opt_string_view(args.rollback),
            recovery_hint@,
        ) {
            Ok(v) => r matches Ok(req) && req@ == v,
            Err(MoveRefusal::Message(msg)) => r matches Err(CliRunError::BadRequest(m)) && m@ == msg,
            Err(MoveRefusal::Index(e)) => r matches Err(CliRunError::Rule(x)) && x@ == e,
        },
{
    if args.resume.is_some() && args.rollback.is_some() {
        return Err(
            CliRunError::BadRequest("move accepts only one of --resume or --rollback".to_owned()),
        );
    }
    if let Some(journal) = &args.resume {
        return match journal_id("--resume", journal.as_str()) {
            Ok(j) => Ok(MoveRequest::Resume(j)),
            Err(e) => Err(e),
        };
    }
    if let Some(journal) = &args.rollback {
        return match journal_id("--rollback", journal.as_str()) {
            Ok(j) => Ok(MoveRequest::Rollback(j)),
            Err(e) => Err(e),
        };
    }
    let id = match &args.id {
        Some(id) => id,
        None => {
            return Err(
                CliRunError::BadRequest("move requires <id> unless --resume/--rollback".to_owned()),
            );
        },
    };
    let to = match &args.to_workspace_root {
        Some(to) => to,
        None => {
            return Err(CliRunError::BadRequest("move requires --to-workspace-root".to_owned()));
        },
    };
    match index.resolve_id(id.as_str(), recovery_hint) {
        Ok(rule_id) => Ok(
            MoveRequest::Plan { rule_id, to_workspace_root: owned(to.as_str()), dry_run: args.dry_run },
        ),
        Err(e) => Err(CliRunError::Rule(e)),
    }
}

// ---------------------------------------------------------------------------
// Path scopes of an update

/// `current` with each added scope appended that it does not hold yet.
pub open spec fn merged_scopes(current: Seq<Seq<char>>, added: Seq<Seq<char>>) -> Seq<Seq<char>>
    decreases added.len(),
{
    if added.len() == 0 {
        current
    } else {
        let prev = merged_scopes(current, added.drop_last());
        if prev.contains(added.last()) {
            prev
        } else {
            prev.push(added.last())
        }
    }
}

fn scopes_contain(v: &Vec<String>, s: &str) -> (r: bool)
    ensures
        r == string_views(v@).contains(s@),
{
    let ghost sv = string_views(v@);
    let mut i: usize = 0;
    while i < v.len()
        invariant
            0 <= i <= v@.len(),
            sv == string_views(v@),
            forall|j: int| 0 <= j < i ==> sv[j] != s@,
        decreases v@.len() - i,
    {
        if str_eq(v[i].as_str(), s) {
            assert(sv[i as int] == s@);
            return true;
        }
        i += 1;
    }
    false
}

/// Appends to `current` each added scope it does not hold yet, in order.
pub fn merge_path_scopes(current: Vec<String>, added: &Vec<String>) -> (r: Vec<String>)
    ensures
        string_views(r@) == merged_scopes(string_views(current@), string_views(added@)),
{
    let ghost cur = string_views(current@);
    let ghost adds = string_views(added@);
    let mut scopes = current;
    let mut i: usize = 0;
    while i < added.len()
        invariant
            0 <= i <= added@.len(),
            adds == string_views(added@),
            string_views(scopes@) == merged_scopes(cur, adds.take(i as int)),
        decreases added@.len() - i,
    {
        assert(adds.take(i + 1).drop_last() =~= adds.take(i as int));
        assert(adds.take(i + 1).last() == added@[i as int]@);
        if !scopes_contain(&scopes, added[i].as_str()) {
            let ghost before = string_views(scopes@);
            scopes.push(owned(added[i].as_str()));
            assert(string_views(scopes@) =~= before.push(added@[i as int]@));
        }
        i += 1;
    }
    assert(adds.take(added@.len() as int) =~= adds);
    scopes
}

/// Merging keeps the current scopes first and in order, holds every added
/// scope, and adds nothing else.
pub proof fn lemma_merged_scopes(current: Seq<Seq<char>>, added: Seq<Seq<char>>)
    ensures
        merged_scopes(current, added).len() >= current.len(),
        merged_scopes(current, added).take(current.len() as int) == current,
        forall|k: int| 0 <= k < added.len() ==> merged_scopes(current, added).contains(
            #[trigger] added[k],
        ),
        forall|x: Seq<char>|
            merged_scopes(current, added).contains(x) ==> current.contains(x) || added.contains(x),
    decreases added.len(),
{
    if added.len() > 0 {
        let init = added.drop_last();
        lemma_merged_scopes(current, init);
        let prev = merged_scopes(current, init);
        let m = merged_scopes(current, added);
        assert(m.take(current.len() as int) =~= current) by {
            assert(prev.take(current.len() as int) =~= current);
            assert forall|j: int| 0 <= j < current.len() implies m[j] == prev[j] by {}
        }
        assert forall|k: int| 0 <= k < added.len() implies m.contains(#[trigger] added[k]) by {
            if k < init.len() {
                assert(init[k] == added[k]);
                let w = choose|w: int| 0 <= w < prev.len() && prev[w] == init[k];
                assert(m[w] == prev[w]);
            } else if !prev.contains(added.last()) {
                assert(m[prev.len() as int] == added.last());
            }
        }
        assert forall|x: Seq<char>| m.contains(x) implies current.contains(x) || added.contains(x) by {
            let w = choose|w: int| 0 <= w < m.len() && m[w] == x;
            if w < prev.len() {
                assert(prev[w] == x);
                if init.contains(x) {
                    let v = choose|v: int| 0 <= v < init.len() && init[v] == x;
                    assert(added[v] == x);
                }
            } else {
                assert(added[added.len() - 1] == x);
            }
        }
    }
}

/// The path scopes an update writes: the given scopes when there are any;
/// else, when scopes are added, the rule's current scopes with the added ones
/// merged in; else none.
pub fn path_scope_patch(
    index: &RuleIndex,
    id_or_slug: &str,
    path_scope: &Vec<String>,
    add_path_scope: &Vec<String>,
    recovery_hint: &str,
) -> (r: Result<Option<Vec<String>>, RuleError>)
    ensures
        if path_scope@.len() > 0 {
            r matches Ok(Some(v)) && string_views(v@) == string_views(path_scope@)
        } else if add_path_scope@.len() == 0 {
            r matches Ok(None)
        } else {
            match resolution(index.entries@, index.slugs@, id_or_slug@, recovery_hint@) {
                Err(e) => r matches Err(x) && x@ == e,
                Ok(id) => match find_entry(index.entries@, id) {
                    None => r matches Err(x) && x@ == crate::error::RuleErrorView::NotFound(
                        crate::manifest::uuid_text(id),
                    ),
                    Some(i) => r matches Ok(Some(v)) && string_views(v@) == merged_scopes(
                        index.entries@[i].manifest.spec_path_scopes(),
                        string_views(add_path_scope@),
                    ),
                },
            }
        },
{
    if path_scope.len() > 0 {
        return Ok(Some(clone_strings(path_scope)));
    }
    if add_path_scope.len() == 0 {
        return Ok(None);
    }
    let current = match index.get(id_or_slug, recovery_hint) {
        Ok(m) => m,
        Err(e) => {
            return Err(e);
        },
    };
    let scopes = current.path_scopes();
    proof {
        assert(string_views(scopes@) =~= Seq::new(scopes@.len(), |i: int| scopes@[i]@));
    }
    Ok(Some(merge_path_scopes(scopes, add_path_scope)))
}

} // verus!

verus! {

// ---------------------------------------------------------------------------
// Sections of imported files

/// `Path::file_stem`: the file name without its extension.
pub open spec fn file_stem(p: Seq<char>) -> Option<Seq<char>> {
    match path_file_name(p) {
        None => None,
        Some(name) => match path_extension(p) {
            Some(e) => Some(name.take(name.len() - e.len() - 1)),
            None => Some(name),
        },
    }
}

/// Each character that is not an ASCII letter or digit turned into `-`.
pub open spec fn dashed(s: Seq<char>) -> Seq<char> {
    Seq::new(s.len(), |i: int| if is_ascii_alnum(s[i]) { s[i] } else { '-' })
}

/// The section of blocks imported from a file: its stem (`imported` when it
/// has none) in lower case, with every character other than an ASCII letter
/// or digit made a `-`, and `-` trimmed from both ends.
pub open spec fn section_from_path(p: Seq<char>) -> Seq<char> {
    let stem = match file_stem(p) {
        Some(s) => s,
        None => "imported"@,
    };
    trim_by(dashed(str_lowered(stem)), CharClass::Only('-'))
}

fn file_stem_exec(p: &Vec<char>) -> (r: Option<Vec<char>>)
    ensures
        match r {
            Some(s) => file_stem(p@) == Some(s@),
            None => file_stem(p@) is None,
        },
{
    let name = match path_file_name_exec(p) {
        Some(n) => n,
        None => {
            return None;
        },
    };
    match path_extension_exec(p) {
        None => Some(name),
        Some(e) => {
            proof {
                lemma_last_index_of(name@, '.');
            }
            let k = name.len() - e.len() - 1;
            Some(copy_range(&name, 0, k))
        },
    }
}

/// The section that blocks imported from `path` get by default.
pub fn default_section_from_path(path: &str) -> (r: String)
    ensures
        r@ == section_from_path(path@),
{
    let stem = match file_stem_exec(&chars_of(path)) {
        Some(s) => string_from_chars(s),
        None => owned("imported"),
    };
    let lowered = chars_of(str_to_lowercase(stem.as_str()).as_str());
    let mut mapped: Vec<char> = Vec::new();
    let mut i: usize = 0;
    while i < lowered.len()
        invariant
            0 <= i <= lowered@.len(),
            mapped@ == dashed(lowered@).take(i as int),
        decreases lowered@.len() - i,
    {
        let c = lowered[i];
        if char_is_ascii_alnum(c) {
            mapped.push(c);
        } else {
            mapped.push('-');
        }
        assert(mapped@ =~= dashed(lowered@).take(i + 1));
        i += 1;
    }
    assert(dashed(lowered@).take(lowered@.len() as int) =~= dashed(lowered@));
    string_from_chars(trim_chars(&mapped, &CharClass::Only('-')))
}

// ---------------------------------------------------------------------------
// Source locations

/// A source location is set whole or not at all.
pub fn apply_source_location(
    manifest: &mut RuleManifest,
    source_repo: Option<&str>,
    source_path: Option<&str>,
    source_start_line: Option<i64>,
    source_end_line: Option<i64>,
) -> (r: Result<(), String>)
    ensures
        match (source_repo, source_path, source_start_line, source_end_line) {
            (Some(repo), Some(path), Some(start), Some(end)) => r is Ok && final(manifest).fields()
                == old(manifest).fields().insert("source_repo"@, JsonView::String(repo@)).insert(
                "source_path"@,
                JsonView::String(path@),
            ).insert("source_start_line"@, JsonView::Number(NumberView::Int(start as int))).insert(
                "source_end_line"@,
                JsonView::Number(NumberView::Int(end as int)),
            ) && final(manifest).id == old(manifest).id,
            (None, None, None, None) => r is Ok && *final(manifest) == *old(manifest),
            _ => r matches Err(m) && m@
                == "source location requires source_repo, source_path, source_start_line, and source_end_line together"@
                && *final(manifest) == *old(manifest),
        },
{
    match (source_repo, source_path, source_start_line, source_end_line) {
        (Some(repo), Some(path), Some(start), Some(end)) => {
            manifest.set_source_location(repo, path, start, end);
            Ok(())
        },
        (None, None, None, None) => Ok(()),
        _ => Err(
            "source location requires source_repo, source_path, source_start_line, and source_end_line together".to_owned(),
        ),
    }
}

// ---------------------------------------------------------------------------
// `key=value` fields of an update

/// A `key=value` field split at its first `=`, both sides trimmed.
pub open spec fn field_entry(f: Seq<char>) -> Option<(Seq<char>, Seq<char>)> {
    match first_index_of(f, '=') {
        Some(k) => Some((trim(f.take(k)), trim(f.skip(k + 1)))),
        None => None,
    }
}

/// The fields in order, or the message for the first one without `=`.
pub open spec fn parsed_fields(fs: Seq<Seq<char>>) -> Result<Seq<(Seq<char>, Seq<char>)>, Seq<char>>
    decreases fs.len(),
{
    if fs.len() == 0 {
        Ok(Seq::empty())
    } else {
        match parsed_fields(fs.drop_last()) {
            Err(m) => Err(m),
            Ok(prev) => match field_entry(fs.last()) {
                Some(kv) => Ok(prev.push(kv)),
                None => Err("invalid field format '"@ + fs.last() + "', expected key=value"@),
            },
        }
    }
}

pub open spec fn pair_views(v: Seq<(String, String)>) -> Seq<(Seq<char>, Seq<char>)> {
    Seq::new(v.len(), |i: int| (v[i].0@, v[i].1@))
}

/// Splits `key=value` fields; a later field for a key wins when the pairs are
/// applied in order.
pub fn parse_fields(fields: &Vec<String>) -> (r: Result<Vec<(String, String)>, String>)
    ensures
        match parsed_fields(string_views(fields@)) {
            Ok(kvs) => r matches Ok(v) && pair_views(v@) == kvs,
            Err(msg) => r matches Err(m) && m@ == msg,
        },
{
    let ghost fs = string_views(fields@);
    let mut out: Vec<(String, String)> = Vec::new();
    let mut i: usize = 0;
    assert(fs.take(0) =~= Seq::<Seq<char>>::empty());
    assert(pair_views(out@) =~= Seq::<(Seq<char>, Seq<char>)>::empty());
    while i < fields.len()
        invariant
            0 <= i <= fields@.len(),
            fs == string_views(fields@),
            parsed_fields(fs.take(i as int)) == Ok::<Seq<(Seq<char>, Seq<char>)>, Seq<char>>(
                pair_views(out@),
            ),
        decreases fields@.len() - i,
    {
        assert(fs.take(i + 1).drop_last() =~= fs.take(i as int));
        assert(fs.take(i + 1).last() == fields@[i as int]@);
        let f = chars_of(fields[i].as_str());
        match first_index_exec(&f, '=') {
            None => {
                let mut msg = chars_of("invalid field format '");
                append_chars(&mut msg, &f);
                append_chars(&mut msg, &chars_of("', expected key=value"));
                proof {
                    lemma_parsed_fields_err(fs, i as int + 1);
                }
                return Err(string_from_chars(msg));
            },
            Some(k) => {
                proof {
                    lemma_first_index_of(f@, '=');
                }
                let key = trim_chars(&copy_range(&f, 0, k), &CharClass::White);
                let value = trim_chars(&copy_range(&f, k + 1, f.len()), &CharClass::White);
                assert(f@.subrange(0, k as int) =~= f@.take(k as int));
                assert(f@.subrange(k + 1, f@.len() as int) =~= f@.skip(k + 1));
                let ghost before = pair_views(out@);
                out.push((string_from_chars(key), string_from_chars(value)));
                assert(pair_views(out@) =~= before.push(field_entry(f@)->0));
            },
        }
        i += 1;
    }
    assert(fs.take(fields@.len() as int) =~= fs);
    Ok(out)
}

/// Once a prefix of the fields is refused, so is the whole list, with the
/// same message.
proof fn lemma_parsed_fields_err(fs: Seq<Seq<char>>, n: int)
    requires
        0 <= n <= fs.len(),
        parsed_fields(fs.take(n)) is Err,
    ensures
        parsed_fields(fs) == parsed_fields(fs.take(n)),
    decreases fs.len() - n,
{
    if n < fs.len() {
        assert(fs.take(n + 1).drop_last() =~= fs.take(n));
        lemma_parsed_fields_err(fs, n + 1);
    } else {
        assert(fs.take(n) =~= fs);
    }
}

} // verus!

verus! {

// ---------------------------------------------------------------------------
// Importing a markdown file

/// One imported block and the draft rule made from it.
#[derive(Debug)]
pub struct ImportedRule {
    pub block: ImportedRuleBlock,
    pub manifest: RuleManifest,
}

/// The repository imported rules name as their source: the one given, else
/// the first repository scope.
pub open spec fn import_source_repo(given: Option<Seq<char>>, repos: Seq<Seq<char>>) -> Option<
    Seq<char>,
> {
    match given {
        Some(r) => Some(r),
        None => if repos.len() > 0 {
            Some(repos[0])
        } else {
            None
        },
    }
}

/// The draft rule of an imported block: the block's slug, title, section,
/// body and order, the import's file kind and scopes, and where the block
/// stands in its source.
pub open spec fn imported_manifest(
    m: RuleManifest,
    b: BlockView,
    file_kind: Seq<char>,
    repos: Seq<Seq<char>>,
    paths: Seq<Seq<char>>,
    source_repo: Seq<char>,
    source_path: Seq<char>,
) -> bool {
    &&& m.spec_slug() == Some(b.slug)
    &&& m.spec_title() == Some(b.title)
    &&& m.spec_state() == Some("draft"@)
    &&& m.spec_file_kind() == Some(file_kind)
    &&& m.spec_section() == Some(b.section)
    &&& m.spec_body() == Some(b.body)
    &&& m.spec_order_key() == Some(b.order_key)
    &&& m.spec_repo_scopes() == repos
    &&& m.spec_path_scopes() == paths
    &&& m.str_field("source_repo"@) == Some(source_repo)
    &&& m.str_field("source_path"@) == Some(source_path)
    &&& m.int_field("source_start_line"@) == Some(b.start)
    &&& m.int_field("source_end_line"@) == Some(b.end)
}

proof fn lemma_import_keys_distinct()
    ensures
        "slug"@.len() == 4 && "title"@.len() == 5 && "state"@.len() == 5,
        "file_kind"@.len() == 9 && "section"@.len() == 7 && "body"@.len() == 4,
        "order_key"@.len() == 9 && "repo_scopes"@.len() == 11 && "path_scopes"@.len() == 11,
        "source_repo"@.len() == 11 && "source_path"@.len() == 11,
        "source_start_line"@.len() == 17 && "source_end_line"@.len() == 15,
        "file_kind"@[0] == 'f' && "order_key"@[0] == 'o',
        "repo_scopes"@[0] == 'r' && "path_scopes"@[0] == 'p',
        "source_repo"@[0] == 's' && "source_path"@[0] == 's',
        "source_repo"@[7] == 'r' && "source_path"@[7] == 'p',
{
    reveal_strlit("slug");
    reveal_strlit("title");
    reveal_strlit("state");
    reveal_strlit("file_kind");
    reveal_strlit("section");
    reveal_strlit("body");
    reveal_strlit("order_key");
    reveal_strlit("repo_scopes");
    reveal_strlit("path_scopes");
    reveal_strlit("source_repo");
    reveal_strlit("source_path");
    reveal_strlit("source_start_line");
    reveal_strlit("source_end_line");
}

proof fn lemma_kept_insert(a: RuleManifest, b: RuleManifest, k: Seq<char>, changed: Seq<char>, v: JsonView)
    requires
        a.fields() == b.fields().insert(changed, v),
        k != changed,
    ensures
        a.field(k) == b.field(k),
        a.str_field(k) == b.str_field(k),
        a.int_field(k) == b.int_field(k),
        a.strings_field(k) == b.strings_field(k),
{
}

proof fn lemma_kept_remove(a: RuleManifest, b: RuleManifest, k: Seq<char>, changed: Seq<char>)
    requires
        a.fields().remove(changed) == b.fields().remove(changed),
        k != changed,
    ensures
        a.field(k) == b.field(k),
        a.str_field(k) == b.str_field(k),
        a.int_field(k) == b.int_field(k),
        a.strings_field(k) == b.strings_field(k),
{
    assert(a.fields().remove(changed).contains_key(k) == a.fields().contains_key(k));
    assert(b.fields().remove(changed).contains_key(k) == b.fields().contains_key(k));
    if a.fields().contains_key(k) {
        assert(a.fields().remove(changed)[k] == a.fields()[k]);
        assert(b.fields().remove(changed)[k] == b.fields()[k]);
    }
}

/// The keys an import sets after creating a draft.
pub open spec fn later_keys() -> Seq<Seq<char>> {
    seq![
        "order_key"@,
        "repo_scopes"@,
        "path_scopes"@,
        "source_repo"@,
        "source_path"@,
        "source_start_line"@,
        "source_end_line"@,
    ]
}

/// The draft rule of one imported block.
fn block_manifest(
    b: &ImportedRuleBlock,
    args: &ImportFileArgs,
    source_repo: &str,
    source_path: &str,
) -> (m: RuleManifest)
    ensures
        imported_manifest(
            m,
            b@,
            args.file_kind@,
            string_views(args.repo_scope@),
            string_views(args.path_scope@),
            source_repo@,
            source_path@,
        ),
{
    proof {
        lemma_import_keys_distinct();
    }
    let mut m = RuleManifest::new(
        b.slug.as_str(),
        b.title.as_str(),
        args.file_kind.as_str(),
        b.section.as_str(),
        b.body.as_str(),
    );
    let ghost m0 = m;
    m.set_order_key(b.order_key);
    let ghost m1 = m;
    m.set_repo_scopes(&args.repo_scope);
    let ghost m2 = m;
    if args.path_scope.len() > 0 {
        m.set_path_scopes(&args.path_scope);
    }
    let ghost m3 = m;
    m.set_source_location(source_repo, source_path, b.source_start_line, b.source_end_line);
    proof {
        let ks = seq!["slug"@, "title"@, "state"@, "file_kind"@, "section"@, "body"@];
        let f3 = m3.fields();
        let s1 = f3.insert("source_repo"@, JsonView::String(source_repo@));
        let s2 = s1.insert("source_path"@, JsonView::String(source_path@));
        let s3 = s2.insert(
            "source_start_line"@,
            JsonView::Number(NumberView::Int(b.source_start_line as int)),
        );
        assert forall|i: int| 0 <= i < ks.len() implies #[trigger] m.field(ks[i]) == m0.field(ks[i]) by {
            let k = ks[i];
            lemma_kept_insert(m1, m0, k, "order_key"@, JsonView::Number(NumberView::Int(b.order_key as int)));
            lemma_kept_remove(m2, m1, k, "repo_scopes"@);
            if args.path_scope.len() > 0 {
                lemma_kept_remove(m3, m2, k, "path_scopes"@);
            }
            assert(s1.contains_key(k) == f3.contains_key(k));
            assert(s2.contains_key(k) == f3.contains_key(k));
            assert(s3.contains_key(k) == f3.contains_key(k));
            if f3.contains_key(k) {
                assert(s3[k] == f3[k]);
            }
            assert(m.fields()[k] == s3[k] || !m.fields().contains_key(k));
        }
        assert(m.field(ks[0]) == m0.field(ks[0]));
        assert(m.field(ks[1]) == m0.field(ks[1]));
        assert(m.field(ks[2]) == m0.field(ks[2]));
        assert(m.field(ks[3]) == m0.field(ks[3]));
        assert(m.field(ks[4]) == m0.field(ks[4]));
        assert(m.field(ks[5]) == m0.field(ks[5]));
        // order_key, then the scope lists, survive the later setters.
        lemma_kept_remove(m2, m1, "order_key"@, "repo_scopes"@);
        if args.path_scope.len() > 0 {
            lemma_kept_remove(m3, m2, "order_key"@, "path_scopes"@);
            lemma_kept_remove(m3, m2, "repo_scopes"@, "path_scopes"@);
        }
        assert(string_views(args.repo_scope@) =~= Seq::new(
            args.repo_scope@.len(),
            |i: int| args.repo_scope@[i]@,
        ));
        assert(string_views(args.path_scope@) =~= Seq::new(
            args.path_scope@.len(),
            |i: int| args.path_scope@[i]@,
        ));
        let later = seq!["order_key"@, "repo_scopes"@, "path_scopes"@];
        assert forall|i: int| 0 <= i < later.len() implies #[trigger] m.field(later[i]) == m3.field(later[i]) by {
            let k = later[i];
            assert(s1.contains_key(k) == f3.contains_key(k));
            assert(s2.contains_key(k) == f3.contains_key(k));
            assert(s3.contains_key(k) == f3.contains_key(k));
            if f3.contains_key(k) {
                assert(s3[k] == f3[k]);
            }
        }
        assert(m.field(later[0]) == m3.field(later[0]));
        assert(m.field(later[1]) == m3.field(later[1]));
        assert(m.field(later[2]) == m3.field(later[2]));
        lemma_kept_insert(m1, m0, "path_scopes"@, "order_key"@, JsonView::Number(NumberView::Int(b.order_key as int)));
        lemma_kept_remove(m2, m1, "path_scopes"@, "repo_scopes"@);
        assert(m.spec_slug() == Some(b@.slug));
        assert(m.spec_title() == Some(b@.title));
        assert(m.spec_state() == Some("draft"@));
        assert(m.spec_file_kind() == Some(args.file_kind@));
        assert(m.spec_section() == Some(b@.section));
        assert(m.spec_body() == Some(b@.body));
        assert(m1.spec_order_key() == Some(b@.order_key));
        assert(m3.spec_order_key() == Some(b@.order_key));
        assert(m.spec_order_key() == Some(b@.order_key));
        assert(m2.spec_repo_scopes() == string_views(args.repo_scope@));
        assert(m3.spec_repo_scopes() == string_views(args.repo_scope@));
        assert(m.spec_repo_scopes() == string_views(args.repo_scope@));
        assert(m3.spec_path_scopes() == string_views(args.path_scope@));
        assert(m.spec_path_scopes() == string_views(args.path_scope@));
        assert(m.str_field("source_repo"@) == Some(source_repo@));
        assert(m.str_field("source_path"@) == Some(source_path@));
        assert(m.int_field("source_start_line"@) == Some(b@.start));
        assert(m.int_field("source_end_line"@) == Some(b@.end));
    }
    m
}

/// The draft rules of the blocks of a markdown file, in order.
pub fn imported_rules(content: &str, args: &ImportFileArgs) -> (r: Result<
    Vec<ImportedRule>,
    CliRunError,
>)
    requires
        content@.len() < 0x7fff_ffff_ffff_fff0,
    ensures
        ({
            let section = match args.default_section {
                Some(s) => s@,
                None => section_from_path(args.path@),
            };
            let blocks = import_blocks(content@, args.slug_prefix@, section);
            match import_source_repo(
                opt_string_view(args.source_repo),
                string_views(args.repo_scope@),
            ) {
                None => r matches Err(CliRunError::BadRequest(m)) && m@
                    == "at least one --repo is required"@,
                Some(repo) => r matches Ok(items) && items@.len() == blocks.len() && forall|i: int|
                    0 <= i < blocks.len() ==> (#[trigger] items@[i]).block@ == blocks[i]
                        && imported_manifest(
                        items@[i].manifest,
                        blocks[i],
                        args.file_kind@,
                        string_views(args.repo_scope@),
                        string_views(args.path_scope@),
                        repo,
                        forward_slashes(args.path@),
                    ),
            }
        }),
{
    let default_section = match &args.default_section {
        Some(s) => owned(s.as_str()),
        None => default_section_from_path(args.path.as_str()),
    };
    let options = MarkdownImportOptions {
        slug_prefix: owned(args.slug_prefix.as_str()),
        default_section,
    };
    let blocks = import_markdown_blocks(content, &options);
    let source_repo = match &args.source_repo {
        Some(r) => owned(r.as_str()),
        None => {
            if args.repo_scope.len() > 0 {
                owned(args.repo_scope[0].as_str())
            } else {
                return Err(CliRunError::BadRequest("at least one --repo is required".to_owned()));
            }
        },
    };
    let source_path = display_path(args.path.as_str());
    let ghost bv = block_views(blocks@);
    let mut items: Vec<ImportedRule> = Vec::new();
    let mut i: usize = 0;
    while i < blocks.len()
        invariant
            0 <= i <= blocks@.len(),
            bv == block_views(blocks@),
            items@.len() == i,
            forall|j: int|
                0 <= j < i ==> (#[trigger] items@[j]).block@ == bv[j] && imported_manifest(
                    items@[j].manifest,
                    bv[j],
                    args.file_kind@,
                    string_views(args.repo_scope@),
                    string_views(args.path_scope@),
                    source_repo@,
                    source_path@,
                ),
        decreases blocks@.len() - i,
    {
        let b = &blocks[i];
        let block = ImportedRuleBlock {
            slug: owned(b.slug.as_str()),
            title: owned(b.title.as_str()),
            section: owned(b.section.as_str()),
            body: owned(b.body.as_str()),
            order_key: b.order_key,
            source_start_line: b.source_start_line,
            source_end_line: b.source_end_line,
        };
        assert(block@ == bv[i as int]);
        let manifest = block_manifest(&block, args, source_repo.as_str(), source_path.as_str());
        items.push(ImportedRule { block, manifest });
        i += 1;
    }
    Ok(items)
}

/// What an import does with one block.
#[derive(Debug, Clone, Copy, PartialEq, Eq, Structural)]
pub enum ImportAction {
    /// Only shown (a dry run).
    Preview,
    /// A rule with the block's slug exists and is updated.
    Update,
    /// The rule is created.
    Create,
}

impl ImportAction {
    /// The word an import reports for the action.
    pub fn as_str(self) -> (r: &'static str)
        ensures
            r@ == match self {
                ImportAction::Preview => "preview"@,
                ImportAction::Update => "updated"@,
                ImportAction::Create => "created"@,
            },
    {
        match self {
            ImportAction::Preview => "preview",
            ImportAction::Update => "updated",
            ImportAction::Create => "created",
        }
    }
}

/// A dry run previews every block; otherwise a block whose slug names a rule
/// updates it, and any other block creates one.
pub fn import_action(index: &RuleIndex, slug: &str, dry_run: bool) -> (r: ImportAction)
    ensures
        r == if dry_run {
            ImportAction::Preview
        } else if target_position(index.entries@, index.slugs@, slug@) is Some {
            ImportAction::Update
        } else {
            ImportAction::Create
        },
{
    if dry_run {
        return ImportAction::Preview;
    }
    match index.get(slug, "") {
        Ok(_) => ImportAction::Update,
        Err(_) => ImportAction::Create,
    }
}

// ---------------------------------------------------------------------------
// The fields an import writes to an existing rule

/// The fields of an imported rule that an import writes over an existing one.
pub open spec fn import_patch_keys() -> Set<Seq<char>> {
    set![
        "slug"@,
        "title"@,
        "file_kind"@,
        "section"@,
        "body"@,
        "order_key"@,
        "repo_scopes"@,
        "path_scopes"@,
        "source_repo"@,
        "source_path"@,
        "source_start_line"@,
        "source_end_line"@,
    ]
}

fn copy_field(
    m: &RuleManifest,
    key: &str,
    out: &mut Vec<(String, JsonValue)>,
    Ghost(keys): Ghost<Set<Seq<char>>>,
)
    requires
        fields_map(json_entry_views(old(out)@)) == m.fields().restrict(keys),
    ensures
        fields_map(json_entry_views(final(out)@)) == m.fields().restrict(keys.insert(key@)),
{
    match fields_get(m.extra(), key) {
        Some(v) => {
            let ghost before = out@;
            let entry = (owned(key), copy_json(v));
            out.push(entry);
            assert(out@.drop_last() =~= before);
            assert(json_entry_views(out@) == json_entry_views(before).push((key@, json_view(entry.1))));
            assert(json_view(entry.1) == m.fields()[key@]);
            let ghost ev = json_entry_views(out@);
            assert(ev.drop_last() =~= json_entry_views(before));
            assert(fields_map(ev) == fields_map(ev.drop_last()).insert(ev.last().0, ev.last().1));
            assert(fields_map(json_entry_views(out@)) =~= m.fields().restrict(keys.insert(key@)));
        },
        None => {
            assert(fields_map(json_entry_views(out@)) =~= m.fields().restrict(keys.insert(key@)));
        },
    }
}

/// The fields of `manifest` that an import writes over an existing rule.
pub fn import_patch(manifest: &RuleManifest) -> (r: Vec<(String, JsonValue)>)
    ensures
        fields_map(json_entry_views(r@)) == manifest.fields().restrict(import_patch_keys()),
{
    let mut out: Vec<(String, JsonValue)> = Vec::new();
    let ghost k0 = Set::<Seq<char>>::empty();
    assert(fields_map(json_entry_views(out@)) =~= manifest.fields().restrict(k0));
    copy_field(manifest, "slug", &mut out, Ghost(k0));
    let ghost k1 = k0.insert("slug"@);
    copy_field(manifest, "title", &mut out, Ghost(k1));
    let ghost k2 = k1.insert("title"@);
    copy_field(manifest, "file_kind", &mut out, Ghost(k2));
    let ghost k3 = k2.insert("file_kind"@);
    copy_field(manifest, "section", &mut out, Ghost(k3));
    let ghost k4 = k3.insert("section"@);
    copy_field(manifest, "body", &mut out, Ghost(k4));
    let ghost k5 = k4.insert("body"@);
    copy_field(manifest, "order_key", &mut out, Ghost(k5));
    let ghost k6 = k5.insert("order_key"@);
    copy_field(manifest, "repo_scopes", &mut out, Ghost(k6));
    let ghost k7 = k6.insert("repo_scopes"@);
    copy_field(manifest, "path_scopes", &mut out, Ghost(k7));
    let ghost k8 = k7.insert("path_scopes"@);
    copy_field(manifest, "source_repo", &mut out, Ghost(k8));
    let ghost k9 = k8.insert("source_repo"@);
    copy_field(manifest, "source_path", &mut out, Ghost(k9));
    let ghost k10 = k9.insert("source_path"@);
    copy_field(manifest, "source_start_line", &mut out, Ghost(k10));
    let ghost k11 = k10.insert("source_start_line"@);
    copy_field(manifest, "source_end_line", &mut out, Ghost(k11));
    let ghost k12 = k11.insert("source_end_line"@);
    assert(k12 =~= import_patch_keys());
    out
}

} // verus!

verus! {

// ---------------------------------------------------------------------------
// Creating a rule

/// The draft rule a create command describes: its slug, title, kind,
/// section and body, its order key (0 when none is given), its scopes, and
/// its source location when one is given.
pub open spec fn created_manifest(m: RuleManifest, args: CreateArgs, body: Seq<char>) -> bool {
    &&& m.spec_slug() == Some(args.slug@)
    &&& m.spec_title() == Some(args.title@)
    &&& m.spec_state() == Some("draft"@)
    &&& m.spec_file_kind() == Some(args.file_kind@)
    &&& m.spec_section() == Some(args.section@)
    &&& m.spec_body() == Some(body)
    &&& m.spec_order_key() == Some(
        match args.order_key {
            Some(k) => k as int,
            None => 0int,
        },
    )
    &&& m.spec_repo_scopes() == string_views(args.repo_scope@)
    &&& m.spec_path_scopes() == string_views(args.path_scope@)
    &&& (args.source_repo matches Some(repo) ==> m.str_field("source_repo"@) == Some(repo@))
    &&& (args.source_path matches Some(path) ==> m.str_field("source_path"@) == Some(path@))
    &&& (args.source_start_line matches Some(n) ==> m.int_field("source_start_line"@) == Some(
        n as int,
    ))
    &&& (args.source_end_line matches Some(n) ==> m.int_field("source_end_line"@) == Some(
        n as int,
    ))
}

/// The source location is given whole or not at all.
pub open spec fn source_location_consistent(args: CreateArgs) -> bool {
    ||| (args.source_repo is Some && args.source_path is Some && args.source_start_line is Some
        && args.source_end_line is Some)
    ||| (args.source_repo is None && args.source_path is None && args.source_start_line is None
        && args.source_end_line is None)
}

/// The draft rule of a create command, with `body` read from the command's
/// body text or file.
pub fn create_manifest(args: &CreateArgs, body: &str) -> (r: Result<RuleManifest, CliRunError>)
    ensures
        if source_location_consistent(*args) {
            r matches Ok(m) && created_manifest(m, *args, body@)
        } else {
            r matches Err(CliRunError::BadRequest(msg)) && msg@
                == "source location requires source_repo, source_path, source_start_line, and source_end_line together"@
        },
{
    proof {
        lemma_import_keys_distinct();
    }
    let mut m = RuleManifest::new(
        args.slug.as_str(),
        args.title.as_str(),
        args.file_kind.as_str(),
        args.section.as_str(),
        body,
    );
    let ghost m0 = m;
    if let Some(k) = args.order_key {
        m.set_order_key(k);
    }
    let ghost m1 = m;
    if args.repo_scope.len() > 0 {
        m.set_repo_scopes(&args.repo_scope);
    }
    let ghost m2 = m;
    if args.path_scope.len() > 0 {
        m.set_path_scopes(&args.path_scope);
    }
    let ghost m3 = m;
    let repo = match &args.source_repo {
        Some(s) => Some(s.as_str()),
        None => None,
    };
    let path = match &args.source_path {
        Some(s) => Some(s.as_str()),
        None => None,
    };
    let located = apply_source_location(
        &mut m,
        repo,
        path,
        args.source_start_line,
        args.source_end_line,
    );
    match located {
        Err(msg) => {
            return Err(CliRunError::BadRequest(msg));
        },
        Ok(()) => {},
    }
    proof {
        let order = JsonView::Number(NumberView::Int(
            match args.order_key {
                Some(k) => k as int,
                None => 0int,
            },
        ));
        let ks = seq!["slug"@, "title"@, "state"@, "file_kind"@, "section"@, "body"@];
        let later = seq!["order_key"@, "repo_scopes"@, "path_scopes"@];
        let f3 = m3.fields();
        let full = args.source_repo is Some;
        // What the source location leaves alone.
        assert forall|k: Seq<char>|
            (ks.contains(k) || later.contains(k)) implies #[trigger] m.field(k) == m3.field(k) by {
            if full {
                let s1 = f3.insert("source_repo"@, JsonView::String(repo->0@));
                let s2 = s1.insert("source_path"@, JsonView::String(path->0@));
                let s3 = s2.insert(
                    "source_start_line"@,
                    JsonView::Number(NumberView::Int(args.source_start_line->0 as int)),
                );
                assert(s1.contains_key(k) == f3.contains_key(k));
                assert(s2.contains_key(k) == f3.contains_key(k));
                assert(s3.contains_key(k) == f3.contains_key(k));
                if f3.contains_key(k) {
                    assert(s3[k] == f3[k]);
                }
            }
        }
        // What the scopes and the order key leave alone.
        assert forall|i: int| 0 <= i < ks.len() implies #[trigger] m3.field(ks[i]) == m0.field(ks[i]) by {
            let k = ks[i];
            if args.order_key is Some {
                lemma_kept_insert(m1, m0, k, "order_key"@, order);
            }
            if args.repo_scope.len() > 0 {
                lemma_kept_remove(m2, m1, k, "repo_scopes"@);
            }
            if args.path_scope.len() > 0 {
                lemma_kept_remove(m3, m2, k, "path_scopes"@);
            }
        }
        if args.repo_scope.len() > 0 {
            lemma_kept_remove(m2, m1, "order_key"@, "repo_scopes"@);
            lemma_kept_remove(m2, m1, "path_scopes"@, "repo_scopes"@);
        }
        if args.path_scope.len() > 0 {
            lemma_kept_remove(m3, m2, "order_key"@, "path_scopes"@);
            lemma_kept_remove(m3, m2, "repo_scopes"@, "path_scopes"@);
        }
        if args.order_key is Some {
            lemma_kept_insert(m1, m0, "repo_scopes"@, "order_key"@, order);
            lemma_kept_insert(m1, m0, "path_scopes"@, "order_key"@, order);
        }
        assert(string_views(args.repo_scope@) =~= Seq::new(
            args.repo_scope@.len(),
            |i: int| args.repo_scope@[i]@,
        ));
        assert(string_views(args.path_scope@) =~= Seq::new(
            args.path_scope@.len(),
            |i: int| args.path_scope@[i]@,
        ));
        assert(ks.contains(ks[0]) && ks.contains(ks[1]) && ks.contains(ks[2]));
        assert(ks.contains(ks[3]) && ks.contains(ks[4]) && ks.contains(ks[5]));
        assert(later.contains(later[0]) && later.contains(later[1]) && later.contains(later[2]));
        assert(m.field(ks[0]) == m0.field(ks[0]) && m3.field(ks[0]) == m0.field(ks[0]));
        assert(m.field(ks[1]) == m3.field(ks[1]) && m3.field(ks[1]) == m0.field(ks[1]));
        assert(m.field(ks[2]) == m3.field(ks[2]) && m3.field(ks[2]) == m0.field(ks[2]));
        assert(m.field(ks[3]) == m3.field(ks[3]) && m3.field(ks[3]) == m0.field(ks[3]));
        assert(m.field(ks[4]) == m3.field(ks[4]) && m3.field(ks[4]) == m0.field(ks[4]));
        assert(m.field(ks[5]) == m3.field(ks[5]) && m3.field(ks[5]) == m0.field(ks[5]));
        assert(m.field(later[0]) == m3.field(later[0]));
        assert(m.field(later[1]) == m3.field(later[1]));
        assert(m.field(later[2]) == m3.field(later[2]));
        assert(m.spec_order_key() == Some(
            match args.order_key {
                Some(k) => k as int,
                None => 0int,
            },
        ));
        assert(m.spec_repo_scopes() == string_views(args.repo_scope@));
        assert(m.spec_path_scopes() == string_views(args.path_scope@));
    }
    Ok(m)
}

} // verus!
