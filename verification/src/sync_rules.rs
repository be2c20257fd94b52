//! Reverse sync: the bodies of a generated file, edited by hand, written back
//! to the rules they were generated from.
//!
//! Each entry of a generated file names the rule it came from by a marker id
//! (and the slug it had). The sync compares every entry with its rule, refuses
//! entries whose rule is gone and entries of spec documents, reports drift in
//! check mode, and otherwise writes the changed bodies back.
use vstd::prelude::*;

use crate::cli::CliRunError;
use crate::manifest::{map_str, ManifestView};
use crate::paths::{display_path, forward_slashes};
use crate::rule_index::{
    body_set, entry_manifests, find_entry, ids_of, lemma_find_entry, lemma_same_ids_same_lookups, resolution,
    IndexedEntry,
    target_position, RuleIndex,
};
use crate::text::{
    append_chars, chars_of, clone_opt_string, decimal, decimal_chars, join_chars, join_with,
    opt_string_view, owned, seq_views, str_eq, string_from_chars,
};

verus! {

/// One entry of a generated file: the marker's id and slug, and the body.
#[derive(Debug)]
pub struct ParsedGeneratedEntry {
    pub id: String,
    pub slug: Option<String>,
    pub body: String,
}

/// [`ParsedGeneratedEntry`] as values.
pub struct ParsedView {
    pub id: Seq<char>,
    pub slug: Option<Seq<char>>,
    pub body: Seq<char>,
}

impl View for ParsedGeneratedEntry {
    type V = ParsedView;

    open spec fn view(&self) -> ParsedView {
        ParsedView { id: self.id@, slug: opt_string_view(self.slug), body: self.body@ }
    }
}

/// One entry compared with its rule.
#[derive(Debug)]
pub struct SyncRuleEntry {
    pub id: String,
    pub marker_slug: Option<String>,
    pub canonical_slug: Option<String>,
    pub current_body: String,
    pub new_body: String,
    pub changed: bool,
    pub slug_mismatch: bool,
}

/// [`SyncRuleEntry`] as values.
pub struct SyncEntryView {
    pub id: Seq<char>,
    pub marker_slug: Option<Seq<char>>,
    pub canonical_slug: Option<Seq<char>>,
    pub current_body: Seq<char>,
    pub new_body: Seq<char>,
    pub changed: bool,
    pub slug_mismatch: bool,
}

impl View for SyncRuleEntry {
    type V = SyncEntryView;

    open spec fn view(&self) -> SyncEntryView {
        SyncEntryView {
            id: self.id@,
            marker_slug: opt_string_view(self.marker_slug),
            canonical_slug: opt_string_view(self.canonical_slug),
            current_body: self.current_body@,
            new_body: self.new_body@,
            changed: self.changed,
            slug_mismatch: self.slug_mismatch,
        }
    }
}

/// What a sync reports: the file, the compared entries, how many of them
/// change, and the mode it ran in.
#[derive(Debug)]
pub struct SyncRulesReport {
    pub file: String,
    pub entries: Vec<SyncRuleEntry>,
    pub changed: usize,
    pub dry_run: bool,
    pub check: bool,
}

pub open spec fn parsed_views(v: Seq<ParsedGeneratedEntry>) -> Seq<ParsedView> {
    Seq::new(v.len(), |i: int| v[i]@)
}

pub open spec fn sync_entry_views(v: Seq<SyncRuleEntry>) -> Seq<SyncEntryView> {
    Seq::new(v.len(), |i: int| v[i]@)
}

/// The manifest of the rule an entry's id names, when it names one.
pub open spec fn found_manifest(
    entries: Seq<IndexedEntry>,
    slugs: Map<Seq<char>, u128>,
    id: Seq<char>,
) -> Option<ManifestView> {
    match target_position(entries, slugs, id) {
        Some(i) => Some(entries[i].manifest@),
        None => None,
    }
}

/// The body of a manifest; empty when it has none.
pub open spec fn body_of(m: ManifestView) -> Seq<char> {
    match map_str(m.fields, "body"@) {
        Some(b) => b,
        None => Seq::<char>::empty(),
    }
}

/// An entry compared with its rule: the rule's body (empty when it has
/// none) against the entry's, and the marker's slug against the rule's.
pub open spec fn compared(p: ParsedView, m: ManifestView) -> SyncEntryView {
    let current = body_of(m);
    let canonical = map_str(m.fields, "slug"@);
    SyncEntryView {
        id: p.id,
        marker_slug: p.slug,
        canonical_slug: canonical,
        current_body: current,
        new_body: p.body,
        changed: current != p.body,
        slug_mismatch: match (p.slug, canonical) {
            (Some(a), Some(b)) => a != b,
            _ => false,
        },
    }
}

/// The entries whose rule was found, compared, in file order.
pub open spec fn compared_entries(
    entries: Seq<IndexedEntry>,
    slugs: Map<Seq<char>, u128>,
    ps: Seq<ParsedView>,
) -> Seq<SyncEntryView>
    decreases ps.len(),
{
    if ps.len() == 0 {
        Seq::empty()
    } else {
        let init = compared_entries(entries, slugs, ps.drop_last());
        match found_manifest(entries, slugs, ps.last().id) {
            Some(m) => init.push(compared(ps.last(), m)),
            None => init,
        }
    }
}

/// The ids of the entries whose rule was not found, in file order.
pub open spec fn missing_ids(
    entries: Seq<IndexedEntry>,
    slugs: Map<Seq<char>, u128>,
    ps: Seq<ParsedView>,
) -> Seq<Seq<char>>
    decreases ps.len(),
{
    if ps.len() == 0 {
        Seq::empty()
    } else {
        let init = missing_ids(entries, slugs, ps.drop_last());
        match found_manifest(entries, slugs, ps.last().id) {
            Some(_) => init,
            None => init.push(ps.last().id),
        }
    }
}

/// The ids of the entries whose rule is a spec document, in file order.
pub open spec fn spec_doc_ids(
    entries: Seq<IndexedEntry>,
    slugs: Map<Seq<char>, u128>,
    ps: Seq<ParsedView>,
) -> Seq<Seq<char>>
    decreases ps.len(),
{
    if ps.len() == 0 {
        Seq::empty()
    } else {
        let init = spec_doc_ids(entries, slugs, ps.drop_last());
        match found_manifest(entries, slugs, ps.last().id) {
            Some(m) => if map_str(m.fields, "file_kind"@) == Some("spec-doc"@) {
                init.push(ps.last().id)
            } else {
                init
            },
            None => init,
        }
    }
}

/// How many compared entries change their rule's body.
pub open spec fn changed_count(vs: Seq<SyncEntryView>) -> nat
    decreases vs.len(),
{
    if vs.len() == 0 {
        0
    } else {
        changed_count(vs.drop_last()) + if vs.last().changed {
            1nat
        } else {
            0nat
        }
    }
}

/// The manifests after writing each changed entry's body to its rule, in
/// file order.
pub open spec fn applied_bodies(
    entries: Seq<IndexedEntry>,
    slugs: Map<Seq<char>, u128>,
    ms: Seq<ManifestView>,
    vs: Seq<SyncEntryView>,
) -> Seq<ManifestView>
    decreases vs.len(),
{
    if vs.len() == 0 {
        ms
    } else {
        let prev = applied_bodies(entries, slugs, ms, vs.drop_last());
        let v = vs.last();
        if !v.changed {
            prev
        } else {
            match target_position(entries, slugs, v.id) {
                Some(i) => prev.update(i, body_set(prev[i], v.new_body)),
                None => prev,
            }
        }
    }
}

/// What a sync of the parsed entries comes to: the compared entries, or the
/// message of the request's refusal.
pub open spec fn sync_outcome(
    entries: Seq<IndexedEntry>,
    slugs: Map<Seq<char>, u128>,
    file: Seq<char>,
    ps: Seq<ParsedView>,
    dry_run: bool,
    check: bool,
) -> Result<Seq<SyncEntryView>, Seq<char>> {
    let missing = missing_ids(entries, slugs, ps);
    let docs = spec_doc_ids(entries, slugs, ps);
    let vs = compared_entries(entries, slugs, ps);
    if check && dry_run {
        Err("choose either --check or --dry-run"@)
    } else if missing.len() > 0 {
        Err("orphan generated entry ids not found in store: "@ + join_with(missing, ", "@))
    } else if docs.len() > 0 {
        Err("reverse-sync of spec-doc artifacts is not supported: "@ + join_with(docs, ", "@))
    } else if check && changed_count(vs) > 0 {
        Err(
            "reverse-sync drift detected for "@ + file + ": "@ + decimal(changed_count(vs))
                + " entries would change"@,
        )
    } else {
        Ok(vs)
    }
}

/// No two entries name the same rule.
pub open spec fn distinct_targets(
    entries: Seq<IndexedEntry>,
    slugs: Map<Seq<char>, u128>,
    ps: Seq<ParsedView>,
) -> bool {
    forall|j: int, k: int|
        0 <= j < k < ps.len() && (#[trigger] target_position(entries, slugs, ps[j].id)) is Some
            ==> target_position(entries, slugs, ps[j].id) != #[trigger] target_position(
            entries,
            slugs,
            ps[k].id,
        )
}

proof fn lemma_target_in_range(
    entries: Seq<IndexedEntry>,
    slugs: Map<Seq<char>, u128>,
    reference: Seq<char>,
)
    ensures
        target_position(entries, slugs, reference) matches Some(t) ==> 0 <= t < entries.len(),
{
    match resolution(entries, slugs, reference, ""@) {
        Ok(id) => {
            lemma_find_entry(entries, id);
        },
        Err(_) => {},
    }
}

/// Writing the changed bodies of entries that name distinct rules leaves each
/// named rule with its entry's body, and every other rule as it was.
proof fn lemma_applied_bodies(
    entries: Seq<IndexedEntry>,
    slugs: Map<Seq<char>, u128>,
    ps: Seq<ParsedView>,
)
    requires
        distinct_targets(entries, slugs, ps),
    ensures
        applied_bodies(
            entries,
            slugs,
            entry_manifests(entries),
            compared_entries(entries, slugs, ps),
        ).len() == entries.len(),
        forall|k: int|
            0 <= k < ps.len() ==> (#[trigger] target_position(entries, slugs, ps[k].id) matches Some(
                t,
            ) ==> body_of(
                applied_bodies(
                    entries,
                    slugs,
                    entry_manifests(entries),
                    compared_entries(entries, slugs, ps),
                )[t],
            ) == ps[k].body),
        forall|t: int|
            0 <= t < entries.len() && (forall|k: int|
                0 <= k < ps.len() ==> #[trigger] target_position(entries, slugs, ps[k].id) != Some(t))
                ==> #[trigger] applied_bodies(
                entries,
                slugs,
                entry_manifests(entries),
                compared_entries(entries, slugs, ps),
            )[t] == entry_manifests(entries)[t],
    decreases ps.len(),
{
    let ms = entry_manifests(entries);
    if ps.len() > 0 {
        let init = ps.drop_last();
        let last = ps.last();
        assert forall|j: int, k: int|
            0 <= j < k < init.len() && (#[trigger] target_position(entries, slugs, init[j].id)) is Some
                implies target_position(entries, slugs, init[j].id) != #[trigger] target_position(
                entries,
                slugs,
                init[k].id,
            ) by {
            assert(init[j] == ps[j] && init[k] == ps[k]);
        }
        lemma_applied_bodies(entries, slugs, init);
        let prev = applied_bodies(entries, slugs, ms, compared_entries(entries, slugs, init));
        let vs = compared_entries(entries, slugs, ps);
        let cur = applied_bodies(entries, slugs, ms, vs);
        lemma_target_in_range(entries, slugs, last.id);
        let tl = target_position(entries, slugs, last.id);
        let vs0 = compared_entries(entries, slugs, init);
        match found_manifest(entries, slugs, last.id) {
            Some(m) => {
                assert(vs.drop_last() =~= vs0);
                assert(vs.last() == compared(last, m));
            },
            None => {
                assert(vs == vs0);
            },
        }
        assert(cur.len() == entries.len());
        assert forall|k: int| 0 <= k < ps.len() implies (#[trigger] target_position(
            entries,
            slugs,
            ps[k].id,
        ) matches Some(t) ==> body_of(cur[t]) == ps[k].body) by {
            lemma_target_in_range(entries, slugs, ps[k].id);
            if k < init.len() {
                assert(init[k] == ps[k]);
                if let Some(t) = target_position(entries, slugs, ps[k].id) {
                    assert(tl != Some(t));
                    assert(cur[t] == prev[t]);
                }
            } else if let Some(t) = tl {
                assert(forall|j: int| 0 <= j < init.len() ==> #[trigger] target_position(entries, slugs, init[j].id) != Some(t)) by {
                    assert forall|j: int| 0 <= j < init.len() implies #[trigger] target_position(entries, slugs, init[j].id) != Some(t) by {
                        assert(init[j] == ps[j]);
                    }
                }
                assert(prev[t] == ms[t]);
                assert(ms[t] == entries[t].manifest@);
                assert(body_set(prev[t], last.body).fields["body"@] == crate::manifest::JsonView::String(last.body));
            }
        }
        assert forall|t: int|
            0 <= t < entries.len() && (forall|k: int|
                0 <= k < ps.len() ==> #[trigger] target_position(entries, slugs, ps[k].id) != Some(t))
                implies #[trigger] cur[t] == ms[t] by {
            assert forall|k: int| 0 <= k < init.len() implies #[trigger] target_position(entries, slugs, init[k].id) != Some(t) by {
                assert(init[k] == ps[k]);
                assert(target_position(entries, slugs, ps[k].id) != Some(t));
            }
            assert(target_position(entries, slugs, ps[ps.len() - 1].id) != Some(t));
        }
    }
}

/// Once a sync has written its changed bodies back, comparing the same
/// entries again finds nothing to change, provided no two entries name the
/// same rule.
pub proof fn lemma_sync_rules_settles(
    before: Seq<IndexedEntry>,
    after: Seq<IndexedEntry>,
    slugs: Map<Seq<char>, u128>,
    ps: Seq<ParsedView>,
)
    requires
        distinct_targets(before, slugs, ps),
        ids_of(after) == ids_of(before),
        entry_manifests(after) == applied_bodies(
            before,
            slugs,
            entry_manifests(before),
            compared_entries(before, slugs, ps),
        ),
    ensures
        changed_count(compared_entries(after, slugs, ps)) == 0,
{
    lemma_applied_bodies(before, slugs, ps);
    lemma_same_ids_same_lookups(after, before);
    assert(after.len() == ids_of(after).len() && before.len() == ids_of(before).len());
    lemma_settled_prefix(before, after, slugs, ps);
}

proof fn lemma_settled_prefix(
    before: Seq<IndexedEntry>,
    after: Seq<IndexedEntry>,
    slugs: Map<Seq<char>, u128>,
    ps: Seq<ParsedView>,
)
    requires
        after.len() == before.len(),
        forall|r: Seq<char>| #[trigger] target_position(after, slugs, r) == target_position(before, slugs, r),
        forall|k: int|
            0 <= k < ps.len() ==> (#[trigger] target_position(before, slugs, ps[k].id) matches Some(t)
                ==> body_of(entry_manifests(after)[t]) == ps[k].body),
    ensures
        changed_count(compared_entries(after, slugs, ps)) == 0,
    decreases ps.len(),
{
    if ps.len() > 0 {
        let init = ps.drop_last();
        assert forall|k: int| 0 <= k < init.len() implies (#[trigger] target_position(before, slugs, init[k].id) matches Some(t)
                ==> body_of(entry_manifests(after)[t]) == init[k].body) by {
            assert(init[k] == ps[k]);
        }
        lemma_settled_prefix(before, after, slugs, init);
        let last = ps.last();
        assert(target_position(before, slugs, ps[ps.len() - 1].id) == target_position(after, slugs, last.id));
        lemma_target_in_range(after, slugs, last.id);
        let vs = compared_entries(after, slugs, ps);
        let vs0 = compared_entries(after, slugs, init);
        match found_manifest(after, slugs, last.id) {
            Some(m) => {
                let t = target_position(after, slugs, last.id).unwrap();
                assert(entry_manifests(after)[t] == after[t].manifest@);
                assert(vs.drop_last() =~= vs0);
                assert(vs.last() == compared(last, m));
                assert(!vs.last().changed);
            },
            None => {
                assert(vs == vs0);
            },
        }
    }
}

proof fn lemma_compared_found(
    entries: Seq<IndexedEntry>,
    slugs: Map<Seq<char>, u128>,
    ps: Seq<ParsedView>,
)
    ensures
        forall|k: int|
            0 <= k < compared_entries(entries, slugs, ps).len() ==> target_position(
                entries,
                slugs,
                (#[trigger] compared_entries(entries, slugs, ps)[k]).id,
            ) is Some,
    decreases ps.len(),
{
    if ps.len() > 0 {
        lemma_compared_found(entries, slugs, ps.drop_last());
    }
}

/// Compares each parsed entry with the rule its id names.
fn compare_entries(index: &RuleIndex, parsed: &Vec<ParsedGeneratedEntry>) -> (r: (
    Vec<SyncRuleEntry>,
    Vec<Vec<char>>,
    Vec<Vec<char>>,
))
    ensures
        sync_entry_views(r.0@) == compared_entries(
            index.entries@,
            index.slugs@,
            parsed_views(parsed@),
        ),
        seq_views(r.1@) == missing_ids(index.entries@, index.slugs@, parsed_views(parsed@)),
        seq_views(r.2@) == spec_doc_ids(index.entries@, index.slugs@, parsed_views(parsed@)),
{
    let ghost es = index.entries@;
    let ghost sl = index.slugs@;
    let ghost ps = parsed_views(parsed@);
    let mut found: Vec<SyncRuleEntry> = Vec::new();
    let mut missing: Vec<Vec<char>> = Vec::new();
    let mut docs: Vec<Vec<char>> = Vec::new();
    let mut i: usize = 0;
    while i < parsed.len()
        invariant
            0 <= i <= parsed@.len(),
            es == index.entries@,
            sl == index.slugs@,
            ps == parsed_views(parsed@),
            sync_entry_views(found@) == compared_entries(es, sl, ps.take(i as int)),
            seq_views(missing@) == missing_ids(es, sl, ps.take(i as int)),
            seq_views(docs@) == spec_doc_ids(es, sl, ps.take(i as int)),
        decreases parsed@.len() - i,
    {
        assert(ps.take(i + 1).drop_last() =~= ps.take(i as int));
        assert(ps.take(i + 1).last() == parsed@[i as int]@);
        let p = &parsed[i];
        match index.get(p.id.as_str(), "") {
            Ok(m) => {
                let current = match m.body() {
                    Some(b) => owned(b),
                    None => String::new(),
                };
                let canonical = match m.slug() {
                    Some(s) => Some(owned(s)),
                    None => None,
                };
                let changed = !str_eq(current.as_str(), p.body.as_str());
                let slug_mismatch = match (&p.slug, &canonical) {
                    (Some(a), Some(b)) => !str_eq(a.as_str(), b.as_str()),
                    _ => false,
                };
                let is_doc = match m.file_kind() {
                    Some(k) => str_eq(k, "spec-doc"),
                    None => false,
                };
                if is_doc {
                    docs.push(chars_of(p.id.as_str()));
                }
                let entry = SyncRuleEntry {
                    id: owned(p.id.as_str()),
                    marker_slug: clone_opt_string(&p.slug),
                    canonical_slug: canonical,
                    current_body: current,
                    new_body: owned(p.body.as_str()),
                    changed,
                    slug_mismatch,
                };
                let ghost before = sync_entry_views(found@);
                found.push(entry);
                assert(sync_entry_views(found@) =~= before.push(entry@));
            },
            Err(_) => {
                missing.push(chars_of(p.id.as_str()));
            },
        }
        i += 1;
    }
    assert(ps.take(parsed@.len() as int) =~= ps);
    (found, missing, docs)
}

/// Writes each changed entry's body to the rule its id names, in order.
fn apply_changed_bodies(index: &mut RuleIndex, entries: &Vec<SyncRuleEntry>)
    requires
        forall|k: int|
            0 <= k < entries@.len() ==> target_position(
                old(index).entries@,
                old(index).slugs@,
                (#[trigger] entries@[k]).id@,
            ) is Some,
    ensures
        final(index).slugs == old(index).slugs,
        ids_of(final(index).entries@) == ids_of(old(index).entries@),
        forall|j: int|
            0 <= j < old(index).entries@.len() ==> (#[trigger] final(index).entries@[j]).type_id@
                == old(index).entries@[j].type_id@,
        entry_manifests(final(index).entries@) == applied_bodies(
            old(index).entries@,
            old(index).slugs@,
            entry_manifests(old(index).entries@),
            sync_entry_views(entries@),
        ),
{
    let ghost es = index.entries@;
    let ghost sl = index.slugs@;
    let ghost vs = sync_entry_views(entries@);
    let mut i: usize = 0;
    while i < entries.len()
        invariant
            0 <= i <= entries@.len(),
            vs == sync_entry_views(entries@),
            index.slugs@ == sl,
            index.slugs == old(index).slugs,
            es == old(index).entries@,
            sl == old(index).slugs@,
            ids_of(index.entries@) == ids_of(es),
            index.entries@.len() == es.len(),
            forall|j: int|
                0 <= j < es.len() ==> (#[trigger] index.entries@[j]).type_id@ == es[j].type_id@,
            forall|k: int|
                0 <= k < entries@.len() ==> target_position(es, sl, (#[trigger] entries@[k]).id@) is Some,
            entry_manifests(index.entries@) == applied_bodies(
                es,
                sl,
                entry_manifests(es),
                vs.take(i as int),
            ),
        decreases entries@.len() - i,
    {
        assert(vs.take(i + 1).drop_last() =~= vs.take(i as int));
        assert(vs.take(i + 1).last() == entries@[i as int]@);
        if entries[i].changed {
            proof {
                lemma_same_ids_same_lookups(index.entries@, es);
                assert(target_position(es, sl, entries@[i as int].id@) is Some);
            }
            let ghost cur = index.entries@;
            let _ = index.update_body(entries[i].id.as_str(), entries[i].new_body.as_str(), "");
            proof {
                let key = entries@[i as int].id@;
                assert(resolution(cur, sl, key, ""@) == resolution(es, sl, key, ""@));
                match resolution(es, sl, key, ""@) {
                    Ok(id) => {
                        assert(find_entry(cur, id) == find_entry(es, id));
                        lemma_find_entry(cur, id);
                        let pos = find_entry(es, id).unwrap();
                        assert(entry_manifests(cur)[pos] == cur[pos].manifest@);
                        assert(vs[i as int].new_body == entries@[i as int].new_body@);
                        assert(vs[i as int].id == key);
                        assert(entry_manifests(index.entries@) =~= applied_bodies(
                            es,
                            sl,
                            entry_manifests(es),
                            vs.take(i + 1),
                        ));
                    },
                    Err(_) => {},
                }
                assert(ids_of(index.entries@).len() == index.entries@.len());
                assert(ids_of(cur).len() == cur.len());
            }
        }
        i += 1;
    }
    assert(vs.take(entries@.len() as int) =~= vs);
}

fn count_changed(entries: &Vec<SyncRuleEntry>) -> (n: usize)
    ensures
        n == changed_count(sync_entry_views(entries@)),
{
    let ghost vs = sync_entry_views(entries@);
    let mut n: usize = 0;
    let mut i: usize = 0;
    while i < entries.len()
        invariant
            0 <= i <= entries@.len(),
            vs == sync_entry_views(entries@),
            n == changed_count(vs.take(i as int)),
            n <= i,
        decreases entries@.len() - i,
    {
        assert(vs.take(i + 1).drop_last() =~= vs.take(i as int));
        assert(vs.take(i + 1).last() == entries@[i as int]@);
        if entries[i].changed {
            n = n + 1;
        }
        i += 1;
    }
    assert(vs.take(entries@.len() as int) =~= vs);
    n
}

fn refusal(prefix: &str, ids: &Vec<Vec<char>>) -> (r: CliRunError)
    ensures
        r matches CliRunError::BadRequest(m) && m@ == prefix@ + join_with(seq_views(ids@), ", "@),
{
    let mut msg = chars_of(prefix);
    let joined = join_chars(ids, &chars_of(", "));
    append_chars(&mut msg, &joined);
    CliRunError::BadRequest(string_from_chars(msg))
}

/// Compares the entries of a generated file with their rules and, unless
/// previewing or checking, writes the changed bodies back.
///
/// Refused, with the index left as it was: `--check` together with
/// `--dry-run`; entries whose rule is not found; entries of spec documents;
/// and, in check mode, any entry that would change.
pub fn sync_rules_entries(
    index: &mut RuleIndex,
    file: &str,
    parsed: &Vec<ParsedGeneratedEntry>,
    dry_run: bool,
    check: bool,
) -> (r: Result<SyncRulesReport, CliRunError>)
    ensures
        match sync_outcome(
            old(index).entries@,
            old(index).slugs@,
            file@,
            parsed_views(parsed@),
            dry_run,
            check,
        ) {
            Err(msg) => r matches Err(CliRunError::BadRequest(m)) && m@ == msg
                && final(index).entries@ == old(index).entries@ && final(index).slugs
                == old(index).slugs,
            Ok(vs) => r matches Ok(report) && sync_entry_views(report.entries@) == vs
                && report.changed == changed_count(vs) && report.file@ == forward_slashes(file@)
                && report.dry_run == dry_run && report.check == check && final(index).slugs
                == old(index).slugs && if dry_run || check {
                final(index).entries@ == old(index).entries@
            } else {
                &&& ids_of(final(index).entries@) == ids_of(old(index).entries@)
                &&& forall|j: int|
                    0 <= j < old(index).entries@.len()
                        ==> (#[trigger] final(index).entries@[j]).type_id@
                        == old(index).entries@[j].type_id@
                &&& entry_manifests(final(index).entries@) == applied_bodies(
                    old(index).entries@,
                    old(index).slugs@,
                    entry_manifests(old(index).entries@),
                    vs,
                )
            },
        },
{
    if check && dry_run {
        return Err(CliRunError::BadRequest("choose either --check or --dry-run".to_owned()));
    }
    let (entries, missing, docs) = compare_entries(index, parsed);
    if missing.len() > 0 {
        return Err(refusal("orphan generated entry ids not found in store: ", &missing));
    }
    if docs.len() > 0 {
        return Err(refusal("reverse-sync of spec-doc artifacts is not supported: ", &docs));
    }
    let changed = count_changed(&entries);
    if check && changed > 0 {
        let mut msg = chars_of("reverse-sync drift detected for ");
        append_chars(&mut msg, &chars_of(file));
        append_chars(&mut msg, &chars_of(": "));
        append_chars(&mut msg, &decimal_chars(changed as u64));
        append_chars(&mut msg, &chars_of(" entries would change"));
        return Err(CliRunError::BadRequest(string_from_chars(msg)));
    }
    if !dry_run && !check {
        proof {
            lemma_compared_found(index.entries@, index.slugs@, parsed_views(parsed@));
            let vs = compared_entries(index.entries@, index.slugs@, parsed_views(parsed@));
            assert forall|k: int| 0 <= k < entries@.len() implies target_position(
                index.entries@,
                index.slugs@,
                (#[trigger] entries@[k]).id@,
            ) is Some by {
                assert(sync_entry_views(entries@)[k] == entries@[k]@);
                assert(vs[k].id == entries@[k].id@);
            }
        }
        apply_changed_bodies(index, &entries);
    }
    Ok(SyncRulesReport { file: display_path(file), entries, changed, dry_run, check })
}

} // verus!
