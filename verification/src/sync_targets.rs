//! The decisions of a target sync: which targets may be written, what each
//! written target reports, which records of earlier syncs are stale, and what
//! becomes of their outputs.
//!
//! Reading and writing the output files, and rendering them, happen around
//! these functions; what those steps found is handed in as plain values.
use vstd::prelude::*;

use crate::cli::CliRunError;
use crate::rule_index::{record_views, GeneratedTargetRecord, RecordView};
use crate::targets_model::{RenderTarget, RenderTargetConfig, TargetView};
use crate::text::{
    append_chars, chars_of, join_chars, join_with, owned, seq_views, starts_with, str_eq,
    str_starts_with, string_from_chars,
};

verus! {

// ---------------------------------------------------------------------------
// Targets that matched no rule

/// A target of the configuration with where it is written and how many rules
/// it collected.
#[derive(Debug)]
pub struct CollectedTarget {
    pub name: String,
    pub output: String,
    pub count: usize,
}

pub open spec fn collected_views(v: Seq<CollectedTarget>) -> Seq<(Seq<char>, Seq<char>, nat)> {
    Seq::new(v.len(), |i: int| (v[i].name@, v[i].output@, v[i].count as nat))
}

/// `name -> output`, as errors list a target.
pub open spec fn target_label(name: Seq<char>, output: Seq<char>) -> Seq<char> {
    name + " -> "@ + output
}

/// The labels of the targets that collected no rule, in order.
pub open spec fn zero_match_labels(ts: Seq<(Seq<char>, Seq<char>, nat)>) -> Seq<Seq<char>>
    decreases ts.len(),
{
    if ts.len() == 0 {
        Seq::empty()
    } else {
        let init = zero_match_labels(ts.drop_last());
        if ts.last().2 == 0 {
            init.push(target_label(ts.last().0, ts.last().1))
        } else {
            init
        }
    }
}

fn label_of(name: &str, output: &str) -> (r: Vec<char>)
    ensures
        r@ == target_label(name@, output@),
{
    let mut r = chars_of(name);
    append_chars(&mut r, &chars_of(" -> "));
    append_chars(&mut r, &chars_of(output));
    r
}

/// A write is refused while any target collected no rule; previews and
/// checks are never refused here.
pub fn ensure_no_zero_match_targets(targets: &Vec<CollectedTarget>, dry_run: bool, check: bool) -> (r:
    Result<(), CliRunError>)
    ensures
        ({
            let labels = zero_match_labels(collected_views(targets@));
            if dry_run || check || labels.len() == 0 {
                r is Ok
            } else {
                r matches Err(CliRunError::BadRequest(m)) && m@
                    == "refusing to overwrite generated outputs because these targets matched zero rules: "@
                    + join_with(labels, ", "@)
            }
        }),
{
    if dry_run || check {
        return Ok(());
    }
    let ghost ts = collected_views(targets@);
    let mut labels: Vec<Vec<char>> = Vec::new();
    let mut i: usize = 0;
    while i < targets.len()
        invariant
            0 <= i <= targets@.len(),
            ts == collected_views(targets@),
            seq_views(labels@) == zero_match_labels(ts.take(i as int)),
        decreases targets@.len() - i,
    {
        assert(ts.take(i + 1).drop_last() =~= ts.take(i as int));
        assert(ts.take(i + 1).last() == ts[i as int]);
        if targets[i].count == 0 {
            let ghost before = seq_views(labels@);
            labels.push(label_of(targets[i].name.as_str(), targets[i].output.as_str()));
            assert(seq_views(labels@) =~= before.push(
                target_label(targets@[i as int].name@, targets@[i as int].output@),
            ));
        }
        i += 1;
    }
    assert(ts.take(targets@.len() as int) =~= ts);
    if labels.len() == 0 {
        return Ok(());
    }
    let mut msg = chars_of(
        "refusing to overwrite generated outputs because these targets matched zero rules: ",
    );
    append_chars(&mut msg, &join_chars(&labels, &chars_of(", ")));
    Err(CliRunError::BadRequest(string_from_chars(msg)))
}

// ---------------------------------------------------------------------------
// One target's output

/// Whether a target writes a spec document, which a spec store keeps.
pub open spec fn is_spec_doc(t: TargetView) -> bool {
    t.file_kind == "spec-doc"@
}

pub fn is_spec_doc_target(target: &RenderTarget) -> (r: bool)
    ensures
        r == is_spec_doc(target@),
{
    str_eq(target.file_kind.as_str(), "spec-doc")
}

/// What was found at a target's output before writing it.
#[derive(Debug)]
pub enum OutputState {
    /// A markdown output: the file's text (or why it could not be read), and
    /// the rendered text prepared against it.
    Markdown { existing: Result<String, String>, prepared: String },
    /// A spec document: whether the spec store already holds what would be
    /// written.
    SpecDocument { matches: bool },
}

/// What one synced target reports, and whether its output is to be written.
#[derive(Debug)]
pub struct TargetOutcome {
    pub count: usize,
    pub changed: bool,
    pub content: Option<String>,
    pub write: bool,
}

/// The outcome of one target: a write of no rules is refused; a check fails
/// on an output that differs (or cannot be read); otherwise the output
/// changes when it differs, is written when it changes outside previews, and
/// the rendered text is reported in previews.
pub open spec fn target_outcome_spec(
    name: Seq<char>,
    output: Seq<char>,
    count: nat,
    dry_run: bool,
    check: bool,
    rendered: Seq<char>,
    state: OutputState,
) -> Result<(bool, bool, Option<Seq<char>>), Seq<char>> {
    let content = if dry_run {
        Some(rendered)
    } else {
        None
    };
    if count == 0 && !dry_run && !check {
        Err("refusing to write generated output "@ + output + " for target "@ + name
            + ": matched zero rules"@)
    } else {
        match state {
            OutputState::SpecDocument { matches } => if check && !matches {
                Err("generated output differs from "@ + output)
            } else {
                Ok((!matches, !dry_run && !check && !matches, content))
            },
            OutputState::Markdown { existing, prepared } => if check {
                match existing {
                    Err(e) => Err("read generated file "@ + output + ": "@ + e@),
                    Ok(text) => if text@ == prepared@ {
                        Ok((false, false, None))
                    } else {
                        Err("generated output differs from "@ + output)
                    },
                }
            } else {
                let changed = match existing {
                    Ok(text) => text@ != prepared@,
                    Err(_) => true,
                };
                Ok((changed, !dry_run && changed, content))
            },
        }
    }
}

/// Whether an output already holds what a sync would write: a markdown file
/// whose text equals the text prepared against it, or a spec document that
/// the spec store already matches.
pub open spec fn output_settled(state: OutputState) -> bool {
    match state {
        OutputState::Markdown { existing, prepared } => existing matches Ok(text) && text@ == prepared@,
        OutputState::SpecDocument { matches } => matches,
    }
}

/// A sync of a target whose output already holds what would be written
/// changes nothing: in every mode that is not refused for want of rules, the
/// target is reported unchanged and its output is not written.  So after a
/// sync has written an output, a second sync of the same rules reports
/// `changed == false` and writes nothing.
pub proof fn lemma_settled_output_unchanged(
    name: Seq<char>,
    output: Seq<char>,
    count: nat,
    dry_run: bool,
    check: bool,
    rendered: Seq<char>,
    state: OutputState,
)
    requires
        count > 0 || dry_run || check,
        output_settled(state),
    ensures
        target_outcome_spec(name, output, count, dry_run, check, rendered, state) matches Ok(
            (changed, write, _),
        ) && !changed && !write,
{
}

/// An output that a sync writes is written with the prepared text; once the
/// file holds that text, a second sync against it reports no change and
/// writes nothing.
pub proof fn lemma_written_output_settles(
    name: Seq<char>,
    output: Seq<char>,
    count: nat,
    rendered: Seq<char>,
    existing: Result<String, String>,
    prepared: String,
)
    requires
        count > 0,
    ensures
        target_outcome_spec(
            name,
            output,
            count,
            false,
            false,
            rendered,
            OutputState::Markdown { existing, prepared },
        ) matches Ok((changed, write, _)) && write == changed,
        target_outcome_spec(
            name,
            output,
            count,
            false,
            false,
            rendered,
            OutputState::Markdown { existing: Ok(prepared), prepared },
        ) == Ok::<(bool, bool, Option<Seq<char>>), Seq<char>>((false, false, None)),
{
}

proof fn lemma_no_zero_labels(ts: Seq<(Seq<char>, Seq<char>, nat)>)
    requires
        zero_match_labels(ts).len() == 0,
    ensures
        forall|i: int| 0 <= i < ts.len() ==> (#[trigger] ts[i]).2 > 0,
    decreases ts.len(),
{
    if ts.len() > 0 {
        let init = zero_match_labels(ts.drop_last());
        if ts.last().2 == 0 {
            assert(zero_match_labels(ts).len() == init.len() + 1);
        }
        lemma_no_zero_labels(ts.drop_last());
        assert forall|i: int| 0 <= i < ts.len() implies (#[trigger] ts[i]).2 > 0 by {
            if i < ts.len() - 1 {
                assert(ts.drop_last()[i] == ts[i]);
            }
        }
    }
}

/// A whole sync that the zero-match check lets through, over targets whose
/// outputs all already hold what would be written, reports every target
/// unchanged and writes none of them.  So a second sync of unchanged rules
/// and configuration changes nothing.
pub proof fn lemma_settled_sync_changes_nothing(
    ts: Seq<(Seq<char>, Seq<char>, nat)>,
    rendered: Seq<Seq<char>>,
    states: Seq<OutputState>,
    dry_run: bool,
    check: bool,
)
    requires
        dry_run || check || zero_match_labels(ts).len() == 0,
        rendered.len() == ts.len(),
        states.len() == ts.len(),
        forall|i: int| 0 <= i < states.len() ==> output_settled(#[trigger] states[i]),
    ensures
        forall|i: int| 0 <= i < ts.len() ==> ((#[trigger] target_outcome_spec(
            ts[i].0,
            ts[i].1,
            ts[i].2,
            dry_run,
            check,
            rendered[i],
            states[i],
        )) matches Ok((changed, write, _)) && !changed && !write),
{
    if !dry_run && !check {
        lemma_no_zero_labels(ts);
    }
    assert forall|i: int| 0 <= i < ts.len() implies ((#[trigger] target_outcome_spec(
        ts[i].0,
        ts[i].1,
        ts[i].2,
        dry_run,
        check,
        rendered[i],
        states[i],
    )) matches Ok((changed, write, _)) && !changed && !write) by {
        assert(output_settled(states[i]));
        lemma_settled_output_unchanged(ts[i].0, ts[i].1, ts[i].2, dry_run, check, rendered[i], states[i]);
    }
}

pub fn sync_target_outcome(
    name: &str,
    output: &str,
    count: usize,
    dry_run: bool,
    check: bool,
    rendered: &str,
    state: &OutputState,
) -> (r: Result<TargetOutcome, CliRunError>)
    ensures
        match target_outcome_spec(name@, output@, count as nat, dry_run, check, rendered@, *state) {
            Err(msg) => r matches Err(CliRunError::BadRequest(m)) && m@ == msg,
            Ok((changed, write, content)) => r matches Ok(o) && o.count == count && o.changed
                == changed && o.write == write && match (o.content, content) {
                (Some(a), Some(b)) => a@ == b,
                (None, None) => true,
                _ => false,
            },
        },
{
    if count == 0 && !dry_run && !check {
        let mut msg = chars_of("refusing to write generated output ");
        append_chars(&mut msg, &chars_of(output));
        append_chars(&mut msg, &chars_of(" for target "));
        append_chars(&mut msg, &chars_of(name));
        append_chars(&mut msg, &chars_of(": matched zero rules"));
        return Err(CliRunError::BadRequest(string_from_chars(msg)));
    }
    let content = if dry_run {
        Some(owned(rendered))
    } else {
        None
    };
    match state {
        OutputState::SpecDocument { matches } => {
            if check && !*matches {
                let mut msg = chars_of("generated output differs from ");
                append_chars(&mut msg, &chars_of(output));
                return Err(CliRunError::BadRequest(string_from_chars(msg)));
            }
            Ok(
                TargetOutcome {
                    count,
                    changed: !*matches,
                    content,
                    write: !dry_run && !check && !*matches,
                },
            )
        },
        OutputState::Markdown { existing, prepared } => {
            if check {
                match existing {
                    Err(e) => {
                        let mut msg = chars_of("read generated file ");
                        append_chars(&mut msg, &chars_of(output));
                        append_chars(&mut msg, &chars_of(": "));
                        append_chars(&mut msg, &chars_of(e.as_str()));
                        Err(CliRunError::BadRequest(string_from_chars(msg)))
                    },
                    Ok(text) => {
                        if str_eq(text.as_str(), prepared.as_str()) {
                            Ok(TargetOutcome { count, changed: false, content: None, write: false })
                        } else {
                            let mut msg = chars_of("generated output differs from ");
                            append_chars(&mut msg, &chars_of(output));
                            Err(CliRunError::BadRequest(string_from_chars(msg)))
                        }
                    },
                }
            } else {
                let changed = match existing {
                    Ok(text) => !str_eq(text.as_str(), prepared.as_str()),
                    Err(_) => true,
                };
                Ok(TargetOutcome { count, changed, content, write: !dry_run && changed })
            }
        },
    }
}

// ---------------------------------------------------------------------------
// Records of earlier syncs

pub open spec fn target_names(ts: Seq<RenderTarget>) -> Seq<Seq<char>> {
    Seq::new(ts.len(), |i: int| ts[i].name@)
}

/// The records whose target the configuration no longer has, in order.
pub open spec fn stale_records(names: Seq<Seq<char>>, rs: Seq<RecordView>) -> Seq<RecordView>
    decreases rs.len(),
{
    if rs.len() == 0 {
        Seq::empty()
    } else {
        let init = stale_records(names, rs.drop_last());
        if names.contains(rs.last().target_name) {
            init
        } else {
            init.push(rs.last())
        }
    }
}

fn names_contain(targets: &Vec<RenderTarget>, name: &str) -> (r: bool)
    ensures
        r == target_names(targets@).contains(name@),
{
    let ghost names = target_names(targets@);
    let mut i: usize = 0;
    while i < targets.len()
        invariant
            0 <= i <= targets@.len(),
            names == target_names(targets@),
            forall|j: int| 0 <= j < i ==> names[j] != name@,
        decreases targets@.len() - i,
    {
        if str_eq(targets[i].name.as_str(), name) {
            assert(names[i as int] == name@);
            return true;
        }
        i += 1;
    }
    false
}

/// Records of earlier syncs whose target is no longer configured.
pub fn collect_stale_generated_targets(
    config: &RenderTargetConfig,
    previous: Vec<GeneratedTargetRecord>,
) -> (r: Vec<GeneratedTargetRecord>)
    ensures
        record_views(r@) == stale_records(target_names(config.targets@), record_views(previous@)),
{
    let ghost names = target_names(config.targets@);
    let ghost rs = record_views(previous@);
    let mut out: Vec<GeneratedTargetRecord> = Vec::new();
    let mut i: usize = 0;
    while i < previous.len()
        invariant
            0 <= i <= previous@.len(),
            rs == record_views(previous@),
            names == target_names(config.targets@),
            record_views(out@) == stale_records(names, rs.take(i as int)),
        decreases previous@.len() - i,
    {
        assert(rs.take(i + 1).drop_last() =~= rs.take(i as int));
        assert(rs.take(i + 1).last() == rs[i as int]);
        let r = &previous[i];
        if !names_contain(&config.targets, r.target_name.as_str()) {
            let copy = GeneratedTargetRecord {
                id: r.id,
                slug: owned(r.slug.as_str()),
                config_path: owned(r.config_path.as_str()),
                target_name: owned(r.target_name.as_str()),
                output_path: owned(r.output_path.as_str()),
            };
            let ghost before = record_views(out@);
            out.push(copy);
            assert(record_views(out@) =~= before.push(rs[i as int]));
        }
        i += 1;
    }
    assert(rs.take(previous@.len() as int) =~= rs);
    out
}

/// What becomes of one stale record: its generated output is removed with
/// the record, or the record alone is dropped (the output was deleted, or is
/// no longer generated).
#[derive(Debug)]
pub enum StaleAction {
    RemoveOutput { output: String, slug: String },
    DropRecord { slug: String },
}

/// One stale output as reported: its target and output, and whether it was
/// decoupled (left in place).
#[derive(Debug)]
pub struct RemovedOutput {
    pub target: String,
    pub output: String,
    pub decoupled: bool,
}

/// What to do with the stale records, and what to report of them.
#[derive(Debug)]
pub struct StalePlan {
    pub actions: Vec<StaleAction>,
    pub removed: Vec<RemovedOutput>,
}

/// The stale records whose output is still a generated file (`orphaned`),
/// or else those whose output is not, in order.
pub open spec fn split_stale(rs: Seq<RecordView>, orphaned: Seq<bool>, want: bool) -> Seq<RecordView>
    decreases rs.len(),
{
    if rs.len() == 0 || orphaned.len() != rs.len() {
        Seq::empty()
    } else {
        let init = split_stale(rs.drop_last(), orphaned.drop_last(), want);
        if orphaned.last() == want {
            init.push(rs.last())
        } else {
            init
        }
    }
}

pub open spec fn removed_views(v: Seq<RemovedOutput>) -> Seq<(Seq<char>, Seq<char>, bool)> {
    Seq::new(v.len(), |i: int| (v[i].target@, v[i].output@, v[i].decoupled))
}

pub open spec fn reported(rs: Seq<RecordView>, decoupled: bool) -> Seq<(Seq<char>, Seq<char>, bool)> {
    Seq::new(rs.len(), |i: int| (rs[i].target_name, rs[i].output_path, decoupled))
}

pub open spec fn record_labels(rs: Seq<RecordView>) -> Seq<Seq<char>> {
    Seq::new(rs.len(), |i: int| target_label(rs[i].target_name, rs[i].output_path))
}

/// An action as values: the output to remove (if any) and the record's slug.
pub open spec fn action_view(a: StaleAction) -> (Option<Seq<char>>, Seq<char>) {
    match a {
        StaleAction::RemoveOutput { output, slug } => (Some(output@), slug@),
        StaleAction::DropRecord { slug } => (None, slug@),
    }
}

pub open spec fn action_views(v: Seq<StaleAction>) -> Seq<(Option<Seq<char>>, Seq<char>)> {
    Seq::new(v.len(), |i: int| action_view(v[i]))
}

pub open spec fn planned_actions(orphans: Seq<RecordView>, decoupled: Seq<RecordView>) -> Seq<
    (Option<Seq<char>>, Seq<char>),
> {
    Seq::new(orphans.len(), |i: int| (Some(orphans[i].output_path), orphans[i].slug)) + Seq::new(
        decoupled.len(),
        |i: int| (None::<Seq<char>>, decoupled[i].slug),
    )
}

/// Plans the fate of the stale records. `orphaned[i]` tells whether the
/// output of `stale[i]` is still a generated file. A check fails while any
/// such output remains; previews and checks act on nothing.
pub fn plan_stale_targets(
    config_display: &str,
    stale: &Vec<GeneratedTargetRecord>,
    orphaned: &Vec<bool>,
    dry_run: bool,
    check: bool,
) -> (r: Result<StalePlan, CliRunError>)
    requires
        orphaned@.len() == stale@.len(),
    ensures
        ({
            let rs = record_views(stale@);
            let orphans = split_stale(rs, orphaned@, true);
            let decoupled = split_stale(rs, orphaned@, false);
            if check && orphans.len() > 0 {
                r matches Err(CliRunError::BadRequest(m)) && m@ == "stale generated targets remain for "@
                    + config_display@ + ": "@ + join_with(record_labels(orphans), ", "@)
            } else {
                r matches Ok(plan) && removed_views(plan.removed@) == reported(orphans, false)
                    + reported(decoupled, true) && action_views(plan.actions@) == if dry_run
                    || check {
                    Seq::empty()
                } else {
                    planned_actions(orphans, decoupled)
                }
            }
        }),
{
    let ghost rs = record_views(stale@);
    let mut orphan_idx: Vec<usize> = Vec::new();
    let mut decoupled_idx: Vec<usize> = Vec::new();
    let mut i: usize = 0;
    while i < stale.len()
        invariant
            0 <= i <= stale@.len(),
            orphaned@.len() == stale@.len(),
            rs == record_views(stale@),
            orphan_idx@.len() == split_stale(rs.take(i as int), orphaned@.take(i as int), true).len(),
            decoupled_idx@.len() == split_stale(rs.take(i as int), orphaned@.take(i as int), false).len(),
            forall|j: int|
                0 <= j < orphan_idx@.len() ==> #[trigger] orphan_idx@[j] < stale@.len() && rs[orphan_idx@[j] as int]
                    == split_stale(rs.take(i as int), orphaned@.take(i as int), true)[j],
            forall|j: int|
                0 <= j < decoupled_idx@.len() ==> #[trigger] decoupled_idx@[j] < stale@.len() && rs[decoupled_idx@[j] as int]
                    == split_stale(rs.take(i as int), orphaned@.take(i as int), false)[j],
        decreases stale@.len() - i,
    {
        assert(rs.take(i + 1).drop_last() =~= rs.take(i as int));
        assert(orphaned@.take(i + 1).drop_last() =~= orphaned@.take(i as int));
        assert(rs.take(i + 1).last() == rs[i as int]);
        assert(orphaned@.take(i + 1).last() == orphaned@[i as int]);
        if orphaned[i] {
            orphan_idx.push(i);
        } else {
            decoupled_idx.push(i);
        }
        i += 1;
    }
    assert(rs.take(stale@.len() as int) =~= rs);
    assert(orphaned@.take(stale@.len() as int) =~= orphaned@);
    let ghost orphans = split_stale(rs, orphaned@, true);
    let ghost decoupled = split_stale(rs, orphaned@, false);
    if check && orphan_idx.len() > 0 {
        let mut labels: Vec<Vec<char>> = Vec::new();
        let mut k: usize = 0;
        while k < orphan_idx.len()
            invariant
                0 <= k <= orphan_idx@.len(),
                orphan_idx@.len() == orphans.len(),
                forall|j: int|
                    0 <= j < orphan_idx@.len() ==> #[trigger] orphan_idx@[j] < stale@.len() && rs[orphan_idx@[j] as int]
                        == orphans[j],
                rs == record_views(stale@),
                seq_views(labels@) == record_labels(orphans).take(k as int),
            decreases orphan_idx@.len() - k,
        {
            let r = &stale[orphan_idx[k]];
            assert(rs[orphan_idx@[k as int] as int] == orphans[k as int]);
            assert(rs[orphan_idx@[k as int] as int] == stale@[orphan_idx@[k as int] as int]@);
            let ghost before = seq_views(labels@);
            let lab = label_of(r.target_name.as_str(), r.output_path.as_str());
            assert(lab@ == record_labels(orphans)[k as int]);
            labels.push(lab);
            assert(seq_views(labels@) =~= before.push(lab@));
            assert(seq_views(labels@) =~= record_labels(orphans).take(k + 1));
            k += 1;
        }
        assert(record_labels(orphans).take(orphans.len() as int) =~= record_labels(orphans));
        let mut msg = chars_of("stale generated targets remain for ");
        append_chars(&mut msg, &chars_of(config_display));
        append_chars(&mut msg, &chars_of(": "));
        append_chars(&mut msg, &join_chars(&labels, &chars_of(", ")));
        return Err(CliRunError::BadRequest(string_from_chars(msg)));
    }
    let act = !dry_run && !check;
    let mut actions: Vec<StaleAction> = Vec::new();
    let mut removed: Vec<RemovedOutput> = Vec::new();
    let mut k: usize = 0;
    while k < orphan_idx.len()
        invariant
            0 <= k <= orphan_idx@.len(),
            orphan_idx@.len() == orphans.len(),
            act == (!dry_run && !check),
            forall|j: int|
                0 <= j < orphan_idx@.len() ==> #[trigger] orphan_idx@[j] < stale@.len() && rs[orphan_idx@[j] as int]
                    == orphans[j],
            rs == record_views(stale@),
            removed_views(removed@) == reported(orphans, false).take(k as int),
            action_views(actions@) == if act {
                planned_actions(orphans, Seq::empty()).take(k as int)
            } else {
                Seq::empty()
            },
        decreases orphan_idx@.len() - k,
    {
        let r = &stale[orphan_idx[k]];
        assert(rs[orphan_idx@[k as int] as int] == orphans[k as int]);
        assert(rs[orphan_idx@[k as int] as int] == stale@[orphan_idx@[k as int] as int]@);
        let ghost before = removed_views(removed@);
        let item = RemovedOutput { target: owned(r.target_name.as_str()), output: owned(r.output_path.as_str()), decoupled: false };
        assert(item.target@ == orphans[k as int].target_name);
        assert(item.output@ == orphans[k as int].output_path);
        assert(reported(orphans, false)[k as int] == (item.target@, item.output@, false));
        removed.push(item);
        assert(removed_views(removed@) =~= before.push((item.target@, item.output@, false)));
        assert(removed_views(removed@) =~= reported(orphans, false).take(k + 1));
        if act {
            let ghost before_actions = action_views(actions@);
            let a = StaleAction::RemoveOutput { output: owned(r.output_path.as_str()), slug: owned(r.slug.as_str()) };
            assert(action_view(a) == planned_actions(orphans, Seq::empty())[k as int]);
            actions.push(a);
            assert(action_views(actions@) =~= before_actions.push(action_view(a)));
            assert(action_views(actions@) =~= planned_actions(orphans, Seq::empty()).take(k + 1));
        }
        k += 1;
    }
    assert(reported(orphans, false).take(orphans.len() as int) =~= reported(orphans, false));
    assert(planned_actions(orphans, Seq::empty()).take(orphans.len() as int) =~= planned_actions(orphans, Seq::empty()));
    let ghost first_removed = removed_views(removed@);
    let ghost first_actions = action_views(actions@);
    let mut k: usize = 0;
    while k < decoupled_idx.len()
        invariant
            0 <= k <= decoupled_idx@.len(),
            decoupled_idx@.len() == decoupled.len(),
            act == (!dry_run && !check),
            forall|j: int|
                0 <= j < decoupled_idx@.len() ==> #[trigger] decoupled_idx@[j] < stale@.len() && rs[decoupled_idx@[j] as int]
                    == decoupled[j],
            rs == record_views(stale@),
            first_removed == reported(orphans, false),
            first_actions == if act {
                planned_actions(orphans, Seq::empty())
            } else {
                Seq::empty()
            },
            removed_views(removed@) == first_removed + reported(decoupled, true).take(k as int),
            action_views(actions@) == first_actions + if act {
                Seq::new(k as nat, |j: int| (None::<Seq<char>>, decoupled[j].slug))
            } else {
                Seq::empty()
            },
        decreases decoupled_idx@.len() - k,
    {
        let r = &stale[decoupled_idx[k]];
        assert(rs[decoupled_idx@[k as int] as int] == decoupled[k as int]);
        assert(rs[decoupled_idx@[k as int] as int] == stale@[decoupled_idx@[k as int] as int]@);
        let ghost before = removed_views(removed@);
        let item = RemovedOutput { target: owned(r.target_name.as_str()), output: owned(r.output_path.as_str()), decoupled: true };
        assert(reported(decoupled, true)[k as int] == (item.target@, item.output@, true));
        removed.push(item);
        assert(removed_views(removed@) =~= before.push((item.target@, item.output@, true)));
        assert(removed_views(removed@) =~= first_removed + reported(decoupled, true).take(k + 1));
        if act {
            let ghost before_actions = action_views(actions@);
            let a = StaleAction::DropRecord { slug: owned(r.slug.as_str()) };
            assert(action_view(a) == (None::<Seq<char>>, decoupled[k as int].slug));
            actions.push(a);
            assert(action_views(actions@) =~= before_actions.push(action_view(a)));
            assert(action_views(actions@) =~= first_actions + Seq::new((k + 1) as nat, |j: int| (None::<Seq<char>>, decoupled[j].slug)));
        }
        k += 1;
    }
    assert(reported(decoupled, true).take(decoupled.len() as int) =~= reported(decoupled, true));
    assert(act ==> first_actions + Seq::new(decoupled.len(), |j: int| (None::<Seq<char>>, decoupled[j].slug)) =~= planned_actions(orphans, decoupled));
    assert(!act ==> first_actions + Seq::<(Option<Seq<char>>, Seq<char>)>::empty() =~= Seq::<(Option<Seq<char>>, Seq<char>)>::empty());
    Ok(StalePlan { actions, removed })
}

// ---------------------------------------------------------------------------
// A target's earlier output

/// What to clean up of a target's earlier sync before recording its new one.
#[derive(Debug)]
pub struct PreviousCleanup {
    pub remove_output: Option<String>,
    pub delete_record: Option<String>,
}

/// The first record of the target, in order.
pub open spec fn first_record_for(rs: Seq<RecordView>, name: Seq<char>) -> Option<RecordView>
    decreases rs.len(),
{
    if rs.len() == 0 {
        None
    } else if rs[0].target_name == name {
        Some(rs[0])
    } else {
        first_record_for(rs.drop_first(), name)
    }
}

/// A spec document's earlier output goes when it moved, and its record
/// always; another target's earlier output goes when it moved and no target
/// of the configuration writes there now.
pub open spec fn cleanup_spec(
    t: TargetView,
    rs: Seq<RecordView>,
    current_outputs: Seq<Seq<char>>,
    output_key: Seq<char>,
) -> (Option<Seq<char>>, Option<Seq<char>>) {
    match first_record_for(rs, t.name) {
        None => (None, None),
        Some(p) => if is_spec_doc(t) {
            (if p.output_path != output_key {
                Some(p.output_path)
            } else {
                None
            }, Some(p.slug))
        } else {
            (if p.output_path != output_key && !current_outputs.contains(p.output_path) {
                Some(p.output_path)
            } else {
                None
            }, None)
        },
    }
}

fn strings_contain(v: &Vec<String>, s: &str) -> (r: bool)
    ensures
        r == crate::text::string_views(v@).contains(s@),
{
    let ghost sv = crate::text::string_views(v@);
    let mut i: usize = 0;
    while i < v.len()
        invariant
            0 <= i <= v@.len(),
            sv == crate::text::string_views(v@),
            forall|j: int| 0 <= j < i ==> sv[j] != s@,
        decreases v@.len() - i,
    {
        if str_eq(v[i].as_str(), s) {
            assert(sv[i as int] == s@);
            return true;
        }
        i += 1;
    }
    false
}

pub fn previous_target_cleanup(
    target: &RenderTarget,
    previous: &Vec<GeneratedTargetRecord>,
    current_outputs: &Vec<String>,
    output_key: &str,
) -> (r: PreviousCleanup)
    ensures
        cleanup_spec(
            target@,
            record_views(previous@),
            crate::text::string_views(current_outputs@),
            output_key@,
        ) == (crate::text::opt_string_view(r.remove_output), crate::text::opt_string_view(
            r.delete_record,
        )),
{
    let ghost rs = record_views(previous@);
    assert(rs.skip(0) =~= rs);
    let mut i: usize = 0;
    while i < previous.len()
        invariant
            0 <= i <= previous@.len(),
            rs == record_views(previous@),
            first_record_for(rs, target@.name) == first_record_for(rs.skip(i as int), target@.name),
        decreases previous@.len() - i,
    {
        assert(rs.skip(i as int)[0] == rs[i as int]);
        assert(rs.skip(i as int).drop_first() =~= rs.skip(i + 1));
        if str_eq(previous[i].target_name.as_str(), target.name.as_str()) {
            let p = &previous[i];
            let moved = !str_eq(p.output_path.as_str(), output_key);
            if is_spec_doc_target(target) {
                let remove_output = if moved {
                    Some(owned(p.output_path.as_str()))
                } else {
                    None
                };
                return PreviousCleanup { remove_output, delete_record: Some(owned(p.slug.as_str())) };
            }
            let remove_output = if moved && !strings_contain(current_outputs, p.output_path.as_str()) {
                Some(owned(p.output_path.as_str()))
            } else {
                None
            };
            return PreviousCleanup { remove_output, delete_record: None };
        }
        i += 1;
    }
    PreviousCleanup { remove_output: None, delete_record: None }
}

} // verus!

verus! {

// ---------------------------------------------------------------------------
// Generated files

/// The first line of every generated markdown file.
pub open spec fn generated_marker() -> Seq<char> {
    "<!-- rule-api:file generated=true -->"@
}

/// The first line of every generated markdown file.
pub fn generated_file_comment() -> (r: &'static str)
    ensures
        r@ == generated_marker(),
{
    "<!-- rule-api:file generated=true -->"
}

/// A file is generated when it starts with the generated marker.
pub fn is_generated_output(text: &str) -> (r: bool)
    ensures
        r == starts_with(text@, generated_marker()),
{
    str_starts_with(text, generated_file_comment())
}

/// A stale output is an orphaned generated file when it can be read and is
/// generated; a missing or unreadable file, or one edited into a hand-owned
/// file, is not.
pub fn is_orphaned_generated(existing: &Result<String, String>) -> (r: bool)
    ensures
        r == (existing matches Ok(text) && starts_with(text@, generated_marker())),
{
    match existing {
        Ok(text) => is_generated_output(text.as_str()),
        Err(_) => false,
    }
}

/// Whether an output may be removed: a missing file is left alone, a file
/// that cannot be read or is not generated is refused, a generated file is
/// removed.
pub fn removal_check(output: &str, existing: &Option<Result<String, String>>) -> (r: Result<
    bool,
    CliRunError,
>)
    ensures
        match existing {
            None => r == Ok::<bool, CliRunError>(false),
            Some(Err(e)) => r matches Err(CliRunError::BadRequest(m)) && m@ == "read generated file "@
                + output@ + ": "@ + e@,
            Some(Ok(text)) => if starts_with(text@, generated_marker()) {
                r == Ok::<bool, CliRunError>(true)
            } else {
                r matches Err(CliRunError::BadRequest(m)) && m@
                    == "refusing to remove non-generated file "@ + output@
            },
        },
{
    match existing {
        None => Ok(false),
        Some(Err(e)) => {
            let mut msg = chars_of("read generated file ");
            append_chars(&mut msg, &chars_of(output));
            append_chars(&mut msg, &chars_of(": "));
            append_chars(&mut msg, &chars_of(e.as_str()));
            Err(CliRunError::BadRequest(string_from_chars(msg)))
        },
        Some(Ok(text)) => {
            if is_generated_output(text.as_str()) {
                Ok(true)
            } else {
                let mut msg = chars_of("refusing to remove non-generated file ");
                append_chars(&mut msg, &chars_of(output));
                Err(CliRunError::BadRequest(string_from_chars(msg)))
            }
        },
    }
}

} // verus!
