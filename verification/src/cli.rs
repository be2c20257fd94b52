//! The command line: its arguments as values, output formats, and the checks
//! made on arguments before any command runs.
use vstd::prelude::*;

use crate::error::RuleError;
use crate::targets_query::TargetConfigError;

verus! {

/// Machine-readable output formats.
#[derive(Clone, Copy, Debug, PartialEq, Eq, Structural)]
pub enum MachineOutputFormat {
    Json,
    Toon,
}

/// `--json` wins over `--toon`; with neither, output is text.
pub fn machine_output_format(as_json: bool, as_toon: bool) -> (r: Option<MachineOutputFormat>)
    ensures
        r == (if as_json {
            Some(MachineOutputFormat::Json)
        } else if as_toon {
            Some(MachineOutputFormat::Toon)
        } else {
            None
        }),
{
    if as_json {
        Some(MachineOutputFormat::Json)
    } else if as_toon {
        Some(MachineOutputFormat::Toon)
    } else {
        None
    }
}

/// Global options and the command to run.
#[derive(Debug)]
pub struct RuleCli {
    pub json: bool,
    pub toon: bool,
    pub index_root: Option<String>,
    pub workspace_root: Option<String>,
    pub command: RuleCommandCli,
}

/// The commands.
#[derive(Debug)]
pub enum RuleCommandCli {
    Init,
    Create(CreateArgs),
    Get(IdArgs),
    Delete(IdArgs),
    ImportFile(ImportFileArgs),
    Update(UpdateArgs),
    Feedback(FeedbackArgs),
    GenerateFile(GenerateFileArgs),
    GenerateTarget(GenerateTargetArgs),
    ExplainTarget(ExplainTargetArgs),
    SyncTargets(SyncTargetsArgs),
    SyncRules(SyncRulesArgs),
    BenchmarkTargets(BenchmarkTargetsArgs),
    MissingRule(MissingRuleArgs),
    List(ListArgs),
    Search(SearchArgs),
    Scan(ScanArgs),
    StoreIndex(StoreIndexArgs),
    AddRoot(AddRootArgs),
    Move(MoveArgs),
}

/// Move a rule to another workspace store.
#[derive(Debug)]
pub struct MoveArgs {
    pub id: Option<String>,
    pub to_workspace_root: Option<String>,
    pub dry_run: bool,
    pub resume: Option<String>,
    pub rollback: Option<String>,
}

#[derive(Debug)]
pub struct CreateArgs {
    pub title: String,
    pub slug: String,
    pub file_kind: String,
    pub section: String,
    pub body: Option<String>,
    pub body_file: Option<String>,
    pub repo_scope: Vec<String>,
    pub path_scope: Vec<String>,
    pub order_key: Option<i64>,
    pub source_repo: Option<String>,
    pub source_path: Option<String>,
    pub source_start_line: Option<i64>,
    pub source_end_line: Option<i64>,
}

#[derive(Debug)]
pub struct IdArgs {
    pub id: String,
}

#[derive(Debug)]
pub struct ImportFileArgs {
    pub path: String,
    pub file_kind: String,
    pub repo_scope: Vec<String>,
    pub slug_prefix: String,
    pub default_section: Option<String>,
    pub path_scope: Vec<String>,
    pub source_repo: Option<String>,
    pub dry_run: bool,
}

#[derive(Debug)]
pub struct UpdateArgs {
    pub id: String,
    pub fields: Vec<String>,
    pub to_state: Option<String>,
    pub body: Option<String>,
    pub body_file: Option<String>,
    pub path_scope: Vec<String>,
    pub add_path_scope: Vec<String>,
}

#[derive(Debug)]
pub struct FeedbackArgs {
    pub id: String,
    pub rating: String,
    pub note: Option<String>,
    pub note_kind: Option<String>,
    pub session_id: Option<String>,
    pub agent_or_user_id: Option<String>,
}

#[derive(Debug)]
pub struct MissingRuleArgs {
    pub query: String,
    pub context_tags: Vec<String>,
    pub workspace_slug: String,
    pub has_matching_rule: bool,
}

#[derive(Debug)]
pub struct GenerateFileArgs {
    pub file_kind: String,
    pub repo_scope: String,
    pub path_scope: Option<String>,
    pub section: Option<String>,
    pub state: Option<String>,
    pub output: Option<String>,
    pub dry_run: bool,
    pub check: bool,
}

#[derive(Debug)]
pub struct GenerateTargetArgs {
    pub config: String,
    pub target: String,
    pub dry_run: bool,
    pub check: bool,
}

#[derive(Debug)]
pub struct ExplainTargetArgs {
    pub config: String,
    pub target: String,
}

#[derive(Debug)]
pub struct SyncTargetsArgs {
    pub config: String,
    pub dry_run: bool,
    pub check: bool,
}

#[derive(Debug)]
pub struct SyncRulesArgs {
    pub file: String,
    pub dry_run: bool,
    pub check: bool,
}

/// Which operation a benchmark times.
#[derive(Clone, Copy, Debug, PartialEq, Eq, Structural)]
pub enum BenchmarkOperation {
    GenerateTarget,
    SyncTargets,
    Both,
}

#[derive(Debug)]
pub struct BenchmarkTargetsArgs {
    pub config: String,
    pub target: Option<String>,
    pub operation: BenchmarkOperation,
    pub iterations: usize,
    pub workspace_roots: Vec<String>,
}

#[derive(Debug)]
pub struct FilterArgs {
    pub state: Option<String>,
    pub file_kind: Option<String>,
    pub section: Option<String>,
    pub repo_scope: Option<String>,
    pub path_scope: Option<String>,
    pub slug: Option<String>,
    pub low_rated_only: bool,
    pub unresolved_only: bool,
}

#[derive(Debug)]
pub struct ListArgs {
    pub filter: FilterArgs,
    pub limit: Option<usize>,
}

#[derive(Debug)]
pub struct SearchArgs {
    pub query: String,
    pub filter: FilterArgs,
    pub limit: usize,
}

#[derive(Debug)]
pub struct ScanArgs {
    pub force: bool,
}

#[derive(Debug)]
pub struct AddRootArgs {
    pub path: String,
    pub label: Option<String>,
}

/// Generate (or check) the committed rule catalog artifacts.
#[derive(Debug)]
pub struct StoreIndexArgs {
    pub check: bool,
}

/// Why a command could not run.
#[derive(Debug)]
pub enum CliRunError {
    Rule(RuleError),
    TargetConfig(TargetConfigError),
    BadRequest(String),
}

/// Commands that create entities must name the store they write to.
pub open spec fn needs_explicit_workspace(cli: RuleCli) -> bool {
    (cli.command is Create || cli.command is ImportFile) && cli.index_root is None
        && cli.workspace_root is None
}

pub fn require_explicit_workspace_for_create(cli: &RuleCli) -> (r: Result<(), CliRunError>)
    ensures
        r is Err <==> needs_explicit_workspace(*cli),
        r matches Err(e) ==> e matches CliRunError::BadRequest(m) && m@
            == "entity creation requires explicit --workspace <path> or --index-root <path>"@,
{
    let creates = match &cli.command {
        RuleCommandCli::Create(_) => true,
        RuleCommandCli::ImportFile(_) => true,
        _ => false,
    };
    if creates && cli.index_root.is_none() && cli.workspace_root.is_none() {
        return Err(
            CliRunError::BadRequest(
                "entity creation requires explicit --workspace <path> or --index-root <path>".to_owned(),
            ),
        );
    }
    Ok(())
}

/// `generate-file`: `--check` and `--dry-run` exclude each other, and an
/// output file is needed unless only previewing.
pub fn validate_generate_args(args: &GenerateFileArgs) -> (r: Result<(), CliRunError>)
    ensures
        match r {
            Ok(()) => !(args.check && args.dry_run) && !((args.check || !args.dry_run)
                && args.output is None),
            Err(CliRunError::BadRequest(m)) => if args.check && args.dry_run {
                m@ == "choose either --check or --dry-run"@
            } else {
                (args.check || !args.dry_run) && args.output is None && m@
                    == "--output is required unless --dry-run is used"@
            },
            Err(_) => false,
        },
{
    if args.check && args.dry_run {
        return Err(CliRunError::BadRequest("choose either --check or --dry-run".to_owned()));
    }
    if (args.check || !args.dry_run) && args.output.is_none() {
        return Err(
            CliRunError::BadRequest("--output is required unless --dry-run is used".to_owned()),
        );
    }
    Ok(())
}

/// `generate-target`: `--check` and `--dry-run` exclude each other.
pub fn validate_generate_target_args(args: &GenerateTargetArgs) -> (r: Result<(), CliRunError>)
    ensures
        match r {
            Ok(()) => !(args.check && args.dry_run),
            Err(CliRunError::BadRequest(m)) => args.check && args.dry_run && m@
                == "choose either --check or --dry-run"@,
            Err(_) => false,
        },
{
    if args.check && args.dry_run {
        return Err(CliRunError::BadRequest("choose either --check or --dry-run".to_owned()));
    }
    Ok(())
}

/// `sync-targets`: `--check` and `--dry-run` exclude each other.
pub fn validate_sync_target_args(args: &SyncTargetsArgs) -> (r: Result<(), CliRunError>)
    ensures
        match r {
            Ok(()) => !(args.check && args.dry_run),
            Err(CliRunError::BadRequest(m)) => args.check && args.dry_run && m@
                == "choose either --check or --dry-run"@,
            Err(_) => false,
        },
{
    if args.check && args.dry_run {
        return Err(CliRunError::BadRequest("choose either --check or --dry-run".to_owned()));
    }
    Ok(())
}

} // verus!
