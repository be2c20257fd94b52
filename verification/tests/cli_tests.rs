use rule_api::cli::{
    machine_output_format, require_explicit_workspace_for_create, validate_generate_args,
    validate_generate_target_args, validate_sync_target_args, CliRunError, GenerateFileArgs,
    GenerateTargetArgs, IdArgs, ImportFileArgs, MachineOutputFormat, RuleCli, RuleCommandCli, SyncTargetsArgs,
};

fn generate_file(dry_run: bool, check: bool, output: Option<&str>) -> GenerateFileArgs {
    GenerateFileArgs {
        file_kind: "AGENTS".to_string(),
        repo_scope: "repo".to_string(),
        path_scope: None,
        section: None,
        state: None,
        output: output.map(str::to_string),
        dry_run,
        check,
    }
}

fn bad_request(r: Result<(), CliRunError>) -> String {
    match r {
        Err(CliRunError::BadRequest(m)) => m,
        _ => panic!("expected a bad request"),
    }
}

#[test]
fn json_wins_over_toon() {
    assert_eq!(machine_output_format(true, true), Some(MachineOutputFormat::Json));
    assert_eq!(machine_output_format(false, true), Some(MachineOutputFormat::Toon));
    assert_eq!(machine_output_format(false, false), None);
}

#[test]
fn creation_needs_an_explicit_workspace() {
    let cli = RuleCli {
        json: false,
        toon: false,
        index_root: None,
        workspace_root: None,
        command: RuleCommandCli::Get(IdArgs { id: "x".to_string() }),
    };
    assert!(require_explicit_workspace_for_create(&cli).is_ok());
    let import_args = || ImportFileArgs {
        path: "docs/blocks.md".to_string(),
        file_kind: "AGENTS".to_string(),
        repo_scope: Vec::new(),
        slug_prefix: "shared".to_string(),
        default_section: None,
        path_scope: Vec::new(),
        source_repo: None,
        dry_run: false,
    };
    let import = RuleCli {
        json: false,
        toon: false,
        index_root: None,
        workspace_root: None,
        command: RuleCommandCli::ImportFile(import_args()),
    };
    assert_eq!(
        bad_request(require_explicit_workspace_for_create(&import)),
        "entity creation requires explicit --workspace <path> or --index-root <path>"
    );
    let with_root = RuleCli {
        json: false,
        toon: false,
        index_root: Some(".rule".to_string()),
        workspace_root: None,
        command: RuleCommandCli::ImportFile(import_args()),
    };
    assert!(require_explicit_workspace_for_create(&with_root).is_ok());
}

#[test]
fn generate_arguments_are_checked() {
    assert_eq!(bad_request(validate_generate_args(&generate_file(true, true, Some("out.md")))), "choose either --check or --dry-run");
    assert_eq!(bad_request(validate_generate_args(&generate_file(false, false, None))), "--output is required unless --dry-run is used");
    assert!(validate_generate_args(&generate_file(true, false, None)).is_ok());
    assert!(validate_generate_args(&generate_file(false, true, Some("out.md"))).is_ok());
    let target = GenerateTargetArgs { config: "c.yaml".to_string(), target: "t".to_string(), dry_run: true, check: true };
    assert_eq!(bad_request(validate_generate_target_args(&target)), "choose either --check or --dry-run");
    let sync = SyncTargetsArgs { config: "c.yaml".to_string(), dry_run: false, check: true };
    assert!(validate_sync_target_args(&sync).is_ok());
}
