use envie::{
    destroy_steps, development_workspaces, display_workspace_name, format_workspace_name, validate_merge_request_id,
    EnvieError, InitCommand, InitOptions, ProjectInfo,
};

#[test]
fn test_merge_request_id_validation() {
    assert!(validate_merge_request_id("123").is_ok());
    assert!(validate_merge_request_id("123-abc").is_ok());
    assert!(validate_merge_request_id("123-456").is_ok());

    assert!(validate_merge_request_id("abc").is_err());
    assert!(validate_merge_request_id("123-").is_err());
    assert!(validate_merge_request_id("-123").is_err());
}

#[test]
fn merge_request_id_edge_cases() {
    assert!(matches!(validate_merge_request_id(""), Err(EnvieError::ValidationError(_))));
    assert!(validate_merge_request_id("1-a-b").is_err());
    assert!(validate_merge_request_id("12-Zz9").is_ok());
}

#[test]
fn test_workspace_name_formatting() {
    let name = format_workspace_name("repo", "123");
    assert_eq!(name, "repo-123");
}

#[test]
fn workspace_names_shown_without_the_repository() {
    assert_eq!(display_workspace_name("repo-123", "repo"), "123");
    assert_eq!(display_workspace_name("other-123", "repo"), "other-123");
    assert_eq!(
        development_workspaces(&vec!["default".to_string(), "repo-1".to_string()]),
        vec!["repo-1".to_string()]
    );
}

#[test]
fn test_destroy_order_printing() {
    let dependencies = vec!["service1/component1:dev".to_string(), "service1/component2:prod".to_string()];
    let steps = destroy_steps(&dependencies);
    assert_eq!(steps.len(), 2);
    assert_eq!(steps[0].component, "service1/component2");
    assert!(!steps[0].destroy);
    assert_eq!(steps[1].component, "service1/component1");
    assert!(steps[1].destroy);
}

#[test]
fn init_defaults_and_answers() {
    let options = InitOptions { name: None, description: None, no_prompt: true, verbose: false };
    let info = InitCommand::project_info(&options, "typed", "typed");
    assert_eq!(info.name, "my-envie-project");
    assert_eq!(info.description, "An Envie-managed Terraform project");
    let prompted = InitOptions { name: Some("given".to_string()), description: None, no_prompt: false, verbose: false };
    let info = InitCommand::project_info(&prompted, "ignored", "  A project \n");
    assert_eq!(info.name, "given");
    assert_eq!(info.description, "A project");
    let info = InitCommand::project_info(&prompted, "", "   ");
    assert_eq!(info.description, "An Envie-managed Terraform project");
}

#[test]
fn new_project_manifest() {
    let cmd = InitCommand::new("w".to_string());
    let config = cmd.create_workspace_config(&ProjectInfo { name: "p".to_string(), description: "d".to_string() });
    assert_eq!(config.version, "1.0");
    assert_eq!(config.services.len(), 3);
    assert_eq!(config.services[2].path, "services/api");
    assert_eq!(config.project.unwrap().name, "p");
}

#[test]
fn test_progress_bar_creation() {
    let progress = envie::ProgressBar::new(10, "Testing");
    assert_eq!(progress.current, 0);
    assert_eq!(progress.total, 10);
    assert_eq!(progress.message, "Testing");
}

#[test]
fn test_progress_bar_increment() {
    let mut progress = envie::ProgressBar::new(10, "Testing");
    progress.increment();
    assert_eq!(progress.current, 1);
}

#[test]
fn test_progress_bar_update() {
    let mut progress = envie::ProgressBar::new(10, "Testing");
    progress.update(5);
    assert_eq!(progress.current, 5);
}

#[test]
fn progress_bar_stops_at_the_total() {
    let mut progress = envie::ProgressBar::new(1, "x");
    progress.increment();
    progress.increment();
    assert_eq!(progress.current, 1);
}

#[test]
fn test_parse_env_line() {
    assert_eq!(envie::parse_env_line("KEY=value"), Some(("KEY".to_string(), "value".to_string())));
    assert_eq!(envie::parse_env_line("KEY=\"quoted value\""), Some(("KEY".to_string(), "quoted value".to_string())));
    assert_eq!(envie::parse_env_line("KEY"), None);
    assert_eq!(envie::parse_env_line(""), None);
}

#[test]
fn env_line_splits_at_the_first_equals() {
    assert_eq!(envie::parse_env_line(" A = b=c "), Some(("A".to_string(), "b=c".to_string())));
    assert_eq!(envie::parse_env_line("A=\"\""), Some(("A".to_string(), String::new())));
}

#[test]
fn reference_path_of_dotted_references() {
    assert_eq!(
        envie::reference_path("service.component.value"),
        Some(vec!["service".to_string(), "component".to_string(), "value".to_string()])
    );
    assert_eq!(envie::reference_path("service.component"), Some(vec!["service".to_string(), "value".to_string()]));
}

#[test]
fn reference_path_of_short_references() {
    assert_eq!(envie::reference_path("missing"), None);
    assert_eq!(envie::reference_path(""), None);
}

#[test]
fn template_entries_skip_blanks_and_comments() {
    let entries = envie::parse_env_template("# comment\n\nA=x.y\r\n  B = \"p.q.r\"  \nnot an entry\n");
    assert_eq!(
        entries,
        vec![("A".to_string(), "x.y".to_string()), ("B".to_string(), "p.q.r".to_string())]
    );
}

#[test]
fn default_environment_configuration() {
    let config = envie::EnvironmentConfig::default_for(None);
    assert_eq!(config.ephemeral.naming_pattern, "{project}-{id}");
    assert_eq!(config.ephemeral.backend.backend_type, "s3");
    assert_eq!(config.ephemeral.backend.config.get("region"), Some(&"eu-west-1".to_string()));
    assert_eq!(config.stable.len(), 0);
}

#[test]
fn service_entry_display_name() {
    let named = envie::ServiceDiscovery { path: "services/api".to_string(), name: Some("gateway".to_string()) };
    let unnamed = envie::ServiceDiscovery { path: "services/api".to_string(), name: None };
    assert_eq!(named.display_name(), "gateway");
    assert_eq!(unnamed.display_name(), "api");
}
