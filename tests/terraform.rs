use envie::{parse_workspace_list, parse_workspace_show, EnvieError, TerraformManager};

#[test]
fn test_terraform_manager_creation() {
    let manager = TerraformManager::new("work/dir");
    assert_eq!(manager.working_directory(), "work/dir");
    assert!(!manager.verbose());
}

#[test]
fn test_terraform_manager_with_verbose() {
    let manager = TerraformManager::new("work/dir").with_verbose(true);
    assert!(manager.verbose());
}

#[test]
fn apply_passes_each_variable() {
    let manager = TerraformManager::new("d");
    let run = manager.apply_with_output(
        &vec![("service".to_string(), "api".to_string()), ("dependencies".to_string(), "[]".to_string())],
        "plan.out",
    );
    assert_eq!(
        run.args,
        vec!["apply", "-auto-approve", "-input=false", "-var", "service=api", "-var", "dependencies=[]", "-out", "plan.out"]
    );
    assert_eq!(run.working_directory, "d");
    assert!(!run.echo);
}

#[test]
fn workspace_commands() {
    let manager = TerraformManager::new("d").with_verbose(true);
    assert_eq!(manager.workspace_select("myapp-1").args, vec!["workspace", "select", "myapp-1"]);
    assert_eq!(manager.destroy(&vec![]).args, vec!["destroy", "-auto-approve", "-input=false"]);
    assert_eq!(manager.init_with_upgrade().args, vec!["init", "-upgrade"]);
    assert_eq!(manager.output_value("service").args, vec!["output", "-json", "service"]);
    assert!(manager.init().echo);
}

#[test]
fn workspace_list_output_is_trimmed_and_filtered() {
    let names = parse_workspace_list("  default\n* myapp-123 \n\n  myapp-456\n");
    assert_eq!(names, vec!["default", "* myapp-123", "myapp-456"]);
    assert_eq!(parse_workspace_show("  myapp-123\n"), "myapp-123");
    assert!(parse_workspace_list("").is_empty());
}

#[test]
fn failed_run_names_the_subcommand() {
    let run = TerraformManager::new("d").workspace_list();
    assert_eq!(run.outcome(true, "out".to_string(), "").unwrap(), "out");
    match run.outcome(false, String::new(), "boom") {
        Err(EnvieError::TerraformError(m)) => assert_eq!(m, "terraform workspace failed: boom"),
        other => panic!("unexpected: {:?}", other),
    }
    assert!(matches!(run.launch_failure("no such file"), EnvieError::ProcessError(m) if m == "Failed to execute terraform workspace: no such file"));
}
