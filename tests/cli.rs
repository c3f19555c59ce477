use envie::{CleanOptions, CommandHandler, ShowOptions};

#[test]
fn commands_test_command_handler_creation() {
    let handler = CommandHandler::new(".".to_string());
    assert!(std::path::Path::new(&handler.working_directory).exists());
}

#[test]
fn handler_test_command_handler_creation() {
    let handler = CommandHandler::new(".".to_string());
    assert!(std::path::Path::new(&handler.working_directory).exists());
}

#[test]
fn commands_test_parse_environments() {
    let handler = CommandHandler::new(".".to_string());
    let env_args = vec!["service1:dev".to_string(), "service2:prod".to_string()];
    let result = handler.parse_environments(env_args).unwrap();
    assert_eq!(result.get("service1"), Some(&"dev".to_string()));
    assert_eq!(result.get("service2"), Some(&"prod".to_string()));
}

#[test]
fn handler_test_parse_environments() {
    let handler = CommandHandler::new(".".to_string());
    let env_args = vec!["service1:dev".to_string(), "service2:prod".to_string()];
    let result = handler.parse_environments(env_args).unwrap();
    assert_eq!(result.get("service1"), Some(&"dev".to_string()));
    assert_eq!(result.get("service2"), Some(&"prod".to_string()));
}

#[test]
fn commands_test_parse_environments_invalid_format() {
    let handler = CommandHandler::new(".".to_string());
    let env_args = vec!["invalid_format".to_string()];
    let result = handler.parse_environments(env_args);
    assert!(result.is_err());
}

#[test]
fn handler_test_parse_environments_invalid_format() {
    let handler = CommandHandler::new(".".to_string());
    let env_args = vec!["invalid_format".to_string()];
    let result = handler.parse_environments(env_args);
    assert!(result.is_err());
}

#[test]
fn environment_overrides_split_at_the_first_colon() {
    let handler = CommandHandler::new(".".to_string());
    let result = handler
        .parse_environments(vec!["a:x:y".to_string(), "default:prod".to_string(), "a:z".to_string()])
        .unwrap();
    assert_eq!(result.len(), 1);
    assert_eq!(result.get("a"), Some(&"z".to_string()));
    assert_eq!(result.get("default"), None);
}

#[test]
fn test_clean_options() {
    let options = CleanOptions { service_name: Some("test-service".to_string()), upgrade: true, verbose: false };
    assert_eq!(options.service_name, Some("test-service".to_string()));
    assert!(options.upgrade);
    assert!(!options.verbose);
}

#[test]
fn test_show_options() {
    let options =
        ShowOptions { service: Some("test-service".to_string()), modules: true, dependencies: false, verbose: true };
    assert_eq!(options.service, Some("test-service".to_string()));
    assert!(options.modules);
    assert!(!options.dependencies);
    assert!(options.verbose);
}
