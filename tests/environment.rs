use envie::{
    BackendConfig, EnvieError, EnvironmentConfig, EnvironmentResolver, EnvironmentToken, EnvironmentType,
    EphemeralConfig, OrderedMap, ResolvedEnvironment, StableEnvironmentConfig,
};

fn sample_config() -> EnvironmentConfig {
    let mut stable_envs = OrderedMap::new();
    stable_envs.insert(
        "sandbox".to_string(),
        StableEnvironmentConfig {
            workspace: "sandbox".to_string(),
            backend: BackendConfig {
                backend_type: "s3".to_string(),
                config: {
                    let mut config = OrderedMap::new();
                    config.insert("bucket".to_string(), "terraform-state-stable".to_string());
                    config.insert("region".to_string(), "eu-west-1".to_string());
                    config
                },
            },
            description: "Sandbox environment".to_string(),
        },
    );
    EnvironmentConfig {
        project: None,
        ephemeral: EphemeralConfig {
            naming_pattern: "{repo}-{merge-request}".to_string(),
            backend: BackendConfig {
                backend_type: "s3".to_string(),
                config: {
                    let mut config = OrderedMap::new();
                    config.insert("bucket".to_string(), "terraform-state-ephemeral".to_string());
                    config.insert("region".to_string(), "eu-west-1".to_string());
                    config
                },
            },
        },
        stable: stable_envs,
    }
}

fn sample_resolver() -> EnvironmentResolver {
    EnvironmentResolver::new("myapp-123".to_string(), "myapp".to_string(), sample_config())
        .with_available_workspaces(vec!["myapp-123".to_string(), "myapp-456".to_string()])
}

#[test]
fn test_environment_resolution() {
    let resolver = sample_resolver();

    let stable_result = resolver.resolve_environment("stable.sandbox").unwrap();
    assert_eq!(stable_result.workspace, "sandbox");
    assert!(matches!(stable_result.environment_type, EnvironmentType::Stable(name) if name == "sandbox"));

    let ephemeral_result = resolver.resolve_environment("ephemeral").unwrap();
    assert_eq!(ephemeral_result.workspace, "myapp-123");
    assert!(matches!(ephemeral_result.environment_type, EnvironmentType::Ephemeral));

    let specific_ephemeral = resolver.resolve_environment("ephemeral.456").unwrap();
    assert_eq!(specific_ephemeral.workspace, "myapp-456");
    assert!(matches!(specific_ephemeral.environment_type, EnvironmentType::Ephemeral));
}

#[test]
fn test_state_key_generation() {
    let environment_config = EnvironmentConfig {
        project: None,
        ephemeral: EphemeralConfig {
            naming_pattern: "{repo}-{merge-request}".to_string(),
            backend: BackendConfig { backend_type: "s3".to_string(), config: OrderedMap::new() },
        },
        stable: OrderedMap::new(),
    };
    let resolver = EnvironmentResolver::new("myapp-123".to_string(), "myapp".to_string(), environment_config);
    let ephemeral_env = ResolvedEnvironment {
        workspace: "myapp-123".to_string(),
        environment_type: EnvironmentType::Ephemeral,
        backend: BackendConfig { backend_type: "s3".to_string(), config: OrderedMap::new() },
    };
    let state_key = resolver.generate_state_key(&ephemeral_env, "api", "lambda");
    assert_eq!(state_key, "ephemeral/myapp-123/api/lambda/terraform.tfstate");
}

#[test]
fn stable_entry_gives_its_workspace_and_backend() {
    let resolver = sample_resolver();
    let r = resolver.resolve_environment("stable.sandbox").unwrap();
    assert_eq!(r.backend.backend_type, "s3");
    assert_eq!(r.backend.config.get("bucket"), Some(&"terraform-state-stable".to_string()));
    assert_eq!(r.backend.config.len(), 2);
}

#[test]
fn unknown_stable_environment_is_a_validation_error() {
    let resolver = sample_resolver();
    match resolver.resolve_environment("stable.unknown") {
        Err(EnvieError::ValidationError(msg)) => {
            assert_eq!(msg, "Stable environment 'unknown' not found. Available: [\"sandbox\"]");
        }
        other => panic!("unexpected: {:?}", other),
    }
}

#[test]
fn current_ephemeral_uses_the_ephemeral_backend() {
    let resolver = sample_resolver();
    let r = resolver.resolve_environment("ephemeral").unwrap();
    assert_eq!(r.backend.config.get("bucket"), Some(&"terraform-state-ephemeral".to_string()));
}

#[test]
fn unknown_ephemeral_id_is_a_validation_error() {
    let resolver = sample_resolver();
    match resolver.resolve_environment("ephemeral.789") {
        Err(EnvieError::ValidationError(msg)) => assert_eq!(
            msg,
            "Ephemeral workspace 'myapp-789' does not exist. Available: [\"myapp-123\", \"myapp-456\"]"
        ),
        other => panic!("unexpected: {:?}", other),
    }
}

#[test]
fn ephemeral_id_needs_known_workspaces() {
    let resolver = EnvironmentResolver::new("myapp-123".to_string(), "myapp".to_string(), sample_config());
    assert!(matches!(resolver.resolve_environment("ephemeral.123"), Err(EnvieError::ValidationError(_))));
}

#[test]
fn literal_with_project_prefix_is_ephemeral() {
    let resolver = sample_resolver();
    let r = resolver.resolve_environment("myapp-feature-auth").unwrap();
    assert_eq!(r.workspace, "myapp-feature-auth");
    assert!(matches!(r.environment_type, EnvironmentType::Ephemeral));
    assert_eq!(r.backend.config.get("bucket"), Some(&"terraform-state-ephemeral".to_string()));
}

#[test]
fn literal_stable_name_uses_its_table_entry() {
    let resolver = sample_resolver();
    let r = resolver.resolve_environment("sandbox").unwrap();
    assert!(matches!(r.environment_type, EnvironmentType::Stable(ref n) if n == "sandbox"));
    assert_eq!(r.backend.config.get("bucket"), Some(&"terraform-state-stable".to_string()));
}

#[test]
fn unknown_literal_falls_back_to_the_ephemeral_backend() {
    let resolver = sample_resolver();
    let r = resolver.resolve_environment("production").unwrap();
    assert_eq!(r.workspace, "production");
    assert!(matches!(r.environment_type, EnvironmentType::Stable(ref n) if n == "production"));
    assert_eq!(r.backend.config.get("bucket"), Some(&"terraform-state-ephemeral".to_string()));
}

#[test]
fn tokens_parse_in_grammar_order() {
    assert!(matches!(EnvironmentToken::parse("stable.x"), EnvironmentToken::StableNamed(n) if n == "x"));
    assert!(matches!(EnvironmentToken::parse("ephemeral"), EnvironmentToken::EphemeralCurrent));
    assert!(matches!(EnvironmentToken::parse("ephemeral.7"), EnvironmentToken::EphemeralById(n) if n == "7"));
    assert!(matches!(EnvironmentToken::parse("ephemeralx"), EnvironmentToken::LiteralWorkspace(n) if n == "ephemeralx"));
    assert!(matches!(EnvironmentToken::parse(""), EnvironmentToken::LiteralWorkspace(n) if n.is_empty()));
}

#[test]
fn stable_key_uses_the_default_pattern() {
    let resolver = sample_resolver();
    let r = resolver.resolve_environment("stable.sandbox").unwrap();
    assert_eq!(
        resolver.generate_state_key(&r, "api", "lambda"),
        "stable/sandbox/api/lambda/terraform.tfstate"
    );
}

#[test]
fn stable_key_uses_a_configured_pattern() {
    let resolver = sample_resolver();
    let mut config = OrderedMap::new();
    config.insert("key_pattern".to_string(), "{service}/{module}@{environment}/{service}".to_string());
    let r = ResolvedEnvironment {
        workspace: "prod".to_string(),
        environment_type: EnvironmentType::Stable("production".to_string()),
        backend: BackendConfig { backend_type: "gcs".to_string(), config },
    };
    assert_eq!(resolver.generate_state_key(&r, "api", "db"), "api/db@production/api");
}

#[test]
fn state_key_is_the_same_for_the_same_inputs() {
    let resolver = sample_resolver();
    let r = resolver.resolve_environment("ephemeral.456").unwrap();
    let a = resolver.generate_state_key(&r, "api", "lambda");
    let b = resolver.generate_state_key(&r, "api", "lambda");
    assert_eq!(a, b);
    assert_eq!(a, "ephemeral/myapp-456/api/lambda/terraform.tfstate");
}

#[test]
fn backend_config_overrides_the_key_setting() {
    let resolver = sample_resolver();
    let mut config = OrderedMap::new();
    config.insert("bucket".to_string(), "b".to_string());
    config.insert("key".to_string(), "static".to_string());
    let r = ResolvedEnvironment {
        workspace: "myapp-123".to_string(),
        environment_type: EnvironmentType::Ephemeral,
        backend: BackendConfig { backend_type: "s3".to_string(), config },
    };
    let text = resolver.generate_backend_config(&r, "api", "lambda");
    assert_eq!(
        text,
        "terraform {\n  backend \"s3\" {\n    bucket = \"b\"\n    key = \"ephemeral/myapp-123/api/lambda/terraform.tfstate\"\n\n  }\n}\n"
    );
}

#[test]
fn backend_config_without_key_adds_none() {
    let resolver = sample_resolver();
    let r = resolver.resolve_environment("ephemeral").unwrap();
    let text = resolver.generate_backend_config(&r, "api", "lambda");
    assert!(!text.contains("key ="));
    assert!(text.contains("    region = \"eu-west-1\"\n"));
}
