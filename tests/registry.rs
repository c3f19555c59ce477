use envie::registry::ServiceSource;
use envie::{EnvieError, ModuleConfig, ProjectInfo, ServiceConfig, ServiceDiscovery, ServiceRegistry, WorkspaceConfig};
use envie::OrderedMap;

fn service(name: &str, depends: &[&str]) -> ServiceConfig {
    ServiceConfig {
        name: name.to_string(),
        description: String::new(),
        modules: vec![],
        depends: depends.iter().map(|d| d.to_string()).collect(),
    }
}

fn source(path: &str, config: ServiceConfig) -> ServiceSource {
    let n = config.modules.len();
    ServiceSource { path: path.to_string(), descriptor: Some(config), module_overrides: vec![None; n] }
}

fn registry(services: Vec<(&str, ServiceConfig)>) -> ServiceRegistry {
    let sources: Vec<ServiceSource> = services.into_iter().map(|(p, c)| source(p, c)).collect();
    ServiceRegistry::discover_from_path(true, &sources).unwrap()
}

#[test]
fn test_service_discovery() {
    let api_config = ServiceConfig {
        name: "api".to_string(),
        description: "API service".to_string(),
        modules: vec![ModuleConfig {
            name: "lambda".to_string(),
            description: String::new(),
            path: "modules/lambda".to_string(),
            depends: vec![],
        }],
        depends: vec!["../database".to_string()],
    };
    let lambda_override = ModuleConfig {
        name: "lambda".to_string(),
        description: "Lambda function".to_string(),
        path: String::new(),
        depends: vec![],
    };
    let sources = vec![ServiceSource {
        path: "root/services/api".to_string(),
        descriptor: Some(api_config),
        module_overrides: vec![Some(lambda_override)],
    }];
    let registry = ServiceRegistry::discover_from_path(false, &sources).unwrap();

    assert!(registry.services.contains_key("api"));
    assert!(registry.modules.contains_key("api/lambda"));

    let api_service = registry.services.get("api").unwrap();
    assert_eq!(api_service.config.name, "api");
    assert_eq!(api_service.config.depends.len(), 1);
    assert!(api_service.config.depends.contains(&"../database".to_string()));
    assert_eq!(api_service.modules[0].path, "root/services/api/modules/lambda");
    assert_eq!(api_service.modules[0].config.description, "Lambda function");
}

#[test]
fn module_without_path_lives_under_modules() {
    let m = ModuleConfig { name: "queue".to_string(), description: String::new(), path: String::new(), depends: vec![] };
    assert_eq!(envie::DiscoveredService::module_location("svc/a", &m), "svc/a/modules/queue");
}

#[test]
fn explicit_manifest_with_missing_descriptor_is_a_config_error() {
    let sources = vec![
        source("s/a", service("a", &[])),
        ServiceSource { path: "s/b".to_string(), descriptor: None, module_overrides: vec![] },
    ];
    assert!(matches!(ServiceRegistry::discover_from_path(true, &sources), Err(EnvieError::ConfigError(_))));
    let reg = ServiceRegistry::discover_from_path(false, &sources).unwrap();
    assert_eq!(reg.services.len(), 1);
}

#[test]
fn later_registration_of_a_name_wins() {
    let sources = vec![source("one/a", service("a", &[])), source("two/a", service("a", &["x"]))];
    let reg = ServiceRegistry::discover_from_path(true, &sources).unwrap();
    assert_eq!(reg.services.len(), 1);
    assert_eq!(reg.services.get("a").unwrap().path, "two/a");
}

#[test]
fn manifest_paths_are_taken_from_the_root() {
    let manifest = WorkspaceConfig {
        version: "1.0".to_string(),
        project: Some(ProjectInfo { name: "p".to_string(), description: String::new() }),
        services: vec![
            ServiceDiscovery { path: "services/api".to_string(), name: None },
            ServiceDiscovery { path: "/abs/db".to_string(), name: None },
        ],
        defaults: OrderedMap::new(),
    };
    assert_eq!(
        ServiceRegistry::manifest_service_paths("root", &manifest),
        vec!["root/services/api".to_string(), "/abs/db".to_string()]
    );
}

#[test]
fn diamond_collapses_to_one_entry() {
    let reg = registry(vec![
        ("s/a", service("a", &["b", "c"])),
        ("s/b", service("b", &["d"])),
        ("s/c", service("c", &["d"])),
        ("s/d", service("d", &[])),
    ]);
    let order = reg.resolve_dependencies("a").unwrap();
    assert_eq!(order, vec!["d", "b", "c", "a"]);
    assert_eq!(order.iter().filter(|s| *s == "d").count(), 1);
}

#[test]
fn cycle_fails_naming_a_service_in_it() {
    let reg = registry(vec![("s/a", service("a", &["b"])), ("s/b", service("b", &["a"]))]);
    for start in ["a", "b"] {
        match reg.resolve_dependencies(start) {
            Err(EnvieError::DependencyError(msg)) => {
                assert!(msg.ends_with(" a") || msg.ends_with(" b"), "{}", msg);
            }
            other => panic!("unexpected: {:?}", other),
        }
    }
}

#[test]
fn self_dependency_is_a_cycle() {
    let reg = registry(vec![("s/a", service("a", &["a"]))]);
    assert!(matches!(reg.resolve_dependencies("a"), Err(EnvieError::DependencyError(_))));
}

#[test]
fn unknown_service_is_a_validation_error() {
    let reg = registry(vec![("s/a", service("a", &[]))]);
    assert!(matches!(reg.resolve_dependencies("zzz"), Err(EnvieError::ValidationError(m)) if m == "Service 'zzz' not found"));
}

#[test]
fn relative_tokens_use_the_file_name() {
    let reg = registry(vec![
        ("s/api", service("api", &["../database/", "../net/.", "../x/../cache"])),
        ("s/database", service("database", &[])),
        ("s/net", service("net", &[])),
        ("s/cache", service("cache", &[])),
    ]);
    assert_eq!(reg.resolve_dependencies("api").unwrap(), vec!["database", "net", "cache", "api"]);
}

#[test]
fn relative_token_ending_in_parent_is_unresolvable() {
    let reg = registry(vec![("s/api", service("api", &["../.."])), ("s/x", service("x", &[]))]);
    assert!(matches!(reg.resolve_dependencies("api"), Err(EnvieError::DependencyError(_))));
}

#[test]
fn dependencies_are_visited_in_declared_order() {
    let reg = registry(vec![
        ("s/a", service("a", &["c", "b"])),
        ("s/b", service("b", &["d"])),
        ("s/c", service("c", &["d"])),
        ("s/d", service("d", &[])),
    ]);
    assert_eq!(reg.resolve_dependencies("a").unwrap(), vec!["d", "c", "b", "a"]);
}

#[test]
fn dependencies_come_before_dependents() {
    let reg = registry(vec![
        ("s/app", service("app", &["../api", "web"])),
        ("s/api", service("api", &["../db", "../net"])),
        ("s/web", service("web", &["api"])),
        ("s/db", service("db", &["../net"])),
        ("s/net", service("net", &[])),
        ("s/other", service("other", &[])),
    ]);
    let order = reg.resolve_dependencies("app").unwrap();
    assert_eq!(order, vec!["net", "db", "api", "web", "app"]);
}

#[test]
fn unregistered_plain_tokens_are_passed_over() {
    let reg = registry(vec![("s/a", service("a", &["ghost", "a2/module"])), ("s/a2", service("a2", &[]))]);
    assert_eq!(reg.resolve_dependencies("a").unwrap(), vec!["a"]);
}

#[test]
fn unresolvable_relative_token_is_a_dependency_error() {
    let reg = registry(vec![("s/a", service("a", &["../missing"]))]);
    assert!(matches!(reg.resolve_dependencies("a"), Err(EnvieError::DependencyError(_))));
}

#[test]
fn service_by_path_prefers_the_longest_ancestor() {
    let reg = registry(vec![
        ("root/services", service("outer", &[])),
        ("root/services/api", service("api", &[])),
        ("root/services/apiary", service("apiary", &[])),
    ]);
    assert_eq!(reg.find_service_by_path("root/services/api").unwrap().config.name, "api");
    assert_eq!(reg.find_service_by_path("root/services/api/modules/x").unwrap().config.name, "api");
    assert_eq!(reg.find_service_by_path("root/services/web").unwrap().config.name, "outer");
    assert!(reg.find_service_by_path("elsewhere").is_none());
}

#[test]
fn module_by_exact_path() {
    let mut api = service("api", &[]);
    api.modules.push(ModuleConfig { name: "fn".to_string(), description: String::new(), path: String::new(), depends: vec![] });
    let reg = registry(vec![("s/api", api)]);
    assert_eq!(reg.find_module_by_path("s/api/modules/fn").unwrap().config.name, "fn");
    assert!(reg.find_module_by_path("s/api/modules").is_none());
}

#[test]
fn service_selection_by_name_or_directory() {
    let reg = registry(vec![("root/services/api", service("api", &[])), ("root/services/db", service("db", &[]))]);
    assert_eq!(reg.select_service(Some("db"), "anywhere").unwrap().config.name, "db");
    assert!(matches!(reg.select_service(Some("nope"), "root"), Err(EnvieError::ValidationError(_))));
    assert_eq!(reg.select_service(None, "root/services/api/modules").unwrap().config.name, "api");
    assert!(matches!(reg.select_service(None, "root"), Err(EnvieError::ValidationError(_))));
    let empty = ServiceRegistry::discover_from_path(false, &vec![]).unwrap();
    assert!(matches!(empty.select_service(Some("api"), "root"), Err(EnvieError::ValidationError(_))));
}
