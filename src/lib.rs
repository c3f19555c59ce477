//! Dependency resolution and environment topology for services made of
//! deployable modules: service discovery, dependency ordering with cycle
//! detection, resolution of environment tokens to workspaces and state
//! storage, and merging of provisioned outputs.

pub mod ordered_map;
pub mod text;
pub mod paths;
pub mod error;
pub mod config;
pub mod environment;
pub mod registry;
pub mod outputs;
pub mod terraform;
pub mod scanner;
pub mod cli;
pub mod commands;
pub mod progress;

pub use cli::{
    CleanOptions, Cli, CommandHandler, Commands, DeployV2Options, DestroyOptions, EnvCommands, EnvOptions, GenerateOptions,
    InitOptions, OutputOptions, ShowOptions,
};
pub use commands::{
    destroy_steps, development_workspaces, display_workspace_name, format_workspace_name, parse_env_line,
    parse_env_template, reference_path, validate_merge_request_id, DestroyStep, InitCommand,
};
pub use config::{DependencyReference, ModuleConfig, ProjectInfo, ServiceConfig, ServiceDiscovery, WorkspaceConfig};
pub use environment::{
    BackendConfig, EnvironmentConfig, EnvironmentResolver, EnvironmentToken, EnvironmentType, EphemeralConfig,
    ResolvedEnvironment, StableEnvironmentConfig,
};
pub use error::EnvieError;
pub use ordered_map::OrderedMap;
pub use outputs::{combine_outputs, merge_outputs, plan_output_queries, OutputQuery, QueryKind};
pub use progress::ProgressBar;
pub use registry::{DiscoveredModule, DiscoveredService, ServiceRegistry, ServiceSource};
pub use scanner::{TerraformDependency, TerraformScanner};
pub use terraform::{parse_workspace_list, parse_workspace_show, TerraformInvocation, TerraformManager, TerraformState};
