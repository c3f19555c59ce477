use vstd::prelude::*;
use crate::text::concat;

verus! {

/// The failures of this library, each with a human-readable message.
#[derive(Debug, Clone)]
pub enum EnvieError {
    TerraformError(String),
    ConfigError(String),
    FileSystemError(String),
    ProcessError(String),
    JsonError(String),
    ValidationError(String),
    DependencyError(String),
    EnvironmentError(String),
    IoError(String),
    SerdeJsonError(String),
    SerdeYamlError(String),
    RegexError(String),
}

/// The heading that the message of each kind of error starts with.
pub open spec fn heading_of(e: EnvieError) -> Seq<char> {
    match e {
        EnvieError::TerraformError(_) => "Terraform error: "@,
        EnvieError::ConfigError(_) => "Configuration error: "@,
        EnvieError::FileSystemError(_) => "File system error: "@,
        EnvieError::ProcessError(_) => "Process execution error: "@,
        EnvieError::JsonError(_) => "JSON parsing error: "@,
        EnvieError::ValidationError(_) => "Validation error: "@,
        EnvieError::DependencyError(_) => "Dependency resolution error: "@,
        EnvieError::EnvironmentError(_) => "Environment error: "@,
        EnvieError::IoError(_) => "IO error: "@,
        EnvieError::SerdeJsonError(_) => "Serde JSON error: "@,
        EnvieError::SerdeYamlError(_) => "Serde YAML error: "@,
        EnvieError::RegexError(_) => "Regex error: "@,
    }
}

impl EnvieError {
    /// The detail text that the error carries.
    pub open spec fn detail(self) -> Seq<char> {
        match self {
            EnvieError::TerraformError(m) => m@,
            EnvieError::ConfigError(m) => m@,
            EnvieError::FileSystemError(m) => m@,
            EnvieError::ProcessError(m) => m@,
            EnvieError::JsonError(m) => m@,
            EnvieError::ValidationError(m) => m@,
            EnvieError::DependencyError(m) => m@,
            EnvieError::EnvironmentError(m) => m@,
            EnvieError::IoError(m) => m@,
            EnvieError::SerdeJsonError(m) => m@,
            EnvieError::SerdeYamlError(m) => m@,
            EnvieError::RegexError(m) => m@,
        }
    }

    /// The full message: the kind's heading, then the detail.
    pub fn message(&self) -> (r: String)
        ensures
            r@ == heading_of(*self) + self.detail(),
    {
        match self {
            EnvieError::TerraformError(m) => concat("Terraform error: ", m.as_str()),
            EnvieError::ConfigError(m) => concat("Configuration error: ", m.as_str()),
            EnvieError::FileSystemError(m) => concat("File system error: ", m.as_str()),
            EnvieError::ProcessError(m) => concat("Process execution error: ", m.as_str()),
            EnvieError::JsonError(m) => concat("JSON parsing error: ", m.as_str()),
            EnvieError::ValidationError(m) => concat("Validation error: ", m.as_str()),
            EnvieError::DependencyError(m) => concat("Dependency resolution error: ", m.as_str()),
            EnvieError::EnvironmentError(m) => concat("Environment error: ", m.as_str()),
            EnvieError::IoError(m) => concat("IO error: ", m.as_str()),
            EnvieError::SerdeJsonError(m) => concat("Serde JSON error: ", m.as_str()),
            EnvieError::SerdeYamlError(m) => concat("Serde YAML error: ", m.as_str()),
            EnvieError::RegexError(m) => concat("Regex error: ", m.as_str()),
        }
    }
}

} // verus!
