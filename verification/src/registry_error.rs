//! Errors of registry loading, compilation and lookup.
use vstd::prelude::*;

verus! {

/// Errors that can occur during registry operations.
///
/// Errors that come from JSON parsing or file reading carry the message of the
/// underlying error.
#[derive(Debug, Clone, PartialEq, Eq)]
pub enum RegistryError {
    /// The registry text is not valid registry JSON.
    ParseError(String),
    /// The registry file could not be read.
    IoError(String),
    /// The registry could not be fetched.
    FetchError(String),
    /// A JSONPath expression does not parse.
    InvalidJsonPath { path: String, message: String },
    /// A JSONPath expression failed to evaluate.
    JsonPathEvaluation { path: String, message: String },
    /// No virtual tool of that name.
    ToolNotFound { name: String },
    /// The source tool of a virtual tool is unknown.
    SourceToolNotFound { virtual_name: String, target: String, tool: String },
    /// An environment variable referenced by a default is not set.
    EnvVarNotFound { name: String },
    /// The registry source (URI, duration, ...) is malformed.
    InvalidSource(String),
    /// A JSON schema is not valid.
    SchemaValidation(String),
    /// A tool definition does not compile.
    CompilationError(String),
    /// Two tools share a name.
    DuplicateToolName(String),
    /// References nest deeper than allowed.
    ReferenceDepthExceeded(String),
    /// The tool is a composition and needs the executor.
    CompositionRequiresExecutor(String),
    /// A tool reference names no known tool.
    UnknownToolReference(String),
}

impl RegistryError {
    /// An `InvalidJsonPath` error.
    pub fn invalid_jsonpath(path: String, message: String) -> (e: RegistryError)
        ensures
            e == (RegistryError::InvalidJsonPath { path, message }),
    {
        RegistryError::InvalidJsonPath { path, message }
    }

    /// A `JsonPathEvaluation` error.
    pub fn jsonpath_eval(path: String, message: String) -> (e: RegistryError)
        ensures
            e == (RegistryError::JsonPathEvaluation { path, message }),
    {
        RegistryError::JsonPathEvaluation { path, message }
    }

    /// A `ToolNotFound` error.
    pub fn tool_not_found(name: String) -> (e: RegistryError)
        ensures
            e == (RegistryError::ToolNotFound { name }),
    {
        RegistryError::ToolNotFound { name }
    }

    /// A `SourceToolNotFound` error.
    pub fn source_not_found(virtual_name: String, target: String, tool: String) -> (e:
        RegistryError)
        ensures
            e == (RegistryError::SourceToolNotFound { virtual_name, target, tool }),
    {
        RegistryError::SourceToolNotFound { virtual_name, target, tool }
    }
}

} // verus!
