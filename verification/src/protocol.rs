//! The structured command protocol: typed requests and responses for
//! commands that are run without a terminal.

use std::collections::HashMap;
use vstd::prelude::*;

verus! {

/// A JSON value, as `serde_json` holds it.
#[verifier::external_type_specification]
#[verifier::external_body]
pub struct ExJsonValue(serde_json::Value);

/// The version that every response carries.
pub open spec fn protocol_version() -> Seq<char> {
    "1.0"@
}

/// A request to run a command.
#[derive(Debug, Clone)]
pub struct CommandRequest {
    pub version: String,
    pub command: Command,
    pub execution: ExecutionConfig,
}

/// What is to be run.
#[derive(Debug, Clone)]
pub enum Command {
    /// Report these facts about the system.
    SystemInfo { fields: Vec<String> },
    /// Run this script.
    Execute { script: String },
    /// Do this to a file.
    FileOperation { operation: FileOperation },
}

/// An operation on a file or directory.
#[derive(Debug, Clone)]
pub enum FileOperation {
    Read { path: String },
    Write { path: String, content: Vec<u8> },
    Delete { path: String },
    List { path: String },
}

/// How a command is to be run.
#[derive(Debug, Clone)]
pub struct ExecutionConfig {
    pub mode: ExecutionMode,
    /// The remote host, where the mode needs one.
    pub host: Option<String>,
    /// Milliseconds allowed for the command.
    pub timeout_ms: u64,
    pub retry_policy: Option<RetryPolicy>,
}

/// Where a command is run.
#[derive(Debug, Clone, Copy, PartialEq, Eq, Structural)]
pub enum ExecutionMode {
    /// On this machine.
    Native,
    /// On a remote host.
    SSH,
    /// In the sandbox.
    WASM,
}

/// How often a failed command is tried again, and how long to wait between
/// attempts.
#[derive(Debug, Clone, Copy, PartialEq, Eq, Structural)]
pub struct RetryPolicy {
    pub max_attempts: usize,
    pub backoff_ms: u64,
}

impl Default for RetryPolicy {
    /// Three attempts, one second apart.
    fn default() -> (policy: Self)
        ensures
            policy.max_attempts == 3,
            policy.backoff_ms == 1000,
    {
        RetryPolicy { max_attempts: 3, backoff_ms: 1000 }
    }
}

/// The response to a request.
#[derive(Debug, Clone)]
pub struct CommandResponse {
    pub version: String,
    pub result: CommandResult,
    pub metadata: ResponseMetadata,
}

/// What a command came to.
#[derive(Debug, Clone)]
pub enum CommandResult {
    /// The data that the command produced, by name.
    Success { data: HashMap<String, serde_json::Value> },
    /// Why the command produced none.
    Error { error: ErrorInfo },
}

/// A failure, for programs and for people.
#[derive(Debug, Clone)]
pub struct ErrorInfo {
    /// A code for programs.
    pub code: String,
    /// What went wrong, for operators.
    pub message: String,
    pub details: HashMap<String, serde_json::Value>,
    /// What went wrong, in plain words for the user.
    pub user_message: String,
}

/// How the work of a response went.
#[derive(Debug, Clone, Copy, PartialEq, Eq, Structural)]
pub struct ResponseMetadata {
    pub duration_ms: u64,
    pub attempts: usize,
    /// Whether the result came from a cache.
    pub cached: bool,
}

impl CommandResponse {
    /// The response to a command that produced `data`.
    pub fn success(data: HashMap<String, serde_json::Value>, metadata: ResponseMetadata) -> (response:
        Self)
        ensures
            response.version@ == protocol_version(),
            response.result == (CommandResult::Success { data }),
            response.metadata == metadata,
    {
        CommandResponse {
            version: "1.0".to_owned(),
            result: CommandResult::Success { data },
            metadata,
        }
    }

    /// The response to a command that failed with `error`.
    pub fn error(error: ErrorInfo, metadata: ResponseMetadata) -> (response: Self)
        ensures
            response.version@ == protocol_version(),
            response.result == (CommandResult::Error { error }),
            response.metadata == metadata,
    {
        CommandResponse {
            version: "1.0".to_owned(),
            result: CommandResult::Error { error },
            metadata,
        }
    }
}

} // verus!
