//! The structured command protocol and the sandbox.

use rebe_core::protocol::{
    Command, CommandRequest, CommandResponse, CommandResult, ErrorInfo, ExecutionConfig,
    ExecutionMode, FileOperation, ResponseMetadata, RetryPolicy,
};
use rebe_core::wasm::{FilesystemChange, PreviewResult, WasmContext, WasmRuntime};
use std::collections::HashMap;

#[test]
fn test_command_request_serialization() {
    let request = CommandRequest {
        version: "1.0".to_string(),
        command: Command::SystemInfo {
            fields: vec!["hostname".to_string(), "cpu_info".to_string()],
        },
        execution: ExecutionConfig {
            mode: ExecutionMode::SSH,
            host: Some("10.20.31.5".to_string()),
            timeout_ms: 30000,
            retry_policy: Some(RetryPolicy::default()),
        },
    };

    let copy = request.clone();
    assert!(matches!(&copy.command, Command::SystemInfo { fields } if fields.contains(&"hostname".to_string())));
    assert_eq!(copy.execution.mode, ExecutionMode::SSH);
    assert_eq!(copy.execution.timeout_ms, 30000);
    assert_eq!(request.version, copy.version);
}

#[test]
fn test_success_response() {
    let mut data = HashMap::new();
    data.insert(
        "hostname".to_string(),
        serde_json::Value::String("test.local".to_string()),
    );

    let response = CommandResponse::success(
        data,
        ResponseMetadata {
            duration_ms: 234,
            attempts: 1,
            cached: false,
        },
    );

    assert_eq!(response.version, "1.0");
    assert_eq!(response.metadata, ResponseMetadata { duration_ms: 234, attempts: 1, cached: false });
    match response.result {
        CommandResult::Success { data } => {
            assert_eq!(data["hostname"], serde_json::Value::String("test.local".to_string()));
        }
        CommandResult::Error { .. } => panic!("expected success"),
    }
}

#[test]
fn test_error_response() {
    let error = ErrorInfo {
        code: "CONNECTION_TIMEOUT".to_string(),
        message: "Could not connect to server".to_string(),
        details: HashMap::new(),
        user_message: "The server may be offline".to_string(),
    };

    let response = CommandResponse::error(
        error,
        ResponseMetadata {
            duration_ms: 30000,
            attempts: 3,
            cached: false,
        },
    );

    assert_eq!(response.version, "1.0");
    assert_eq!(response.metadata.attempts, 3);
    match response.result {
        CommandResult::Error { error } => {
            assert_eq!(error.code, "CONNECTION_TIMEOUT");
            assert_eq!(error.message, "Could not connect to server");
            assert_eq!(error.user_message, "The server may be offline");
            assert!(error.details.is_empty());
        }
        CommandResult::Success { .. } => panic!("expected error"),
    }
}

#[test]
fn default_retry_policy_is_three_attempts_a_second_apart() {
    assert_eq!(RetryPolicy::default(), RetryPolicy { max_attempts: 3, backoff_ms: 1000 });
}

#[test]
fn file_operations_hold_their_paths() {
    let operations = vec![
        FileOperation::Read { path: "/etc/hosts".to_string() },
        FileOperation::Write { path: "/tmp/x".to_string(), content: vec![1, 2, 3] },
        FileOperation::Delete { path: "/tmp/x".to_string() },
        FileOperation::List { path: "/tmp".to_string() },
    ];
    let command = Command::FileOperation { operation: operations[1].clone() };
    assert!(matches!(
        command,
        Command::FileOperation { operation: FileOperation::Write { ref path, ref content } }
            if path == "/tmp/x" && content == &vec![1, 2, 3]
    ));
    assert!(matches!(Command::Execute { script: "ls".to_string() }, Command::Execute { .. }));
    assert_eq!(operations.len(), 4);
}

#[test]
fn test_runtime_creation() {
    let runtime = WasmRuntime::new();
    assert!(runtime.is_ok());
}

#[test]
fn test_preview_execution() {
    let runtime = WasmRuntime::new().unwrap();
    let result = runtime.execute_preview("echo test");
    assert!(result.is_ok());
}

#[test]
fn preview_without_an_engine_is_empty() {
    let runtime = WasmRuntime::default();
    let PreviewResult { stdout, stderr, filesystem_changes } =
        runtime.execute_preview("rm -rf /data").unwrap();
    assert!(stdout.is_empty());
    assert!(stderr.is_empty());
    assert!(filesystem_changes.is_empty());
    assert_eq!(runtime.load_plugin(b"\0asm"), Ok(()));
    let _context = WasmContext {};
    let change = FilesystemChange::Mkdir { path: "/data".to_string() };
    assert!(matches!(change, FilesystemChange::Mkdir { ref path } if path == "/data"));
}
