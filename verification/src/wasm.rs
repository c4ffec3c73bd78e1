//! The sandbox in which a command can be previewed before it is run for
//! real. A preview reports what the command would print and what it would
//! change on disk; no sandbox engine is attached, so previews are empty.

use vstd::prelude::*;

verus! {

/// Why the sandbox could not do what was asked.
#[derive(Debug, Clone, Copy, PartialEq, Eq, Structural)]
pub enum WasmError {
    /// No sandbox engine is available.
    Unavailable,
}

/// The sandbox runtime.
#[derive(Debug)]
pub struct WasmRuntime {}

/// What a sandboxed command sees of the world.
#[derive(Debug)]
pub struct WasmContext {}

/// What a command would do, had it been run for real.
#[derive(Debug)]
pub struct PreviewResult {
    pub stdout: Vec<u8>,
    pub stderr: Vec<u8>,
    pub filesystem_changes: Vec<FilesystemChange>,
}

/// A change that a command would make on disk.
#[derive(Debug)]
pub enum FilesystemChange {
    Write { path: String, content: Vec<u8> },
    Delete { path: String },
    Mkdir { path: String },
}

impl WasmRuntime {
    /// A runtime, ready for previews.
    pub fn new() -> (runtime: Result<Self, WasmError>)
        ensures
            runtime is Ok,
    {
        Ok(WasmRuntime {})
    }

    /// Previews `cmd`: with no engine attached the command prints nothing
    /// and changes nothing.
    pub fn execute_preview(&self, cmd: &str) -> (preview: Result<PreviewResult, WasmError>)
        ensures
            preview matches Ok(result) && result.stdout@.len() == 0 && result.stderr@.len() == 0
                && result.filesystem_changes@.len() == 0,
    {
        Ok(
            PreviewResult {
                stdout: Vec::new(),
                stderr: Vec::new(),
                filesystem_changes: Vec::new(),
            },
        )
    }

    /// Takes a plugin for later use: with no engine attached it is accepted
    /// and not looked at.
    pub fn load_plugin(&self, wasm_bytes: &[u8]) -> (loaded: Result<(), WasmError>)
        ensures
            loaded is Ok,
    {
        Ok(())
    }
}

impl Default for WasmRuntime {
    fn default() -> (runtime: Self) {
        WasmRuntime {}
    }
}

} // verus!
