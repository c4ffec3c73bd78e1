//! Core logic of a terminal gateway: circuit breakers that guard remote
//! hosts, a pool of remote connections, the registry of terminal sessions,
//! and the routing of a client's keystrokes to a local shell or a remote host.
//!
//! Every function here is a pure step over plain values. Whoever drives the
//! sockets, the pseudoterminals and the clock calls these steps and carries
//! out what they decide.

pub mod circuit_breaker;
pub mod command;
pub mod frames;
pub mod gateway;
pub mod pool;
pub mod protocol;
pub mod pty;
pub mod remote;
pub mod transcript;
pub mod router;
pub mod session_id;
pub mod stream;
pub mod text;
pub mod wasm;
