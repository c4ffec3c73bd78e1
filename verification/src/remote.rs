//! Outcomes of a command run on a remote host.

use crate::stream::{stream_error_text, StreamError};
use crate::text::{append_decimal, append_signed_decimal, decimal_text, signed_decimal_text};
use vstd::prelude::*;

verus! {

/// Why a remote command produced no output.
#[derive(Debug, Clone, PartialEq, Eq)]
pub enum RemoteError {
    /// Every connection to the host is on loan and no more may be opened.
    PoolFull { user: String, host: String, port: u16 },
    /// No connection could be opened; the text says why.
    Connect(String),
    /// The host refused the credential.
    Auth,
    /// The command did not finish in time.
    Timeout,
    /// The connection failed while the command ran; the text says how.
    Transport(String),
    /// The command ran and ended with this status, which is not zero.
    NonZeroExit(i32),
    /// The command printed more than is taken: with the chunk that was
    /// refused its output had come to `size` bytes, more than `max`.
    OutputTooLarge { size: u128, max: usize },
}

/// What a remote command came to, as whoever ran it saw it.
#[derive(Debug, Clone, PartialEq, Eq)]
pub enum ExecEvent {
    /// The channel closed: all of standard output, and the exit status.
    Completed { stdout: String, exit_status: i32 },
    /// The time allowed ran out first.
    TimedOut,
    /// The connection failed; the text says how.
    Failed(String),
    /// The output was cut off where it went over the limit: with the chunk
    /// that was refused it had come to `size` bytes, more than `max`.
    OutputTooLarge { size: u128, max: usize },
}

/// What a remote error holds.
pub ghost enum RemoteErrorView {
    PoolFull { user: Seq<char>, host: Seq<char>, port: u16 },
    Connect(Seq<char>),
    Auth,
    Timeout,
    Transport(Seq<char>),
    NonZeroExit(i32),
    OutputTooLarge { size: u128, max: usize },
}

impl View for RemoteError {
    type V = RemoteErrorView;

    open spec fn view(&self) -> RemoteErrorView {
        match self {
            RemoteError::PoolFull { user, host, port } => RemoteErrorView::PoolFull {
                user: user@,
                host: host@,
                port: *port,
            },
            RemoteError::Connect(reason) => RemoteErrorView::Connect(reason@),
            RemoteError::Auth => RemoteErrorView::Auth,
            RemoteError::Timeout => RemoteErrorView::Timeout,
            RemoteError::Transport(reason) => RemoteErrorView::Transport(reason@),
            RemoteError::NonZeroExit(code) => RemoteErrorView::NonZeroExit(*code),
            RemoteError::OutputTooLarge { size, max } => RemoteErrorView::OutputTooLarge {
                size: *size,
                max: *max,
            },
        }
    }
}

/// What an execution event holds.
pub ghost enum ExecEventView {
    Completed { stdout: Seq<char>, exit_status: i32 },
    TimedOut,
    Failed(Seq<char>),
    OutputTooLarge { size: u128, max: usize },
}

impl View for ExecEvent {
    type V = ExecEventView;

    open spec fn view(&self) -> ExecEventView {
        match self {
            ExecEvent::Completed { stdout, exit_status } => ExecEventView::Completed {
                stdout: stdout@,
                exit_status: *exit_status,
            },
            ExecEvent::TimedOut => ExecEventView::TimedOut,
            ExecEvent::Failed(reason) => ExecEventView::Failed(reason@),
            ExecEvent::OutputTooLarge { size, max } => ExecEventView::OutputTooLarge {
                size: *size,
                max: *max,
            },
        }
    }
}

/// The message of a remote error, in plain words.
pub open spec fn error_text(error: RemoteErrorView) -> Seq<char> {
    match error {
        RemoteErrorView::PoolFull { user, host, port } => "Connection pool exhausted for "@ + user
            + "@"@ + host + ":"@ + decimal_text(port as nat),
        RemoteErrorView::Connect(reason) => reason,
        RemoteErrorView::Auth => "Authentication failed"@,
        RemoteErrorView::Timeout => "Command timeout"@,
        RemoteErrorView::Transport(reason) => reason,
        RemoteErrorView::NonZeroExit(code) => "Command failed with exit code "@
            + signed_decimal_text(code as int),
        RemoteErrorView::OutputTooLarge { size, max } => stream_error_text(
            StreamError::TooLarge { size, max },
        ),
    }
}

/// What an execution event means to the caller: the output of a command that
/// ended with status zero, and an error for everything else.
pub open spec fn exec_outcome(event: ExecEventView) -> Result<Seq<char>, RemoteErrorView> {
    match event {
        ExecEventView::Completed { stdout, exit_status } => if exit_status == 0 {
            Ok(stdout)
        } else {
            Err(RemoteErrorView::NonZeroExit(exit_status))
        },
        ExecEventView::TimedOut => Err(RemoteErrorView::Timeout),
        ExecEventView::Failed(reason) => Err(RemoteErrorView::Transport(reason)),
        ExecEventView::OutputTooLarge { size, max } => Err(
            RemoteErrorView::OutputTooLarge { size, max },
        ),
    }
}

/// What a result of a remote command holds.
pub open spec fn outcome_view(outcome: Result<String, RemoteError>) -> Result<
    Seq<char>,
    RemoteErrorView,
> {
    match outcome {
        Ok(stdout) => Ok(stdout@),
        Err(error) => Err(error@),
    }
}

impl RemoteError {
    /// The message of this error, in plain words.
    pub fn message(&self) -> (text: String)
        ensures
            text@ == error_text(self@),
    {
        match self {
            RemoteError::PoolFull { user, host, port } => {
                let mut text = "Connection pool exhausted for ".to_owned();
                text.append(user.as_str());
                text.append("@");
                text.append(host.as_str());
                text.append(":");
                append_decimal(&mut text, *port as u128);
                text
            },
            RemoteError::Connect(reason) => reason.clone(),
            RemoteError::Auth => "Authentication failed".to_owned(),
            RemoteError::Timeout => "Command timeout".to_owned(),
            RemoteError::Transport(reason) => reason.clone(),
            RemoteError::NonZeroExit(code) => {
                let mut text = "Command failed with exit code ".to_owned();
                append_signed_decimal(&mut text, *code);
                text
            },
            RemoteError::OutputTooLarge { size, max } => (StreamError::TooLarge {
                size: *size,
                max: *max,
            }).message(),
        }
    }
}

impl ExecEvent {
    /// What this event means to the caller.
    pub fn outcome(self) -> (outcome: Result<String, RemoteError>)
        ensures
            outcome_view(outcome) == exec_outcome(self@),
    {
        match self {
            ExecEvent::Completed { stdout, exit_status } => {
                if exit_status == 0 {
                    Ok(stdout)
                } else {
                    Err(RemoteError::NonZeroExit(exit_status))
                }
            },
            ExecEvent::TimedOut => Err(RemoteError::Timeout),
            ExecEvent::Failed(reason) => Err(RemoteError::Transport(reason)),
            ExecEvent::OutputTooLarge { size, max } => Err(
                RemoteError::OutputTooLarge { size, max },
            ),
        }
    }

    /// The event of a command whose output could not be gathered: cut off
    /// where it went over the limit, or failed where it is no text.
    pub fn from_stream_error(error: StreamError) -> (event: Self)
        ensures
            event@ == match error {
                StreamError::TooLarge { size, max } => ExecEventView::OutputTooLarge { size, max },
                StreamError::InvalidUtf8 => ExecEventView::Failed(
                    stream_error_text(StreamError::InvalidUtf8),
                ),
            },
    {
        match error {
            StreamError::TooLarge { size, max } => ExecEvent::OutputTooLarge { size, max },
            StreamError::InvalidUtf8 => ExecEvent::Failed(error.message()),
        }
    }
}

} // verus!
