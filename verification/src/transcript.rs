//! What a remote directive leaves in the terminal transcript: the directive
//! echoed back, a status line, and then the output or a diagnostic.

use crate::circuit_breaker::CircuitBreakerError;
use crate::remote::{error_text, RemoteError, RemoteErrorView};
use crate::text::{append_decimal, decimal_text, trim_end, trimmed_end};
use vstd::prelude::*;

verus! {

/// The outcome of a remote directive, as the transcript reports it.
pub ghost enum ReportView {
    /// The command's standard output.
    Output(Seq<char>),
    /// The host's circuit was open and the command was not run.
    CircuitOpen,
    /// The command was tried and failed.
    Failed(RemoteErrorView),
}

/// What a guarded result holds.
pub open spec fn report_view(result: Result<String, CircuitBreakerError<RemoteError>>)
    -> ReportView {
    match result {
        Ok(output) => ReportView::Output(output@),
        Err(CircuitBreakerError::Open) => ReportView::CircuitOpen,
        Err(CircuitBreakerError::OperationFailed(error)) => ReportView::Failed(error@),
    }
}

/// The directive as the user sees it echoed: the host, the port and the
/// command. The user's name is left out, so that it does not stand in the
/// transcript beside what the command prints.
pub open spec fn echo_text(host: Seq<char>, port: u16, command: Seq<char>) -> Seq<char> {
    "ssh "@ + host + ":"@ + decimal_text(port as nat) + " \""@ + command + "\"\r\n"@
}

/// The status line that follows the echo.
pub open spec fn connecting_text(host: Seq<char>) -> Seq<char> {
    "[SSH: "@ + host + "] Connecting...\r\n"@
}

/// The line that reports how the directive ended.
pub open spec fn report_text(host: Seq<char>, report: ReportView) -> Seq<char> {
    match report {
        ReportView::Output(output) => "[SSH: "@ + host + "] "@ + trim_end(output) + "\r\n"@,
        ReportView::CircuitOpen => "[Circuit Breaker] Host "@ + host
            + " circuit OPEN - failing fast\r\n"@,
        ReportView::Failed(error) => "[SSH: "@ + host + "] Error: "@ + error_text(error)
            + "\r\n"@,
    }
}

/// What is written before the directive is carried out: echo, then status.
pub open spec fn preamble_text(host: Seq<char>, port: u16, command: Seq<char>) -> Seq<char> {
    echo_text(host, port, command) + connecting_text(host)
}

/// A remote directive always shows in the transcript twice over: what is
/// written before it is carried out is not empty, and whatever its outcome,
/// what is written afterwards is not empty either.
pub proof fn lemma_directive_is_echoed_and_reported(
    host: Seq<char>,
    port: u16,
    command: Seq<char>,
    report: ReportView,
)
    ensures
        preamble_text(host, port, command).len() > 0,
        report_text(host, report).len() > 0,
{
    reveal_strlit("ssh ");
    reveal_strlit("[SSH: ");
    reveal_strlit("[Circuit Breaker] Host ");
}

/// The directive as the user sees it echoed.
pub fn echo_line(host: &str, port: u16, command: &str) -> (line: String)
    ensures
        line@ == echo_text(host@, port, command@),
{
    let mut line = "ssh ".to_owned();
    line.append(host);
    line.append(":");
    append_decimal(&mut line, port as u128);
    line.append(" \"");
    line.append(command);
    line.append("\"\r\n");
    line
}

/// The status line that follows the echo.
pub fn connecting_line(host: &str) -> (line: String)
    ensures
        line@ == connecting_text(host@),
{
    let mut line = "[SSH: ".to_owned();
    line.append(host);
    line.append("] Connecting...\r\n");
    line
}

/// What to write before the directive is carried out.
pub fn remote_preamble(host: &str, port: u16, command: &str) -> (text: String)
    ensures
        text@ == preamble_text(host@, port, command@),
{
    let mut text = echo_line(host, port, command);
    let status = connecting_line(host);
    text.append(status.as_str());
    text
}

/// What to write once the directive has ended, one way or another.
pub fn remote_report(host: &str, result: &Result<String, CircuitBreakerError<RemoteError>>) -> (text:
    String)
    ensures
        text@ == report_text(host@, report_view(*result)),
{
    match result {
        Ok(output) => {
            let mut text = "[SSH: ".to_owned();
            text.append(host);
            text.append("] ");
            text.append(trimmed_end(output.as_str()));
            text.append("\r\n");
            text
        },
        Err(CircuitBreakerError::Open) => {
            let mut text = "[Circuit Breaker] Host ".to_owned();
            text.append(host);
            text.append(" circuit OPEN - failing fast\r\n");
            text
        },
        Err(CircuitBreakerError::OperationFailed(error)) => {
            let mut text = "[SSH: ".to_owned();
            text.append(host);
            text.append("] Error: ");
            let message = error.message();
            text.append(message.as_str());
            text.append("\r\n");
            text
        },
    }
}

} // verus!
