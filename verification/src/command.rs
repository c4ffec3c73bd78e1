//! Command tokens: what one line of client input asks for.
//!
//! A line of the form `ssh <user>@<host>[:<port>] "<command>"` is a remote
//! directive. Every other line is input for the local shell.

use crate::text::{
    chars_of, find_char, parse_u16, parse_u16_chars, position, starts_with, strip_quotes, trim,
    trimmed, unquoted,
};
use vstd::prelude::*;
use vstd::utf8::encode_utf8;

verus! {

/// The port of a remote directive that names none.
pub const DEFAULT_SSH_PORT: u16 = 22;

/// A command token.
#[derive(Debug, Clone, PartialEq, Eq)]
pub enum Command {
    /// Bytes for the local shell.
    Local { input: Vec<u8> },
    /// A command for a remote host.
    SSH { host: String, port: u16, user: String, command: String },
}

/// What a command token holds.
pub ghost enum CommandView {
    Local { input: Seq<u8> },
    SSH { host: Seq<char>, port: u16, user: Seq<char>, command: Seq<char> },
}

impl View for Command {
    type V = CommandView;

    open spec fn view(&self) -> CommandView {
        match self {
            Command::Local { input } => CommandView::Local { input: input@ },
            Command::SSH { host, port, user, command } => CommandView::SSH {
                host: host@,
                port: *port,
                user: user@,
                command: command@,
            },
        }
    }
}

/// The remote directive that `input`, the text after `ssh `, spells out.
///
/// Up to the first space stands the target, after it the command text, from
/// which leading and trailing double quotes are cut. The target holds exactly
/// one `@`, between user and host. The host ends at its first `:`; what
/// follows is the port, in decimal digits. A target that names no port means
/// port 22. A target whose port is no `u16` spells out no directive.
pub open spec fn parse_ssh(input: Seq<char>) -> Option<CommandView> {
    let space = position(input, ' ', 0);
    let target = input.subrange(0, space);
    let at = position(target, '@', 0);
    let host_port = target.subrange(at + 1, target.len() as int);
    let colon = position(host_port, ':', 0);
    let user = target.subrange(0, at);
    let command = strip_quotes(input.subrange(space + 1, input.len() as int));
    if space >= input.len() {
        None
    } else if at >= target.len() || position(host_port, '@', 0) < host_port.len() {
        None
    } else if colon >= host_port.len() {
        Some(CommandView::SSH { host: host_port, port: DEFAULT_SSH_PORT, user, command })
    } else {
        match parse_u16(host_port.subrange(colon + 1, host_port.len() as int)) {
            Some(port) => Some(
                CommandView::SSH { host: host_port.subrange(0, colon), port, user, command },
            ),
            None => None,
        }
    }
}

/// The command token of the line `input`: the remote directive that it spells
/// out once white space around it is cut, else the line itself, as it came,
/// for the local shell.
pub open spec fn parse(input: Seq<char>) -> CommandView {
    let line = trim(input);
    let remote = if starts_with(line, "ssh "@) {
        parse_ssh(line.skip(4))
    } else {
        None
    };
    match remote {
        Some(command) => command,
        None => CommandView::Local { input: encode_utf8(input) },
    }
}

/// Reads the text after `ssh ` as a remote directive.
pub fn parse_ssh_command(input: &str) -> (command: Option<Command>)
    ensures
        match command {
            Some(c) => parse_ssh(input@) == Some(c@),
            None => parse_ssh(input@) is None,
        },
{
    let chars = chars_of(input);
    let space = find_char(&chars, ' ');
    if space >= chars.len() {
        return None;
    }
    let target = input.substring_char(0, space);
    let command = unquoted(input.substring_char(space + 1, chars.len()));
    let target_chars = chars_of(target);
    let at = find_char(&target_chars, '@');
    if at >= target_chars.len() {
        return None;
    }
    let user = target.substring_char(0, at);
    let host_port = target.substring_char(at + 1, target_chars.len());
    let host_port_chars = chars_of(host_port);
    if find_char(&host_port_chars, '@') < host_port_chars.len() {
        return None;
    }
    let colon = find_char(&host_port_chars, ':');
    if colon < host_port_chars.len() {
        let port_chars = chars_of(host_port.substring_char(colon + 1, host_port_chars.len()));
        match parse_u16_chars(&port_chars) {
            Some(port) => Some(
                Command::SSH {
                    host: host_port.substring_char(0, colon).to_owned(),
                    port,
                    user: user.to_owned(),
                    command: command.to_owned(),
                },
            ),
            None => None,
        }
    } else {
        Some(
            Command::SSH {
                host: host_port.to_owned(),
                port: DEFAULT_SSH_PORT,
                user: user.to_owned(),
                command: command.to_owned(),
            },
        )
    }
}

/// Reads one line of input as a command token.
pub fn parse_command(input: &str) -> (command: Command)
    ensures
        command@ == parse(input@),
{
    let line = trimmed(input);
    let chars = chars_of(line);
    proof {
        reveal_strlit("ssh ");
    }
    if chars.len() >= 4 && chars[0] == 's' && chars[1] == 's' && chars[2] == 'h' && chars[3]
        == ' ' {
        assert(line@.subrange(0, 4) =~= "ssh "@);
        assert(line@.skip(4) =~= line@.subrange(4, line@.len() as int));
        if let Some(remote) = parse_ssh_command(line.substring_char(4, chars.len())) {
            return remote;
        }
    } else {
        assert(!starts_with(line@, "ssh "@)) by {
            if starts_with(line@, "ssh "@) {
                assert(line@.subrange(0, 4)[0] == 's');
                assert(line@.subrange(0, 4)[1] == 's');
                assert(line@.subrange(0, 4)[2] == 'h');
                assert(line@.subrange(0, 4)[3] == ' ');
            }
        }
    }
    Command::Local { input: input.as_bytes_vec() }
}

} // verus!
