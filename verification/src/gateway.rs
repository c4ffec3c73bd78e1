//! The gateway of one client connection: what each frame from the client
//! and each read from the terminal lead to, and how a remote directive is
//! guarded and reported.

use crate::circuit_breaker::{
    admits, after_admission, after_failure, after_success, BreakerRegistry, CircuitBreakerError,
};
use crate::command::{Command, CommandView};
use crate::frames::{
    base64_bytes, connected_frame, decode_input, error_frame, frame_for_read, frame_view,
    output_frame, ClientMessage, ClientMessageView, ServerMessage, ServerMessageView,
};
use crate::pty::{bytes_result_view, PtyError};
use crate::remote::RemoteError;
use crate::router::{
    command_views, lemma_empty_frame_is_noop, lemma_local_input_passes_in_order, local_bytes,
    route_input, InputRouter,
};
use crate::session_id::{session_id_parsed, session_id_text, SessionId};
use crate::transcript::{preamble_text, remote_preamble, remote_report, report_text, ReportView};
use vstd::prelude::*;

verus! {

/// Rows of a terminal whose client asks for none.
pub const DEFAULT_ROWS: u16 = 24;

/// Columns of a terminal whose client asks for none.
pub const DEFAULT_COLS: u16 = 80;

/// What a gateway can be tuned by.
#[derive(Debug, Clone, Copy, PartialEq, Eq, Structural)]
pub struct GatewayConfig {
    /// Milliseconds between two reads from the terminal.
    pub read_interval_ms: u64,
    /// Milliseconds allowed for a command on a remote host.
    pub remote_exec_timeout_ms: u64,
    /// The most output, in bytes, that is taken from one remote command.
    pub max_output_bytes: usize,
}

impl Default for GatewayConfig {
    /// A read every 50 milliseconds, 30 seconds for a remote command, and
    /// ten mebibytes of its output.
    fn default() -> (config: Self)
        ensures
            config.read_interval_ms == 50,
            config.remote_exec_timeout_ms == 30_000,
            config.max_output_bytes == 10 * 1024 * 1024,
    {
        GatewayConfig {
            read_interval_ms: 50,
            remote_exec_timeout_ms: 30_000,
            max_output_bytes: 10 * 1024 * 1024,
        }
    }
}

/// What the gateway asks of whoever holds the terminal and the network.
#[derive(Debug, Clone, PartialEq, Eq)]
pub enum GatewayAction {
    /// Write these bytes to the session's terminal.
    WriteTerminal(Vec<u8>),
    /// Give the session's terminal this size.
    ResizeTerminal { rows: u16, cols: u16 },
    /// Write `preamble` to the terminal, run `command` on the remote host
    /// under its circuit breaker, and write the report of how it ended.
    RunRemote { host: String, port: u16, user: String, command: String, preamble: String },
}

/// What an action holds.
pub ghost enum GatewayActionView {
    WriteTerminal(Seq<u8>),
    ResizeTerminal { rows: u16, cols: u16 },
    RunRemote {
        host: Seq<char>,
        port: u16,
        user: Seq<char>,
        command: Seq<char>,
        preamble: Seq<char>,
    },
}

impl View for GatewayAction {
    type V = GatewayActionView;

    open spec fn view(&self) -> GatewayActionView {
        match self {
            GatewayAction::WriteTerminal(bytes) => GatewayActionView::WriteTerminal(bytes@),
            GatewayAction::ResizeTerminal { rows, cols } => GatewayActionView::ResizeTerminal {
                rows: *rows,
                cols: *cols,
            },
            GatewayAction::RunRemote {
                host,
                port,
                user,
                command,
                preamble,
            } => GatewayActionView::RunRemote {
                host: host@,
                port: *port,
                user: user@,
                command: command@,
                preamble: preamble@,
            },
        }
    }
}

/// What the actions in `actions` hold, in order.
pub open spec fn action_views(actions: Seq<GatewayAction>) -> Seq<GatewayActionView> {
    actions.map_values(|a: GatewayAction| a@)
}

/// The action that carries out one command token: local input is written
/// to the terminal as it is, and a remote directive is run with its echo
/// and status line ahead of it.
pub open spec fn action_for(command: CommandView) -> GatewayActionView {
    match command {
        CommandView::Local { input } => GatewayActionView::WriteTerminal(input),
        CommandView::SSH { host, port, user, command } => GatewayActionView::RunRemote {
            host,
            port,
            user,
            command,
            preamble: preamble_text(host, port, command),
        },
    }
}

/// What a frame from the client leads to when `buffer` is the unfinished
/// line so far: the actions to take, in order, and the new unfinished line.
///
/// A resize frame asks for the resize. An input frame whose payload is no
/// base64 is dropped. Any other input frame is routed line by line.
pub open spec fn client_step(buffer: Seq<u8>, message: ClientMessageView) -> (
    Seq<GatewayActionView>,
    Seq<u8>,
) {
    match message {
        ClientMessageView::Resize { rows, cols } => (
            seq![GatewayActionView::ResizeTerminal { rows, cols }],
            buffer,
        ),
        ClientMessageView::Input { data } => match base64_bytes(data) {
            Some(bytes) => (
                route_input(buffer, bytes).0.map_values(|c: CommandView| action_for(c)),
                route_input(buffer, bytes).1,
            ),
            None => (seq![], buffer),
        },
    }
}

/// The bytes that `actions` write to the terminal as input of the client,
/// in order.
pub open spec fn written(actions: Seq<GatewayActionView>) -> Seq<u8>
    decreases actions.len(),
{
    if actions.len() == 0 {
        seq![]
    } else {
        written(actions.drop_last()) + match actions.last() {
            GatewayActionView::WriteTerminal(bytes) => bytes,
            _ => seq![],
        }
    }
}

proof fn lemma_written_is_local_bytes(commands: Seq<CommandView>)
    ensures
        written(commands.map_values(|c: CommandView| action_for(c))) == local_bytes(commands),
    decreases commands.len(),
{
    let actions = commands.map_values(|c: CommandView| action_for(c));
    if commands.len() > 0 {
        lemma_written_is_local_bytes(commands.drop_last());
        assert(actions.drop_last() =~= commands.drop_last().map_values(
            |c: CommandView| action_for(c),
        ));
        assert(actions.last() == action_for(commands.last()));
    }
}

/// What the client sends for the local shell is written to the terminal as
/// it came: where an input frame leads to no remote directive, the bytes
/// written are the bytes that the frame carries, each once and in the order
/// received, whatever was unfinished before.
pub proof fn lemma_input_is_written_once_in_order(buffer: Seq<u8>, data: Seq<char>)
    requires
        base64_bytes(data) is Some,
        forall|i: int|
            0 <= i < client_step(buffer, ClientMessageView::Input { data }).0.len()
                ==> #[trigger] client_step(buffer, ClientMessageView::Input { data }).0[i]
                is WriteTerminal,
    ensures
        written(client_step(buffer, ClientMessageView::Input { data }).0) == base64_bytes(
            data,
        )->0,
{
    let bytes = base64_bytes(data)->0;
    let commands = route_input(buffer, bytes).0;
    let actions = client_step(buffer, ClientMessageView::Input { data }).0;
    assert(actions == commands.map_values(|c: CommandView| action_for(c)));
    assert forall|i: int| 0 <= i < commands.len() implies #[trigger] commands[i] is Local by {
        assert(actions[i] == action_for(commands[i]));
        assert(actions[i] is WriteTerminal);
    }
    lemma_written_is_local_bytes(commands);
    lemma_local_input_passes_in_order(buffer, bytes);
}

/// What a read from the terminal leads to.
#[derive(Debug, Clone, PartialEq, Eq)]
pub struct ReaderStep {
    /// The frame to send to the client, if any.
    pub frame: Option<ServerMessage>,
    /// Whether the session is to be torn down.
    pub stop: bool,
}

/// The action that carries out one command token.
fn action_of(command: Command) -> (action: GatewayAction)
    ensures
        action@ == action_for(command@),
{
    match command {
        Command::Local { input } => GatewayAction::WriteTerminal(input),
        Command::SSH { host, port, user, command } => {
            let preamble = remote_preamble(host.as_str(), port, command.as_str());
            GatewayAction::RunRemote { host, port, user, command, preamble }
        },
    }
}

/// The actions that carry out `commands`, in order.
pub fn actions_of(commands: Vec<Command>) -> (actions: Vec<GatewayAction>)
    ensures
        action_views(actions@) == command_views(commands@).map_values(
            |c: CommandView| action_for(c),
        ),
{
    let mut actions: Vec<GatewayAction> = Vec::new();
    let ghost all = commands@;
    for command in it: commands
        invariant
            it.seq() == all,
            action_views(actions@) == command_views(all.take(it.index() as int)).map_values(
                |c: CommandView| action_for(c),
            ),
    {
        let ghost before = actions@;
        let action = action_of(command);
        actions.push(action);
        assert(action_views(actions@) =~= command_views(
            all.take(it.index() + 1),
        ).map_values(|c: CommandView| action_for(c))) by {
            assert(action_views(actions@) =~= action_views(before).push(action@));
            assert(all.take(it.index() + 1) =~= all.take(it.index() as int).push(command));
        }
    }
    assert(all.take(all.len() as int) =~= all);
    actions
}

/// The gateway of one client connection.
#[derive(Debug)]
pub struct SessionGateway {
    session_id: SessionId,
    router: InputRouter,
    torn_down: bool,
}

impl SessionGateway {
    /// The session that this connection is attached to.
    pub closed spec fn session(&self) -> SessionId {
        self.session_id
    }

    /// The unfinished line of client input so far.
    pub closed spec fn pending(&self) -> Seq<u8> {
        self.router@
    }

    /// Whether the connection has been torn down: one of its pumps has
    /// ended, and the session has been handed over for closing.
    pub closed spec fn torn_down(&self) -> bool {
        self.torn_down
    }

    /// A gateway for a connection that has just been made.
    pub fn new(session_id: SessionId) -> (gateway: Self)
        ensures
            gateway.session() == session_id,
            gateway.pending() == Seq::<u8>::empty(),
            !gateway.torn_down(),
    {
        SessionGateway { session_id, router: InputRouter::new(), torn_down: false }
    }

    /// Tears the connection down when a pump has ended, for whatever
    /// reason, and says whether the session is to be closed now. That is so
    /// the first time and never again: the session is closed exactly once.
    /// From then on frames from the client lead to nothing and reads from
    /// the terminal stop.
    pub fn finish(&mut self) -> (close_now: bool)
        ensures
            close_now == !old(self).torn_down(),
            final(self).torn_down(),
            final(self).session() == old(self).session(),
            final(self).pending() == old(self).pending(),
    {
        let close_now = !self.torn_down;
        self.torn_down = true;
        close_now
    }

    /// The session that this connection is attached to.
    pub fn session_id(&self) -> (id: SessionId)
        ensures
            id == self.session(),
    {
        self.session_id
    }

    /// The frame that opens the connection: it carries the session's id,
    /// written so that it is read back as that id.
    pub fn handshake(&self) -> (frame: ServerMessage)
        ensures
            frame@ == (ServerMessageView::Connected { session_id: session_id_text(self.session()) }),
            session_id_parsed(session_id_text(self.session())) == Some(self.session()),
    {
        connected_frame(self.session_id)
    }

    /// Takes one frame from the client and says what to do, in order. Once
    /// the connection is torn down, nothing is to be done.
    pub fn on_client_message(&mut self, message: &ClientMessage) -> (actions: Vec<GatewayAction>)
        ensures
            final(self).session() == old(self).session(),
            final(self).torn_down() == old(self).torn_down(),
            old(self).torn_down() ==> actions@.len() == 0 && final(self).pending() == old(
                self,
            ).pending(),
            !old(self).torn_down() ==> (action_views(actions@), final(self).pending())
                == client_step(old(self).pending(), message@),
            !old(self).torn_down() ==> actions@.len() == client_step(
                old(self).pending(),
                message@,
            ).0.len(),
            message@ == (ClientMessageView::Input { data: Seq::empty() }) ==> actions@.len() == 0
                && final(self).pending() == old(self).pending(),
    {
        assert(forall|a: Seq<GatewayAction>| #[trigger] action_views(a).len() == a.len());
        if self.torn_down {
            return Vec::new();
        }
        match message {
            ClientMessage::Resize { rows, cols } => {
                let mut actions: Vec<GatewayAction> = Vec::new();
                actions.push(GatewayAction::ResizeTerminal { rows: *rows, cols: *cols });
                assert(action_views(actions@) =~= seq![
                    GatewayActionView::ResizeTerminal { rows: *rows, cols: *cols },
                ]);
                actions
            },
            ClientMessage::Input { data } => match decode_input(data.as_str()) {
                Some(bytes) => {
                    proof {
                        lemma_empty_frame_is_noop(self.router@);
                    }
                    let commands = self.router.push_input(bytes.as_slice());
                    let actions = actions_of(commands);
                    assert(action_views(actions@).len() == actions@.len());
                    assert(command_views(commands@).len() == commands@.len());
                    actions
                },
                None => {
                    let actions: Vec<GatewayAction> = Vec::new();
                    assert(action_views(actions@) =~= seq![]);
                    actions
                },
            },
        }
    }

    /// Takes what a read from the terminal came to and says what to send to
    /// the client and whether to go on: a failed read is reported and ends
    /// the pump, and an output frame carries the bytes read, so that they
    /// decode to just these bytes. Once the connection is torn down, nothing
    /// is sent and the pump ends.
    pub fn on_terminal_read(&self, read: &Result<Vec<u8>, PtyError>) -> (step: ReaderStep)
        ensures
            self.torn_down() ==> step.frame is None && step.stop,
            !self.torn_down() ==> frame_view(step.frame) == frame_for_read(
                bytes_result_view(*read),
            ) && step.stop == (read is Err),
            match (step.frame, *read) {
                (Some(ServerMessage::Output { data }), Ok(bytes)) => base64_bytes(data@) == Some(
                    bytes@,
                ),
                _ => true,
            },
    {
        if self.torn_down {
            return ReaderStep { frame: None, stop: true };
        }
        match read {
            Ok(data) => ReaderStep { frame: output_frame(data.as_slice()), stop: false },
            Err(error) => ReaderStep { frame: Some(error_frame(error)), stop: true },
        }
    }
}

/// The size of the terminal of a new session: what the client asks for, and
/// 24 rows or 80 columns where it does not say.
pub fn requested_size(rows: Option<u16>, cols: Option<u16>) -> (size: (u16, u16))
    ensures
        size.0 == match rows {
            Some(rows) => rows,
            None => DEFAULT_ROWS,
        },
        size.1 == match cols {
            Some(cols) => cols,
            None => DEFAULT_COLS,
        },
{
    (
        match rows {
            Some(rows) => rows,
            None => DEFAULT_ROWS,
        },
        match cols {
            Some(cols) => cols,
            None => DEFAULT_COLS,
        },
    )
}

/// Whether the pump that takes the client's frames goes on after `action`
/// has been carried out with `result`: a failed write of local input ends
/// it, and nothing else does.
pub fn writer_goes_on(action: &GatewayAction, result: &Result<(), PtyError>) -> (goes_on: bool)
    ensures
        goes_on == !(action is WriteTerminal && result is Err),
{
    match action {
        GatewayAction::WriteTerminal(_) => result.is_ok(),
        _ => true,
    }
}

/// What a guarded result holds, given the outcome of the command.
pub open spec fn outcome_report(outcome: Result<String, RemoteError>) -> ReportView {
    match outcome {
        Ok(output) => ReportView::Output(output@),
        Err(error) => ReportView::Failed(error@),
    }
}

/// Asks the breaker of `host` whether a remote directive may be carried out
/// at `now`. Where it may not, the answer is the report to write in place of
/// carrying it out.
pub fn admit_remote(breakers: &mut BreakerRegistry, host: &str, now: u64) -> (rejection: Option<
    String,
>)
    requires
        old(breakers).wf(),
    ensures
        final(breakers).wf(),
        final(breakers).config() == old(breakers).config(),
        rejection is None <==> admits(old(breakers).state_of(host@), old(breakers).config(), now),
        rejection matches Some(report) ==> report@ == report_text(host@, ReportView::CircuitOpen),
        final(breakers).state_of(host@) == after_admission(
            old(breakers).state_of(host@),
            old(breakers).config(),
            now,
        ),
        forall|other: Seq<char>|
            other != host@ ==> final(breakers).state_of(other) == old(breakers).state_of(other),
{
    if breakers.try_admit(host, now) {
        None
    } else {
        Some(remote_report(host, &Err(CircuitBreakerError::Open)))
    }
}

/// Records with the breaker of `host` how an admitted remote directive
/// ended at `now`, and gives the report to write.
pub fn complete_remote(
    breakers: &mut BreakerRegistry,
    host: &str,
    outcome: Result<String, RemoteError>,
    now: u64,
) -> (report: String)
    requires
        old(breakers).wf(),
    ensures
        final(breakers).wf(),
        final(breakers).config() == old(breakers).config(),
        report@ == report_text(host@, outcome_report(outcome)),
        final(breakers).state_of(host@) == if outcome is Ok {
            after_success(old(breakers).state_of(host@), old(breakers).config())
        } else {
            after_failure(old(breakers).state_of(host@), old(breakers).config(), now)
        },
        forall|other: Seq<char>|
            other != host@ ==> final(breakers).state_of(other) == old(breakers).state_of(other),
{
    match outcome {
        Ok(output) => {
            breakers.record_success(host);
            remote_report(host, &Ok(output))
        },
        Err(error) => {
            breakers.record_failure(host, now);
            remote_report(host, &Err(CircuitBreakerError::OperationFailed(error)))
        },
    }
}

} // verus!
