//! The registry of terminal sessions.
//!
//! The registry decides which sessions exist, what size a terminal may have
//! and what a read from a terminal comes to. Opening a pseudoterminal,
//! starting a shell in it and moving bytes is left to the caller, who keeps
//! the handles under the session's id.

use crate::session_id::{uuid_random, SessionId};
use std::collections::HashMap;
use vstd::prelude::*;
use vstd::std_specs::hash::group_hash_axioms;
use vstd::std_specs::iter::IteratorSpec;

verus! {

broadcast use group_hash_axioms;

/// The most that one read from a terminal returns.
pub const READ_BUFFER_SIZE: usize = 4096;

/// The largest number of rows, and of columns, that a terminal may have.
pub const MAX_DIMENSION: u16 = 4096;

/// Why an operation on a session came to nothing.
#[derive(Debug, Clone, PartialEq, Eq)]
pub enum PtyError {
    /// No session has this id.
    NotFound,
    /// Reading, writing or resizing failed; the text says how.
    Io(String),
    /// No shell was named and none was found.
    NoShell,
    /// A terminal cannot have this size.
    InvalidSize,
    /// A session has this id already.
    IdInUse,
}

/// What a session error holds.
pub ghost enum PtyErrorView {
    NotFound,
    Io(Seq<char>),
    NoShell,
    InvalidSize,
    IdInUse,
}

impl View for PtyError {
    type V = PtyErrorView;

    open spec fn view(&self) -> PtyErrorView {
        match self {
            PtyError::NotFound => PtyErrorView::NotFound,
            PtyError::Io(reason) => PtyErrorView::Io(reason@),
            PtyError::NoShell => PtyErrorView::NoShell,
            PtyError::InvalidSize => PtyErrorView::InvalidSize,
            PtyError::IdInUse => PtyErrorView::IdInUse,
        }
    }
}

/// The message of a session error, in plain words.
pub open spec fn pty_error_text(error: PtyErrorView) -> Seq<char> {
    match error {
        PtyErrorView::NotFound => "Session not found"@,
        PtyErrorView::Io(reason) => reason,
        PtyErrorView::NoShell => "No shell found"@,
        PtyErrorView::InvalidSize => "Invalid terminal size"@,
        PtyErrorView::IdInUse => "Session id already in use"@,
    }
}

impl PtyError {
    /// The message of this error, in plain words.
    pub fn message(&self) -> (text: String)
        ensures
            text@ == pty_error_text(self@),
    {
        match self {
            PtyError::NotFound => "Session not found".to_owned(),
            PtyError::Io(reason) => reason.clone(),
            PtyError::NoShell => "No shell found".to_owned(),
            PtyError::InvalidSize => "Invalid terminal size".to_owned(),
            PtyError::IdInUse => "Session id already in use".to_owned(),
        }
    }
}

/// What the registry keeps of a session: the size of its terminal.
#[derive(Debug, Clone, Copy, PartialEq, Eq, Structural)]
pub struct PtySession {
    pub rows: u16,
    pub cols: u16,
}

/// What a read from a terminal came to, as whoever read it saw it.
#[derive(Debug, Clone, PartialEq, Eq)]
pub enum ReadOutcome {
    /// This many bytes were put at the front of the buffer.
    Data(usize),
    /// Nothing is there to be read yet.
    WouldBlock,
    /// The read failed; the text says how.
    Failed(String),
}

/// What a read outcome holds.
pub ghost enum ReadOutcomeView {
    Data(usize),
    WouldBlock,
    Failed(Seq<char>),
}

impl View for ReadOutcome {
    type V = ReadOutcomeView;

    open spec fn view(&self) -> ReadOutcomeView {
        match self {
            ReadOutcome::Data(count) => ReadOutcomeView::Data(*count),
            ReadOutcome::WouldBlock => ReadOutcomeView::WouldBlock,
            ReadOutcome::Failed(reason) => ReadOutcomeView::Failed(reason@),
        }
    }
}

/// Whether a terminal may have `rows` rows and `cols` columns: at least one
/// of each, and of neither more than `MAX_DIMENSION`.
pub open spec fn valid_size(rows: u16, cols: u16) -> bool {
    1 <= rows <= MAX_DIMENSION && 1 <= cols <= MAX_DIMENSION
}

/// The shells that are tried, in this order, where the environment names
/// none.
pub open spec fn candidate_shells() -> Seq<Seq<char>> {
    seq!["/bin/zsh"@, "/bin/bash"@, "/bin/sh"@]
}

/// The first index at or after `from` of a candidate that is present.
pub open spec fn first_present(present: Seq<bool>, from: int) -> int
    decreases present.len() - from,
{
    if 0 <= from < present.len() && !present[from] {
        first_present(present, from + 1)
    } else {
        from
    }
}

/// The shell of sessions that name none: the one that the environment
/// names, else the first candidate that is present. `present` says of each
/// candidate, by its place, whether it is there; a candidate that it does
/// not speak of counts as absent.
pub open spec fn default_shell_of(env_shell: Option<Seq<char>>, present: Seq<bool>) -> Result<
    Seq<char>,
    PtyErrorView,
> {
    match env_shell {
        Some(shell) => Ok(shell),
        None => {
            let found = first_present(present, 0);
            if found < present.len() && found < candidate_shells().len() {
                Ok(candidate_shells()[found])
            } else {
                Err(PtyErrorView::NoShell)
            }
        },
    }
}

/// What a read of `outcome` into `buffer` gives the caller of a session that
/// is known or not: the bytes that were read, none where nothing was there
/// to be read, and an error where the read failed.
pub open spec fn read_result(known: bool, buffer: Seq<u8>, outcome: ReadOutcomeView) -> Result<
    Seq<u8>,
    PtyErrorView,
> {
    if !known {
        Err(PtyErrorView::NotFound)
    } else {
        match outcome {
            ReadOutcomeView::Data(count) => Ok(
                if count <= buffer.len() {
                    buffer.take(count as int)
                } else {
                    buffer
                },
            ),
            ReadOutcomeView::WouldBlock => Ok(Seq::empty()),
            ReadOutcomeView::Failed(reason) => Err(PtyErrorView::Io(reason)),
        }
    }
}

/// What a result of bytes holds.
pub open spec fn bytes_result_view(result: Result<Vec<u8>, PtyError>) -> Result<
    Seq<u8>,
    PtyErrorView,
> {
    match result {
        Ok(bytes) => Ok(bytes@),
        Err(error) => Err(error@),
    }
}

/// What a result of text holds.
pub open spec fn text_result_view(result: Result<String, PtyError>) -> Result<
    Seq<char>,
    PtyErrorView,
> {
    match result {
        Ok(text) => Ok(text@),
        Err(error) => Err(error@),
    }
}

/// A session that has been closed is gone: its id is no longer registered,
/// and closing it once more removes nothing.
pub proof fn lemma_closed_session_is_gone(sessions: Map<SessionId, PtySession>, id: SessionId)
    ensures
        !sessions.remove(id).contains_key(id),
        !sessions.remove(id).dom().contains(id),
        sessions.remove(id).remove(id) == sessions.remove(id),
        read_result(
            sessions.remove(id).contains_key(id),
            Seq::<u8>::empty(),
            ReadOutcomeView::WouldBlock,
        ) == Err::<Seq<u8>, PtyErrorView>(PtyErrorView::NotFound),
{
    assert(sessions.remove(id).remove(id) =~= sessions.remove(id));
}

/// The shells that are tried where the environment names none, in the order
/// in which they are tried.
pub fn shell_candidates() -> (candidates: Vec<String>)
    ensures
        candidates@.len() == candidate_shells().len(),
        forall|i: int|
            0 <= i < candidates@.len() ==> (#[trigger] candidates@[i])@ == candidate_shells()[i],
{
    let mut candidates: Vec<String> = Vec::new();
    candidates.push("/bin/zsh".to_owned());
    candidates.push("/bin/bash".to_owned());
    candidates.push("/bin/sh".to_owned());
    candidates
}

/// The shell of sessions that name none.
pub fn detect_default_shell(env_shell: Option<String>, present: &Vec<bool>) -> (shell: Result<
    String,
    PtyError,
>)
    ensures
        text_result_view(shell) == default_shell_of(
            match env_shell {
                Some(s) => Some(s@),
                None => None,
            },
            present@,
        ),
{
    if let Some(shell) = env_shell {
        return Ok(shell);
    }
    let mut found: usize = 0;
    while found < present.len() && !present[found]
        invariant
            found <= present.len(),
            first_present(present@, 0) == first_present(present@, found as int),
        decreases present.len() - found,
    {
        found += 1;
    }
    if found >= present.len() {
        Err(PtyError::NoShell)
    } else if found == 0 {
        Ok("/bin/zsh".to_owned())
    } else if found == 1 {
        Ok("/bin/bash".to_owned())
    } else if found == 2 {
        Ok("/bin/sh".to_owned())
    } else {
        Err(PtyError::NoShell)
    }
}

/// Whether a terminal may have this size.
pub fn check_size(rows: u16, cols: u16) -> (checked: Result<(), PtyError>)
    ensures
        checked is Ok <==> valid_size(rows, cols),
        checked matches Err(error) ==> error@ == PtyErrorView::InvalidSize,
{
    if 1 <= rows && rows <= MAX_DIMENSION && 1 <= cols && cols <= MAX_DIMENSION {
        Ok(())
    } else {
        Err(PtyError::InvalidSize)
    }
}

/// The registry of sessions.
#[derive(Debug)]
pub struct PtyManager {
    sessions: HashMap<SessionId, PtySession>,
    default_shell: String,
}

impl View for PtyManager {
    type V = Map<SessionId, PtySession>;

    /// The sessions that are registered, by id.
    closed spec fn view(&self) -> Map<SessionId, PtySession> {
        self.sessions@
    }
}

impl PtyManager {
    /// The shell of sessions that name none.
    pub closed spec fn default_shell(&self) -> Seq<char> {
        self.default_shell@
    }

    /// A registry without sessions. Fails where no shell is found for the
    /// sessions that will name none.
    pub fn new(env_shell: Option<String>, present: &Vec<bool>) -> (manager: Result<Self, PtyError>)
        ensures
            match manager {
                Ok(manager) => default_shell_of(
                    match env_shell {
                        Some(s) => Some(s@),
                        None => None,
                    },
                    present@,
                ) == Ok::<Seq<char>, PtyErrorView>(manager.default_shell()) && manager@
                    == Map::<SessionId, PtySession>::empty(),
                Err(error) => default_shell_of(
                    match env_shell {
                        Some(s) => Some(s@),
                        None => None,
                    },
                    present@,
                ) == Err::<Seq<char>, PtyErrorView>(error@),
            },
    {
        match detect_default_shell(env_shell, present) {
            Ok(default_shell) => Ok(PtyManager { sessions: HashMap::new(), default_shell }),
            Err(error) => Err(error),
        }
    }

    /// The shell to start for a session: the one it names, else the default.
    pub fn resolve_shell(&self, shell: Option<String>) -> (path: String)
        ensures
            path@ == match shell {
                Some(s) => s@,
                None => self.default_shell(),
            },
    {
        match shell {
            Some(path) => path,
            None => self.default_shell.clone(),
        }
    }

    /// Whether a session has this id.
    pub fn contains(&self, id: SessionId) -> (known: bool)
        ensures
            known == self@.contains_key(id),
    {
        self.sessions.contains_key(&id)
    }

    /// Registers the session `id`, whose shell has been started in a
    /// terminal of `rows` by `cols`. Refused where a terminal cannot have that
    /// size, and else where a session has this id already.
    pub fn register(&mut self, id: SessionId, rows: u16, cols: u16) -> (registered: Result<
        SessionId,
        PtyError,
    >)
        ensures
            final(self).default_shell() == old(self).default_shell(),
            registered is Ok <==> valid_size(rows, cols) && !old(self)@.contains_key(id),
            match registered {
                Ok(session) => session == id && final(self)@ == old(self)@.insert(
                    id,
                    PtySession { rows, cols },
                ),
                Err(error) => final(self)@ == old(self)@ && error@ == if !valid_size(rows, cols) {
                    PtyErrorView::InvalidSize
                } else {
                    PtyErrorView::IdInUse
                },
            },
    {
        match check_size(rows, cols) {
            Ok(()) => {
                if self.contains(id) {
                    return Err(PtyError::IdInUse);
                }
                let _ = self.sessions.insert(id, PtySession { rows, cols });
                Ok(id)
            },
            Err(error) => Err(error),
        }
    }

    /// Registers a session under a random id that no session has, for a
    /// shell that has been started in a terminal of `rows` by `cols`, and
    /// returns the id. Refused where a terminal cannot have that size; and
    /// where chance draws an id that is taken, no session is registered.
    pub fn spawn(&mut self, rows: u16, cols: u16) -> (spawned: Result<SessionId, PtyError>)
        ensures
            final(self).default_shell() == old(self).default_shell(),
            match spawned {
                Ok(id) => valid_size(rows, cols) && !old(self)@.contains_key(id) && final(self)@
                    == old(self)@.insert(id, PtySession { rows, cols }),
                Err(error) => final(self)@ == old(self)@ && error@ == if !valid_size(rows, cols) {
                    PtyErrorView::InvalidSize
                } else {
                    PtyErrorView::IdInUse
                },
            },
    {
        match check_size(rows, cols) {
            Ok(()) => self.register(uuid_random(), rows, cols),
            Err(error) => Err(error),
        }
    }

    /// What a write to the session `id` came to, given how the write itself
    /// went: there is no such session, or the write failed, or all is well.
    pub fn write(&self, id: SessionId, written: Result<(), String>) -> (result: Result<
        (),
        PtyError,
    >)
        ensures
            match result {
                Ok(()) => self@.contains_key(id) && written is Ok,
                Err(error) => if !self@.contains_key(id) {
                    error@ == PtyErrorView::NotFound
                } else {
                    written matches Err(reason) && error@ == PtyErrorView::Io(reason@)
                },
            },
    {
        if !self.contains(id) {
            return Err(PtyError::NotFound);
        }
        match written {
            Ok(()) => Ok(()),
            Err(reason) => Err(PtyError::Io(reason)),
        }
    }

    /// A buffer for one read: `READ_BUFFER_SIZE` zero bytes.
    pub fn read_buffer() -> (buffer: Vec<u8>)
        ensures
            buffer@.len() == READ_BUFFER_SIZE,
            forall|i: int| 0 <= i < buffer@.len() ==> buffer@[i] == 0,
    {
        vec![0u8; READ_BUFFER_SIZE]
    }

    /// What a read from the session `id` came to, given the buffer that was
    /// read into and how the read itself went.
    pub fn read(&self, id: SessionId, buffer: Vec<u8>, outcome: ReadOutcome) -> (result: Result<
        Vec<u8>,
        PtyError,
    >)
        ensures
            bytes_result_view(result) == read_result(self@.contains_key(id), buffer@, outcome@),
    {
        if !self.contains(id) {
            return Err(PtyError::NotFound);
        }
        match outcome {
            ReadOutcome::Data(count) => {
                let mut bytes = buffer;
                bytes.truncate(count);
                Ok(bytes)
            },
            ReadOutcome::WouldBlock => Ok(Vec::new()),
            ReadOutcome::Failed(reason) => Err(PtyError::Io(reason)),
        }
    }

    /// Records the new size of the terminal of session `id`, which the
    /// caller then passes on to the terminal. Refused where there is no such
    /// session, or where a terminal cannot have that size.
    pub fn resize(&mut self, id: SessionId, rows: u16, cols: u16) -> (resized: Result<
        (),
        PtyError,
    >)
        ensures
            final(self).default_shell() == old(self).default_shell(),
            match resized {
                Ok(()) => old(self)@.contains_key(id) && valid_size(rows, cols) && final(self)@
                    == old(self)@.insert(id, PtySession { rows, cols }),
                Err(error) => final(self)@ == old(self)@ && if !old(self)@.contains_key(id) {
                    error@ == PtyErrorView::NotFound
                } else {
                    !valid_size(rows, cols) && error@ == PtyErrorView::InvalidSize
                },
            },
    {
        if !self.contains(id) {
            return Err(PtyError::NotFound);
        }
        match check_size(rows, cols) {
            Ok(()) => {
                let _ = self.sessions.insert(id, PtySession { rows, cols });
                Ok(())
            },
            Err(error) => Err(error),
        }
    }

    /// Removes the session `id` and says whether there was one, in which
    /// case the caller ends its shell. Closing a session twice does no harm.
    pub fn close(&mut self, id: SessionId) -> (closed: bool)
        ensures
            closed == old(self)@.contains_key(id),
            final(self)@ == old(self)@.remove(id),
            final(self).default_shell() == old(self).default_shell(),
    {
        let removed = self.sessions.remove(&id);
        removed.is_some()
    }

    /// The size of the terminal of session `id`.
    pub fn size_of(&self, id: SessionId) -> (size: Option<PtySession>)
        ensures
            match size {
                Some(session) => self@.contains_key(id) && self@[id] == session,
                None => !self@.contains_key(id),
            },
    {
        match self.sessions.get(&id) {
            Some(session) => Some(*session),
            None => None,
        }
    }

    /// The ids of all sessions, each once, in no particular order.
    pub fn list_sessions(&self) -> (ids: Vec<SessionId>)
        ensures
            ids@.to_set() == self@.dom(),
            ids@.no_duplicates(),
    {
        let mut ids: Vec<SessionId> = Vec::new();
        let ghost keys = self.sessions.keys().remaining();
        for id in it: self.sessions.keys()
            invariant
                it.seq() == keys,
                ids@ == keys.take(it.index() as int).unref(),
                keys.unref().to_set() == self@.dom(),
                keys.no_duplicates(),
        {
            ids.push(*id);
        }
        assert(keys.take(keys.len() as int) =~= keys);
        ids
    }
}

} // verus!
