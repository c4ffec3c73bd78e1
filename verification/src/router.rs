//! Routing of a client's input. Every byte goes to the local shell as soon
//! as it comes, and once only; but a line that spells out a remote directive
//! is held back from where it is completed: its end does not reach the shell,
//! and the directive is carried out instead.

use crate::command::{parse, parse_command, Command, CommandView};
use crate::text::{lemma_position_bounds, position};
use vstd::prelude::*;
use vstd::slice::{slice_subrange, slice_to_vec};
use vstd::utf8::{decode_utf8, encode_utf8, encode_utf8_decode_utf8, valid_utf8};

verus! {

/// The byte that ends a line.
pub const LINE_TERMINATOR: u8 = 10;

/// What the commands in `commands` hold, in order.
pub open spec fn command_views(commands: Seq<Command>) -> Seq<CommandView> {
    commands.map_values(|c: Command| c@)
}

/// The command token of a line that a frame completes. `line` is the whole
/// line without its terminator, and `fresh` the part of it that came with
/// this frame; what came before has been passed on already.
///
/// A line that is text and spells out a remote directive is that directive.
/// Of any other line the fresh part goes to the local shell, with the
/// terminator.
pub open spec fn classify_line(line: Seq<u8>, fresh: Seq<u8>) -> CommandView {
    if valid_utf8(line) && parse(decode_utf8(line)) is SSH {
        parse(decode_utf8(line))
    } else {
        CommandView::Local { input: fresh.push(LINE_TERMINATOR) }
    }
}

/// What of the unfinished line `buffer` belongs to the line that begins at
/// `from` of a frame: all of it to the first line, and nothing to the others.
pub open spec fn carried_over(buffer: Seq<u8>, from: int) -> Seq<u8> {
    if from == 0 {
        buffer
    } else {
        Seq::empty()
    }
}

/// The command tokens that the frame `input` leads to from `from` on, when
/// `buffer` is the unfinished line before the frame: one for every line that
/// the frame completes, and one that passes on what follows the last
/// terminator, if there is anything.
pub open spec fn route_from(buffer: Seq<u8>, input: Seq<u8>, from: int) -> Seq<CommandView>
    decreases input.len() - from,
{
    let end = position(input, LINE_TERMINATOR, from);
    if 0 <= from <= end < input.len() {
        seq![
            classify_line(
                carried_over(buffer, from) + input.subrange(from, end),
                input.subrange(from, end),
            ),
        ] + route_from(buffer, input, end + 1)
    } else if 0 <= from < input.len() {
        seq![CommandView::Local { input: input.skip(from) }]
    } else {
        seq![]
    }
}

/// Where the unfinished line at the end of `input` begins, looking from
/// `from` on: just after the last line terminator.
pub open spec fn fragment_start(input: Seq<u8>, from: int) -> int
    decreases input.len() - from,
{
    let end = position(input, LINE_TERMINATOR, from);
    if 0 <= from <= end < input.len() {
        fragment_start(input, end + 1)
    } else {
        from
    }
}

/// What a frame of `input` leads to when `buffer` is the unfinished line so
/// far: the command tokens to carry out, in order, and the new unfinished
/// line.
///
/// An empty frame leads to nothing. Otherwise the bytes of the frame are
/// passed on to the local shell in the order they came, line by line, except
/// those of a line that the frame completes to a remote directive: that line
/// becomes the directive. The new unfinished line is what came since the
/// last terminator.
pub open spec fn route_input(buffer: Seq<u8>, input: Seq<u8>) -> (Seq<CommandView>, Seq<u8>) {
    let fragment = fragment_start(input, 0);
    (route_from(buffer, input, 0), carried_over(buffer, fragment) + input.skip(fragment))
}

/// What one command token carries for the local shell.
pub open spec fn carried(command: CommandView) -> Seq<u8> {
    match command {
        CommandView::Local { input } => input,
        CommandView::SSH { .. } => seq![],
    }
}

/// The bytes that the local commands among `commands` carry, in order.
pub open spec fn local_bytes(commands: Seq<CommandView>) -> Seq<u8>
    decreases commands.len(),
{
    if commands.len() == 0 {
        seq![]
    } else {
        local_bytes(commands.drop_last()) + carried(commands.last())
    }
}

/// What a run of frames leads to, one after the other, when `buffer` is the
/// unfinished line before the first.
pub open spec fn route_frames(buffer: Seq<u8>, frames: Seq<Seq<u8>>) -> (
    Seq<CommandView>,
    Seq<u8>,
)
    decreases frames.len(),
{
    if frames.len() == 0 {
        (seq![], buffer)
    } else {
        let before = route_frames(buffer, frames.drop_last());
        let last = route_input(before.1, frames.last());
        (before.0 + last.0, last.1)
    }
}

/// The bytes of `frames`, one frame after the other.
pub open spec fn joined(frames: Seq<Seq<u8>>) -> Seq<u8>
    decreases frames.len(),
{
    if frames.len() == 0 {
        seq![]
    } else {
        joined(frames.drop_last()) + frames.last()
    }
}

/// Whether all of `commands` are for the local shell.
pub open spec fn all_local(commands: Seq<CommandView>) -> bool {
    forall|i: int| 0 <= i < commands.len() ==> #[trigger] commands[i] is Local
}

/// Whether `line` holds no line terminator.
pub open spec fn unfinished(line: Seq<u8>) -> bool {
    forall|i: int| 0 <= i < line.len() ==> #[trigger] line[i] != LINE_TERMINATOR
}

proof fn lemma_local_bytes_prepend(first: CommandView, rest: Seq<CommandView>)
    ensures
        local_bytes(seq![first] + rest) == carried(first) + local_bytes(rest),
    decreases rest.len(),
{
    let all = seq![first] + rest;
    if rest.len() == 0 {
        assert(all.drop_last() =~= seq![]);
        assert(local_bytes(all.drop_last()) =~= seq![]);
        assert(local_bytes(all) =~= carried(first) + local_bytes(rest));
    } else {
        lemma_local_bytes_prepend(first, rest.drop_last());
        assert(all.drop_last() =~= seq![first] + rest.drop_last());
        assert(all.last() == rest.last());
        assert(local_bytes(all) =~= carried(first) + local_bytes(rest));
    }
}

proof fn lemma_local_bytes_append(first: Seq<CommandView>, second: Seq<CommandView>)
    ensures
        local_bytes(first + second) == local_bytes(first) + local_bytes(second),
    decreases second.len(),
{
    if second.len() == 0 {
        assert(first + second =~= first);
        assert(local_bytes(first) + local_bytes(second) =~= local_bytes(first));
    } else {
        lemma_local_bytes_append(first, second.drop_last());
        assert((first + second).drop_last() =~= first + second.drop_last());
        assert((first + second).last() == second.last());
        assert(local_bytes(first + second) =~= local_bytes(first) + local_bytes(second));
    }
}

proof fn lemma_lines_pass_in_order(buffer: Seq<u8>, input: Seq<u8>, from: int)
    requires
        0 <= from <= input.len(),
        all_local(route_from(buffer, input, from)),
    ensures
        local_bytes(route_from(buffer, input, from)) == input.skip(from),
    decreases input.len() - from,
{
    let end = position(input, LINE_TERMINATOR, from);
    lemma_position_bounds(input, LINE_TERMINATOR, from);
    let all = route_from(buffer, input, from);
    if end < input.len() {
        let fresh = input.subrange(from, end);
        let first = classify_line(carried_over(buffer, from) + fresh, fresh);
        let rest = route_from(buffer, input, end + 1);
        assert(all == seq![first] + rest);
        assert(all[0] is Local);
        assert forall|i: int| 0 <= i < rest.len() implies #[trigger] rest[i] is Local by {
            assert(rest[i] == all[i + 1]);
        }
        lemma_lines_pass_in_order(buffer, input, end + 1);
        lemma_local_bytes_prepend(first, rest);
        assert(carried(first) == fresh.push(LINE_TERMINATOR));
        assert(fresh.push(LINE_TERMINATOR) + input.skip(end + 1) =~= input.skip(from));
    } else if from < input.len() {
        let only = seq![CommandView::Local { input: input.skip(from) }];
        assert(only.drop_last() =~= seq![]);
        assert(local_bytes(only.drop_last()) =~= seq![]);
        assert(local_bytes(only) =~= input.skip(from));
    } else {
        assert(local_bytes(all) =~= input.skip(from));
    }
}

proof fn lemma_fragment_start(input: Seq<u8>, from: int)
    requires
        0 <= from <= input.len(),
    ensures
        from <= fragment_start(input, from) <= input.len(),
        unfinished(input.skip(fragment_start(input, from))),
        fragment_start(input, from) == from ==> unfinished(input.skip(from)),
    decreases input.len() - from,
{
    let end = position(input, LINE_TERMINATOR, from);
    lemma_position_bounds(input, LINE_TERMINATOR, from);
    if end < input.len() {
        lemma_fragment_start(input, end + 1);
    } else {
        assert forall|i: int| 0 <= i < input.skip(from).len() implies #[trigger] input.skip(
            from,
        )[i] != LINE_TERMINATOR by {
            assert(input[from + i] != LINE_TERMINATOR);
        }
    }
}

/// An empty frame is a no-op: nothing is to be done, and the unfinished line
/// stays as it was.
pub proof fn lemma_empty_frame_is_noop(buffer: Seq<u8>)
    ensures
        route_input(buffer, Seq::<u8>::empty()) == (Seq::<CommandView>::empty(), buffer),
{
    let input = Seq::<u8>::empty();
    assert(route_input(buffer, input).0 =~= Seq::<CommandView>::empty());
    assert(route_input(buffer, input).1 =~= buffer);
}

/// Input for the local shell passes as it came: where a frame leads to no
/// remote directive, the bytes passed on are the bytes of the frame, each
/// once and in the order received, whatever was unfinished before.
pub proof fn lemma_local_input_passes_in_order(buffer: Seq<u8>, input: Seq<u8>)
    requires
        all_local(route_input(buffer, input).0),
    ensures
        local_bytes(route_input(buffer, input).0) == input,
{
    lemma_lines_pass_in_order(buffer, input, 0);
    assert(input.skip(0) =~= input);
}

/// Over any run of frames that leads to no remote directive, the bytes
/// passed on to the local shell are the bytes received, each once and in the
/// order received, however the frames cut the lines.
pub proof fn lemma_every_byte_passes_once_in_order(buffer: Seq<u8>, frames: Seq<Seq<u8>>)
    requires
        all_local(route_frames(buffer, frames).0),
    ensures
        local_bytes(route_frames(buffer, frames).0) == joined(frames),
    decreases frames.len(),
{
    if frames.len() > 0 {
        let before = route_frames(buffer, frames.drop_last());
        let last = route_input(before.1, frames.last());
        let all = route_frames(buffer, frames).0;
        assert(all == before.0 + last.0);
        assert forall|i: int| 0 <= i < before.0.len() implies #[trigger] before.0[i] is Local by {
            assert(all[i] == before.0[i]);
        }
        assert forall|i: int| 0 <= i < last.0.len() implies #[trigger] last.0[i] is Local by {
            assert(all[before.0.len() + i] == last.0[i]);
        }
        lemma_every_byte_passes_once_in_order(buffer, frames.drop_last());
        lemma_local_input_passes_in_order(before.1, frames.last());
        lemma_local_bytes_append(before.0, last.0);
    }
}

/// The unfinished line never holds a line terminator: where it held none
/// before a frame, it holds none after it.
pub proof fn lemma_pending_line_is_unfinished(buffer: Seq<u8>, input: Seq<u8>)
    requires
        unfinished(buffer),
    ensures
        unfinished(route_input(buffer, input).1),
{
    lemma_fragment_start(input, 0);
    let fragment = fragment_start(input, 0);
    let rest = input.skip(fragment);
    let pending = route_input(buffer, input).1;
    assert forall|i: int| 0 <= i < pending.len() implies #[trigger] pending[i]
        != LINE_TERMINATOR by {
        if fragment == 0 {
            if i < buffer.len() {
                assert(pending[i] == buffer[i]);
            } else {
                assert(pending[i] == rest[i - buffer.len()]);
            }
        } else {
            assert(pending[i] == rest[i]);
        }
    }
}

/// `std::str::from_utf8`: the text that `bytes` encode, where they are
/// well-formed UTF-8, and nothing where they are not.
#[verifier::external_body]
pub(crate) fn utf8_text<'a>(bytes: &'a [u8]) -> (text: Option<&'a str>)
    ensures
        text is Some <==> valid_utf8(bytes@),
        text matches Some(t) ==> encode_utf8(t@) == bytes@,
{
    std::str::from_utf8(bytes).ok()
}

/// The first index at or after `from` at which `bytes` holds `byte`.
fn find_byte(bytes: &[u8], byte: u8, from: usize) -> (index: usize)
    requires
        from <= bytes@.len(),
    ensures
        index == position(bytes@, byte, from as int),
        from <= index <= bytes@.len(),
{
    let mut index: usize = from;
    while index < bytes.len() && bytes[index] != byte
        invariant
            from <= index <= bytes@.len(),
            position(bytes@, byte, from as int) == position(bytes@, byte, index as int),
        decreases bytes@.len() - index,
    {
        index += 1;
    }
    index
}

/// Adds `bytes` at the end of `out`.
fn append_bytes(out: &mut Vec<u8>, bytes: &[u8])
    ensures
        final(out)@ == old(out)@ + bytes@,
{
    let mut added: usize = 0;
    while added < bytes.len()
        invariant
            added <= bytes@.len(),
            out@ == old(out)@ + bytes@.take(added as int),
        decreases bytes@.len() - added,
    {
        out.push(bytes[added]);
        added += 1;
        assert(bytes@.take(added as int) == bytes@.take(added - 1).push(bytes@[added - 1]));
    }
    assert(bytes@.take(added as int) == bytes@);
}

/// The command token of a line that a frame completes.
fn classify(line: &[u8], fresh: &[u8]) -> (command: Command)
    ensures
        command@ == classify_line(line@, fresh@),
{
    if let Some(text) = utf8_text(line) {
        proof {
            encode_utf8_decode_utf8(text@);
        }
        let command = parse_command(text);
        if let Command::SSH { .. } = &command {
            return command;
        }
    }
    let mut input = slice_to_vec(fresh);
    input.push(LINE_TERMINATOR);
    Command::Local { input }
}

/// The line buffer of one client connection.
#[derive(Debug)]
pub struct InputRouter {
    buffer: Vec<u8>,
}

impl View for InputRouter {
    type V = Seq<u8>;

    /// The unfinished line: what came since the last line terminator.
    closed spec fn view(&self) -> Seq<u8> {
        self.buffer@
    }
}

impl InputRouter {
    /// A router that has seen no input.
    pub fn new() -> (router: Self)
        ensures
            router@ == Seq::<u8>::empty(),
    {
        InputRouter { buffer: Vec::new() }
    }

    /// The unfinished line so far.
    pub fn pending(&self) -> (bytes: &[u8])
        ensures
            bytes@ == self@,
    {
        self.buffer.as_slice()
    }

    /// Takes one frame of decoded input and says what to do with it.
    pub fn push_input(&mut self, input: &[u8]) -> (commands: Vec<Command>)
        ensures
            (command_views(commands@), final(self)@) == route_input(old(self)@, input@),
            commands@.len() == route_input(old(self)@, input@).0.len(),
    {
        assert(forall|c: Seq<Command>| #[trigger] command_views(c).len() == c.len());
        let ghost buffer = self.buffer@;
        let mut commands: Vec<Command> = Vec::new();
        let mut start: usize = 0;
        let mut end: usize = find_byte(input, LINE_TERMINATOR, 0);
        assert(command_views(commands@) + route_from(buffer, input@, 0) =~= route_from(
            buffer,
            input@,
            0,
        ));
        while end < input.len()
            invariant
                self.buffer@ == buffer,
                start <= end <= input@.len(),
                end == position(input@, LINE_TERMINATOR, start as int),
                route_from(buffer, input@, 0) == command_views(commands@) + route_from(
                    buffer,
                    input@,
                    start as int,
                ),
                fragment_start(input@, 0) == fragment_start(input@, start as int),
            decreases input@.len() - start,
        {
            let fresh = slice_subrange(input, start, end);
            let command = if start == 0 {
                let mut line = slice_to_vec(self.buffer.as_slice());
                append_bytes(&mut line, fresh);
                classify(line.as_slice(), fresh)
            } else {
                assert(Seq::<u8>::empty() + fresh@ =~= fresh@);
                classify(fresh, fresh)
            };
            let ghost before = commands@;
            commands.push(command);
            assert(command_views(commands@) =~= command_views(before) + seq![command@]);
            start = end + 1;
            end = find_byte(input, LINE_TERMINATOR, start);
        }
        if start < input.len() {
            let rest = slice_subrange(input, start, input.len());
            assert(rest@ =~= input@.skip(start as int));
            let ghost before = commands@;
            commands.push(Command::Local { input: slice_to_vec(rest) });
            assert(command_views(commands@) =~= command_views(before) + seq![
                CommandView::Local { input: input@.skip(start as int) },
            ]);
            if start > 0 {
                self.buffer = Vec::new();
            }
            append_bytes(&mut self.buffer, rest);
        } else {
            assert(command_views(commands@) + seq![] =~= command_views(commands@));
            assert(input@.skip(start as int) =~= Seq::<u8>::empty());
            if start > 0 {
                self.buffer = Vec::new();
            }
            assert(carried_over(buffer, start as int) + input@.skip(start as int)
                =~= self.buffer@);
        }
        commands
    }
}

} // verus!
