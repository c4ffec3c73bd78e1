//! A handler that gathers streamed output chunk by chunk, up to a limit.

use crate::router::utf8_text;
use crate::text::{append_decimal, decimal_text};
use vstd::prelude::*;
use vstd::utf8::{decode_utf8, encode_utf8_decode_utf8, valid_utf8};

verus! {

/// A chunk of bytes that is cheap to pass on.
#[verifier::external_type_specification]
#[verifier::external_body]
pub struct ExBytes(bytes::Bytes);

/// A buffer of bytes that grows.
#[verifier::external_type_specification]
#[verifier::external_body]
pub struct ExBytesMut(bytes::BytesMut);

/// The bytes that a chunk holds.
pub uninterp spec fn bytes_content(chunk: bytes::Bytes) -> Seq<u8>;

/// The bytes that a growing buffer holds.
pub uninterp spec fn buffer_content(buffer: bytes::BytesMut) -> Seq<u8>;

/// `bytes::Bytes::new`: a chunk that holds nothing.
#[verifier::external_body]
fn empty_chunk() -> (chunk: bytes::Bytes)
    ensures
        bytes_content(chunk) == Seq::<u8>::empty(),
{
    bytes::Bytes::new()
}

/// `bytes::Bytes::len`: how many bytes the chunk holds.
#[verifier::external_body]
fn chunk_len(chunk: &bytes::Bytes) -> (len: usize)
    ensures
        len == bytes_content(*chunk).len(),
{
    chunk.len()
}

/// `Deref` of `bytes::Bytes`: the bytes of the chunk as a slice.
#[verifier::external_body]
fn chunk_slice<'a>(chunk: &'a bytes::Bytes) -> (slice: &'a [u8])
    ensures
        slice@ == bytes_content(*chunk),
{
    &chunk[..]
}

/// `bytes::BytesMut::with_capacity`: an empty buffer with room for
/// `capacity` bytes. It panics where the capacity is more than a buffer can
/// have; such input is left out.
#[verifier::external_body]
fn buffer_with_capacity(capacity: usize) -> (buffer: bytes::BytesMut)
    requires
        capacity <= isize::MAX,
    ensures
        buffer_content(buffer) == Seq::<u8>::empty(),
{
    bytes::BytesMut::with_capacity(capacity)
}

/// `bytes::BytesMut::extend_from_slice`: the buffer with `bytes` added at
/// its end. It panics where the buffer would grow beyond what a buffer can
/// hold; such input is left out.
#[verifier::external_body]
fn buffer_extend(buffer: &mut bytes::BytesMut, bytes: &[u8])
    requires
        buffer_content(*old(buffer)).len() + bytes@.len() <= isize::MAX,
    ensures
        buffer_content(*final(buffer)) == buffer_content(*old(buffer)) + bytes@,
{
    buffer.extend_from_slice(bytes)
}

/// `bytes::BytesMut::freeze`: the buffer as a chunk of the same bytes.
#[verifier::external_body]
fn buffer_freeze(buffer: bytes::BytesMut) -> (chunk: bytes::Bytes)
    ensures
        bytes_content(chunk) == buffer_content(buffer),
{
    buffer.freeze()
}

/// Why streamed output was not taken, or could not be handed out.
#[derive(Debug, Clone, Copy, PartialEq, Eq, Structural)]
pub enum StreamError {
    /// With the chunk the output would have come to `size` bytes, more than
    /// the `max` that the handler takes.
    TooLarge { size: u128, max: usize },
    /// The output is no text.
    InvalidUtf8,
}

/// The message of a stream error, in plain words.
pub open spec fn stream_error_text(error: StreamError) -> Seq<char> {
    match error {
        StreamError::TooLarge { size, max } => "Output too large: "@ + decimal_text(size as nat)
            + " bytes (max: "@ + decimal_text(max as nat) + " bytes)"@,
        StreamError::InvalidUtf8 => "Invalid UTF-8"@,
    }
}

impl StreamError {
    /// The message of this error, in plain words.
    pub fn message(&self) -> (text: String)
        ensures
            text@ == stream_error_text(*self),
    {
        match self {
            StreamError::TooLarge { size, max } => {
                let mut text = "Output too large: ".to_owned();
                append_decimal(&mut text, *size);
                text.append(" bytes (max: ");
                append_decimal(&mut text, *max as u128);
                text.append(" bytes)");
                text
            },
            StreamError::InvalidUtf8 => "Invalid UTF-8".to_owned(),
        }
    }
}

/// The bytes of `chunks`, one chunk after the other.
pub open spec fn concatenated(chunks: Seq<bytes::Bytes>) -> Seq<u8>
    decreases chunks.len(),
{
    if chunks.len() == 0 {
        Seq::empty()
    } else {
        concatenated(chunks.drop_last()) + bytes_content(chunks.last())
    }
}

/// The most that any handler takes: what one buffer can hold.
pub open spec fn largest_limit() -> usize {
    isize::MAX as usize
}

/// Gathers the chunks of a stream, and refuses those that would take it
/// over its limit.
pub struct StreamingOutputHandler {
    chunks: Vec<bytes::Bytes>,
    total_size: usize,
    max_size: usize,
}

impl View for StreamingOutputHandler {
    type V = Seq<u8>;

    /// The output gathered so far.
    closed spec fn view(&self) -> Seq<u8> {
        concatenated(self.chunks@)
    }
}

impl StreamingOutputHandler {
    /// The limit of the handler, in bytes.
    pub closed spec fn limit(&self) -> usize {
        self.max_size
    }

    /// The handler is well-formed: it knows the size of what it has
    /// gathered, which is within its limit.
    pub closed spec fn wf(&self) -> bool {
        &&& self.total_size == concatenated(self.chunks@).len()
        &&& self.total_size <= self.max_size
        &&& self.max_size <= largest_limit()
    }

    /// In a well-formed handler the output is within the limit.
    pub proof fn lemma_within_limit(&self)
        requires
            self.wf(),
        ensures
            self@.len() <= self.limit(),
            self.limit() <= largest_limit(),
    {
    }

    /// An empty handler that takes up to `max_size` bytes, and never more
    /// than one buffer can hold.
    pub fn new(max_size: usize) -> (handler: Self)
        ensures
            handler.wf(),
            handler@ == Seq::<u8>::empty(),
            handler.limit() == if max_size <= largest_limit() {
                max_size
            } else {
                largest_limit()
            },
    {
        let max_size = if max_size <= isize::MAX as usize {
            max_size
        } else {
            isize::MAX as usize
        };
        StreamingOutputHandler { chunks: Vec::new(), total_size: 0, max_size }
    }

    /// Adds a chunk to the output, unless the output would then be over the
    /// limit: in that case nothing is added, and the error says so.
    pub fn push_chunk(&mut self, data: bytes::Bytes) -> (pushed: Result<(), StreamError>)
        requires
            old(self).wf(),
        ensures
            final(self).wf(),
            final(self).limit() == old(self).limit(),
            match pushed {
                Ok(()) => old(self)@.len() + bytes_content(data).len() <= old(self).limit()
                    && final(self)@ == old(self)@ + bytes_content(data),
                Err(error) => old(self)@.len() + bytes_content(data).len() > old(self).limit()
                    && final(self)@ == old(self)@ && error == (StreamError::TooLarge {
                    size: (old(self)@.len() + bytes_content(data).len()) as u128,
                    max: old(self).limit(),
                }),
            },
    {
        let data_len = chunk_len(&data);
        if data_len > self.max_size - self.total_size {
            return Err(
                StreamError::TooLarge {
                    size: self.total_size as u128 + data_len as u128,
                    max: self.max_size,
                },
            );
        }
        self.total_size = self.total_size + data_len;
        let ghost before = self.chunks@;
        self.chunks.push(data);
        assert(self.chunks@.drop_last() =~= before);
        Ok(())
    }

    /// The size of the output gathered so far, in bytes.
    pub fn size(&self) -> (size: usize)
        requires
            self.wf(),
        ensures
            size == self@.len(),
    {
        self.total_size
    }

    /// The whole output as one chunk.
    pub fn finalize(self) -> (output: bytes::Bytes)
        requires
            self.wf(),
        ensures
            bytes_content(output) == self@,
    {
        if self.chunks.len() == 0 {
            return empty_chunk();
        }
        let mut output = buffer_with_capacity(self.total_size);
        let mut index: usize = 0;
        while index < self.chunks.len()
            invariant
                self.wf(),
                index <= self.chunks@.len(),
                buffer_content(output) == concatenated(self.chunks@.take(index as int)),
            decreases self.chunks@.len() - index,
        {
            proof {
                assert(self.chunks@.take(index + 1).drop_last() =~= self.chunks@.take(
                    index as int,
                ));
                lemma_concatenated_prefix(self.chunks@, index + 1);
            }
            buffer_extend(&mut output, chunk_slice(&self.chunks[index]));
            index += 1;
        }
        assert(self.chunks@.take(index as int) =~= self.chunks@);
        buffer_freeze(output)
    }

    /// The whole output as text, where it is text.
    pub fn finalize_string(self) -> (output: Result<String, StreamError>)
        requires
            self.wf(),
        ensures
            match output {
                Ok(text) => valid_utf8(self@) && text@ == decode_utf8(self@),
                Err(error) => !valid_utf8(self@) && error == StreamError::InvalidUtf8,
            },
    {
        let bytes = self.finalize();
        match utf8_text(chunk_slice(&bytes)) {
            Some(text) => {
                proof {
                    encode_utf8_decode_utf8(text@);
                }
                Ok(text.to_owned())
            },
            None => Err(StreamError::InvalidUtf8),
        }
    }
}

impl Default for StreamingOutputHandler {
    /// A handler that takes up to ten mebibytes.
    fn default() -> (handler: Self)
        ensures
            handler.wf(),
            handler@ == Seq::<u8>::empty(),
            handler.limit() == 10 * 1024 * 1024,
    {
        StreamingOutputHandler::new(10 * 1024 * 1024)
    }
}

/// The first chunks of a stream are no longer than all of it.
proof fn lemma_concatenated_prefix(chunks: Seq<bytes::Bytes>, n: int)
    requires
        0 <= n <= chunks.len(),
    ensures
        concatenated(chunks.take(n)).len() <= concatenated(chunks).len(),
    decreases chunks.len() - n,
{
    if n == chunks.len() {
        assert(chunks.take(n) =~= chunks);
    } else {
        lemma_concatenated_prefix(chunks, n + 1);
        assert(chunks.take(n + 1).drop_last() =~= chunks.take(n));
    }
}

} // verus!
