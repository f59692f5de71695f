//! The read side of a connection: a byte buffer that received data is read
//! into and frames are decoded from, and the bytes a frame is written as.
//!
//! Reading alternates with waiting on the socket, so it is a pair of steps:
//! [`Connection::read_frame`] decodes what is buffered or asks for more data
//! to be read into [`Connection::read_target`], and [`Connection::on_read`]
//! takes the number of bytes the socket delivered.
use bytes::BytesMut;
use vstd::prelude::*;

use crate::frame::{
    decode_frame, encode_frame, frame_input_ok, is_plain_line, is_writable, parsed_as, reads_back, spec_decode, spec_encode,
    spec_frame_parse, walk_frame, Frame, Walk,
};

verus! {

/// The growable byte buffer of the `bytes` crate.
#[verifier::external_type_specification]
#[verifier::external_body]
pub struct ExBytesMut(BytesMut);

/// The bytes that a `BytesMut` holds.
pub uninterp spec fn bytes_mut_contents(buffer: BytesMut) -> Seq<u8>;

/// Calls `BytesMut::with_capacity`. Claimed: the buffer is empty (its
/// length is 0; the capacity is not modelled).
#[verifier::external_body]
fn bytes_mut_with_capacity(capacity: usize) -> (r: BytesMut)
    requires
        capacity <= isize::MAX,
    ensures
        bytes_mut_contents(r) == Seq::<u8>::empty(),
{
    BytesMut::with_capacity(capacity)
}

/// Calls `BytesMut::len`. Claimed: the number of bytes held.
#[verifier::external_body]
fn bytes_mut_len(buffer: &BytesMut) -> (r: usize)
    ensures
        r == bytes_mut_contents(*buffer).len(),
{
    buffer.len()
}

/// Calls `BytesMut::resize`. Claimed: the buffer is cut to `new_len` bytes
/// or extended to it with copies of `value`, as the documentation says.
#[verifier::external_body]
fn bytes_mut_resize(buffer: &mut BytesMut, new_len: usize, value: u8)
    requires
        new_len <= isize::MAX,
    ensures
        bytes_mut_contents(*final(buffer)) == (if new_len <= bytes_mut_contents(*old(buffer)).len() {
            bytes_mut_contents(*old(buffer)).subrange(0, new_len as int)
        } else {
            bytes_mut_contents(*old(buffer)) + Seq::new(
                (new_len - bytes_mut_contents(*old(buffer)).len()) as nat,
                |i: int| value,
            )
        }),
{
    buffer.resize(new_len, value)
}

/// Calls `bytes::Buf::advance` on the buffer, which panics beyond its end.
/// Claimed: the first `count` bytes are dropped.
#[verifier::external_body]
fn bytes_mut_advance(buffer: &mut BytesMut, count: usize)
    requires
        count <= bytes_mut_contents(*old(buffer)).len(),
    ensures
        bytes_mut_contents(*final(buffer)) == bytes_mut_contents(*old(buffer)).subrange(
            count as int,
            bytes_mut_contents(*old(buffer)).len() as int,
        ),
{
    bytes::Buf::advance(buffer, count)
}

/// Dereferences the buffer to a slice (`Deref for BytesMut`). Claimed: the
/// slice holds the buffer's bytes.
#[verifier::external_body]
fn bytes_mut_as_slice(buffer: &BytesMut) -> (r: &[u8])
    ensures
        r@ == bytes_mut_contents(*buffer),
{
    &buffer[..]
}

/// Borrows the bytes of the buffer from `start` on mutably
/// (`DerefMut for BytesMut`, then a range index, which panics past the
/// end). Claimed: the slice holds those bytes, and whatever is written into
/// it is what the buffer holds there afterwards.
#[verifier::external_body]
fn bytes_mut_tail_mut(buffer: &mut BytesMut, start: usize) -> (r: &mut [u8])
    requires
        start <= bytes_mut_contents(*old(buffer)).len(),
    ensures
        r@ == bytes_mut_contents(*old(buffer)).subrange(
            start as int,
            bytes_mut_contents(*old(buffer)).len() as int,
        ),
        bytes_mut_contents(*final(buffer)) == bytes_mut_contents(*old(buffer)).subrange(0, start as int)
            + final(r)@,
{
    &mut buffer[start..]
}

/// The capacity a connection's buffer is made with.
pub const INITIAL_CAPACITY: usize = 4096;

/// Why reading a frame failed.
#[derive(Debug, PartialEq, Eq)]
pub enum ConnectionError {
    /// The received bytes break the protocol; the message says how.
    Protocol(String),
    /// The peer closed the connection in the middle of a frame.
    ResetByPeer,
}

/// What [`Connection::read_frame`] asks for next.
#[derive(Debug, PartialEq, Eq)]
pub enum ReadStep {
    /// Reading is over: a frame, the end of the stream, or an error.
    Done(Result<Option<Frame>, ConnectionError>),
    /// Read from the socket into [`Connection::read_target`], which has
    /// room for this many bytes, then report with [`Connection::on_read`].
    Read(usize),
}

/// The read state of a connection: the buffer and the position up to which
/// it has been filled from the socket.
pub struct Connection {
    buffer: BytesMut,
    cursor: usize,
}

/// What parsing a buffer gives, and what the buffer holds afterwards: the
/// decoded frame's bytes are dropped from its front; on anything else it is
/// left as it was.
pub open spec fn spec_parse_step(buffer: Seq<u8>) -> (Seq<u8>, Result<Option<Frame>, ConnectionError>) {
    match spec_decode(buffer) {
        Ok(Some((frame, n))) => (buffer.subrange(n as int, buffer.len() as int), Ok(Some(frame))),
        Ok(None) => (buffer, Ok(None)),
        Err(e) => (buffer, Err(ConnectionError::Protocol(e))),
    }
}

/// The state in which [`Connection::read_frame`] may be called: the decoder
/// may be given the buffer, the filled position lies within it, and a full
/// buffer can be doubled.
pub open spec fn read_ready(buffer: Seq<u8>, cursor: int) -> bool {
    &&& frame_input_ok(buffer)
    &&& 0 <= cursor <= buffer.len()
    &&& (cursor == buffer.len() ==> 2 * cursor <= isize::MAX)
}

/// The step that [`Connection::read_frame`] takes from a buffer and a filled
/// position: the new buffer, and what is asked for next. When nothing can be
/// decoded, a full buffer is doubled in length (with zero bytes), and the
/// room after the filled position is offered for reading.
pub open spec fn spec_read_step(buffer: Seq<u8>, cursor: int) -> (Seq<u8>, ReadStep) {
    let (parsed, result) = spec_parse_step(buffer);
    match result {
        Ok(None) => {
            let grown = if buffer.len() == cursor {
                buffer + Seq::new(cursor as nat, |i: int| 0u8)
            } else {
                buffer
            };
            (grown, ReadStep::Read((grown.len() - cursor) as usize))
        },
        _ => (parsed, ReadStep::Done(result)),
    }
}

/// What [`Connection::on_read`] does with `n` bytes received at a filled
/// position: none means the stream ended, which is a clean end only with
/// nothing filled; otherwise the filled position moves on and reading goes
/// on.
pub open spec fn spec_on_read(cursor: int, n: int) -> (int, Option<Result<Option<Frame>, ConnectionError>>) {
    if n == 0 {
        if cursor == 0 {
            (cursor, Some(Ok(None)))
        } else {
            (cursor, Some(Err(ConnectionError::ResetByPeer)))
        }
    } else {
        (cursor + n, None)
    }
}

/// Where a frame ends depends on the buffered bytes alone: however far the
/// buffer was filled, and in however many reads, the same bytes give the
/// same frame, the same error, and the same buffer afterwards.
pub proof fn law_frames_depend_on_bytes_alone(buffer: Seq<u8>, cursor: int, other_cursor: int)
    ensures
        spec_read_step(buffer, cursor).1 is Done ==> spec_read_step(buffer, other_cursor) == spec_read_step(
            buffer,
            cursor,
        ),
{
}

/// A new connection, whose buffer is empty, offers no room to read into:
/// a read into it takes no bytes, and reading ends cleanly with no frame,
/// whatever the peer sends and however it is split.
pub proof fn law_new_connection_reads_nothing(room: usize, n: int)
    requires
        spec_read_step(Seq::<u8>::empty(), 0).1 == ReadStep::Read(room),
        0 <= n <= room,
    ensures
        n == 0,
        spec_on_read(0, n) == (0int, Some(Ok::<Option<Frame>, ConnectionError>(None))),
{
    let (parsed, result) = spec_parse_step(Seq::<u8>::empty());
    if result is Ok && result->Ok_0 is None {
        assert(Seq::<u8>::empty() + Seq::new(0nat, |i: int| 0u8) =~= Seq::<u8>::empty());
    }
}

impl Connection {
    /// The bytes held in the buffer.
    pub closed spec fn buffer(&self) -> Seq<u8> {
        bytes_mut_contents(self.buffer)
    }

    /// How far the buffer has been filled from the socket.
    pub closed spec fn cursor(&self) -> int {
        self.cursor as int
    }

    /// A new connection: an empty buffer with room for
    /// [`INITIAL_CAPACITY`] bytes, filled up to 0.
    pub fn new() -> (c: Connection)
        ensures
            c.buffer() == Seq::<u8>::empty(),
            c.cursor() == 0,
    {
        Connection { buffer: bytes_mut_with_capacity(INITIAL_CAPACITY), cursor: 0 }
    }

    /// Takes the outcome of decoding the buffer: a decoded frame's bytes are
    /// dropped from the front of the buffer and the frame is returned; a
    /// protocol error is returned as such; an incomplete frame leaves
    /// everything as it was.
    pub fn apply_decoded(&mut self, decoded: Result<Option<(Frame, usize)>, String>) -> (r: Result<
        Option<Frame>,
        ConnectionError,
    >)
        requires
            decoded matches Ok(Some((_, n))) ==> n <= old(self).buffer().len(),
        ensures
            final(self).cursor() == old(self).cursor(),
            match decoded {
                Ok(Some((frame, n))) => r == Ok::<Option<Frame>, ConnectionError>(Some(frame))
                    && final(self).buffer() == old(self).buffer().subrange(n as int, old(self).buffer().len() as int),
                Ok(None) => r == Ok::<Option<Frame>, ConnectionError>(None) && final(self).buffer() == old(self).buffer(),
                Err(e) => r == Err::<Option<Frame>, ConnectionError>(ConnectionError::Protocol(e))
                    && final(self).buffer() == old(self).buffer(),
            },
    {
        match decoded {
            Ok(Some((frame, len))) => {
                bytes_mut_advance(&mut self.buffer, len);
                Ok(Some(frame))
            },
            Ok(None) => Ok(None),
            Err(e) => Err(ConnectionError::Protocol(e)),
        }
    }

    /// Decodes a frame from the start of the buffer and drops its bytes from
    /// the buffer; the filled position is left as it is.
    pub fn parse_frame(&mut self) -> (r: Result<Option<Frame>, ConnectionError>)
        requires
            frame_input_ok(old(self).buffer()),
        ensures
            (final(self).buffer(), r) == spec_parse_step(old(self).buffer()),
            final(self).cursor() == old(self).cursor(),
            old(self).buffer().len() == 0 ==> r == Ok::<Option<Frame>, ConnectionError>(None)
                && final(self).buffer() == old(self).buffer(),
            r matches Ok(Some(_)) ==> final(self).buffer().len() < old(self).buffer().len(),
            r matches Ok(Some(g)) ==> parsed_as(old(self).buffer(), g),
            walk_frame(old(self).buffer(), 0, 0) matches Walk::Next(n) ==> match spec_frame_parse(
                old(self).buffer(),
            ) {
                Ok(g) => r == Ok::<Option<Frame>, ConnectionError>(Some(g)) && final(self).buffer()
                    == old(self).buffer().subrange(n as int, old(self).buffer().len() as int),
                Err(e) => r == Err::<Option<Frame>, ConnectionError>(ConnectionError::Protocol(e))
                    && final(self).buffer() == old(self).buffer(),
            },
            forall|f: Frame|
                is_plain_line(f) && #[trigger] spec_encode(f).is_prefix_of(old(self).buffer()) ==> (r matches Ok(
                    Some(g),
                ) && reads_back(f, g) && final(self).buffer() == old(self).buffer().subrange(
                    spec_encode(f).len() as int,
                    old(self).buffer().len() as int,
                )),
    {
        let decoded = decode_frame(bytes_mut_as_slice(&self.buffer));
        self.apply_decoded(decoded)
    }

    /// Whether [`Connection::read_frame`] may be called now.
    pub fn is_read_ready(&self) -> (r: bool)
        ensures
            r == read_ready(self.buffer(), self.cursor()),
    {
        let len = bytes_mut_len(&self.buffer);
        crate::frame::frame_input_accepted(bytes_mut_as_slice(&self.buffer)) && self.cursor <= len && (
        self.cursor < len || self.cursor <= (isize::MAX as usize) / 2)
    }

    /// One step of reading a frame: a frame decoded from the buffer, a
    /// protocol error, or a request to read more bytes from the socket.
    pub fn read_frame(&mut self) -> (r: ReadStep)
        requires
            read_ready(old(self).buffer(), old(self).cursor()),
        ensures
            (final(self).buffer(), r) == spec_read_step(old(self).buffer(), old(self).cursor()),
            final(self).cursor() == old(self).cursor(),
            old(self).buffer().len() == 0 ==> r == ReadStep::Read(0) && final(self).buffer().len() == 0,
            r matches ReadStep::Done(Ok(Some(_))) ==> final(self).buffer().len() < old(self).buffer().len(),
            r matches ReadStep::Done(Ok(Some(g))) ==> parsed_as(old(self).buffer(), g),
            walk_frame(old(self).buffer(), 0, 0) matches Walk::Next(n) ==> match spec_frame_parse(
                old(self).buffer(),
            ) {
                Ok(g) => r == ReadStep::Done(Ok(Some(g))) && final(self).buffer() == old(
                    self,
                ).buffer().subrange(n as int, old(self).buffer().len() as int),
                Err(e) => r == ReadStep::Done(Err(ConnectionError::Protocol(e)))
                    && final(self).buffer() == old(self).buffer(),
            },
            forall|f: Frame|
                is_plain_line(f) && #[trigger] spec_encode(f).is_prefix_of(old(self).buffer()) ==> (r matches ReadStep::Done(
                    Ok(Some(g)),
                ) && reads_back(f, g) && final(self).buffer() == old(self).buffer().subrange(
                    spec_encode(f).len() as int,
                    old(self).buffer().len() as int,
                )),
    {
        match self.parse_frame() {
            Ok(Some(frame)) => ReadStep::Done(Ok(Some(frame))),
            Err(e) => ReadStep::Done(Err(e)),
            Ok(None) => {
                let len = bytes_mut_len(&self.buffer);
                if len == self.cursor {
                    bytes_mut_resize(&mut self.buffer, self.cursor * 2, 0);
                    proof {
                        let old_buffer = bytes_mut_contents(self.buffer);
                        assert(old_buffer.len() == 2 * self.cursor);
                    }
                }
                let len = bytes_mut_len(&self.buffer);
                ReadStep::Read(len - self.cursor)
            },
        }
    }

    /// The room after the filled position, for the socket to read into.
    pub fn read_target(&mut self) -> (r: &mut [u8])
        requires
            old(self).cursor() <= old(self).buffer().len(),
        ensures
            r@ == old(self).buffer().subrange(old(self).cursor(), old(self).buffer().len() as int),
            final(self).buffer() == old(self).buffer().subrange(0, old(self).cursor()) + final(r)@,
            final(self).cursor() == old(self).cursor(),
    {
        bytes_mut_tail_mut(&mut self.buffer, self.cursor)
    }

    /// Takes the number of bytes the socket read into the room offered: the
    /// end of reading when the stream ended, or none to read on.
    pub fn on_read(&mut self, n: usize) -> (r: Option<Result<Option<Frame>, ConnectionError>>)
        requires
            old(self).cursor() + n <= old(self).buffer().len(),
        ensures
            (final(self).cursor(), r) == spec_on_read(old(self).cursor(), n as int),
            final(self).buffer() == old(self).buffer(),
    {
        if n == 0 {
            if self.cursor == 0 {
                Some(Ok(None))
            } else {
                Some(Err(ConnectionError::ResetByPeer))
            }
        } else {
            let len = bytes_mut_len(&self.buffer);
            assert(self.cursor + n <= len);
            self.cursor = self.cursor + n;
            None
        }
    }

    /// The bytes that `frame` is written to the socket as.
    pub fn write_frame(&self, frame: &Frame) -> (out: Vec<u8>)
        requires
            is_writable(*frame),
        ensures
            out@ == spec_encode(*frame),
    {
        encode_frame(frame)
    }
}

} // verus!
