//! Frames of the Redis serialization protocol (RESP): the value type, the
//! bytes a frame is written as, and decoding of received bytes through
//! `mini_redis::Frame::check` and `mini_redis::Frame::parse`.
use mini_redis::Frame as RespFrame;
use std::io::Cursor;
use vstd::prelude::*;
use vstd::utf8::{encode_utf8, encode_utf8_decode_utf8};

verus! {

/// A frame of the Redis protocol.
#[derive(Debug, PartialEq, Eq)]
pub enum Frame {
    Simple(String),
    Error(String),
    Integer(u64),
    Bulk(Vec<u8>),
    Null,
    Array(Vec<Frame>),
}

/// Why a byte sequence does not start with a frame.
#[derive(Debug, PartialEq, Eq)]
pub enum FrameError {
    /// The bytes are a proper prefix of a frame: more must be read.
    Incomplete,
    /// The bytes can never start a frame; the message says why.
    Invalid(String),
}

/// Type byte of a simple string frame (`+`).
pub const SIMPLE_BYTE: u8 = 43;
/// Type byte of an error frame (`-`).
pub const ERROR_BYTE: u8 = 45;
/// Type byte of a bulk frame (`$`).
pub const BULK_BYTE: u8 = 36;
/// Type byte of an array frame (`*`).
pub const ARRAY_BYTE: u8 = 42;
/// Carriage return.
pub const CR: u8 = 13;
/// Line feed.
pub const LF: u8 = 10;
/// The digit one.
pub const ONE_BYTE: u8 = 49;

/// A frame is written only in these three forms: the integer and bulk
/// forms need a decimal writer that this connection does not have, and
/// arrays are not written at all.
pub open spec fn is_writable(frame: Frame) -> bool {
    frame is Simple || frame is Error || frame is Null
}

/// The bytes that a writable frame is written as.
pub open spec fn spec_encode(frame: Frame) -> Seq<u8>
    recommends
        is_writable(frame),
{
    match frame {
        Frame::Simple(s) => seq![SIMPLE_BYTE] + encode_utf8(s@) + seq![CR, LF],
        Frame::Error(s) => seq![ERROR_BYTE] + encode_utf8(s@) + seq![CR, LF],
        _ => seq![BULK_BYTE, ERROR_BYTE, ONE_BYTE, CR, LF],
    }
}

/// Appends `bytes` to `out`.
fn push_bytes(out: &mut Vec<u8>, bytes: &[u8])
    ensures
        final(out)@ == old(out)@ + bytes@,
{
    let mut i: usize = 0;
    while i < bytes.len()
        invariant
            i <= bytes@.len(),
            out@ == old(out)@ + bytes@.subrange(0, i as int),
        decreases bytes@.len() - i,
    {
        out.push(bytes[i]);
        i = i + 1;
        assert(out@ =~= old(out)@ + bytes@.subrange(0, i as int));
    }
    assert(bytes@.subrange(0, bytes@.len() as int) =~= bytes@);
}

/// The bytes that `frame` is written as: a type byte, the payload, and the
/// line terminator.
pub fn encode_frame(frame: &Frame) -> (out: Vec<u8>)
    requires
        is_writable(*frame),
    ensures
        out@ == spec_encode(*frame),
{
    let mut out: Vec<u8> = Vec::new();
    match frame {
        Frame::Simple(val) => {
            out.push(SIMPLE_BYTE);
            push_bytes(&mut out, val.as_str().as_bytes());
            out.push(CR);
            out.push(LF);
        },
        Frame::Error(val) => {
            out.push(ERROR_BYTE);
            push_bytes(&mut out, val.as_str().as_bytes());
            out.push(CR);
            out.push(LF);
        },
        _ => {
            out.push(BULK_BYTE);
            out.push(ERROR_BYTE);
            out.push(ONE_BYTE);
            out.push(CR);
            out.push(LF);
        },
    }
    out
}

/// The frame value of `mini_redis`, which `Frame::check` and `Frame::parse` of that
/// crate work on; only the conversions below look inside it.
#[verifier::external_type_specification]
#[verifier::external_body]
pub struct ExRespFrame(RespFrame);

/// Type byte of an integer frame (`:`).
pub const INTEGER_BYTE: u8 = 58;

/// Whether `b` is an ASCII decimal digit.
pub open spec fn is_digit(b: u8) -> bool {
    48 <= b <= 57
}

/// Where the line that starts at `start` ends: the index of the first CR
/// at or after `start` that is directly followed by LF, as the frame reader
/// finds it.
pub open spec fn line_end(bytes: Seq<u8>, start: int) -> Option<int>
    decreases bytes.len() - start,
{
    if start < 0 || start + 1 >= bytes.len() {
        None
    } else if bytes[start] == CR && bytes[start + 1] == LF {
        Some(start)
    } else {
        line_end(bytes, start + 1)
    }
}

/// A line that is found ends at or after its start, and its LF lies within
/// the bytes.
pub proof fn lemma_line_end_bounds(bytes: Seq<u8>, start: int)
    ensures
        line_end(bytes, start) matches Some(e) ==> start <= e && e + 1 < bytes.len(),
    decreases bytes.len() - start,
{
    if start >= 0 && start + 1 < bytes.len() && !(bytes[start] == CR && bytes[start + 1] == LF) {
        lemma_line_end_bounds(bytes, start + 1);
    }
}

/// A line whose bytes before a CR LF at `end` hold no CR ends there.
pub proof fn lemma_line_end_at(bytes: Seq<u8>, start: int, end: int)
    requires
        0 <= start <= end,
        end + 1 < bytes.len(),
        bytes[end] == CR,
        bytes[end + 1] == LF,
        forall|k: int| start <= k < end ==> bytes[k] != CR,
    ensures
        line_end(bytes, start) == Some(end),
    decreases end - start,
{
    if start < end {
        lemma_line_end_at(bytes, start + 1, end);
    }
}

/// The end of the run of digits that starts at `start`.
pub open spec fn digits_end(bytes: Seq<u8>, start: int) -> int
    decreases bytes.len() - start,
{
    if start < 0 || start >= bytes.len() || !is_digit(bytes[start]) {
        start
    } else {
        digits_end(bytes, start + 1)
    }
}

/// The value of the decimal digits `bytes[start..end]`.
pub open spec fn digits_value(bytes: Seq<u8>, start: int, end: int) -> nat
    decreases end - start,
{
    if end <= start {
        0
    } else {
        digits_value(bytes, start, end - 1) * 10 + (bytes[end - 1] - 48) as nat
    }
}

/// The number that the frame reader reads from the line at `start`
/// (`atoi::<u64>`): the value of the leading digits, if there is at least
/// one and the value fits in a `u64`.
pub open spec fn decimal_at(bytes: Seq<u8>, start: int) -> Option<u64> {
    let end = digits_end(bytes, start);
    if end == start || digits_value(bytes, start, end) > u64::MAX {
        None
    } else {
        Some(digits_value(bytes, start, end) as u64)
    }
}

/// How the frame reader's walk over one frame ends: after the frame, at the
/// given position; stopped by an incomplete or malformed frame; or at a step
/// that it cannot take safely.
#[derive(Debug, PartialEq, Eq)]
pub enum Walk {
    Next(usize),
    Stop,
    Danger,
}

/// The deepest nesting of arrays that the frame reader is let into: it
/// checks nested frames by recursion, one stack frame per level.
pub const MAX_NESTING: usize = 1024;

/// The walk that `mini_redis::Frame::check` takes over the frame at `pos`,
/// which lies inside `depth` arrays. A simple string or error frame is a
/// line; an integer frame is a line that starts with a number; a bulk frame
/// is `$-` and four bytes, or a length line and that many bytes and two
/// more (a length above `usize::MAX` is refused by the reader); an array
/// frame is a count line and that many frames. The walk is in danger where
/// the reader would add two to a bulk length of `usize::MAX - 1` or more,
/// which overflows, or would check a frame nested deeper than
/// [`MAX_NESTING`] arrays.
pub open spec fn walk_frame(bytes: Seq<u8>, pos: int, depth: nat) -> Walk
    decreases bytes.len() - pos, 0int,
{
    if pos < 0 || pos >= bytes.len() {
        Walk::Stop
    } else {
        let t = bytes[pos];
        if t == SIMPLE_BYTE || t == ERROR_BYTE {
            match line_end(bytes, pos + 1) {
                Some(e) => Walk::Next((e + 2) as usize),
                None => Walk::Stop,
            }
        } else if t == INTEGER_BYTE {
            match line_end(bytes, pos + 1) {
                Some(e) => if decimal_at(bytes, pos + 1) is Some {
                    Walk::Next((e + 2) as usize)
                } else {
                    Walk::Stop
                },
                None => Walk::Stop,
            }
        } else if t == BULK_BYTE {
            if pos + 1 >= bytes.len() {
                Walk::Stop
            } else if bytes[pos + 1] == ERROR_BYTE {
                if pos + 5 <= bytes.len() {
                    Walk::Next((pos + 5) as usize)
                } else {
                    Walk::Stop
                }
            } else {
                match line_end(bytes, pos + 1) {
                    None => Walk::Stop,
                    Some(e) => match decimal_at(bytes, pos + 1) {
                        None => Walk::Stop,
                        Some(n) => if n > usize::MAX {
                            Walk::Stop
                        } else if n + 2 > usize::MAX {
                            Walk::Danger
                        } else if e + 4 + n <= bytes.len() {
                            Walk::Next((e + 4 + n) as usize)
                        } else {
                            Walk::Stop
                        },
                    },
                }
            }
        } else if t == ARRAY_BYTE {
            match line_end(bytes, pos + 1) {
                None => Walk::Stop,
                Some(e) => match decimal_at(bytes, pos + 1) {
                    None => Walk::Stop,
                    Some(n) => {
                        proof {
                            lemma_line_end_bounds(bytes, pos + 1);
                        }
                        walk_items(bytes, e + 2, n as nat, depth + 1)
                    },
                },
            }
        } else {
            Walk::Stop
        }
    }
}

/// The walk over `count` frames in a row from `pos`, each inside `depth`
/// arrays: it ends after the last of them, or where the walk over one of
/// them stops or is in danger. (A frame always takes at least one byte, so
/// the branch for a walk that does not move on is never taken: see
/// [`lemma_walk_frame_moves_on`].)
pub open spec fn walk_items(bytes: Seq<u8>, pos: int, count: nat, depth: nat) -> Walk
    decreases bytes.len() - pos, 1int,
{
    if count == 0 {
        Walk::Next(pos as usize)
    } else if depth > MAX_NESTING {
        Walk::Danger
    } else {
        match walk_frame(bytes, pos, depth) {
            Walk::Next(p) => if pos < p && p <= bytes.len() {
                walk_items(bytes, p as int, (count - 1) as nat, depth)
            } else {
                Walk::Stop
            },
            other => other,
        }
    }
}

/// A walk over one frame that ends, ends after that frame's first byte and
/// within the bytes.
pub proof fn lemma_walk_frame_moves_on(bytes: Seq<u8>, pos: int, depth: nat)
    requires
        0 <= pos,
        bytes.len() <= usize::MAX,
    ensures
        walk_frame(bytes, pos, depth) matches Walk::Next(p) ==> pos < p <= bytes.len(),
    decreases bytes.len() - pos, 0int,
{
    if pos < bytes.len() {
        lemma_line_end_bounds(bytes, pos + 1);
        if bytes[pos] == ARRAY_BYTE {
            if let (Some(e), Some(n)) = (line_end(bytes, pos + 1), decimal_at(bytes, pos + 1)) {
                lemma_walk_items_moves_on(bytes, e + 2, n as nat, depth + 1);
            }
        }
    }
}

/// A walk over frames in a row that ends, ends at or after where it started
/// and within the bytes.
pub proof fn lemma_walk_items_moves_on(bytes: Seq<u8>, pos: int, count: nat, depth: nat)
    requires
        0 <= pos <= bytes.len(),
        bytes.len() <= usize::MAX,
    ensures
        walk_items(bytes, pos, count, depth) matches Walk::Next(p) ==> pos <= p <= bytes.len(),
    decreases bytes.len() - pos, 1int,
{
    if count > 0 && depth <= MAX_NESTING {
        lemma_walk_frame_moves_on(bytes, pos, depth);
        if let Walk::Next(p) = walk_frame(bytes, pos, depth) {
            if pos < p && p <= bytes.len() {
                lemma_walk_items_moves_on(bytes, p as int, (count - 1) as nat, depth);
            }
        }
    }
}

/// How many array type bytes `bytes` holds from `pos` on.
pub open spec fn arrays_from(bytes: Seq<u8>, pos: int) -> nat
    decreases bytes.len() - pos,
{
    if pos < 0 || pos >= bytes.len() {
        0
    } else {
        arrays_from(bytes, pos + 1) + if bytes[pos] == ARRAY_BYTE {
            1nat
        } else {
            0nat
        }
    }
}

/// Fewer array type bytes lie further on.
proof fn lemma_arrays_from_shrinks(bytes: Seq<u8>, from: int, to: int)
    requires
        0 <= from <= to,
    ensures
        arrays_from(bytes, to) <= arrays_from(bytes, from),
    decreases to - from,
{
    if from < to {
        lemma_arrays_from_shrinks(bytes, from + 1, to);
    }
}

/// Whether no bulk type byte in `bytes` is followed by a length that
/// overflows when two is added to it.
pub open spec fn bulk_lengths_fit(bytes: Seq<u8>) -> bool {
    forall|i: int|
        0 <= i < bytes.len() && bytes[i] == BULK_BYTE ==> !(#[trigger] decimal_at(bytes, i + 1) matches Some(
            n,
        ) && n + 2 > usize::MAX)
}

/// The walk over a frame that lies inside `depth` arrays is safe where the
/// bulk lengths fit and the array type bytes still ahead, with the arrays
/// around it, are no more than [`MAX_NESTING`].
proof fn lemma_walk_frame_safe(bytes: Seq<u8>, pos: int, depth: nat)
    requires
        0 <= pos,
        bulk_lengths_fit(bytes),
        depth + arrays_from(bytes, pos) <= MAX_NESTING,
    ensures
        !(walk_frame(bytes, pos, depth) is Danger),
    decreases bytes.len() - pos, 0int,
{
    if pos < bytes.len() {
        lemma_line_end_bounds(bytes, pos + 1);
        if bytes[pos] == BULK_BYTE {
            assert(!(decimal_at(bytes, pos + 1) matches Some(n) && n + 2 > usize::MAX));
        }
        if bytes[pos] == ARRAY_BYTE {
            if let (Some(e), Some(n)) = (line_end(bytes, pos + 1), decimal_at(bytes, pos + 1)) {
                lemma_arrays_from_shrinks(bytes, pos + 1, e + 2);
                lemma_walk_items_safe(bytes, e + 2, n as nat, depth + 1);
            }
        }
    }
}

/// The walk over frames in a row inside `depth` arrays is safe under the
/// same conditions.
proof fn lemma_walk_items_safe(bytes: Seq<u8>, pos: int, count: nat, depth: nat)
    requires
        0 <= pos,
        bulk_lengths_fit(bytes),
        depth + arrays_from(bytes, pos) <= MAX_NESTING,
    ensures
        !(walk_items(bytes, pos, count, depth) is Danger),
    decreases bytes.len() - pos, 1int,
{
    if count > 0 {
        lemma_walk_frame_safe(bytes, pos, depth);
        if let Walk::Next(p) = walk_frame(bytes, pos, depth) {
            if pos < p && p <= bytes.len() {
                lemma_arrays_from_shrinks(bytes, pos, p as int);
                lemma_walk_items_safe(bytes, p as int, (count - 1) as nat, depth);
            }
        }
    }
}

/// The frame reader may be given any bytes whose bulk lengths all leave room
/// for the two bytes of a line end and which hold no more than
/// [`MAX_NESTING`] array type bytes: bulk strings are safe at any depth, and
/// so every command that a client sends, an array of short bulk strings, is
/// accepted.
pub proof fn law_small_frames_accepted(bytes: Seq<u8>)
    requires
        bulk_lengths_fit(bytes),
        arrays_from(bytes, 0) <= MAX_NESTING,
    ensures
        frame_input_ok(bytes),
{
    lemma_walk_frame_safe(bytes, 0, 0);
}

/// The bytes on which the frame reader of `mini_redis` returns: its walk
/// over the first frame meets no bulk length that overflows and no nesting
/// deeper than [`MAX_NESTING`].
pub open spec fn frame_input_ok(bytes: Seq<u8>) -> bool {
    !(walk_frame(bytes, 0, 0) is Danger)
}

/// Bytes that start with a written frame may be given to the frame reader:
/// its walk over a `+` or `-` line, or over `$-`, has no step that can
/// overflow or nest.
pub proof fn law_written_frame_input_ok(frame: Frame, bytes: Seq<u8>)
    requires
        is_writable(frame),
        spec_encode(frame).is_prefix_of(bytes),
    ensures
        frame_input_ok(bytes),
{
    let enc = spec_encode(frame);
    assert(bytes[0] == enc[0]);
    assert(bytes[1] == enc[1]);
}

/// The walk over bytes that start with a written frame whose payload holds
/// no CR ends right after that frame.
pub proof fn lemma_plain_line_walk(frame: Frame, bytes: Seq<u8>)
    requires
        is_plain_line(frame),
        spec_encode(frame).is_prefix_of(bytes),
        bytes.len() <= usize::MAX,
    ensures
        walk_frame(bytes, 0, 0) matches Walk::Next(n) && n == spec_encode(frame).len(),
        bytes[0] != ARRAY_BYTE,
        parse_succeeds(bytes),
        forall|g: Frame| #[trigger] parsed_as(bytes, g) ==> reads_back(frame, g),
{
    let enc = spec_encode(frame);
    assert(forall|k: int| 0 <= k < enc.len() ==> bytes[k] == #[trigger] enc[k]);
    assert(bytes[0] == enc[0]);
    match frame {
        Frame::Simple(text) => {
            let u = encode_utf8(text@);
            let end: int = u.len() as int + 1;
            assert forall|k: int| 1 <= k < end implies bytes[k] != CR by {
                assert(enc[k] == u[k - 1]);
                if u[k - 1] == CR {
                    assert(u.contains(CR));
                }
            }
            assert(enc[end] == CR && enc[end + 1] == LF);
            lemma_line_end_at(bytes, 1, end);
            assert forall|k: int| 0 <= k < u.len() implies bytes[k + 1] == u[k] by {
                assert(enc[k + 1] == u[k]);
            }
            assert(bytes.subrange(1, end) =~= u);
            assert forall|g: Frame| #[trigger] parsed_as(bytes, g) implies reads_back(frame, g) by {
                if let Frame::Simple(read) = g {
                    encode_utf8_decode_utf8(read@);
                    encode_utf8_decode_utf8(text@);
                }
            }
        },
        Frame::Error(text) => {
            let u = encode_utf8(text@);
            let end: int = u.len() as int + 1;
            assert forall|k: int| 1 <= k < end implies bytes[k] != CR by {
                assert(enc[k] == u[k - 1]);
                if u[k - 1] == CR {
                    assert(u.contains(CR));
                }
            }
            assert(enc[end] == CR && enc[end + 1] == LF);
            lemma_line_end_at(bytes, 1, end);
            assert forall|k: int| 0 <= k < u.len() implies bytes[k + 1] == u[k] by {
                assert(enc[k + 1] == u[k]);
            }
            assert(bytes.subrange(1, end) =~= u);
            assert forall|g: Frame| #[trigger] parsed_as(bytes, g) implies reads_back(frame, g) by {
                if let Frame::Error(read) = g {
                    encode_utf8_decode_utf8(read@);
                    encode_utf8_decode_utf8(text@);
                }
            }
        },
        _ => {
            assert(bytes[1] == enc[1] && bytes[2] == enc[2] && bytes[3] == enc[3] && bytes[4] == enc[4]);
            lemma_line_end_at(bytes, 1, 3);
        },
    }
}

/// The index of the first CR that is directly followed by LF at or after
/// `start`.
fn find_line_end(bytes: &[u8], start: usize) -> (r: Option<usize>)
    ensures
        match r {
            Some(e) => line_end(bytes@, start as int) == Some(e as int),
            None => line_end(bytes@, start as int) is None,
        },
{
    let mut i: usize = start;
    while i < bytes.len() && bytes.len() - i > 1
        invariant
            start <= i,
            line_end(bytes@, start as int) == line_end(bytes@, i as int),
        decreases bytes@.len() - i,
    {
        if bytes[i] == CR && bytes[i + 1] == LF {
            return Some(i);
        }
        i = i + 1;
    }
    None
}

/// The number that the line at `start` begins with, as the frame reader
/// reads it.
fn read_decimal(bytes: &[u8], start: usize) -> (r: Option<u64>)
    ensures
        r == decimal_at(bytes@, start as int),
{
    if start >= bytes.len() {
        return None;
    }
    let mut i: usize = start;
    let mut value: u64 = 0;
    let mut overflow = false;
    while i < bytes.len() && 48 <= bytes[i] && bytes[i] <= 57
        invariant
            start <= i <= bytes@.len(),
            digits_end(bytes@, start as int) == digits_end(bytes@, i as int),
            overflow ==> digits_value(bytes@, start as int, i as int) > u64::MAX,
            !overflow ==> value == digits_value(bytes@, start as int, i as int),
        decreases bytes@.len() - i,
    {
        let d: u64 = (bytes[i] - 48) as u64;
        let ghost before = digits_value(bytes@, start as int, i as int);
        assert(digits_value(bytes@, start as int, i + 1) == before * 10 + d);
        if !overflow {
            match value.checked_mul(10) {
                Some(v) => match v.checked_add(d) {
                    Some(w) => {
                        value = w;
                    },
                    None => {
                        overflow = true;
                    },
                },
                None => {
                    overflow = true;
                },
            }
        }
        i = i + 1;
    }
    if i == start || overflow {
        None
    } else {
        Some(value)
    }
}

/// The walk of [`walk_frame`], taken over the frame at `pos`.
fn scan_frame(bytes: &[u8], pos: usize, depth: usize) -> (r: Walk)
    requires
        depth <= MAX_NESTING,
    ensures
        r == walk_frame(bytes@, pos as int, depth as nat),
    decreases bytes@.len() - pos, 0int,
{
    if pos >= bytes.len() {
        return Walk::Stop;
    }
    let t = bytes[pos];
    if t == SIMPLE_BYTE || t == ERROR_BYTE {
        match find_line_end(bytes, pos + 1) {
            Some(e) => {
                proof {
                    lemma_line_end_bounds(bytes@, pos + 1);
                }
                Walk::Next(e + 2)
            },
            None => Walk::Stop,
        }
    } else if t == INTEGER_BYTE {
        match find_line_end(bytes, pos + 1) {
            Some(e) => {
                proof {
                    lemma_line_end_bounds(bytes@, pos + 1);
                }
                match read_decimal(bytes, pos + 1) {
                    Some(_) => Walk::Next(e + 2),
                    None => Walk::Stop,
                }
            },
            None => Walk::Stop,
        }
    } else if t == BULK_BYTE {
        if bytes.len() - pos <= 1 {
            Walk::Stop
        } else if bytes[pos + 1] == ERROR_BYTE {
            if bytes.len() - pos >= 5 {
                Walk::Next(pos + 5)
            } else {
                Walk::Stop
            }
        } else {
            match find_line_end(bytes, pos + 1) {
                None => Walk::Stop,
                Some(e) => {
                    proof {
                        lemma_line_end_bounds(bytes@, pos + 1);
                    }
                    match read_decimal(bytes, pos + 1) {
                        None => Walk::Stop,
                        Some(n) => {
                            let room: usize = bytes.len() - e;
                            if n > usize::MAX as u64 {
                                Walk::Stop
                            } else if n > usize::MAX as u64 - 2 {
                                Walk::Danger
                            } else if room >= 4 && n <= (room - 4) as u64 {
                                Walk::Next(e + 4 + n as usize)
                            } else {
                                Walk::Stop
                            }
                        },
                    }
                },
            }
        }
    } else if t == ARRAY_BYTE {
        match find_line_end(bytes, pos + 1) {
            None => Walk::Stop,
            Some(e) => {
                proof {
                    lemma_line_end_bounds(bytes@, pos + 1);
                }
                match read_decimal(bytes, pos + 1) {
                    None => Walk::Stop,
                    Some(n) => scan_items(bytes, e + 2, n, depth + 1),
                }
            },
        }
    } else {
        Walk::Stop
    }
}

/// The walk of [`walk_items`], taken over `count` frames from `pos`.
fn scan_items(bytes: &[u8], pos: usize, count: u64, depth: usize) -> (r: Walk)
    requires
        pos <= bytes@.len(),
        depth <= MAX_NESTING + 1,
    ensures
        r == walk_items(bytes@, pos as int, count as nat, depth as nat),
    decreases bytes@.len() - pos, 1int,
{
    let mut p: usize = pos;
    let mut k: u64 = count;
    while k > 0
        invariant
            pos <= p <= bytes@.len(),
            depth <= MAX_NESTING + 1,
            walk_items(bytes@, pos as int, count as nat, depth as nat) == walk_items(
                bytes@,
                p as int,
                k as nat,
                depth as nat,
            ),
        decreases k,
    {
        if depth > MAX_NESTING {
            return Walk::Danger;
        }
        match scan_frame(bytes, p, depth) {
            Walk::Next(q) => {
                if p < q && q <= bytes.len() {
                    p = q;
                    k = k - 1;
                } else {
                    return Walk::Stop;
                }
            },
            Walk::Stop => {
                return Walk::Stop;
            },
            Walk::Danger => {
                return Walk::Danger;
            },
        }
    }
    Walk::Next(p)
}

/// Tells whether the frame reader may be given `bytes`.
pub fn frame_input_accepted(bytes: &[u8]) -> (r: bool)
    ensures
        r == frame_input_ok(bytes@),
{
    match scan_frame(bytes, 0, 0) {
        Walk::Danger => false,
        _ => true,
    }
}

/// The line that starts at `start`, without its CR LF (empty where no line
/// ends).
pub open spec fn line_at(bytes: Seq<u8>, start: int) -> Seq<u8> {
    match line_end(bytes, start) {
        Some(e) => bytes.subrange(start, e),
        None => Seq::empty(),
    }
}

/// Whether the frame parser succeeds on a checked frame at the start of
/// `bytes` that is not an array: the line of a simple string or error frame
/// must be UTF-8 text, and the line of a null frame must be `-1`; integer
/// and bulk frames that passed the check always parse.
pub open spec fn parse_succeeds(bytes: Seq<u8>) -> bool {
    let t = bytes[0];
    if t == SIMPLE_BYTE || t == ERROR_BYTE {
        exists|text: String| #[trigger] encode_utf8(text@) == line_at(bytes, 1)
    } else if t == BULK_BYTE && bytes[1] == ERROR_BYTE {
        line_end(bytes, 1) == Some(3int) && bytes[2] == ONE_BYTE
    } else {
        true
    }
}

/// Whether `frame` is what the frame parser reads from the checked frame at
/// the start of `bytes`: the text of the line after `+` or `-`, the number
/// after `:`, null for `$-`, the bytes after a bulk length line, and for an
/// array, as many frames as its count line says.
pub open spec fn parsed_as(bytes: Seq<u8>, frame: Frame) -> bool {
    let t = bytes[0];
    if t == SIMPLE_BYTE {
        frame matches Frame::Simple(text) && encode_utf8(text@) == line_at(bytes, 1)
    } else if t == ERROR_BYTE {
        frame matches Frame::Error(text) && encode_utf8(text@) == line_at(bytes, 1)
    } else if t == INTEGER_BYTE {
        frame matches Frame::Integer(n) && decimal_at(bytes, 1) == Some(n)
    } else if t == BULK_BYTE && bytes[1] == ERROR_BYTE {
        frame is Null
    } else if t == BULK_BYTE {
        &&& frame matches Frame::Bulk(data)
        &&& line_end(bytes, 1) matches Some(e)
        &&& decimal_at(bytes, 1) matches Some(n)
        &&& data@ == bytes.subrange(e + 2, e + 2 + n)
    } else if t == ARRAY_BYTE {
        frame matches Frame::Array(items) && decimal_at(bytes, 1) matches Some(n) && items.len() == n
    } else {
        false
    }
}

/// What `mini_redis::Frame::check` finds at the start of `bytes`: the length
/// of the first complete frame, or why there is none.
pub uninterp spec fn spec_frame_check(bytes: Seq<u8>) -> Result<usize, FrameError>;

/// What `mini_redis::Frame::parse` reads from the start of `bytes`, converted
/// to a [`Frame`], or the message of its error.
pub uninterp spec fn spec_frame_parse(bytes: Seq<u8>) -> Result<Frame, String>;

/// Converts a frame of `mini_redis` into a [`Frame`], variant by variant and
/// element by element; nothing is claimed of it, and only the trusted
/// wrappers below call it.
#[verifier::external_body]
fn frame_from_resp(frame: RespFrame) -> Frame {
    match frame {
        RespFrame::Simple(s) => Frame::Simple(s),
        RespFrame::Error(s) => Frame::Error(s),
        RespFrame::Integer(n) => Frame::Integer(n),
        RespFrame::Bulk(b) => Frame::Bulk(b.to_vec()),
        RespFrame::Null => Frame::Null,
        RespFrame::Array(items) => Frame::Array(items.into_iter().map(frame_from_resp).collect()),
    }
}

/// Converts a [`Frame`] into a frame of `mini_redis`, variant by variant and
/// element by element; nothing is claimed of it, and only the trusted
/// wrappers of this crate call it.
#[verifier::external_body]
pub(crate) fn frame_to_resp(frame: Frame) -> RespFrame {
    match frame {
        Frame::Simple(s) => RespFrame::Simple(s),
        Frame::Error(s) => RespFrame::Error(s),
        Frame::Integer(n) => RespFrame::Integer(n),
        Frame::Bulk(b) => RespFrame::Bulk(b.into()),
        Frame::Null => RespFrame::Null,
        Frame::Array(items) => RespFrame::Array(items.into_iter().map(frame_to_resp).collect()),
    }
}

/// Whether a writable frame's payload holds no carriage return, so that the
/// line terminator written after it is the first one in its bytes.
pub open spec fn is_plain_line(frame: Frame) -> bool {
    match frame {
        Frame::Simple(s) => !encode_utf8(s@).contains(CR),
        Frame::Error(s) => !encode_utf8(s@).contains(CR),
        Frame::Null => true,
        _ => false,
    }
}

/// Whether `read` is what reading back the bytes of `written` gives: the
/// same kind of frame with the same text.
pub open spec fn reads_back(written: Frame, read: Frame) -> bool {
    match (written, read) {
        (Frame::Simple(a), Frame::Simple(b)) => a@ == b@,
        (Frame::Error(a), Frame::Error(b)) => a@ == b@,
        (Frame::Null, Frame::Null) => true,
        _ => false,
    }
}

/// Calls `mini_redis::Frame::check` on a cursor at the start of `bytes`.
/// Claimed: the outcome is [`spec_frame_check`] of the bytes; the check
/// succeeds exactly where its walk ([`walk_frame`]) ends after the first
/// frame, and the cursor is then where the walk ends; empty bytes are
/// incomplete
/// (`Frame::check` first reads one byte). The `requires` keeps out the
/// inputs on which `Frame::check` overflows a length or recurses too deep.
/// Which of its errors a failed check gives, incomplete or invalid, is not
/// stated beyond empty bytes.
#[verifier::external_body]
fn frame_check(bytes: &[u8]) -> (r: Result<usize, FrameError>)
    requires
        frame_input_ok(bytes@),
    ensures
        r == spec_frame_check(bytes@),
        r is Ok <==> walk_frame(bytes@, 0, 0) is Next,
        r matches Ok(n) ==> walk_frame(bytes@, 0, 0) == Walk::Next(n),
        bytes@.len() == 0 ==> r matches Err(FrameError::Incomplete),
{
    let mut cursor = Cursor::new(bytes);
    match RespFrame::check(&mut cursor) {
        Ok(()) => Ok(cursor.position() as usize),
        Err(mini_redis::frame::Error::Incomplete) => Err(FrameError::Incomplete),
        Err(e) => Err(FrameError::Invalid(e.to_string())),
    }
}

/// Calls `mini_redis::Frame::parse` on a cursor at the start of `bytes`,
/// which `Frame::check` has accepted. Claimed: the outcome is
/// [`spec_frame_parse`] of the bytes; a frame that it reads is the one
/// [`parsed_as`] describes (`Frame::parse` follows the same lines and
/// lengths as `Frame::check`); and a frame that is not an array is read
/// exactly when [`parse_succeeds`] holds (`String::from_utf8` of the line,
/// the line `-1` after `$`). Of an array, which elements are read, and
/// whether all of them are, is not stated.
#[verifier::external_body]
fn frame_parse(bytes: &[u8]) -> (r: Result<Frame, String>)
    requires
        frame_input_ok(bytes@),
        spec_frame_check(bytes@) is Ok,
    ensures
        r == spec_frame_parse(bytes@),
        r matches Ok(g) ==> parsed_as(bytes@, g),
        bytes@[0] != ARRAY_BYTE ==> (r is Ok <==> parse_succeeds(bytes@)),
{
    match RespFrame::parse(&mut Cursor::new(bytes)) {
        Ok(frame) => Ok(frame_from_resp(frame)),
        Err(e) => Err(e.to_string()),
    }
}

/// What decoding the start of `bytes` gives: a frame and the number of
/// bytes it takes, nothing yet (the frame is incomplete), or the message of
/// a protocol error.
pub open spec fn spec_decode(bytes: Seq<u8>) -> Result<Option<(Frame, usize)>, String> {
    match spec_frame_check(bytes) {
        Ok(n) => match spec_frame_parse(bytes) {
            Ok(frame) => Ok(Some((frame, n))),
            Err(e) => Err(e),
        },
        Err(FrameError::Incomplete) => Ok(None),
        Err(FrameError::Invalid(e)) => Err(e),
    }
}

/// Decoding is checking, then parsing: a frame that the checker finds
/// complete and the parser reads is decoded as that frame with the
/// checker's length, whatever its kind; nothing is decoded exactly when the
/// checker finds the frame incomplete; and each error of either is passed
/// on.
pub proof fn law_decode_is_check_then_parse(bytes: Seq<u8>)
    ensures
        spec_frame_check(bytes) matches Ok(n) ==> match spec_frame_parse(bytes) {
            Ok(g) => spec_decode(bytes) == Ok::<Option<(Frame, usize)>, String>(Some((g, n))),
            Err(e) => spec_decode(bytes) == Err::<Option<(Frame, usize)>, String>(e),
        },
        spec_decode(bytes) == Ok::<Option<(Frame, usize)>, String>(None) <==> spec_frame_check(bytes)
            == Err::<usize, FrameError>(FrameError::Incomplete),
        spec_frame_check(bytes) matches Err(FrameError::Invalid(e)) ==> spec_decode(bytes) == Err::<
            Option<(Frame, usize)>,
            String,
        >(e),
{
}

/// Decodes the frame at the start of `bytes`: the frame is first checked to
/// be complete, then parsed.
pub fn decode_frame(bytes: &[u8]) -> (r: Result<Option<(Frame, usize)>, String>)
    requires
        frame_input_ok(bytes@),
    ensures
        r == spec_decode(bytes@),
        r matches Ok(Some((_, n))) ==> 0 < n <= bytes@.len(),
        bytes@.len() == 0 ==> r == Ok::<Option<(Frame, usize)>, String>(None),
        r matches Ok(Some((_, n))) ==> walk_frame(bytes@, 0, 0) == Walk::Next(n),
        !(walk_frame(bytes@, 0, 0) is Next) ==> !(r matches Ok(Some(_))),
        r matches Ok(Some((g, _))) ==> parsed_as(bytes@, g),
        walk_frame(bytes@, 0, 0) matches Walk::Next(n) ==> match spec_frame_parse(bytes@) {
            Ok(g) => r == Ok::<Option<(Frame, usize)>, String>(Some((g, n))),
            Err(e) => r == Err::<Option<(Frame, usize)>, String>(e),
        },
        r == Ok::<Option<(Frame, usize)>, String>(None) ==> spec_frame_check(bytes@) == Err::<usize, FrameError>(
            FrameError::Incomplete,
        ),
        walk_frame(bytes@, 0, 0) is Next && bytes@[0] != ARRAY_BYTE ==> (r matches Ok(Some(_))
            <==> parse_succeeds(bytes@)),
        forall|f: Frame|
            is_plain_line(f) && #[trigger] spec_encode(f).is_prefix_of(bytes@) ==> (r matches Ok(
                Some((g, n)),
            ) && reads_back(f, g) && n == spec_encode(f).len()),
{
    let len: usize = bytes.len();
    proof {
        assert(bytes@.len() == len);
        lemma_walk_frame_moves_on(bytes@, 0, 0);
        assert forall|f: Frame| is_plain_line(f) && #[trigger] spec_encode(f).is_prefix_of(bytes@) implies walk_frame(
            bytes@,
            0,
            0,
        ) matches Walk::Next(n) && n == spec_encode(f).len() && bytes@[0] != ARRAY_BYTE && parse_succeeds(bytes@) && (forall|g: Frame|
            #[trigger] parsed_as(bytes@, g) ==> reads_back(f, g)) by {
            lemma_plain_line_walk(f, bytes@);
        }
    }
    match frame_check(bytes) {
        Ok(n) => match frame_parse(bytes) {
            Ok(frame) => Ok(Some((frame, n))),
            Err(e) => Err(e),
        },
        Err(FrameError::Incomplete) => Ok(None),
        Err(FrameError::Invalid(e)) => Err(e),
    }
}

} // verus!
