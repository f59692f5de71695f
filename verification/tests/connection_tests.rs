use tokio_mini_redis::connection::{Connection, ConnectionError, ReadStep};
use tokio_mini_redis::frame::Frame;

#[test]
fn new_connection_is_ready_to_read() {
    let conn = Connection::new();
    assert!(conn.is_read_ready());
}

#[test]
fn new_connection_parses_nothing() {
    let mut conn = Connection::new();
    assert_eq!(conn.parse_frame(), Ok(None));
}

#[test]
fn new_connection_asks_for_no_bytes() {
    let mut conn = Connection::new();
    assert_eq!(conn.read_frame(), ReadStep::Read(0));
    assert_eq!(conn.read_target().len(), 0);
    assert_eq!(conn.read_frame(), ReadStep::Read(0));
}

#[test]
fn end_of_stream_on_empty_buffer_is_clean() {
    let mut conn = Connection::new();
    assert_eq!(conn.read_frame(), ReadStep::Read(0));
    assert_eq!(conn.on_read(0), Some(Ok(None)));
}

#[test]
fn reading_loop_ends_without_a_frame() {
    // The loop that drives a connection: with nothing buffered it asks for
    // zero bytes, a read into an empty slice gives zero, and reading ends.
    let mut conn = Connection::new();
    let outcome = loop {
        match conn.read_frame() {
            ReadStep::Done(r) => break r,
            ReadStep::Read(room) => {
                let n = conn.read_target().len().min(room);
                if let Some(r) = conn.on_read(n) {
                    break r;
                }
            }
        }
    };
    assert_eq!(outcome, Ok::<Option<Frame>, ConnectionError>(None));
}

#[test]
fn write_frame_bytes() {
    let conn = Connection::new();
    assert_eq!(conn.write_frame(&Frame::Simple("OK".to_string())), b"+OK\r\n".to_vec());
    assert_eq!(conn.write_frame(&Frame::Error("nope".to_string())), b"-nope\r\n".to_vec());
    assert_eq!(conn.write_frame(&Frame::Null), b"$-1\r\n".to_vec());
}
