use tokio_mini_redis::command::{process_frame, Command, Db, ProcessError};
use tokio_mini_redis::frame::Frame;

fn bulk(s: &str) -> Frame {
    Frame::Bulk(s.as_bytes().to_vec())
}

fn command(parts: &[&str]) -> Frame {
    Frame::Array(parts.iter().map(|p| bulk(p)).collect())
}

#[test]
fn set_is_answered_ok() {
    let mut db = Db::new();
    assert_eq!(process_frame(&mut db, command(&["set", "foo", "bar"])), Ok(Frame::Simple("OK".to_string())));
}

#[test]
fn get_after_set_gives_value() {
    let mut db = Db::new();
    process_frame(&mut db, command(&["set", "foo", "bar"])).unwrap();
    assert_eq!(process_frame(&mut db, command(&["get", "foo"])), Ok(bulk("bar")));
}

#[test]
fn get_of_missing_key_is_null() {
    let mut db = Db::new();
    assert_eq!(process_frame(&mut db, command(&["get", "foo"])), Ok(Frame::Null));
}

#[test]
fn set_overwrites() {
    let mut db = Db::new();
    process_frame(&mut db, command(&["set", "k", "one"])).unwrap();
    process_frame(&mut db, command(&["set", "k", "two"])).unwrap();
    assert_eq!(process_frame(&mut db, command(&["get", "k"])), Ok(bulk("two")));
}

#[test]
fn set_keeps_other_keys() {
    let mut db = Db::new();
    process_frame(&mut db, command(&["set", "a", "1"])).unwrap();
    process_frame(&mut db, command(&["set", "b", "2"])).unwrap();
    assert_eq!(process_frame(&mut db, command(&["get", "a"])), Ok(bulk("1")));
    assert_eq!(process_frame(&mut db, command(&["get", "b"])), Ok(bulk("2")));
}

#[test]
fn command_names_ignore_case() {
    let mut db = Db::new();
    process_frame(&mut db, command(&["SET", "foo", "bar"])).unwrap();
    assert_eq!(process_frame(&mut db, command(&["GeT", "foo"])), Ok(bulk("bar")));
}

#[test]
fn set_with_expiry_stores_value() {
    let mut db = Db::new();
    assert_eq!(
        process_frame(&mut db, command(&["set", "foo", "bar", "EX", "10"])),
        Ok(Frame::Simple("OK".to_string()))
    );
    assert_eq!(process_frame(&mut db, command(&["get", "foo"])), Ok(bulk("bar")));
}

#[test]
fn unknown_command_is_unsupported() {
    let mut db = Db::new();
    assert!(matches!(
        process_frame(&mut db, command(&["ping"])),
        Err(ProcessError::Unsupported(Command::Other(text))) if text.starts_with("Unknown") && text.contains("ping")
    ));
}

#[test]
fn publish_is_unsupported() {
    let mut db = Db::new();
    assert!(matches!(
        process_frame(&mut db, command(&["publish", "chan", "msg"])),
        Err(ProcessError::Unsupported(Command::Other(text))) if text.starts_with("Publish") && text.contains("chan")
    ));
}

#[test]
fn subscribe_is_unsupported() {
    let mut db = Db::new();
    assert!(matches!(
        process_frame(&mut db, command(&["subscribe", "chan"])),
        Err(ProcessError::Unsupported(Command::Other(text))) if text.starts_with("Subscribe") && text.contains("chan")
    ));
}

#[test]
fn non_array_frame_is_malformed() {
    let mut db = Db::new();
    assert!(matches!(process_frame(&mut db, Frame::Simple("get".to_string())), Err(ProcessError::Malformed(_))));
}

#[test]
fn get_without_key_is_malformed() {
    let mut db = Db::new();
    assert!(matches!(process_frame(&mut db, command(&["get"])), Err(ProcessError::Malformed(_))));
}

#[test]
fn refused_frame_leaves_store() {
    let mut db = Db::new();
    process_frame(&mut db, command(&["set", "foo", "bar"])).unwrap();
    let _ = process_frame(&mut db, command(&["set", "foo"]));
    let _ = process_frame(&mut db, command(&["ping"]));
    assert_eq!(process_frame(&mut db, command(&["get", "foo"])), Ok(bulk("bar")));
}

#[test]
fn db_get_and_set() {
    let mut db = Db::new();
    assert_eq!(db.get(&"x".to_string()), None);
    db.set("x".to_string(), vec![1, 2, 3]);
    assert_eq!(db.get(&"x".to_string()), Some(&vec![1, 2, 3]));
    db.set("x".to_string(), vec![]);
    assert_eq!(db.get(&"x".to_string()), Some(&vec![]));
}

#[test]
fn apply_served_commands() {
    let mut db = Db::new();
    let set = Command::SetValue { key: "k".to_string(), value: b"v".to_vec(), expire_millis: None };
    assert_eq!(db.apply(set), Frame::Simple("OK".to_string()));
    assert_eq!(db.apply(Command::Get { key: "k".to_string() }), bulk("v"));
    assert_eq!(db.apply(Command::Get { key: "other".to_string() }), Frame::Null);
}

#[test]
fn stores_of_two_connections_are_separate() {
    let mut first = Db::new();
    let mut second = Db::new();
    process_frame(&mut first, command(&["set", "foo", "bar"])).unwrap();
    assert_eq!(process_frame(&mut second, command(&["get", "foo"])), Ok(Frame::Null));
    assert_eq!(process_frame(&mut first, command(&["get", "foo"])), Ok(bulk("bar")));
}

#[test]
fn shared_store_keeps_set_until_overwritten() {
    let shared = std::sync::Arc::new(std::sync::Mutex::new(Db::new()));
    let first = shared.clone();
    let second = shared.clone();
    process_frame(&mut first.lock().unwrap(), command(&["set", "k", "v1"])).unwrap();
    process_frame(&mut second.lock().unwrap(), command(&["set", "other", "x"])).unwrap();
    process_frame(&mut first.lock().unwrap(), command(&["get", "other"])).unwrap();
    assert_eq!(process_frame(&mut second.lock().unwrap(), command(&["get", "k"])), Ok(bulk("v1")));
    process_frame(&mut second.lock().unwrap(), command(&["set", "k", "v2"])).unwrap();
    assert_eq!(process_frame(&mut first.lock().unwrap(), command(&["get", "k"])), Ok(bulk("v2")));
}
