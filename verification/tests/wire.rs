//! End-to-end exchanges at the line level: the server's compute half on one
//! side, the client's interpretation on the other.

use kvs::client::{interpret_get_reply, interpret_reply};
use kvs::command::Response;
use kvs::kv::KvStore;
use kvs::server::respond;
use kvs::KvsErrorKind;

fn fresh() -> KvStore {
    KvStore::open(&Vec::new()).unwrap()
}

#[test]
fn set_get_remove_get_session() {
    let mut store = fresh();
    assert_eq!(respond(&mut store, "SET a 1\r\n"), "+\r\n");
    assert_eq!(respond(&mut store, "GET a\r\n"), "+1\r\n");
    assert_eq!(respond(&mut store, "REMOVE a\r\n"), "+\r\n");
    assert_eq!(respond(&mut store, "GET a\r\n"), "-KeyNotFound\r\n");
}

#[test]
fn remove_of_missing_key_answers_key_not_found() {
    let mut store = fresh();
    assert_eq!(respond(&mut store, "REMOVE missing\r\n"), "-KeyNotFound\r\n");
}

#[test]
fn last_write_survives_restart() {
    let mut store = fresh();
    assert_eq!(respond(&mut store, "SET x foo\r\n"), "+\r\n");
    assert_eq!(respond(&mut store, "SET x bar\r\n"), "+\r\n");
    let mut restarted = KvStore::open(&store.encoded_log()).unwrap();
    assert_eq!(respond(&mut restarted, "GET x\r\n"), "+bar\r\n");
}

#[test]
fn garbage_answers_invalid_argument() {
    let mut store = fresh();
    assert_eq!(respond(&mut store, "GARBAGE\r\n"), "-InvalidArgument\r\n");
}

#[test]
fn client_reads_a_value_line() {
    let reply = interpret_reply("+1\r\n").unwrap();
    assert_eq!(
        reply,
        Response::String {
            value: "1".to_string()
        }
    );
    let out = interpret_get_reply(Ok(reply)).unwrap();
    assert_eq!(out, Some("1".to_string()));
}

#[test]
fn client_turns_key_not_found_into_absence() {
    let reply = interpret_reply("-KeyNotFound\r\n");
    let e = reply.as_ref().unwrap_err();
    assert!(matches!(e.kind, KvsErrorKind::KeyNotFound));
    let out = interpret_get_reply(reply).unwrap();
    assert_eq!(out, None);
}

#[test]
fn client_keeps_other_failures() {
    let reply = interpret_reply("-Serde\r\n");
    let e = interpret_get_reply(reply).unwrap_err();
    assert!(matches!(e.kind, KvsErrorKind::Serde));
}

#[test]
fn client_marks_unreadable_tokens_as_parse() {
    let e = interpret_reply("-NotAKind\r\n").unwrap_err();
    assert!(matches!(e.kind, KvsErrorKind::Parse));
}

#[test]
fn client_marks_sigil_free_lines_as_wrong_format() {
    let e = interpret_reply("hello\r\n").unwrap_err();
    match e.kind {
        KvsErrorKind::WrongFormat(line) => assert_eq!(line, "hello\r\n"),
        other => panic!("expected WrongFormat, got {other:?}"),
    }
}

#[test]
fn client_rejects_an_error_reply_in_the_success_position() {
    let reply = Ok(Response::Error {
        message: "Serde".to_string(),
    });
    let e = interpret_get_reply(reply).unwrap_err();
    assert!(matches!(e.kind, KvsErrorKind::UnknownCommand(_)));
}
