//! Protocol codec round trips and parse failures.

use kvs::command::{Request, Response};
use kvs::KvsErrorKind;

#[test]
fn get_request_from_to() {
    let input = "GET TEST\r\n";
    let to = Request::from_str(input).unwrap();
    let from = to.to_string();
    assert_eq!(input, from.as_str());
}

#[test]
fn set_request_from_to() {
    let input = "SET TEST 1\r\n";
    let to = Request::from_str(input).unwrap();
    let from = to.to_string();
    assert_eq!(input, from.as_str());
}

#[test]
fn remove_request_round_trip() {
    let input = "REMOVE TEST\r\n";
    let to = Request::from_str(input).unwrap();
    assert_eq!(
        to,
        Request::Remove {
            key: "TEST".to_string()
        }
    );
    assert_eq!(input, to.to_string().as_str());
}

#[test]
fn set_value_may_carry_spaces() {
    let to = Request::from_str("SET k a b c\r\n").unwrap();
    assert_eq!(
        to,
        Request::Put {
            key: "k".to_string(),
            value: "a b c".to_string()
        }
    );
    assert_eq!(to.to_string(), "SET k a b c\r\n");
}

#[test]
fn request_parse_failures_are_invalid_argument() {
    for line in [
        "GARBAGE\r\n",
        "GET\r\n",
        "GET \r\n",
        "SET k\r\n",
        "SET  v\r\n",
        "PUT k v\r\n",
        "\r\n",
        "",
    ] {
        let e = Request::from_str(line).unwrap_err();
        assert!(matches!(e.kind, KvsErrorKind::InvalidArgument), "{line:?}");
    }
}

#[test]
fn response_round_trips() {
    let ok = Response::String {
        value: "1".to_string(),
    };
    assert_eq!(ok.to_string(), "+1\r\n");
    assert_eq!(Response::from_str("+1\r\n").unwrap(), ok);

    let void = Response::String {
        value: String::new(),
    };
    assert_eq!(void.to_string(), "+\r\n");
    assert_eq!(Response::from_str("+\r\n").unwrap(), void);

    let err = Response::Error {
        message: "KeyNotFound".to_string(),
    };
    assert_eq!(err.to_string(), "-KeyNotFound\r\n");
    assert_eq!(Response::from_str("-KeyNotFound\r\n").unwrap(), err);
}

#[test]
fn response_with_leading_sigil_in_value_round_trips() {
    let resp = Response::String {
        value: "+x".to_string(),
    };
    let line = resp.to_string();
    assert_eq!(line, "++x\r\n");
    assert_eq!(Response::from_str(line.as_str()).unwrap(), resp);
}

#[test]
fn response_without_sigil_is_wrong_format() {
    let e = Response::from_str("1\r\n").unwrap_err();
    match e.kind {
        KvsErrorKind::WrongFormat(line) => assert_eq!(line, "1\r\n"),
        other => panic!("expected WrongFormat, got {other:?}"),
    }
    let e = Response::from_str("").unwrap_err();
    assert!(matches!(e.kind, KvsErrorKind::WrongFormat(_)));
}

#[test]
fn error_kind_names_round_trip() {
    for name in [
        "IO",
        "InvalidArgument",
        "KeyNotFound",
        "Serde",
        "UnknownCommand",
        "WrongFormat",
        "Index",
        "Engine",
        "Encoding",
        "Parse",
    ] {
        let kind = KvsErrorKind::from_str(name).unwrap();
        assert_eq!(kind.name().as_str(), name);
    }
    let e = KvsErrorKind::from_str("NoSuchKind").unwrap_err();
    assert!(matches!(e.kind, KvsErrorKind::Parse));
}
