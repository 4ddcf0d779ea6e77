//! The client's decision core: read one response line into an outcome, and
//! shape a `get` outcome the way callers see it.  Connecting, sending and
//! receiving live outside the library.

use vstd::prelude::*;

use crate::command::{Response, ResponseModel, spec_parse_response};
use crate::error::{KvsError, KvsErrorKind};

verus! {

/// Read one response line as the call's outcome: a `+` line is the carried
/// value; a `-` line names an error kind and becomes that failure, or a
/// `Parse` failure when the token names no kind; an ill-formed line is a
/// `WrongFormat` error carrying the line.
pub fn interpret_reply(line: &str) -> (r: Result<Response, KvsError>)
    ensures
        match spec_parse_response(line@) {
            None => r is Err && r->Err_0.kind is WrongFormat
                && r->Err_0.kind->WrongFormat_0@ == line@,
            Some(m) => match m {
                ResponseModel::String { value } => r is Ok && r->Ok_0@ == m,
                ResponseModel::Error { message } => r is Err && {
                    &&& (exists|k: KvsErrorKind| (#[trigger] k.wire_name()) == message)
                        ==> r->Err_0.kind.wire_name() == message
                    &&& !(exists|k: KvsErrorKind| (#[trigger] k.wire_name()) == message)
                        ==> r->Err_0.kind is Parse
                },
            },
        },
{
    match Response::from_str(line) {
        Ok(resp) => match resp {
            Response::Error { message } => match KvsErrorKind::from_str(message.as_str()) {
                Ok(kind) => Err(KvsError::from(kind)),
                Err(e) => Err(e),
            },
            other => Ok(other),
        },
        Err(e) => Err(e),
    }
}

/// Shape a reply as the outcome of a `get`: a `KeyNotFound` failure means
/// the key is absent and is no error; a carried value is the answer; an
/// error reply in the success position cannot be interpreted.
pub fn interpret_get_reply(reply: Result<Response, KvsError>) -> (r: Result<
    Option<String>,
    KvsError,
>)
    ensures
        reply matches Err(e) ==> {
            &&& e.kind is KeyNotFound ==> r is Ok && r->Ok_0 is None
            &&& !(e.kind is KeyNotFound) ==> r is Err && r->Err_0 == e
        },
        reply matches Ok(resp) ==> {
            &&& (resp matches Response::String { value } ==> r is Ok && r->Ok_0 == Some(value))
            &&& (resp is Error ==> r is Err && r->Err_0.kind is UnknownCommand)
        },
{
    match reply {
        Err(e) => {
            if e.is_key_not_found() {
                Ok(None)
            } else {
                Err(e)
            }
        },
        Ok(resp) => match resp {
            Response::String { value } => Ok(Some(value)),
            Response::Error { message } => {
                let rendered = Response::Error { message }.to_string();
                Err(KvsError::from(KvsErrorKind::UnknownCommand(rendered)))
            },
        },
    }
}

} // verus!
