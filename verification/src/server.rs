//! The server's decision core: turn one parsed request into one response by
//! one engine call, and one request line into one response line.  The
//! listener, the sockets and the worker pool around this live outside the
//! library; they hand lines in and send lines back.

use vstd::prelude::*;

use crate::command::{Request, Response, ResponseModel, spec_format_response, spec_parse_request};
use crate::engine::KvsEngine;
use crate::error::{KvsError, KvsErrorKind};

verus! {

/// Shape a read's outcome as the wire response: the carried value for a
/// hit, `KeyNotFound` for a miss, and the error's wire name for a failure.
pub fn render_get_outcome(r: Result<Option<String>, KvsError>) -> (resp: Response)
    ensures
        r matches Ok(Some(v)) ==> resp@ == (ResponseModel::String { value: v@ }),
        r is Ok && r->Ok_0 is None ==> resp@ == (ResponseModel::Error {
            message: "KeyNotFound"@,
        }),
        r matches Err(e) ==> resp@ == (ResponseModel::Error { message: e.kind.wire_name() }),
        resp matches Response::Error { message } ==> exists|k: KvsErrorKind|
            message@ == (#[trigger] k.wire_name()),
{
    match r {
        Ok(Some(value)) => Response::String { value },
        Ok(None) => {
            let kind = KvsErrorKind::KeyNotFound;
            let message = kind.name();
            proof {
                assert(message@ == kind.wire_name());
            }
            Response::Error { message }
        },
        Err(e) => {
            let message = e.name();
            proof {
                assert(message@ == e.kind.wire_name());
            }
            Response::Error { message }
        },
    }
}

/// Shape a write's or removal's outcome as the wire response: the empty
/// value for success, and the error's wire name for a failure.
pub fn render_write_outcome(r: Result<(), KvsError>) -> (resp: Response)
    ensures
        r is Ok ==> resp@ == (ResponseModel::String { value: Seq::<char>::empty() }),
        r matches Err(e) ==> resp@ == (ResponseModel::Error { message: e.kind.wire_name() }),
        resp matches Response::Error { message } ==> exists|k: KvsErrorKind|
            message@ == (#[trigger] k.wire_name()),
{
    match r {
        Ok(u) => Response::String { value: String::new() },
        Err(e) => {
            let message = e.name();
            proof {
                assert(message@ == e.kind.wire_name());
            }
            Response::Error { message }
        },
    }
}

/// Dispatch one request to the engine and render the outcome through the
/// contracted shaping functions above: a value line for a successful read,
/// an empty value line for a successful write or removal, `KeyNotFound` for
/// a read of an absent key, and the error's wire name otherwise.
pub fn process<E: KvsEngine>(engine: &mut E, request: Request) -> (resp: Response)
    ensures
        resp matches Response::String { value } ==> (request is Get || value@ == Seq::<
            char,
        >::empty()),
        resp matches Response::Error { message } ==> exists|k: KvsErrorKind|
            message@ == (#[trigger] k.wire_name()),
{
    match request {
        Request::Get { key } => render_get_outcome(engine.get(key)),
        Request::Put { key, value } => render_write_outcome(engine.set(key, value)),
        Request::Remove { key } => render_write_outcome(engine.remove(key)),
    }
}

/// The compute half of one connection: one request line in, one response
/// line out.  A line that does not parse is answered with
/// `-InvalidArgument\r\n`; every answer is a well-formed response line.
pub fn respond<E: KvsEngine>(engine: &mut E, line: &str) -> (out: String)
    ensures
        spec_parse_request(line@) is None ==> out@ == spec_format_response(
            ResponseModel::Error { message: "InvalidArgument"@ },
        ),
        exists|m: ResponseModel| out@ == spec_format_response(m),
{
    match Request::from_str(line) {
        Ok(request) => {
            let resp = process(engine, request);
            let out = resp.to_string();
            proof {
                assert(out@ == spec_format_response(resp@));
            }
            out
        },
        Err(e) => {
            let resp = Response::Error { message: e.name() };
            let out = resp.to_string();
            proof {
                assert(out@ == spec_format_response(resp@));
            }
            out
        },
    }
}

} // verus!
