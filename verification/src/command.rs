//! The line-oriented protocol codec: request and response frames, each one
//! `\r\n`-terminated line, together with spec-level format and parse
//! functions and round-trip proofs.

use vstd::prelude::*;

use crate::error::{KvsError, KvsErrorKind};
use crate::text::{find_char, lemma_spec_find_absent, lemma_spec_find_at, lemma_spec_find_first,
    spec_find, str_eq};

verus! {

/// A request frame: `GET <key>`, `SET <key> <value>` or `REMOVE <key>`.
#[derive(Debug, PartialEq, Eq)]
pub enum Request {
    /// Ask for the value of a key.
    Get { key: String },
    /// Bind a key to a value.
    Put { key: String, value: String },
    /// Drop a key.
    Remove { key: String },
}

/// The mathematical shape of a request: its fields as character sequences.
pub enum RequestModel {
    /// Ask for the value of a key.
    Get { key: Seq<char> },
    /// Bind a key to a value.
    Put { key: Seq<char>, value: Seq<char> },
    /// Drop a key.
    Remove { key: Seq<char> },
}

impl View for Request {
    type V = RequestModel;

    open spec fn view(&self) -> RequestModel {
        match self {
            Request::Get { key } => RequestModel::Get { key: key@ },
            Request::Put { key, value } => RequestModel::Put { key: key@, value: value@ },
            Request::Remove { key } => RequestModel::Remove { key: key@ },
        }
    }
}

/// A response frame: one line carrying a value on success or a classifier
/// token on failure.
#[derive(Debug, PartialEq, Eq)]
pub enum Response {
    /// Success, carrying a value (empty for void operations).
    String { value: String },
    /// Failure, carrying the wire name of an error kind.
    Error { message: String },
}

/// The mathematical shape of a response.
pub enum ResponseModel {
    /// Success, carrying a value.
    String { value: Seq<char> },
    /// Failure, carrying a classifier token.
    Error { message: Seq<char> },
}

impl View for Response {
    type V = ResponseModel;

    open spec fn view(&self) -> ResponseModel {
        match self {
            Response::String { value } => ResponseModel::String { value: value@ },
            Response::Error { message } => ResponseModel::Error { message: message@ },
        }
    }
}

/// Drop one trailing `\r\n`, if the line carries one.
pub open spec fn strip_crlf(s: Seq<char>) -> Seq<char> {
    if s.len() >= 2 && s[s.len() - 2] == '\r' && s[s.len() - 1] == '\n' {
        s.take(s.len() - 2)
    } else {
        s
    }
}

/// The text up to the first space: the whole of `s` when it has none.
pub open spec fn first_field(s: Seq<char>) -> Seq<char> {
    match spec_find(s, ' ') {
        None => s,
        Some(j) => s.take(j),
    }
}

/// The wire form of a request.
pub open spec fn spec_format_request(r: RequestModel) -> Seq<char> {
    match r {
        RequestModel::Get { key } => "GET "@ + key + "\r\n"@,
        RequestModel::Put { key, value } => "SET "@ + key + " "@ + value + "\r\n"@,
        RequestModel::Remove { key } => "REMOVE "@ + key + "\r\n"@,
    }
}

/// The wire form of a response.
pub open spec fn spec_format_response(r: ResponseModel) -> Seq<char> {
    match r {
        ResponseModel::String { value } => "+"@ + value + "\r\n"@,
        ResponseModel::Error { message } => "-"@ + message + "\r\n"@,
    }
}

/// How a request line is read: split on spaces after stripping the line
/// terminator; the verb decides how many fields are owed; empty keys are
/// rejected; a `SET` value is everything after the second space.
pub open spec fn spec_parse_request(s: Seq<char>) -> Option<RequestModel> {
    let t = strip_crlf(s);
    match spec_find(t, ' ') {
        None => None,
        Some(i) => {
            let verb = t.take(i);
            let rest = t.skip(i + 1);
            if verb == "GET"@ {
                let key = first_field(rest);
                if key.len() > 0 {
                    Some(RequestModel::Get { key })
                } else {
                    None
                }
            } else if verb == "SET"@ {
                match spec_find(rest, ' ') {
                    None => None,
                    Some(j) => {
                        let key = rest.take(j);
                        let value = rest.skip(j + 1);
                        if key.len() > 0 {
                            Some(RequestModel::Put { key, value })
                        } else {
                            None
                        }
                    },
                }
            } else if verb == "REMOVE"@ {
                let key = first_field(rest);
                if key.len() > 0 {
                    Some(RequestModel::Remove { key })
                } else {
                    None
                }
            } else {
                None
            }
        },
    }
}

/// How a response line is read: the first character classifies it, the rest
/// up to the line terminator is the payload.
pub open spec fn spec_parse_response(s: Seq<char>) -> Option<ResponseModel> {
    if s.len() == 0 {
        None
    } else if s[0] == '+' {
        Some(ResponseModel::String { value: strip_crlf(s).skip(1) })
    } else if s[0] == '-' {
        Some(ResponseModel::Error { message: strip_crlf(s).skip(1) })
    } else {
        None
    }
}

/// A key fit for the wire: nonempty and free of whitespace.
pub open spec fn valid_key(k: Seq<char>) -> bool {
    k.len() > 0 && forall|i: int|
        0 <= i < k.len() ==> k[i] != ' ' && k[i] != '\t' && k[i] != '\r' && k[i] != '\n'
}

/// A value fit for the wire: free of the line terminator.
pub open spec fn valid_value(v: Seq<char>) -> bool {
    forall|i: int| 0 <= i && i + 1 < v.len() ==> !(#[trigger] v[i] == '\r' && v[i + 1] == '\n')
}

/// A request whose fields fit the line protocol.
pub open spec fn valid_request(r: RequestModel) -> bool {
    match r {
        RequestModel::Get { key } => valid_key(key),
        RequestModel::Put { key, value } => valid_key(key) && valid_value(value),
        RequestModel::Remove { key } => valid_key(key),
    }
}

impl Request {
    /// Render the request as one protocol line.
    pub fn to_string(&self) -> (s: String)
        ensures
            s@ == spec_format_request(self@),
    {
        match self {
            Request::Get { key } => {
                let mut s = String::from_str("GET ");
                s.append(key.as_str());
                s.append("\r\n");
                s
            },
            Request::Put { key, value } => {
                let mut s = String::from_str("SET ");
                s.append(key.as_str());
                s.append(" ");
                s.append(value.as_str());
                s.append("\r\n");
                s
            },
            Request::Remove { key } => {
                let mut s = String::from_str("REMOVE ");
                s.append(key.as_str());
                s.append("\r\n");
                s
            },
        }
    }

    /// Read a request from one protocol line; any shortfall is an
    /// `InvalidArgument` error.
    pub fn from_str(s: &str) -> (r: Result<Request, KvsError>)
        ensures
            match r {
                Ok(req) => spec_parse_request(s@) == Some(req@),
                Err(e) => spec_parse_request(s@) is None && e.kind is InvalidArgument,
            },
    {
        let t = strip_line_end(s);
        let tn = t.unicode_len();
        match find_char(t, ' ') {
            None => Err(KvsError::from(KvsErrorKind::InvalidArgument)),
            Some(i) => {
                proof {
                    lemma_spec_find_first(t@, ' ');
                }
                let verb = t.substring_char(0, i);
                let rest = t.substring_char(i + 1, tn);
                if str_eq(verb, "GET") {
                    let key = take_first_field(rest);
                    if key.unicode_len() > 0 {
                        Ok(Request::Get { key: key.to_owned() })
                    } else {
                        Err(KvsError::from(KvsErrorKind::InvalidArgument))
                    }
                } else if str_eq(verb, "SET") {
                    match find_char(rest, ' ') {
                        None => Err(KvsError::from(KvsErrorKind::InvalidArgument)),
                        Some(j) => {
                            proof {
                                lemma_spec_find_first(rest@, ' ');
                            }
                            let rn = rest.unicode_len();
                            let key = rest.substring_char(0, j);
                            let value = rest.substring_char(j + 1, rn);
                            if key.unicode_len() > 0 {
                                Ok(Request::Put { key: key.to_owned(), value: value.to_owned() })
                            } else {
                                Err(KvsError::from(KvsErrorKind::InvalidArgument))
                            }
                        },
                    }
                } else if str_eq(verb, "REMOVE") {
                    let key = take_first_field(rest);
                    if key.unicode_len() > 0 {
                        Ok(Request::Remove { key: key.to_owned() })
                    } else {
                        Err(KvsError::from(KvsErrorKind::InvalidArgument))
                    }
                } else {
                    Err(KvsError::from(KvsErrorKind::InvalidArgument))
                }
            },
        }
    }
}

impl Response {
    /// Render the response as one protocol line.
    pub fn to_string(&self) -> (s: String)
        ensures
            s@ == spec_format_response(self@),
    {
        match self {
            Response::String { value } => {
                let mut s = String::from_str("+");
                s.append(value.as_str());
                s.append("\r\n");
                s
            },
            Response::Error { message } => {
                let mut s = String::from_str("-");
                s.append(message.as_str());
                s.append("\r\n");
                s
            },
        }
    }

    /// Read a response from one protocol line; an ill-formed line - empty,
    /// or led by neither sigil - is a `WrongFormat` error carrying the line.
    pub fn from_str(s: &str) -> (r: Result<Response, KvsError>)
        ensures
            match r {
                Ok(resp) => spec_parse_response(s@) == Some(resp@),
                Err(e) => spec_parse_response(s@) is None && e.kind is WrongFormat
                    && e.kind->WrongFormat_0@ == s@,
            },
    {
        let n = s.unicode_len();
        if n == 0 {
            return Err(KvsError::from(KvsErrorKind::WrongFormat(s.to_owned())));
        }
        let first = s.get_char(0);
        if first != '+' && first != '-' {
            return Err(KvsError::from(KvsErrorKind::WrongFormat(s.to_owned())));
        }
        let t = strip_line_end(s);
        let tn = t.unicode_len();
        proof {
            assert(t@.len() >= 1);
        }
        let payload = t.substring_char(1, tn).to_owned();
        if first == '+' {
            Ok(Response::String { value: payload })
        } else {
            Ok(Response::Error { message: payload })
        }
    }
}

/// Drop one trailing `\r\n` from a borrowed line, if it carries one.
fn strip_line_end<'a>(s: &'a str) -> (t: &'a str)
    ensures
        t@ == strip_crlf(s@),
{
    let n = s.unicode_len();
    if n >= 2 && s.get_char(n - 2) == '\r' && s.get_char(n - 1) == '\n' {
        s.substring_char(0, n - 2)
    } else {
        s
    }
}

/// Borrow the text up to the first space.
fn take_first_field<'a>(s: &'a str) -> (r: &'a str)
    ensures
        r@ == first_field(s@),
{
    match find_char(s, ' ') {
        None => s,
        Some(j) => {
            proof {
                lemma_spec_find_first(s@, ' ');
            }
            s.substring_char(0, j)
        },
    }
}

/// Round trip for requests: a valid request survives being rendered to its
/// line and read back.
pub proof fn lemma_request_round_trip(r: RequestModel)
    requires
        valid_request(r),
    ensures
        spec_parse_request(spec_format_request(r)) == Some(r),
{
    reveal_strlit("GET ");
    reveal_strlit("SET ");
    reveal_strlit("REMOVE ");
    reveal_strlit("GET");
    reveal_strlit("SET");
    reveal_strlit("REMOVE");
    reveal_strlit(" ");
    reveal_strlit("\r\n");
    match r {
        RequestModel::Get { key } => {
            let f = "GET "@ + key + "\r\n"@;
            assert(f[f.len() - 2] == '\r');
            assert(f[f.len() - 1] == '\n');
            let t = f.take(f.len() - 2);
            assert(t =~= "GET "@ + key);
            assert(t[3] == ' ');
            assert(forall|j: int| 0 <= j < 3 ==> t[j] != ' ');
            lemma_spec_find_at(t, ' ', 3);
            assert(t.take(3) =~= "GET"@);
            assert(t.skip(4) =~= key);
            lemma_spec_find_absent(key, ' ');
            assert(first_field(key) == key);
        },
        RequestModel::Put { key, value } => {
            let f = "SET "@ + key + " "@ + value + "\r\n"@;
            assert(f[f.len() - 2] == '\r');
            assert(f[f.len() - 1] == '\n');
            let t = f.take(f.len() - 2);
            assert(t =~= "SET "@ + key + " "@ + value);
            assert(t[3] == ' ');
            assert(forall|j: int| 0 <= j < 3 ==> t[j] != ' ');
            lemma_spec_find_at(t, ' ', 3);
            let verb = t.take(3);
            assert(verb =~= "SET"@);
            assert(verb != "GET"@) by {
                assert(verb[0] == 'S' && "GET"@[0] == 'G');
            }
            let rest = t.skip(4);
            assert(rest =~= key + " "@ + value);
            assert(rest[key.len() as int] == ' ');
            assert(forall|j: int| 0 <= j < key.len() ==> rest[j] == key[j]);
            lemma_spec_find_at(rest, ' ', key.len() as int);
            assert(rest.take(key.len() as int) =~= key);
            assert(rest.skip(key.len() as int + 1) =~= value);
        },
        RequestModel::Remove { key } => {
            let f = "REMOVE "@ + key + "\r\n"@;
            assert(f[f.len() - 2] == '\r');
            assert(f[f.len() - 1] == '\n');
            let t = f.take(f.len() - 2);
            assert(t =~= "REMOVE "@ + key);
            assert(t[6] == ' ');
            assert(forall|j: int| 0 <= j < 6 ==> t[j] != ' ');
            lemma_spec_find_at(t, ' ', 6);
            let verb = t.take(6);
            assert(verb =~= "REMOVE"@);
            assert(verb != "GET"@) by {
                assert(verb.len() == 6 && "GET"@.len() == 3);
            }
            assert(verb != "SET"@) by {
                assert(verb.len() == 6 && "SET"@.len() == 3);
            }
            assert(t.skip(7) =~= key);
            lemma_spec_find_absent(key, ' ');
            assert(first_field(key) == key);
        },
    }
}

/// Round trip for responses: every response survives being rendered to its
/// line and read back.
pub proof fn lemma_response_round_trip(r: ResponseModel)
    ensures
        spec_parse_response(spec_format_response(r)) == Some(r),
{
    reveal_strlit("+");
    reveal_strlit("-");
    reveal_strlit("\r\n");
    match r {
        ResponseModel::String { value } => {
            let f = "+"@ + value + "\r\n"@;
            assert(f[0] == '+');
            assert(f[f.len() - 2] == '\r');
            assert(f[f.len() - 1] == '\n');
            assert(strip_crlf(f).skip(1) =~= value);
        },
        ResponseModel::Error { message } => {
            let f = "-"@ + message + "\r\n"@;
            assert(f[0] == '-');
            assert(f[0] != '+');
            assert(f[f.len() - 2] == '\r');
            assert(f[f.len() - 1] == '\n');
            assert(strip_crlf(f).skip(1) =~= message);
        },
    }
}

} // verus!
