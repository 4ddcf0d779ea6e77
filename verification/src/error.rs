//! The error taxonomy: a single classified kind, carried by every failure
//! the store, the codec, the server or the client reports.

use vstd::prelude::*;

use crate::text::str_eq;

verus! {

/// The classified failure kinds and their triggers.
#[derive(Debug, PartialEq, Eq)]
pub enum KvsErrorKind {
    /// A filesystem or socket error during normal operation.
    IO,
    /// A request line that fails to parse or is missing fields.
    InvalidArgument,
    /// `remove` or `get` on a key absent from the index.
    KeyNotFound,
    /// A JSON encode or decode failure on a log record.
    Serde,
    /// A response the client cannot interpret.
    UnknownCommand(String),
    /// An ill-formed response line received by the client.
    WrongFormat(String),
    /// The index points at a record that is not a `Set`: corruption.
    Index,
    /// A failure reported by an alternate storage backend.
    Engine,
    /// A bytes-to-UTF-8 failure from an alternate storage backend.
    Encoding,
    /// A failed conversion of a string to an error kind, on the client side.
    Parse,
}

impl KvsErrorKind {
    /// The wire name of the kind: its variant name, with any payload
    /// truncated away for transport.
    pub open spec fn wire_name(&self) -> Seq<char> {
        match self {
            KvsErrorKind::IO => "IO"@,
            KvsErrorKind::InvalidArgument => "InvalidArgument"@,
            KvsErrorKind::KeyNotFound => "KeyNotFound"@,
            KvsErrorKind::Serde => "Serde"@,
            KvsErrorKind::UnknownCommand(_) => "UnknownCommand"@,
            KvsErrorKind::WrongFormat(_) => "WrongFormat"@,
            KvsErrorKind::Index => "Index"@,
            KvsErrorKind::Engine => "Engine"@,
            KvsErrorKind::Encoding => "Encoding"@,
            KvsErrorKind::Parse => "Parse"@,
        }
    }

    /// Render the kind for transport: exactly the variant name.
    pub fn name(&self) -> (s: String)
        ensures
            s@ == self.wire_name(),
    {
        match self {
            KvsErrorKind::IO => String::from_str("IO"),
            KvsErrorKind::InvalidArgument => String::from_str("InvalidArgument"),
            KvsErrorKind::KeyNotFound => String::from_str("KeyNotFound"),
            KvsErrorKind::Serde => String::from_str("Serde"),
            KvsErrorKind::UnknownCommand(_) => String::from_str("UnknownCommand"),
            KvsErrorKind::WrongFormat(_) => String::from_str("WrongFormat"),
            KvsErrorKind::Index => String::from_str("Index"),
            KvsErrorKind::Engine => String::from_str("Engine"),
            KvsErrorKind::Encoding => String::from_str("Encoding"),
            KvsErrorKind::Parse => String::from_str("Parse"),
        }
    }
}

impl KvsErrorKind {
    /// Read a kind back from its wire name; any other token is a `Parse`
    /// error.  A payload-carrying kind comes back with an empty payload,
    /// since the wire carries only the variant name.
    pub fn from_str(s: &str) -> (r: Result<KvsErrorKind, KvsError>)
        ensures
            match r {
                Ok(k) => k.wire_name() == s@,
                Err(e) => e.kind is Parse && (forall|k: KvsErrorKind| k.wire_name() != s@),
            },
    {
        if str_eq(s, "IO") {
            Ok(KvsErrorKind::IO)
        } else if str_eq(s, "InvalidArgument") {
            Ok(KvsErrorKind::InvalidArgument)
        } else if str_eq(s, "KeyNotFound") {
            Ok(KvsErrorKind::KeyNotFound)
        } else if str_eq(s, "Serde") {
            Ok(KvsErrorKind::Serde)
        } else if str_eq(s, "UnknownCommand") {
            Ok(KvsErrorKind::UnknownCommand(String::new()))
        } else if str_eq(s, "WrongFormat") {
            Ok(KvsErrorKind::WrongFormat(String::new()))
        } else if str_eq(s, "Index") {
            Ok(KvsErrorKind::Index)
        } else if str_eq(s, "Engine") {
            Ok(KvsErrorKind::Engine)
        } else if str_eq(s, "Encoding") {
            Ok(KvsErrorKind::Encoding)
        } else if str_eq(s, "Parse") {
            Ok(KvsErrorKind::Parse)
        } else {
            proof {
                assert forall|k: KvsErrorKind| k.wire_name() != s@ by {
                    if k is IO {
                    } else if k is InvalidArgument {
                    } else if k is KeyNotFound {
                    } else if k is Serde {
                    } else if k is UnknownCommand {
                    } else if k is WrongFormat {
                    } else if k is Index {
                    } else if k is Engine {
                    } else if k is Encoding {
                    } else {
                    }
                }
            }
            Err(KvsError::from(KvsErrorKind::Parse))
        }
    }
}

/// An error: a classified kind, nothing more.
#[derive(Debug)]
pub struct KvsError {
    /// The classified kind of this failure.
    pub kind: KvsErrorKind,
}

impl KvsError {
    /// Whether this error reports a missing key.
    pub fn is_key_not_found(&self) -> (r: bool)
        ensures
            r == (self.kind is KeyNotFound),
    {
        match self.kind {
            KvsErrorKind::KeyNotFound => true,
            _ => false,
        }
    }

    /// Render the error for transport: the wire name of its kind.
    pub fn name(&self) -> (s: String)
        ensures
            s@ == self.kind.wire_name(),
    {
        self.kind.name()
    }
}

/// The error type of serde_json, declared so that trusted wrappers can
/// return it and verified code can classify it.
#[verifier::external_type_specification]
#[verifier::external_body]
pub struct ExSerdeJsonError(serde_json::Error);

/// The error type of sled, declared so that trusted wrappers can return it
/// and verified code can classify it.
#[verifier::external_type_specification]
#[verifier::external_body]
pub struct ExSledError(sled::Error);

/// The UTF-8 error type of bstr, declared so that trusted wrappers can
/// return it and verified code can classify it.
#[verifier::external_type_specification]
#[verifier::external_body]
pub struct ExBstrUtf8Error(bstr::Utf8Error);

impl From<KvsErrorKind> for KvsError {
    fn from(kind: KvsErrorKind) -> (e: Self) {
        Self { kind }
    }
}

impl vstd::std_specs::convert::FromSpecImpl<KvsErrorKind> for KvsError {
    open spec fn obeys_from_spec() -> bool {
        true
    }

    open spec fn from_spec(kind: KvsErrorKind) -> Self {
        KvsError { kind }
    }
}

impl From<serde_json::Error> for KvsError {
    fn from(_error: serde_json::Error) -> (e: Self) {
        Self { kind: KvsErrorKind::Serde }
    }
}

impl vstd::std_specs::convert::FromSpecImpl<serde_json::Error> for KvsError {
    open spec fn obeys_from_spec() -> bool {
        true
    }

    open spec fn from_spec(_error: serde_json::Error) -> Self {
        KvsError { kind: KvsErrorKind::Serde }
    }
}

impl From<sled::Error> for KvsError {
    fn from(_error: sled::Error) -> (e: Self) {
        Self { kind: KvsErrorKind::Engine }
    }
}

impl vstd::std_specs::convert::FromSpecImpl<sled::Error> for KvsError {
    open spec fn obeys_from_spec() -> bool {
        true
    }

    open spec fn from_spec(_error: sled::Error) -> Self {
        KvsError { kind: KvsErrorKind::Engine }
    }
}

impl From<rayon::ThreadPoolBuildError> for KvsError {
    fn from(_error: rayon::ThreadPoolBuildError) -> (e: Self) {
        Self { kind: KvsErrorKind::Engine }
    }
}

impl vstd::std_specs::convert::FromSpecImpl<rayon::ThreadPoolBuildError> for KvsError {
    open spec fn obeys_from_spec() -> bool {
        true
    }

    open spec fn from_spec(_error: rayon::ThreadPoolBuildError) -> Self {
        KvsError { kind: KvsErrorKind::Engine }
    }
}

impl From<bstr::Utf8Error> for KvsError {
    fn from(_error: bstr::Utf8Error) -> (e: Self) {
        Self { kind: KvsErrorKind::Encoding }
    }
}

impl vstd::std_specs::convert::FromSpecImpl<bstr::Utf8Error> for KvsError {
    open spec fn obeys_from_spec() -> bool {
        true
    }

    open spec fn from_spec(_error: bstr::Utf8Error) -> Self {
        KvsError { kind: KvsErrorKind::Encoding }
    }
}

} // verus!
