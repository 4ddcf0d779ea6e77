//! The alternate backend: a wrapping of the sled embedded database.  What
//! sled answers depends on what is on disk, so its calls promise nothing;
//! the verified part is the classification of every outcome, including the
//! mapping of a missing key on `remove` to `KeyNotFound`.

use vstd::prelude::*;

use crate::engine::KvsEngine;
use crate::error::{KvsError, KvsErrorKind};

verus! {

/// sled's database handle, declared so that it can stand in a field.
#[verifier::external_type_specification]
#[verifier::external_body]
pub struct ExSledDb(sled::Db);

/// sled's owned byte buffer, declared so that wrappers can hand it out.
#[verifier::external_type_specification]
#[verifier::external_body]
pub struct ExSledIVec(sled::IVec);

/// Relies on sled::open: open or create the database tree at the path.
#[verifier::external_body]
fn sled_open(path: &str) -> (r: Result<sled::Db, sled::Error>) {
    sled::open(path)
}

/// Relies on sled::Db::insert: bind the key to the value.
#[verifier::external_body]
fn sled_insert(db: &sled::Db, key: &str, value: &str) -> (r: Result<(), sled::Error>) {
    db.insert(key.as_bytes(), value.as_bytes()).map(|_| ())
}

/// Relies on sled::Db::get: the bytes bound to the key, if any.
#[verifier::external_body]
fn sled_get(db: &sled::Db, key: &str) -> (r: Result<Option<sled::IVec>, sled::Error>) {
    db.get(key.as_bytes())
}

/// Relies on sled::Db::contains_key: whether the key is bound.
#[verifier::external_body]
fn sled_contains(db: &sled::Db, key: &str) -> (r: Result<bool, sled::Error>) {
    db.contains_key(key.as_bytes())
}

/// Relies on sled::Db::remove: unbind the key.
#[verifier::external_body]
fn sled_remove(db: &sled::Db, key: &str) -> (r: Result<(), sled::Error>) {
    db.remove(key.as_bytes()).map(|_| ())
}

/// Relies on sled::Db::flush: write sled's buffers out.
#[verifier::external_body]
fn sled_flush(db: &sled::Db) -> (r: Result<(), sled::Error>) {
    db.flush().map(|_| ())
}

/// Relies on bstr's ByteSlice::to_str: the bytes read back as UTF-8 text,
/// or a UTF-8 error.
#[verifier::external_body]
fn ivec_to_string(v: &sled::IVec) -> (r: Result<String, bstr::Utf8Error>) {
    bstr::ByteSlice::to_str(v.as_ref()).map(|s| s.to_string())
}

/// Relies on sled::Db::clone: another handle to the same database.
#[verifier::external_body]
fn sled_db_clone(db: &sled::Db) -> (r: sled::Db) {
    db.clone()
}

/// Key-value store backed by sled.
pub struct SledKvsEngine(pub sled::Db);

impl Clone for SledKvsEngine {
    fn clone(&self) -> (r: Self) {
        SledKvsEngine(sled_db_clone(&self.0))
    }
}

impl SledKvsEngine {
    /// Open (or create) the sled database under `<path>/sled.store`.  Every
    /// failure sled reports is an `Engine` error.
    pub fn open(path: &str) -> (r: Result<SledKvsEngine, KvsError>)
        ensures
            r is Err ==> r->Err_0.kind is Engine,
    {
        let mut p = String::from_str(path);
        p.append("/sled.store");
        match sled_open(p.as_str()) {
            Ok(db) => Ok(SledKvsEngine(db)),
            Err(e) => Err(KvsError::from(e)),
        }
    }

    /// Write sled's buffers out, as a caller does before letting the engine
    /// go.
    pub fn flush(&self) -> (r: Result<(), KvsError>)
        ensures
            r is Err ==> r->Err_0.kind is Engine,
    {
        match sled_flush(&self.0) {
            Ok(u) => Ok(u),
            Err(e) => Err(KvsError::from(e)),
        }
    }
}

impl KvsEngine for SledKvsEngine {
    fn set(&mut self, key: String, value: String) -> (r: Result<(), KvsError>)
        ensures
            r is Err ==> r->Err_0.kind is Engine,
    {
        match sled_insert(&self.0, key.as_str(), value.as_str()) {
            Ok(u) => Ok(u),
            Err(e) => Err(KvsError::from(e)),
        }
    }

    fn get(&self, key: String) -> (r: Result<Option<String>, KvsError>)
        ensures
            r is Err ==> r->Err_0.kind is Engine || r->Err_0.kind is Encoding,
    {
        match sled_get(&self.0, key.as_str()) {
            Ok(None) => Ok(None),
            Ok(Some(v)) => match ivec_to_string(&v) {
                Ok(s) => Ok(Some(s)),
                Err(e) => Err(KvsError::from(e)),
            },
            Err(e) => Err(KvsError::from(e)),
        }
    }

    fn remove(&mut self, key: String) -> (r: Result<(), KvsError>)
        ensures
            r is Err ==> r->Err_0.kind is KeyNotFound || r->Err_0.kind is Engine,
    {
        match sled_contains(&self.0, key.as_str()) {
            Ok(false) => Err(KvsError::from(KvsErrorKind::KeyNotFound)),
            Ok(true) => match sled_remove(&self.0, key.as_str()) {
                Ok(u) => Ok(u),
                Err(e) => Err(KvsError::from(e)),
            },
            Err(e) => Err(KvsError::from(e)),
        }
    }
}

} // verus!
