//! The uniform storage contract every backend honors.

use vstd::prelude::*;

use crate::error::KvsError;

verus! {

/// The engine interface: bind, read, drop.  `get` answers `None` for a key
/// that is not present; only `remove` treats absence as an error.
pub trait KvsEngine: Sized {
    /// Bind `key` to `value`.
    fn set(&mut self, key: String, value: String) -> Result<(), KvsError>;

    /// Read the value bound to `key`; `None` means not present.
    fn get(&self, key: String) -> Result<Option<String>, KvsError>;

    /// Drop `key`; a key that is not present is a `KeyNotFound` error.
    fn remove(&mut self, key: String) -> Result<(), KvsError>;
}

} // verus!

pub use crate::engine::sled::SledKvsEngine;

mod kvs;
mod sled;
