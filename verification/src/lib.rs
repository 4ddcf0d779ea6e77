//! A log-structured key-value store with a line-oriented network protocol.
//!
//! The storage core keeps an append-only sequence of commands together with
//! an in-memory index from keys to the ordinal of their latest `Set` record;
//! every operation is specified against a fold over that command log.

pub use engine::KvsEngine;
pub use engine::SledKvsEngine;
pub use error::KvsError;
pub use error::KvsErrorKind;
pub use kv::KvStore;

pub mod client;
pub mod command;
pub mod engine;
pub mod error;
pub mod kv;
pub mod server;
pub mod text;
pub mod thread_pool;
