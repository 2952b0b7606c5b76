//! A verified model of a key-value storage adapter over a browser-embedded
//! transactional object store.
//!
//! The library holds the adapter's decisions and semantics: configuration
//! defaulting, the once-only connection-establishment state machine, the
//! record-space semantics of `get`/`set`/`delete`, and the prefix key
//! scanner. The asynchronous database calls themselves happen outside the
//! library, which tells the surrounding code what each operation must do
//! and what it may assume of the outcome.

pub mod backend;
pub mod config;
pub mod connection;
pub mod laws;
pub mod order;
pub mod scanner;
pub mod store;
