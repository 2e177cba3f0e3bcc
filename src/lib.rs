//! Querying a SQLite database on a host reachable only over SSH.
//!
//! A request becomes SQL, the SQL travels base64-encoded inside a generated
//! script, the run of that script is a state machine whose actions the caller
//! performs, its compressed result decodes into typed rows, and a wide-table
//! request merges a device query and a command query into one row per
//! timestamp.

pub mod cell;
pub mod decode;
pub mod deploy;
pub mod encoding;
pub mod error;
pub mod export;
pub mod facade;
pub mod lookup;
pub mod runner;
pub mod script;
pub mod sql;
pub mod stream;
pub mod table;
pub mod text;
pub mod wide;
