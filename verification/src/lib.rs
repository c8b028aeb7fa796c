//! Verified core of a calendar/event backend: the data model, the relational
//! store semantics (create, list, get, partial update, cascading delete), the
//! note and file-metadata operations, timestamp parsing, and the derivations
//! used for file storage names and download headers.
//!
//! Everything that touches the network, the filesystem or the process
//! environment lives outside this crate; it hands plain values in and takes
//! plain values back.

pub mod files;
pub mod ids;
pub mod models;
pub mod store;
pub mod time;
