//! Client-side logic for reading tables published over the Delta Sharing
//! protocol: the protocol's data model, request construction, response
//! framing, and the engine that keeps a local copy of a table's files in step
//! with the remote manifest.

pub mod protocol;
pub mod keyed;
pub mod json_map;
pub mod error;
pub mod responses;
pub mod store;
pub mod index;
pub mod sync;
pub mod endpoint;
