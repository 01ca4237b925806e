//! An embedded in-process document store: semi-structured values are
//! appended to a storage backend and retrieved by structural queries.

pub mod db;
pub mod error;
pub mod laws;
pub mod query;
pub mod storage;
pub mod value;
