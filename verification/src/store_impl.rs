//! The stores: three backends on different substrates, and the write-back
//! cache that wraps any of them.

pub mod helpers;
pub mod local_filesystem;
pub mod lru_order;
pub mod cache;
pub mod mapped_file;
pub mod sqlite;
