//! Inspection of Time Machine backups: decoding snapshot comparisons,
//! aggregating them into a size-attributed directory tree, naming snapshots,
//! and caching comparisons so that each one is computed at most once at a time.

pub mod text;
pub mod str_map;
pub mod path;
pub mod value;
pub mod error;
pub mod compare;
pub mod dir_map;
pub mod decode;
pub mod listbackups;
pub mod cmd;
pub mod cache;
pub mod destinationinfo;
