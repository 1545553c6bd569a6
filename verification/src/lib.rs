//! Viewer cache building for Team Fortress 2 demos: the decisions that turn
//! decoded game snapshots into per-tick typed-array caches, the packing of
//! per-player metadata, the mapping of events onto the cached timeline, and
//! the decoding of Steam voice packets.

pub mod codes;
pub mod keys;
pub mod cache;
pub mod timeline;
pub mod snapshot;
pub mod users;
pub mod session;
pub mod events;
pub mod voice;
