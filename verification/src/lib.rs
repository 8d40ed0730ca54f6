//! Engine for a directory-based board-configuration tree: it assembles an
//! in-memory configuration from a snapshot of the managed JSON files, writes
//! the configuration back as a canonical multi-file layout, and renames a
//! board consistently across the index, the record list and the file plan.
//!
//! All filesystem access stays outside this crate: callers hand in a
//! [`store::FileStore`] snapshot and carry out the write and rename plans the
//! engine returns.

pub mod assemble;
pub mod codec;
pub mod json;
pub mod laws;
pub mod model;
pub mod rename;
pub mod store;
pub mod text;
pub mod write;

pub use json::JsonValue;
pub use model::{ADJConfig, AdjError, Board, BoardEntry, GeneralInfo, Measurement, Packet};
