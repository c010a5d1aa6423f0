//! Core of a real-time scene renderer: growable, stably-indexed component
//! stores mirrored on a GPU buffer, sparse relation stores between them, a
//! scene graph that groups live nodes into sorted draw batches over a ring
//! instance pool, and the command pipeline that coalesces high-frequency
//! commands while keeping stateful ones strictly ordered.

pub mod bytes;
pub mod entity;
pub mod instance;
pub mod relation;
pub mod model_format;
pub mod pipeline;
pub mod records;
pub mod scene;
pub mod scene_format;
pub mod store;
