//! A host-metrics retention library: the snapshot data model, batch
//! consolidation into averaged records, a bounded in-memory ring history
//! of snapshots, a size-bounded two-file persistence log with a verified
//! line codec, the collection loop's state machine, and the text
//! sections of the dashboard.

pub mod codec;
pub mod codec_exec;
pub mod codec_objs;
pub mod collector;
pub mod consolidate;
pub mod error_context;
pub mod persist;
pub mod render;
pub mod stats;
pub mod stats_history;
