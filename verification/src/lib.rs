//! The execution history of heartbeat tasks: recording with bounded output
//! and bounded length, listing newest first, and counting by status.

pub mod error;
pub mod history;
pub mod laws;
pub mod location;
pub mod output;
pub mod row;
pub mod store;
pub mod text;
pub mod timestamp;

pub use error::StoreError;
pub use history::{History, Recorded};
pub use location::db_path;
pub use output::{truncate_output, MAX_OUTPUT_BYTES, TRUNCATED_MARKER};
pub use row::{decode_run, HeartbeatRun, RunRow};
pub use store::{list_runs, record_run, run_stats};
pub use timestamp::{parse_rfc3339, Timestamp};
