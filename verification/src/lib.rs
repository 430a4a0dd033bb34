//! Coordination of key-value backups: splitting a key range over regions,
//! driving the backup of each region, and summing table checksums.
//!
//! Every decision is made here and verified. Whatever touches an engine, a
//! storage backend, a clock or a channel is left to the caller, who performs the
//! actions this library asks for and hands the replies back.

pub mod checksum;
pub mod checksum_laws;
pub mod coverage;
pub mod endpoint;
pub mod endpoint_laws;
pub mod file_backup;
pub mod file_backup_laws;
pub mod file_name;
pub mod keys;
pub mod pool;
pub mod progress;
pub mod progress_laws;
pub mod range;
pub mod region;
pub mod response;
pub mod response_laws;
pub mod snapshot;
pub mod task;
pub mod task_laws;
pub mod worker;
pub mod worker_laws;
