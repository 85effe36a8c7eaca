//! A personal backup agent's job engine: backups are declared as pairs of a
//! client path and a server path, transferred once on demand or mirrored
//! continuously by a watch job.  This crate holds the verified core: job
//! identifiers and status, the running/failed registries, the elastic worker
//! pool bookkeeping, the watch-and-mirror and one-shot decision kernels, the
//! path algebra shared by both, and the backup catalog.  The unverifiable
//! surroundings (terminal menus, SSH/SFTP transport, filesystem watching,
//! process daemonisation) live outside and consume this crate through plain
//! values.

pub mod commands;
pub mod jobs;
pub mod menu;
pub mod models;
pub mod paths;
pub mod ssh;
pub mod storage;
